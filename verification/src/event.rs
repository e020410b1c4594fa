//! Debounced filesystem events, and which of their paths are worth sorting.

use crate::path::{models, FsPath, PathModel};
use vstd::prelude::*;

verus! {

/// How a rename was observed.
#[derive(Debug, Clone, Copy, PartialEq, Eq, Structural)]
pub enum RenameMode {
    Any,
    /// Only the new name is known.
    To,
    /// Only the old name is known.
    From,
    /// Old and new name come together, old first.
    Both,
    Other,
}

/// What changed about an entry that was already there.
#[derive(Debug, Clone, Copy, PartialEq, Eq, Structural)]
pub enum ModifyKind {
    Any,
    Data,
    Metadata,
    Name(RenameMode),
    Other,
}

/// What happened to the paths of an event.
#[derive(Debug, Clone, Copy, PartialEq, Eq, Structural)]
pub enum EventKind {
    Any,
    Access,
    Create,
    Modify(ModifyKind),
    Remove,
    Other,
}

/// One event of a batch, as the proofs see it.
pub struct EventModel {
    pub kind: EventKind,
    pub paths: Seq<PathModel>,
}

/// One event of a batch.
#[derive(Debug, Clone)]
pub struct RawEvent {
    pub kind: EventKind,
    pub paths: Vec<FsPath>,
}

impl View for RawEvent {
    type V = EventModel;

    open spec fn view(&self) -> EventModel {
        EventModel { kind: self.kind, paths: models(self.paths@) }
    }
}

/// The events of a batch, as the proofs see them.
pub open spec fn event_models(events: Seq<RawEvent>) -> Seq<EventModel> {
    events.map_values(|e: RawEvent| e@)
}

/// The paths at the odd places of `paths`: the second, the fourth, and so on.
pub open spec fn destinations(paths: Seq<PathModel>) -> Seq<PathModel> {
    Seq::new(paths.len() / 2, |i: int| paths[2 * i + 1])
}

impl EventModel {
    /// The paths of the event that may need sorting, in order: every path of
    /// a creation; of a rename that carries both names, each new name; none
    /// otherwise.
    pub open spec fn candidates(self) -> Seq<PathModel> {
        match self.kind {
            EventKind::Create => self.paths,
            EventKind::Modify(ModifyKind::Name(RenameMode::Both)) => destinations(self.paths),
            _ => Seq::empty(),
        }
    }
}

/// The candidates of all `events`, in the order of the batch.
pub open spec fn batch_candidates(events: Seq<EventModel>) -> Seq<PathModel>
    decreases events.len(),
{
    if events.len() == 0 {
        Seq::empty()
    } else {
        batch_candidates(events.drop_last()) + events.last().candidates()
    }
}

impl RawEvent {
    /// Adds the candidates of this event to `out`, in order.
    pub fn collect(&self, out: &mut Vec<FsPath>)
        ensures
            models(final(out)@) == models(old(out)@) + self@.candidates(),
    {
        let ghost before = models(out@);
        let ghost wanted = self@.candidates();
        let paired = match self.kind {
            EventKind::Create => false,
            EventKind::Modify(ModifyKind::Name(RenameMode::Both)) => true,
            _ => {
                assert(models(out@) =~= before + wanted);
                return ;
            },
        };
        let count = if paired { self.paths.len() / 2 } else { self.paths.len() };
        let mut taken: usize = 0;
        while taken < count
            invariant
                taken <= count,
                count == wanted.len(),
                paired ==> count == self.paths.len() / 2 && wanted == destinations(
                    models(self.paths@),
                ),
                !paired ==> count == self.paths.len() && wanted == models(self.paths@),
                models(out@) == before + wanted.take(taken as int),
            decreases count - taken,
        {
            let ghost sofar = models(out@);
            let i = if paired { 2 * taken + 1 } else { taken };
            assert(wanted[taken as int] == self.paths@[i as int]@);
            out.push(self.paths[i].clone());
            assert(models(out@) =~= sofar.push(wanted[taken as int]));
            assert(wanted.take(taken + 1) =~= wanted.take(taken as int).push(wanted[taken as int]));
            assert(models(out@) =~= before + wanted.take(taken + 1));
            taken += 1;
        }
        assert(wanted.take(wanted.len() as int) =~= wanted);
    }

    /// The paths of this event that may need sorting.
    pub fn candidates(&self) -> (r: Vec<FsPath>)
        ensures
            models(r@) == self@.candidates(),
    {
        let mut out: Vec<FsPath> = Vec::new();
        self.collect(&mut out);
        assert(models(out@) =~= self@.candidates());
        out
    }
}

/// The candidates of a whole batch, in the order in which they are handled.
pub fn candidates(events: &Vec<RawEvent>) -> (r: Vec<FsPath>)
    ensures
        models(r@) == batch_candidates(event_models(events@)),
{
    let mut out: Vec<FsPath> = Vec::new();
    let mut i: usize = 0;
    while i < events.len()
        invariant
            i <= events.len(),
            models(out@) == batch_candidates(event_models(events@).take(i as int)),
        decreases events.len() - i,
    {
        let ghost next = event_models(events@).take(i + 1);
        assert(next.drop_last() =~= event_models(events@).take(i as int));
        assert(next.last() == events@[i as int]@);
        events[i].collect(&mut out);
        i += 1;
    }
    assert(event_models(events@).take(events@.len() as int) =~= event_models(events@));
    out
}

} // verus!
