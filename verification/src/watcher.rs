//! The watcher: what it knows, what it waits for, and how it reacts.
//!
//! The watcher does no work on the outside world. It says what is to be done
//! next (subscribe to the roots, wait for a batch, look paths up on disk, call
//! the sorting engine) and is told how that went. Whoever drives it carries
//! out each action and hands the answer to `watchloop`; candidates of a batch
//! are dealt with one after the other, in the order of the batch, so that what
//! one sort puts down is known before the next candidate is judged.

use crate::config::{Config, ConfigModel};
use crate::error::{Error, ErrorModel};
use crate::event::{
    batch_candidates, candidates, event_models, EventKind, EventModel, RawEvent,
};
use crate::ignore::{
    consumed, guarded, law_probe_suffices, lemma_matching, lemma_produced_all, probe_targets,
    produced, produced_all, suppressed, IgnoreSet,
};
use crate::path::{copy_paths, models, opt_model, FsPath, PathModel};
use crate::roots::{
    lemma_find_root, lemma_root_library_configured, lemma_roots_of, RootIndex, RootsModel,
};
use crate::snapshot::{kind_in, EntryKind, Snapshot};
use crate::sorting::{OutcomeModel, RequestModel, SortOutcome, SortRequest, Summary};
use vstd::prelude::*;

verus! {

/// Where the watcher stands.
#[derive(Debug, Clone, Copy, PartialEq, Eq, Structural)]
pub enum Phase {
    /// Not started, or nothing to watch.
    Idle,
    /// The subscription to the roots was asked for.
    Subscribed,
    /// Batches are taken and dealt with.
    Running,
}

/// What the watcher is told, as the proofs see it.
pub enum InputModel {
    Subscribed,
    Refused,
    Batch(Seq<EventModel>),
    Lost,
    Closed,
    Probed(Map<PathModel, EntryKind>),
    Sorted(OutcomeModel),
    Failed,
}

/// What the watcher is told: the answer to the action it asked for.
#[derive(Debug)]
pub enum Input {
    /// Every root is subscribed to.
    Subscribed,
    /// The subscription to one of the roots failed.
    Refused,
    /// A batch of events arrived.
    Batch(Vec<RawEvent>),
    /// The event source reported an error in place of a batch.
    Lost,
    /// The event source is closed: no batch will come any more.
    Closed,
    /// The paths asked about were looked up.
    Probed(Snapshot),
    /// The engine sorted what it was asked to.
    Sorted(SortOutcome),
    /// The engine failed.
    Failed,
}

impl View for Input {
    type V = InputModel;

    open spec fn view(&self) -> InputModel {
        match *self {
            Input::Subscribed => InputModel::Subscribed,
            Input::Refused => InputModel::Refused,
            Input::Batch(events) => InputModel::Batch(event_models(events@)),
            Input::Lost => InputModel::Lost,
            Input::Closed => InputModel::Closed,
            Input::Probed(seen) => InputModel::Probed(seen@),
            Input::Sorted(outcome) => InputModel::Sorted(outcome@),
            Input::Failed => InputModel::Failed,
        }
    }
}

/// What the watcher asks for, as the proofs see it.
pub enum ActionModel {
    Finish,
    Abort,
    Subscribe { every: u64, roots: Seq<PathModel> },
    Await,
    Probe(Seq<PathModel>),
    Sort(RequestModel),
}

/// What the watcher asks for next.
#[derive(Debug, PartialEq, Eq)]
pub enum Action {
    /// Nothing is watched, or nothing will be reported any more: end with
    /// success.
    Finish,
    /// The roots cannot be watched: end with the failure of the subscription.
    Abort,
    /// Subscribe to each of `roots` and everything below, gathering events
    /// over `every` seconds; answer with `Input::Subscribed`, or with
    /// `Input::Refused` as soon as one root cannot be subscribed to.
    Subscribe { every: u64, roots: Vec<FsPath> },
    /// Wait for the next batch; answer with `Input::Batch`, with `Input::Lost`
    /// or, when the source is closed, with `Input::Closed`.
    Await,
    /// Look these paths up on disk; answer with `Input::Probed`.
    Probe(Vec<FsPath>),
    /// Call the engine; answer with `Input::Sorted` or `Input::Failed`.
    Sort(SortRequest),
}

impl View for Action {
    type V = ActionModel;

    open spec fn view(&self) -> ActionModel {
        match *self {
            Action::Finish => ActionModel::Finish,
            Action::Abort => ActionModel::Abort,
            Action::Subscribe { every, roots } => ActionModel::Subscribe {
                every,
                roots: models(roots@),
            },
            Action::Await => ActionModel::Await,
            Action::Probe(paths) => ActionModel::Probe(models(paths@)),
            Action::Sort(request) => ActionModel::Sort(request@),
        }
    }
}

/// What came of an input, as the proofs see it.
pub enum NoteModel {
    Quiet,
    Suppressed(PathModel),
    Rejected(ErrorModel),
    Done { summary: Summary, fault: Option<ErrorModel> },
}

/// What came of an input, for the log.
#[derive(Debug, PartialEq, Eq)]
pub enum Note {
    /// Nothing worth a line.
    Quiet,
    /// The event for this path reported the watcher's own work and was dropped.
    Suppressed(FsPath),
    /// The candidate was given up before the engine was called.
    Rejected(Error),
    /// The engine succeeded with these counts. `fault` is set if a destination
    /// could not be put down; those after it were not put down either.
    Done { summary: Summary, fault: Option<Error> },
}

/// The failure that `fault` holds, if any, as the proofs see it.
pub open spec fn fault_model(fault: Option<Error>) -> Option<ErrorModel> {
    match fault {
        Some(e) => Some(e@),
        None => None,
    }
}

impl View for Note {
    type V = NoteModel;

    open spec fn view(&self) -> NoteModel {
        match *self {
            Note::Quiet => NoteModel::Quiet,
            Note::Suppressed(path) => NoteModel::Suppressed(path@),
            Note::Rejected(e) => NoteModel::Rejected(e@),
            Note::Done { summary, fault } => NoteModel::Done { summary, fault: fault_model(fault) },
        }
    }
}

/// The watcher's answer to one input.
#[derive(Debug, PartialEq, Eq)]
pub struct Step {
    /// What came of the input.
    pub note: Note,
    /// What is to be done next.
    pub action: Action,
}

/// The plan for a candidate, as the proofs see it.
pub open spec fn plan_model(plan: Result<SortRequest, Error>) -> Result<RequestModel, ErrorModel> {
    match plan {
        Ok(request) => Ok(request@),
        Err(e) => Err(e@),
    }
}

/// The watcher, as the proofs see it.
pub struct WatcherModel {
    pub config: ConfigModel,
    pub roots: RootsModel,
    /// The destinations put down and not yet reported back.
    pub ignore: Set<PathModel>,
    pub phase: Phase,
    /// The candidates of the current batch that are not dealt with yet.
    pub queue: Seq<PathModel>,
    /// The call of the engine that is under way.
    pub current: Option<RequestModel>,
}

impl WatcherModel {
    /// Whether the watcher is in order: its roots are those that its
    /// configuration asks for, and finitely many destinations are put down.
    /// Every watcher that this module makes is, and stays so.
    pub open spec fn wf(self) -> bool {
        &&& self.roots == RootsModel::of(self.config)
        &&& self.ignore.finite()
    }

    /// The watcher as it is made from `config`.
    pub open spec fn fresh(config: ConfigModel) -> WatcherModel {
        WatcherModel {
            config,
            roots: RootsModel::of(config),
            ignore: Set::empty(),
            phase: Phase::Idle,
            queue: Seq::empty(),
            current: None,
        }
    }

    /// The watcher after it was started: with roots to watch it asks for the
    /// subscription, without it stays idle.
    pub open spec fn started(self) -> WatcherModel {
        if self.phase == Phase::Idle && self.roots.listed.len() > 0 {
            WatcherModel { phase: Phase::Subscribed, ..self }
        } else {
            self
        }
    }

    /// What the watcher waits for.
    pub open spec fn pending(self) -> ActionModel {
        match self.phase {
            Phase::Idle => if self.roots.listed.len() == 0 {
                ActionModel::Finish
            } else {
                ActionModel::Subscribe { every: self.config.interval(), roots: self.roots.listed }
            },
            Phase::Subscribed => ActionModel::Subscribe {
                every: self.config.interval(),
                roots: self.roots.listed,
            },
            Phase::Running => match self.current {
                Some(request) => ActionModel::Sort(request),
                None => if self.queue.len() > 0 {
                    ActionModel::Probe(probe_targets(self.ignore, self.queue[0]))
                } else {
                    ActionModel::Await
                },
            },
        }
    }

    /// How `path` is to be sorted, given what `seen` found on disk: under its
    /// nearest watched root, with the options of that root's library as the
    /// watcher uses them, as a directory if it is one and as a file otherwise.
    /// A path under no root is refused.
    pub open spec fn plan(self, path: PathModel, seen: Map<PathModel, EntryKind>) -> Result<
        RequestModel,
        ErrorModel,
    >
        recommends
            self.wf(),
    {
        match self.roots.find_root(path) {
            None => Err(ErrorModel::InvalidRoot { path: path.text() }),
            Some(root) => Ok(
                RequestModel {
                    folder: kind_in(seen, path) == EntryKind::Directory,
                    root,
                    path,
                    options: self.config.library(
                        self.roots.library[root],
                    ).unwrap().options.for_watch(),
                },
            ),
        }
    }

    /// The watcher after the engine reported `outcome` for a sort under
    /// `root`, and what is noted: every destination is put down, in order, up
    /// to the first that has no parent, which is the fault.
    pub open spec fn settled(self, root: PathModel, outcome: OutcomeModel) -> (
        WatcherModel,
        NoteModel,
    ) {
        let (ignore, stuck) = produced_all(self.ignore, outcome.new_paths(), root);
        (
            WatcherModel { ignore, current: None, ..self },
            NoteModel::Done {
                summary: outcome.summary(),
                fault: match stuck {
                    Some(i) => Some(
                        ErrorModel::InvalidParent { child: outcome.new_paths()[i].text() },
                    ),
                    None => None,
                },
            },
        )
    }

    /// The watcher after it judged the first candidate of the queue, given
    /// what `seen` found on disk, and what is noted. An event that reports the
    /// watcher's own work is dropped and the entry that matched taken out; any
    /// other candidate is planned, and either handed to the engine or refused.
    pub open spec fn judged(self, seen: Map<PathModel, EntryKind>) -> (WatcherModel, NoteModel) {
        let path = self.queue[0];
        let rest = self.queue.drop_first();
        if suppressed(self.ignore, seen, path) {
            (
                WatcherModel { ignore: consumed(self.ignore, seen, path), queue: rest, ..self },
                NoteModel::Suppressed(path),
            )
        } else {
            match self.plan(path, seen) {
                Ok(request) => (
                    WatcherModel { queue: rest, current: Some(request), ..self },
                    NoteModel::Quiet,
                ),
                Err(e) => (WatcherModel { queue: rest, ..self }, NoteModel::Rejected(e)),
            }
        }
    }

    /// The watcher after `input`, and what is noted. An input that does not
    /// answer what the watcher waits for changes nothing. A subscription that
    /// failed and a source that is closed leave the watcher idle.
    pub open spec fn step(self, input: InputModel) -> (WatcherModel, NoteModel) {
        match self.phase {
            Phase::Idle => (self.started(), NoteModel::Quiet),
            Phase::Subscribed => match input {
                InputModel::Subscribed => (
                    WatcherModel { phase: Phase::Running, ..self },
                    NoteModel::Quiet,
                ),
                InputModel::Refused => (
                    WatcherModel { phase: Phase::Idle, ..self },
                    NoteModel::Quiet,
                ),
                _ => (self, NoteModel::Quiet),
            },
            Phase::Running => match self.current {
                Some(request) => match input {
                    InputModel::Sorted(outcome) => self.settled(request.root, outcome),
                    InputModel::Failed => (WatcherModel { current: None, ..self }, NoteModel::Quiet),
                    _ => (self, NoteModel::Quiet),
                },
                None => if self.queue.len() > 0 {
                    match input {
                        InputModel::Probed(seen) => self.judged(seen),
                        _ => (self, NoteModel::Quiet),
                    }
                } else {
                    match input {
                        InputModel::Batch(events) => (
                            WatcherModel { queue: batch_candidates(events), ..self },
                            NoteModel::Quiet,
                        ),
                        InputModel::Closed => (
                            WatcherModel { phase: Phase::Idle, ..self },
                            NoteModel::Quiet,
                        ),
                        _ => (self, NoteModel::Quiet),
                    }
                },
            },
        }
    }

    /// What the watcher asks for in answer to `input`: the end with a failure
    /// when the subscription failed, the end when the source is closed while
    /// a batch is waited for, and else what it waits for after `input`.
    pub open spec fn reaction(self, input: InputModel) -> ActionModel {
        if self.phase == Phase::Subscribed && input is Refused {
            ActionModel::Abort
        } else if self.pending() is Await && input is Closed {
            ActionModel::Finish
        } else {
            self.step(input).0.pending()
        }
    }
}

/// What the watcher has moved is not sorted a second time. Take a watcher
/// that waits for the engine with no candidate left, an outcome in which the
/// destination at `which` and all before it have a parent, and the event path
/// `reported`: that destination, resolved against the root of the sort, or
/// its parent, unless that is the root. If `reported` is still on disk, or an
/// entry above it is a directory, then after the outcome and a batch that
/// holds a creation of `reported`, the lookup makes the watcher drop the
/// event, take the entry that matched out (the own entry of `reported`, if
/// that is still on disk) and wait for the next batch.
pub proof fn law_no_second_dispatch(
    watcher: WatcherModel,
    outcome: OutcomeModel,
    which: int,
    reported: PathModel,
    seen: Map<PathModel, EntryKind>,
)
    requires
        watcher.phase == Phase::Running,
        watcher.current.is_some(),
        watcher.queue.len() == 0,
        0 <= which < outcome.new_paths().len(),
        forall|i: int| 0 <= i <= which ==> (#[trigger] outcome.new_paths()[i]).parent().is_some(),
        reported == watcher.current.unwrap().root.join(outcome.new_paths()[which]) || (reported
            == outcome.new_paths()[which].parent().unwrap() && reported
            != watcher.current.unwrap().root),
        kind_in(seen, reported) != EntryKind::Missing || guarded(
            produced_all(watcher.ignore, outcome.new_paths(), watcher.current.unwrap().root).0,
            seen,
            reported,
        ),
    ensures
        ({
            let created = EventModel { kind: EventKind::Create, paths: seq![reported] };
            let sorted = watcher.step(InputModel::Sorted(outcome)).0;
            let batched = sorted.step(InputModel::Batch(seq![created])).0;
            let (judged, note) = batched.step(InputModel::Probed(seen));
            &&& watcher.reaction(InputModel::Sorted(outcome)) == ActionModel::Await
            &&& sorted.reaction(InputModel::Batch(seq![created])) == ActionModel::Probe(
                probe_targets(sorted.ignore, reported),
            )
            &&& note == NoteModel::Suppressed(reported)
            &&& batched.reaction(InputModel::Probed(seen)) == ActionModel::Await
            &&& judged.ignore == consumed(sorted.ignore, seen, reported)
            &&& kind_in(seen, reported) != EntryKind::Missing ==> judged.ignore
                == sorted.ignore.remove(reported)
        }),
{
    let root = watcher.current.unwrap().root;
    let created = EventModel { kind: EventKind::Create, paths: seq![reported] };
    let sorted = watcher.step(InputModel::Sorted(outcome)).0;
    lemma_produced_all(watcher.ignore, outcome.new_paths(), root, which);
    assert(sorted.ignore.contains(reported));
    assert(seq![created].drop_last() =~= Seq::<EventModel>::empty());
    assert(batch_candidates(seq![created].drop_last()) =~= Seq::<PathModel>::empty());
    assert(batch_candidates(seq![created]) =~= seq![reported]);
    let batched = sorted.step(InputModel::Batch(seq![created])).0;
    assert(batched.queue[0] == reported);
    assert(reported.names.take(reported.names.len() as int) =~= reported.names);
    assert(reported.within(reported));
    assert(reported.ancestor(0) == reported);
    assert(suppressed(batched.ignore, seen, reported));
    assert(batched.queue.drop_first() =~= Seq::<PathModel>::empty());
}

/// The watcher judges a candidate by nothing but what it asked to be looked
/// up: two snapshots that agree on the paths of the lookup lead to the same
/// state and the same note.
pub proof fn law_lookup_suffices(
    watcher: WatcherModel,
    seen: Map<PathModel, EntryKind>,
    other: Map<PathModel, EntryKind>,
)
    requires
        watcher.queue.len() > 0,
        forall|i: int|
            0 <= i < probe_targets(watcher.ignore, watcher.queue[0]).len() ==> kind_in(
                seen,
                #[trigger] probe_targets(watcher.ignore, watcher.queue[0])[i],
            ) == kind_in(other, probe_targets(watcher.ignore, watcher.queue[0])[i]),
    ensures
        watcher.judged(seen) == watcher.judged(other),
{
    law_probe_suffices(watcher.ignore, watcher.queue[0], seen, other);
}

/// A failure of the engine costs one candidate and nothing else: what was put
/// down stays, the candidates that are left stay, and the watcher goes on with
/// the next of them or, if there is none, waits for the next batch.
pub proof fn law_failure_is_local(watcher: WatcherModel)
    requires
        watcher.phase == Phase::Running,
        watcher.current.is_some(),
    ensures
        ({
            let (after, note) = watcher.step(InputModel::Failed);
            &&& after == (WatcherModel { current: None, ..watcher })
            &&& note == NoteModel::Quiet
            &&& watcher.reaction(InputModel::Failed) == if watcher.queue.len() > 0 {
                ActionModel::Probe(probe_targets(watcher.ignore, watcher.queue[0]))
            } else {
                ActionModel::Await
            }
        }),
{
}

/// A batch that is lost ends nothing either: the watcher stays as it is and
/// waits for the next batch.
pub proof fn law_lost_batch_is_survived(watcher: WatcherModel)
    requires
        watcher.phase == Phase::Running,
        watcher.current.is_none(),
        watcher.queue.len() == 0,
    ensures
        watcher.step(InputModel::Lost) == (watcher, NoteModel::Quiet),
        watcher.reaction(InputModel::Lost) == ActionModel::Await,
{
}

/// A watcher made from a configuration without libraries has nothing to
/// watch: started, it stays idle and asks for the end.
pub proof fn law_nothing_to_watch(config: ConfigModel)
    requires
        config.libraries.len() == 0,
    ensures
        WatcherModel::fresh(config).started() == WatcherModel::fresh(config),
        WatcherModel::fresh(config).started().pending() == ActionModel::Finish,
{
    lemma_roots_of(config);
}

/// A configuration together with the index of the roots it asks for.
#[derive(Debug)]
struct Setup {
    config: Config,
    roots: RootIndex,
}

impl Clone for Setup {
    fn clone(&self) -> (r: Setup) {
        Setup::new(self.config.clone())
    }
}

impl Setup {
    #[verifier::type_invariant]
    spec fn inv(self) -> bool {
        self.roots@ == RootsModel::of(self.config@)
    }

    fn new(config: Config) -> (r: Setup)
        ensures
            r.config@ == config@,
            r.roots@ == RootsModel::of(config@),
    {
        let roots = RootIndex::from_config(&config);
        Setup { config, roots }
    }
}

/// The watcher.
#[derive(Debug, Clone)]
pub struct Watcher {
    setup: Setup,
    ignore: IgnoreSet,
    phase: Phase,
    queue: Vec<FsPath>,
    current: Option<SortRequest>,
}

impl View for Watcher {
    type V = WatcherModel;

    closed spec fn view(&self) -> WatcherModel {
        WatcherModel {
            config: self.setup.config@,
            roots: self.setup.roots@,
            ignore: self.ignore@,
            phase: self.phase,
            queue: models(self.queue@),
            current: match self.current {
                Some(request) => Some(request@),
                None => None,
            },
        }
    }
}

proof fn lemma_stuck(set: Set<PathModel>, paths: Seq<PathModel>, root: PathModel, n: int)
    requires
        0 <= n <= paths.len(),
        produced_all(set, paths.take(n), root).1.is_some(),
    ensures
        produced_all(set, paths, root) == produced_all(set, paths.take(n), root),
    decreases paths.len(),
{
    if n == paths.len() {
        assert(paths.take(n) =~= paths);
    } else {
        assert(paths.drop_last().take(n) =~= paths.take(n));
        lemma_stuck(set, paths.drop_last(), root, n);
    }
}

impl Watcher {
    /// The watcher for `config`: it watches every folder of every library,
    /// has put nothing down yet and is not started.
    pub fn new(config: Config) -> (r: Watcher)
        ensures
            r@ == WatcherModel::fresh(config@),
            r@.wf(),
    {
        Watcher::with_tracker(config, IgnoreSet::new())
    }

    /// The watcher for `config` that starts with the destinations of
    /// `ignore` put down.
    pub fn with_tracker(config: Config, ignore: IgnoreSet) -> (r: Watcher)
        ensures
            r@ == (WatcherModel { ignore: ignore@, ..WatcherModel::fresh(config@) }),
            r@.wf(),
    {
        proof {
            use_type_invariant(&ignore);
            ignore.lemma_finite();
        }
        let r = Watcher {
            setup: Setup::new(config),
            ignore,
            phase: Phase::Idle,
            queue: Vec::new(),
            current: None,
        };
        assert(r@.queue =~= Seq::<PathModel>::empty());
        r
    }

    /// Where the watcher stands.
    pub fn phase(&self) -> (r: Phase)
        ensures
            r == self@.phase,
    {
        self.phase
    }

    /// The watched roots: those that the configuration asks for.
    pub fn roots(&self) -> (r: &RootIndex)
        ensures
            r@ == self@.roots,
            self@.wf(),
    {
        proof {
            use_type_invariant(&self.setup);
            use_type_invariant(&self.ignore);
            self.ignore.lemma_finite();
        }
        &self.setup.roots
    }

    /// The destinations put down and not yet reported back.
    pub fn ignored(&self) -> (r: &IgnoreSet)
        ensures
            r@ == self@.ignore,
            self@.wf(),
    {
        proof {
            use_type_invariant(&self.setup);
            use_type_invariant(&self.ignore);
            self.ignore.lemma_finite();
        }
        &self.ignore
    }

    /// What the watcher waits for.
    pub fn pending(&self) -> (r: Action)
        ensures
            r@ == self@.pending(),
    {
        match self.phase {
            Phase::Idle => if self.setup.roots.is_empty() {
                Action::Finish
            } else {
                Action::Subscribe {
                    every: self.setup.config.interval(),
                    roots: copy_paths(self.setup.roots.roots()),
                }
            },
            Phase::Subscribed => Action::Subscribe {
                every: self.setup.config.interval(),
                roots: copy_paths(self.setup.roots.roots()),
            },
            Phase::Running => match &self.current {
                Some(request) => Action::Sort(request.clone()),
                None => if self.queue.len() > 0 {
                    Action::Probe(self.ignore.probe_targets(&self.queue[0]))
                } else {
                    Action::Await
                },
            },
        }
    }

    /// Starts the watcher and says what is to be done first: nothing if
    /// nothing is watched, else the subscription to every root. On a watcher
    /// that was started already, says again what it waits for.
    pub fn watch(&mut self) -> (r: Action)
        ensures
            final(self)@ == old(self)@.started(),
            final(self)@.wf(),
            r@ == final(self)@.pending(),
            old(self)@.phase == Phase::Idle && old(self)@.roots.listed.len() == 0 ==> r@
                == ActionModel::Finish,
    {
        proof {
            use_type_invariant(&self.setup);
            use_type_invariant(&self.ignore);
            self.ignore.lemma_finite();
        }
        if self.phase == Phase::Idle && !self.setup.roots.is_empty() {
            self.phase = Phase::Subscribed;
        }
        self.pending()
    }

    /// Takes the answer to the action that the watcher asked for, and says
    /// what came of it and what is to be done next.
    pub fn watchloop(&mut self, input: Input) -> (r: Step)
        ensures
            (final(self)@, r.note@) == old(self)@.step(input@),
            final(self)@.wf(),
            r.action@ == old(self)@.reaction(input@),
    {
        proof {
            use_type_invariant(&self.setup);
            use_type_invariant(&self.ignore);
            self.ignore.lemma_finite();
        }
        let mut ending: Option<Action> = None;
        let note = match self.phase {
            Phase::Idle => {
                if !self.setup.roots.is_empty() {
                    self.phase = Phase::Subscribed;
                }
                Note::Quiet
            },
            Phase::Subscribed => {
                match input {
                    Input::Subscribed => {
                        self.phase = Phase::Running;
                    },
                    Input::Refused => {
                        self.phase = Phase::Idle;
                        ending = Some(Action::Abort);
                    },
                    _ => {},
                }
                Note::Quiet
            },
            Phase::Running => {
                if self.current.is_some() {
                    match input {
                        Input::Sorted(outcome) => {
                            let request = self.current.take().unwrap();
                            self.settle(&request.root, &outcome)
                        },
                        Input::Failed => {
                            self.current = None;
                            Note::Quiet
                        },
                        _ => Note::Quiet,
                    }
                } else if self.queue.len() > 0 {
                    match input {
                        Input::Probed(seen) => self.judge(&seen),
                        _ => Note::Quiet,
                    }
                } else {
                    match input {
                        Input::Batch(events) => {
                            self.queue = candidates(&events);
                            Note::Quiet
                        },
                        Input::Closed => {
                            self.phase = Phase::Idle;
                            ending = Some(Action::Finish);
                            Note::Quiet
                        },
                        _ => Note::Quiet,
                    }
                }
            },
        };
        proof {
            use_type_invariant(&self.setup);
            use_type_invariant(&self.ignore);
            self.ignore.lemma_finite();
        }
        let action = match ending {
            Some(action) => action,
            None => self.pending(),
        };
        Step { note, action }
    }

    /// The nearest watched root that `path` is or lies below.
    pub fn root_for(&self, path: &FsPath) -> (r: Option<FsPath>)
        ensures
            opt_model(r) == self@.roots.find_root(path@),
    {
        self.setup.roots.find_root(path)
    }

    /// Puts down that the engine produced `path` under the watched root
    /// `root`. Fails, and changes nothing, if `path` has no parent.
    pub fn ignore_path(&mut self, path: &FsPath, root: &FsPath) -> (r: Result<(), Error>)
        ensures
            match produced(old(self)@.ignore, path@, root@) {
                Some(set) => r.is_ok() && final(self)@ == (WatcherModel {
                    ignore: set,
                    ..old(self)@
                }),
                None => final(self)@ == old(self)@ && r.is_err() && r.unwrap_err()@ == (
                ErrorModel::InvalidParent { child: path@.text() }),
            },
            final(self)@.wf(),
    {
        proof {
            use_type_invariant(&self.setup);
        }
        self.ignore.mark_produced(path, root)
    }

    /// Whether an event for `path` reports the watcher's own work, given what
    /// `seen` found on disk. Nothing is taken out of the set: that is done
    /// when the watch loop judges the event.
    pub fn is_ignored(&self, path: &FsPath, seen: &Snapshot) -> (r: bool)
        ensures
            r == suppressed(self@.ignore, seen@, path@),
    {
        self.ignore.is_ignored(path, seen)
    }

    /// Judges an event for `path` as `is_ignored` does and, if it reports the
    /// watcher's own work, takes out the entry that matched: the own entry of
    /// a file, else the nearest directory entry at or above the path. Nothing
    /// else changes.
    pub fn should_ignore(&mut self, path: &FsPath, seen: &Snapshot) -> (r: bool)
        ensures
            r == suppressed(old(self)@.ignore, seen@, path@),
            final(self)@ == (WatcherModel {
                ignore: consumed(old(self)@.ignore, seen@, path@),
                ..old(self)@
            }),
            final(self)@.wf(),
    {
        proof {
            use_type_invariant(&self.setup);
        }
        self.ignore.should_ignore(path, seen)
    }

    /// How `path` is to be sorted, given what `seen` found on disk. This is
    /// the first half of a dispatch: the call of the engine is left to
    /// whoever drives the watcher.
    pub fn move_files(&self, path: &FsPath, seen: &Snapshot) -> (r: Result<SortRequest, Error>)
        ensures
            self@.wf(),
            plan_model(r) == self@.plan(path@, seen@),
            r.is_err() == self@.roots.find_root(path@).is_none(),
    {
        proof {
            use_type_invariant(&self.setup);
            use_type_invariant(&self.ignore);
            self.ignore.lemma_finite();
            lemma_find_root(self@.roots, path@);
        }
        match self.setup.roots.find_root(path) {
            None => Err(Error::InvalidRoot { path: path.to_text() }),
            Some(root) => {
                proof {
                    lemma_root_library_configured(self@.config, root@);
                }
                let name = self.setup.roots.resolve_library(&root).unwrap();
                let library = self.setup.config.library(name).unwrap();
                Ok(
                    SortRequest {
                        folder: seen.kind_of(path) == EntryKind::Directory,
                        root,
                        path: path.clone(),
                        options: library.options.for_watch(),
                    },
                )
            },
        }
    }

    /// The second half of a dispatch: puts down where the engine moved things.
    fn settle(&mut self, root: &FsPath, outcome: &SortOutcome) -> (r: Note)
        requires
            old(self).current.is_none(),
        ensures
            (final(self)@, r@) == old(self)@.settled(root@, outcome@),
    {
        let ghost start = self@.ignore;
        let ghost wanted = outcome@.new_paths();
        match outcome {
            SortOutcome::File(path) => {
                assert(wanted.drop_last() =~= Seq::<PathModel>::empty());
                assert(produced_all(start, wanted.drop_last(), root@) == (start, None::<int>));
                let fault = match self.ignore.mark_produced(path, root) {
                    Ok(()) => None,
                    Err(e) => Some(e),
                };
                Note::Done { summary: Summary { total: 1, success: 1, failed: 0 }, fault }
            },
            SortOutcome::Folder(report) => {
                let summary = report.summary();
                let paths = report.new_paths();
                let mut fault: Option<Error> = None;
                let mut i: usize = 0;
                assert(wanted.take(0) =~= Seq::<PathModel>::empty());
                while i < paths.len() && fault.is_none()
                    invariant
                        i <= paths.len(),
                        wanted == models(paths@),
                        self@ == (WatcherModel { ignore: self@.ignore, ..old(self)@ }),
                        produced_all(start, wanted.take(i as int), root@) == (
                            self@.ignore,
                            if fault.is_some() {
                                Some(i - 1)
                            } else {
                                None::<int>
                            },
                        ),
                        fault.is_some() ==> i > 0 && fault.unwrap()@ == (ErrorModel::InvalidParent {
                            child: wanted[i - 1].text(),
                        }),
                    decreases paths.len() - i, if fault.is_none() { 1int } else { 0int },
                {
                    assert(wanted.take(i + 1).drop_last() =~= wanted.take(i as int));
                    assert(wanted.take(i + 1).last() == paths@[i as int]@);
                    match self.ignore.mark_produced(&paths[i], root) {
                        Ok(()) => {},
                        Err(e) => {
                            fault = Some(e);
                        },
                    }
                    i += 1;
                }
                proof {
                    if fault.is_some() {
                        lemma_stuck(start, wanted, root@, i as int);
                    } else {
                        assert(wanted.take(i as int) =~= wanted);
                    }
                }
                Note::Done { summary, fault }
            },
        }
    }

    /// Deals with the first candidate of the queue.
    fn judge(&mut self, seen: &Snapshot) -> (r: Note)
        requires
            old(self).queue.len() > 0,
            old(self).current.is_none(),
        ensures
            (final(self)@, r@) == old(self)@.judged(seen@),
    {
        let ghost before = self@;
        let path = self.queue.remove(0);
        assert(models(self.queue@) =~= before.queue.drop_first());
        proof {
            lemma_matching(before.ignore, seen@, path@);
        }
        if self.ignore.should_ignore(&path, seen) {
            Note::Suppressed(path)
        } else {
            match self.move_files(&path, seen) {
                Ok(request) => {
                    self.current = Some(request);
                    Note::Quiet
                },
                Err(e) => Note::Rejected(e),
            }
        }
    }
}

} // verus!
