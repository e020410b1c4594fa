//! The paths that came from the watcher's own sorting.
//!
//! When the engine moves a file, the filesystem reports the move like any
//! other new file. Each destination is therefore put down here, and the event
//! that reports it is dropped instead of starting a second sort.

use crate::error::{Error, ErrorModel};
use crate::path::{lemma_within_is_ancestor, models, opt_model, FsPath, PathModel};
use crate::snapshot::{kind_in, EntryKind, Snapshot};
use crate::table::PathMap;
use vstd::prelude::*;

verus! {

/// The set after `path` was produced under `root`: it also holds the parent of
/// `path`, unless that is `root` itself, and `path` resolved against `root`.
/// There is none if `path` has no parent.
pub open spec fn produced(set: Set<PathModel>, path: PathModel, root: PathModel) -> Option<
    Set<PathModel>,
> {
    match path.parent() {
        None => None,
        Some(parent) => Some(
            (if parent != root {
                set.insert(parent)
            } else {
                set
            }).insert(root.join(path)),
        ),
    }
}

/// The set after each of `paths` was produced under `root`, in order, up to
/// the first that has no parent; with it, the position of that path, if any.
pub open spec fn produced_all(set: Set<PathModel>, paths: Seq<PathModel>, root: PathModel) -> (
    Set<PathModel>,
    Option<int>,
)
    decreases paths.len(),
{
    if paths.len() == 0 {
        (set, None)
    } else {
        let (sofar, stuck) = produced_all(set, paths.drop_last(), root);
        if stuck.is_some() {
            (sofar, stuck)
        } else {
            match produced(sofar, paths.last(), root) {
                Some(next) => (next, None),
                None => (sofar, Some(paths.len() - 1)),
            }
        }
    }
}

/// Some entry of `set` is a directory in `seen` and is `path` or lies above it.
pub open spec fn guarded(
    set: Set<PathModel>,
    seen: Map<PathModel, EntryKind>,
    path: PathModel,
) -> bool {
    exists|entry: PathModel|
        set.contains(entry) && #[trigger] path.within(entry) && kind_in(seen, entry)
            == EntryKind::Directory
}

/// Whether an event for `path` reports the watcher's own work: a path that is
/// a file must be in the set itself; any other path must be, or lie below, an
/// entry that is a directory.
pub open spec fn suppressed(
    set: Set<PathModel>,
    seen: Map<PathModel, EntryKind>,
    path: PathModel,
) -> bool {
    if kind_in(seen, path) == EntryKind::File {
        set.contains(path)
    } else {
        guarded(set, seen, path)
    }
}

/// The nearest entry of `set` at least `up` steps above `path` that is a
/// directory in `seen`.
pub open spec fn guard_from(
    set: Set<PathModel>,
    seen: Map<PathModel, EntryKind>,
    path: PathModel,
    up: nat,
) -> Option<PathModel>
    decreases path.names.len() + 1 - up,
{
    if up > path.names.len() {
        None
    } else if set.contains(path.ancestor(up)) && kind_in(seen, path.ancestor(up))
        == EntryKind::Directory {
        Some(path.ancestor(up))
    } else {
        guard_from(set, seen, path, up + 1)
    }
}

/// The entry on whose account an event for `path` is dropped: for a path that
/// is a file, its own entry; for any other path, the nearest entry that is a
/// directory and is the path or lies above it. None if the event is not
/// dropped.
pub open spec fn matching(
    set: Set<PathModel>,
    seen: Map<PathModel, EntryKind>,
    path: PathModel,
) -> Option<PathModel> {
    if kind_in(seen, path) == EntryKind::File {
        if set.contains(path) {
            Some(path)
        } else {
            None
        }
    } else {
        guard_from(set, seen, path, 0)
    }
}

/// The set after an event for `path` was judged: a dropped event takes the
/// entry that matched out, any other event leaves the set as it is.
pub open spec fn consumed(
    set: Set<PathModel>,
    seen: Map<PathModel, EntryKind>,
    path: PathModel,
) -> Set<PathModel> {
    match matching(set, seen, path) {
        Some(entry) => set.remove(entry),
        None => set,
    }
}

/// The entries of `set` among the first `count` paths above `path`, nearest
/// first.
pub open spec fn guards(set: Set<PathModel>, path: PathModel, count: nat) -> Seq<PathModel>
    decreases count,
{
    if count == 0 {
        Seq::empty()
    } else {
        let rest = guards(set, path, (count - 1) as nat);
        let step = path.ancestor(count);
        if set.contains(step) {
            rest.push(step)
        } else {
            rest
        }
    }
}

/// What has to be looked up on disk before an event for `path` is judged:
/// `path` itself, then every entry of `set` that lies above it.
pub open spec fn probe_targets(set: Set<PathModel>, path: PathModel) -> Seq<PathModel> {
    seq![path] + guards(set, path, path.names.len())
}

proof fn lemma_guard_from(
    set: Set<PathModel>,
    seen: Map<PathModel, EntryKind>,
    path: PathModel,
    up: nat,
)
    ensures
        match guard_from(set, seen, path, up) {
            Some(entry) => exists|k: nat|
                up <= k <= path.names.len() && #[trigger] path.ancestor(k) == entry
                    && set.contains(entry) && kind_in(seen, entry) == EntryKind::Directory
                    && forall|j: nat|
                    up <= j < k ==> !(set.contains(#[trigger] path.ancestor(j)) && kind_in(
                        seen,
                        path.ancestor(j),
                    ) == EntryKind::Directory),
            None => forall|j: nat|
                up <= j <= path.names.len() ==> !(set.contains(#[trigger] path.ancestor(j))
                    && kind_in(seen, path.ancestor(j)) == EntryKind::Directory),
        },
    decreases path.names.len() + 1 - up,
{
    if up > path.names.len() {
    } else if set.contains(path.ancestor(up)) && kind_in(seen, path.ancestor(up))
        == EntryKind::Directory {
        assert(path.ancestor(up) == guard_from(set, seen, path, up).unwrap());
    } else {
        lemma_guard_from(set, seen, path, up + 1);
        match guard_from(set, seen, path, up + 1) {
            Some(entry) => {
                let k = choose|k: nat|
                    up + 1 <= k <= path.names.len() && #[trigger] path.ancestor(k) == entry
                        && set.contains(entry) && kind_in(seen, entry) == EntryKind::Directory
                        && forall|j: nat|
                        up + 1 <= j < k ==> !(set.contains(#[trigger] path.ancestor(j))
                            && kind_in(seen, path.ancestor(j)) == EntryKind::Directory);
                assert(path.ancestor(k) == entry);
                assert forall|j: nat| up <= j < k implies !(set.contains(
                    #[trigger] path.ancestor(j),
                ) && kind_in(seen, path.ancestor(j)) == EntryKind::Directory) by {
                    if j != up {
                        assert(up + 1 <= j);
                    }
                }
            },
            None => {
                assert forall|j: nat| up <= j <= path.names.len() implies !(set.contains(
                    #[trigger] path.ancestor(j),
                ) && kind_in(seen, path.ancestor(j)) == EntryKind::Directory) by {
                    if j != up {
                        assert(up + 1 <= j);
                    }
                }
            },
        }
    }
}

/// An event is dropped exactly when an entry matches. The entry that matches
/// is in the set and is the path or lies above it; for a path that is no file
/// it is a directory, and it lies below every other entry that is a directory
/// and is the path or lies above it.
pub proof fn lemma_matching(
    set: Set<PathModel>,
    seen: Map<PathModel, EntryKind>,
    path: PathModel,
)
    ensures
        suppressed(set, seen, path) == matching(set, seen, path).is_some(),
        match matching(set, seen, path) {
            Some(entry) => {
                &&& set.contains(entry)
                &&& path.within(entry)
                &&& kind_in(seen, path) == EntryKind::File ==> entry == path
                &&& kind_in(seen, path) != EntryKind::File ==> kind_in(seen, entry)
                    == EntryKind::Directory && forall|other: PathModel|
                    set.contains(other) && #[trigger] path.within(other) && kind_in(seen, other)
                        == EntryKind::Directory ==> entry.within(other)
            },
            None => true,
        },
{
    assert(path.names.take(path.names.len() as int) =~= path.names);
    if kind_in(seen, path) != EntryKind::File {
        lemma_guard_from(set, seen, path, 0);
        match guard_from(set, seen, path, 0) {
            Some(entry) => {
                let k = choose|k: nat|
                    0 <= k <= path.names.len() && #[trigger] path.ancestor(k) == entry
                        && set.contains(entry) && kind_in(seen, entry) == EntryKind::Directory
                        && forall|j: nat|
                        0 <= j < k ==> !(set.contains(#[trigger] path.ancestor(j)) && kind_in(
                            seen,
                            path.ancestor(j),
                        ) == EntryKind::Directory);
                assert(path.ancestor(k) == entry);
                lemma_within_is_ancestor(path, entry);
                assert(path.within(entry));
                assert forall|other: PathModel|
                    set.contains(other) && #[trigger] path.within(other) && kind_in(seen, other)
                        == EntryKind::Directory implies entry.within(other) by {
                    lemma_within_is_ancestor(path, other);
                    let j = choose|j: nat|
                        j <= path.names.len() && #[trigger] path.ancestor(j) == other;
                    assert(path.ancestor(j) == other);
                    assert(j >= k);
                    assert(entry.names.take(other.names.len() as int) =~= other.names);
                }
            },
            None => {
                assert forall|other: PathModel|
                    set.contains(other) && #[trigger] path.within(other) implies kind_in(
                    seen,
                    other,
                ) != EntryKind::Directory by {
                    lemma_within_is_ancestor(path, other);
                    let j = choose|j: nat|
                        j <= path.names.len() && #[trigger] path.ancestor(j) == other;
                    assert(path.ancestor(j) == other);
                }
            },
        }
    }
}

/// The destinations that were put down and not yet reported back. There are
/// finitely many of them.
#[derive(Debug)]
pub struct IgnoreSet {
    entries: PathMap<()>,
}

impl View for IgnoreSet {
    type V = Set<PathModel>;

    closed spec fn view(&self) -> Set<PathModel> {
        self.entries@.dom()
    }
}

impl Clone for IgnoreSet {
    fn clone(&self) -> (r: IgnoreSet)
        ensures
            r@ == self@,
            r@.finite(),
    {
        IgnoreSet { entries: self.entries.clone() }
    }
}

impl IgnoreSet {
    /// Whether the set is in order: it has finitely many entries. Every set
    /// that this module hands out is.
    #[verifier::type_invariant]
    pub closed spec fn wf(self) -> bool {
        self.entries@.dom().finite()
    }

    /// A set in order has finitely many entries.
    pub proof fn lemma_finite(self)
        requires
            self.wf(),
        ensures
            self@.finite(),
    {
    }

    /// The empty set.
    pub fn new() -> (r: IgnoreSet)
        ensures
            r@ == Set::<PathModel>::empty(),
            r@.finite(),
    {
        let r = IgnoreSet { entries: PathMap::new() };
        assert(r@ =~= Set::<PathModel>::empty());
        r
    }

    /// Whether `path` is an entry.
    pub fn contains(&self, path: &FsPath) -> (r: bool)
        ensures
            r == self@.contains(path@),
            self@.finite(),
    {
        self.entries.contains(path)
    }

    /// Puts down that the engine produced `path` under the watched root
    /// `root`. Fails, and changes nothing, if `path` has no parent. At most
    /// two entries are added.
    pub fn mark_produced(&mut self, path: &FsPath, root: &FsPath) -> (r: Result<(), Error>)
        ensures
            match produced(old(self)@, path@, root@) {
                Some(set) => r.is_ok() && final(self)@ == set,
                None => final(self)@ == old(self)@ && r.is_err() && r.unwrap_err()@ == (
                ErrorModel::InvalidParent { child: path@.text() }),
            },
            old(self)@.finite(),
            final(self)@.finite(),
            final(self)@.len() <= old(self)@.len() + 2,
    {
        proof {
            use_type_invariant(&*self);
        }
        match path.parent() {
            None => Err(Error::InvalidParent { child: path.to_text() }),
            Some(parent) => {
                let ghost before = self@;
                let mut entries: PathMap<()> = PathMap::new();
                core::mem::swap(&mut self.entries, &mut entries);
                if !parent.same(root) {
                    entries.insert(parent, ());
                }
                let ghost middle = entries@.dom();
                assert(middle =~= if path@.parent().unwrap() != root@ {
                    before.insert(path@.parent().unwrap())
                } else {
                    before
                });
                entries.insert(root.join(path), ());
                assert(entries@.dom() =~= middle.insert(root@.join(path@)));
                core::mem::swap(&mut self.entries, &mut entries);
                Ok(())
            },
        }
    }

    /// The entry on whose account an event for `path` is dropped, given what
    /// `seen` found on disk.
    pub fn matching(&self, path: &FsPath, seen: &Snapshot) -> (r: Option<FsPath>)
        ensures
            opt_model(r) == matching(self@, seen@, path@),
            self@.finite(),
    {
        if seen.kind_of(path) == EntryKind::File {
            return if self.entries.contains(path) {
                Some(path.clone())
            } else {
                None
            };
        }
        let mut cursor = path.clone();
        let ghost mut up: nat = 0;
        assert(path@.names.take(path@.names.len() as int) =~= path@.names);
        loop
            invariant
                up <= path@.names.len(),
                cursor@ == path@.ancestor(up),
                kind_in(seen@, path@) != EntryKind::File,
                matching(self@, seen@, path@) == guard_from(self@, seen@, path@, up),
            decreases cursor@.names.len(),
        {
            if self.entries.contains(&cursor) && seen.kind_of(&cursor) == EntryKind::Directory {
                return Some(cursor);
            }
            if !cursor.pop() {
                assert(guard_from(self@, seen@, path@, up + 1).is_none());
                return None;
            }
            proof {
                assert(path@.ancestor(up).names.drop_last() =~= path@.ancestor(up + 1).names);
                up = up + 1;
            }
        }
    }

    /// Whether an event for `path` reports the watcher's own work, given what
    /// `seen` found on disk.
    pub fn is_ignored(&self, path: &FsPath, seen: &Snapshot) -> (r: bool)
        ensures
            r == suppressed(self@, seen@, path@),
            self@.finite(),
    {
        proof {
            lemma_matching(self@, seen@, path@);
        }
        self.matching(path, seen).is_some()
    }

    /// Judges an event for `path` as `is_ignored` does and, if it reports the
    /// watcher's own work, takes out the entry that matched: the own entry of
    /// a file, else the nearest directory entry at or above the path. The next
    /// event is judged without it.
    pub fn should_ignore(&mut self, path: &FsPath, seen: &Snapshot) -> (r: bool)
        ensures
            r == suppressed(old(self)@, seen@, path@),
            final(self)@ == consumed(old(self)@, seen@, path@),
            old(self)@.finite(),
            final(self)@.finite(),
            final(self)@.len() <= old(self)@.len(),
    {
        proof {
            lemma_matching(self@, seen@, path@);
        }
        match self.matching(path, seen) {
            Some(entry) => {
                let ghost before = self@;
                let mut entries: PathMap<()> = PathMap::new();
                core::mem::swap(&mut self.entries, &mut entries);
                entries.remove(&entry);
                assert(entries@.dom() =~= before.remove(entry@));
                core::mem::swap(&mut self.entries, &mut entries);
                true
            },
            None => false,
        }
    }

    /// What has to be looked up on disk before an event for `path` is judged.
    pub fn probe_targets(&self, path: &FsPath) -> (r: Vec<FsPath>)
        ensures
            models(r@) == probe_targets(self@, path@),
            self@.finite(),
    {
        proof {
            use_type_invariant(self);
        }
        let mut out: Vec<FsPath> = Vec::new();
        out.push(path.clone());
        assert(models(out@) =~= seq![path@]);
        let mut cursor = path.clone();
        let ghost mut up: nat = 0;
        assert(path@.names.take(path@.names.len() as int) =~= path@.names);
        loop
            invariant
                up <= path@.names.len(),
                cursor@ == path@.ancestor(up),
                self@.finite(),
                models(out@) == seq![path@] + guards(self@, path@, up),
            decreases cursor@.names.len(),
        {
            if !cursor.pop() {
                return out;
            }
            proof {
                assert(path@.ancestor(up).names.drop_last() =~= path@.ancestor(up + 1).names);
                up = up + 1;
            }
            let ghost sofar = models(out@);
            if self.entries.contains(&cursor) {
                out.push(cursor.clone());
                assert(models(out@) =~= sofar.push(cursor@));
            }
            assert(models(out@) =~= seq![path@] + guards(self@, path@, up));
        }
    }
}

/// The set only grows while destinations are put down, and the destination at
/// `which` is put down if it and all before it have a parent: the set then
/// holds it, resolved against `root`, and its parent unless that is `root`.
pub proof fn lemma_produced_all(
    set: Set<PathModel>,
    paths: Seq<PathModel>,
    root: PathModel,
    which: int,
)
    requires
        0 <= which < paths.len(),
        forall|i: int| 0 <= i <= which ==> (#[trigger] paths[i]).parent().is_some(),
    ensures
        set.subset_of(produced_all(set, paths, root).0),
        produced_all(set, paths, root).0.contains(root.join(paths[which])),
        paths[which].parent().unwrap() != root ==> produced_all(set, paths, root).0.contains(
            paths[which].parent().unwrap(),
        ),
        which == paths.len() - 1 ==> produced_all(set, paths, root).1.is_none(),
    decreases paths.len(),
{
    let front = paths.drop_last();
    let (sofar, stuck) = produced_all(set, front, root);
    if which < paths.len() - 1 {
        assert(front[which] == paths[which]);
        assert forall|i: int| 0 <= i <= which implies (#[trigger] front[i]).parent().is_some() by {
            assert(front[i] == paths[i]);
        }
        lemma_produced_all(set, front, root, which);
    } else if which > 0 {
        assert forall|i: int| 0 <= i <= which - 1 implies (#[trigger] front[i]).parent().is_some() by {
            assert(front[i] == paths[i]);
        }
        lemma_produced_all(set, front, root, which - 1);
    }
}

/// The entries that are looked up for `path` hold every entry of `set` that
/// lies above it.
pub proof fn lemma_guards(set: Set<PathModel>, path: PathModel, count: nat, up: nat)
    requires
        1 <= up <= count,
        set.contains(path.ancestor(up)),
    ensures
        guards(set, path, count).contains(path.ancestor(up)),
    decreases count,
{
    let rest = guards(set, path, (count - 1) as nat);
    if up < count {
        lemma_guards(set, path, (count - 1) as nat, up);
        let i = choose|i: int| 0 <= i < rest.len() && rest[i] == path.ancestor(up);
        assert(guards(set, path, count)[i] == path.ancestor(up));
    } else {
        assert(guards(set, path, count) == rest.push(path.ancestor(up)));
        assert(guards(set, path, count)[rest.len() as int] == path.ancestor(up));
    }
}

proof fn lemma_same_guard(
    set: Set<PathModel>,
    path: PathModel,
    seen: Map<PathModel, EntryKind>,
    other: Map<PathModel, EntryKind>,
    up: nat,
)
    requires
        forall|k: nat|
            k <= path.names.len() && set.contains(#[trigger] path.ancestor(k)) ==> kind_in(
                seen,
                path.ancestor(k),
            ) == kind_in(other, path.ancestor(k)),
    ensures
        guard_from(set, seen, path, up) == guard_from(set, other, path, up),
    decreases path.names.len() + 1 - up,
{
    if up <= path.names.len() {
        assert(set.contains(path.ancestor(up)) ==> kind_in(seen, path.ancestor(up)) == kind_in(
            other,
            path.ancestor(up),
        ));
        lemma_same_guard(set, path, seen, other, up + 1);
    }
}

/// The judgement of an event rests on nothing but what was looked up: two
/// snapshots that agree on the probe targets of a path judge it alike and
/// take the same entry out.
pub proof fn law_probe_suffices(
    set: Set<PathModel>,
    path: PathModel,
    seen: Map<PathModel, EntryKind>,
    other: Map<PathModel, EntryKind>,
)
    requires
        forall|i: int|
            0 <= i < probe_targets(set, path).len() ==> kind_in(
                seen,
                #[trigger] probe_targets(set, path)[i],
            ) == kind_in(other, probe_targets(set, path)[i]),
    ensures
        kind_in(seen, path) == kind_in(other, path),
        matching(set, seen, path) == matching(set, other, path),
        suppressed(set, seen, path) == suppressed(set, other, path),
{
    let targets = probe_targets(set, path);
    assert(targets[0] == path);
    assert forall|k: nat|
        k <= path.names.len() && set.contains(#[trigger] path.ancestor(k)) implies kind_in(
        seen,
        path.ancestor(k),
    ) == kind_in(other, path.ancestor(k)) by {
        if k == 0 {
            assert(path.names.take(path.names.len() as int) =~= path.names);
            assert(path.ancestor(k) == path);
        } else {
            lemma_guards(set, path, path.names.len(), k);
            let found = guards(set, path, path.names.len());
            let i = choose|i: int| 0 <= i < found.len() && found[i] == path.ancestor(k);
            assert(targets[i + 1] == path.ancestor(k));
        }
    }
    lemma_same_guard(set, path, seen, other, 0);
    lemma_matching(set, seen, path);
    lemma_matching(set, other, path);
}

/// An event for a destination that was just put down is dropped on account
/// of the destination's own entry, as long as the destination is still on
/// disk; so is an event for its parent directory, where that was put down
/// too. Each of the two events takes out its own entry only, so this holds
/// whichever of them comes first.
pub proof fn law_no_feedback(
    set: Set<PathModel>,
    path: PathModel,
    root: PathModel,
    seen: Map<PathModel, EntryKind>,
)
    requires
        path.parent().is_some(),
    ensures
        ({
            let after = produced(set, path, root).unwrap();
            let leaf = root.join(path);
            let parent = path.parent().unwrap();
            &&& after.contains(leaf)
            &&& parent != root ==> after.contains(parent)
            &&& leaf != parent
            &&& kind_in(seen, leaf) != EntryKind::Missing ==> matching(after, seen, leaf) == Some(
                leaf,
            ) && matching(after.remove(parent), seen, leaf) == Some(leaf)
            &&& parent != root && kind_in(seen, parent) != EntryKind::Missing ==> matching(
                after,
                seen,
                parent,
            ) == Some(parent) && matching(after.remove(leaf), seen, parent) == Some(parent)
            &&& kind_in(seen, leaf) == EntryKind::Missing ==> suppressed(after, seen, leaf)
                == guarded(after, seen, leaf)
            &&& kind_in(seen, parent) == EntryKind::Missing ==> suppressed(after, seen, parent)
                == guarded(after, seen, parent)
        }),
{
    let leaf = root.join(path);
    let parent = path.parent().unwrap();
    assert(leaf.names.len() != parent.names.len());
    assert(leaf.names.take(leaf.names.len() as int) =~= leaf.names);
    assert(parent.names.take(parent.names.len() as int) =~= parent.names);
    assert(leaf.ancestor(0) == leaf);
    assert(parent.ancestor(0) == parent);
}

/// What an event is dropped for is used up: the entry that matched is taken
/// out, so a second event for the same path is dropped only on account of
/// another entry. It is not dropped at all if the path was and is a file, or
/// if it is no file and no entry that is left is a directory at or above it.
pub proof fn law_one_shot(
    set: Set<PathModel>,
    path: PathModel,
    seen: Map<PathModel, EntryKind>,
    later: Map<PathModel, EntryKind>,
)
    requires
        suppressed(set, seen, path),
    ensures
        ({
            let entry = matching(set, seen, path).unwrap();
            let after = consumed(set, seen, path);
            &&& set.contains(entry)
            &&& after == set.remove(entry)
            &&& matching(after, later, path) != Some(entry)
            &&& kind_in(seen, path) == EntryKind::File && kind_in(later, path) == EntryKind::File
                ==> !suppressed(after, later, path)
            &&& kind_in(later, path) != EntryKind::File && (forall|other: PathModel|
                after.contains(other) && #[trigger] path.within(other) ==> kind_in(later, other)
                    != EntryKind::Directory) ==> !suppressed(after, later, path)
        }),
{
    lemma_matching(set, seen, path);
    let entry = matching(set, seen, path).unwrap();
    let after = consumed(set, seen, path);
    lemma_matching(after, later, path);
}

} // verus!
