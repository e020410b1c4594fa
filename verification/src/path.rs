//! Paths as the watcher reasons about them: a root marker and a list of names.
//!
//! Nothing here touches the disk. A path is compared, shortened and extended
//! name by name, never as text, so `/music/Jazz` is an ancestor of
//! `/music/Jazz/Artist` and not of `/music/Jazzy`.

use vstd::prelude::*;
use vstd::std_specs::cmp::PartialEqSpecImpl;
use vstd::utf8::encode_utf8;

verus! {

/// What a path is to the proofs: whether it starts at the filesystem root, and
/// the names that lead from there (or from the working directory) to the entry.
#[verifier::ext_equal]
pub struct PathModel {
    pub absolute: bool,
    pub names: Seq<Seq<char>>,
}

/// The names of `names` written one after the other with `/` between them.
pub open spec fn join_names(names: Seq<Seq<char>>) -> Seq<char>
    decreases names.len(),
{
    if names.len() == 0 {
        Seq::empty()
    } else if names.len() == 1 {
        names[0]
    } else {
        join_names(names.drop_last()) + seq!['/'] + names.last()
    }
}

/// One step of the digest: folds a byte into the running value.
pub open spec fn mix(h: u64, b: u8) -> u64 {
    ((h * 31 + b + 1) % 4294967291) as u64
}

/// The digest of `bytes`, continued from `h`.
pub open spec fn digest_bytes(h: u64, bytes: Seq<u8>) -> u64
    decreases bytes.len(),
{
    if bytes.len() == 0 {
        h
    } else {
        mix(digest_bytes(h, bytes.drop_last()), bytes.last())
    }
}

/// The digest of `names`, continued from `h`: each name's UTF-8 bytes, then a
/// separator.
pub open spec fn digest_names(h: u64, names: Seq<Seq<char>>) -> u64
    decreases names.len(),
{
    if names.len() == 0 {
        h
    } else {
        mix(digest_bytes(digest_names(h, names.drop_last()), encode_utf8(names.last())), 47)
    }
}

impl PathModel {
    /// The directory that holds this entry; a path without names has none.
    pub open spec fn parent(self) -> Option<PathModel> {
        if self.names.len() > 0 {
            Some(PathModel { absolute: self.absolute, names: self.names.drop_last() })
        } else {
            None
        }
    }

    /// The path `up` steps above this one: itself for 0, its parent for 1, and
    /// the bare root marker once the names run out.
    pub open spec fn ancestor(self, up: nat) -> PathModel {
        if up <= self.names.len() {
            PathModel { absolute: self.absolute, names: self.names.take(self.names.len() - up) }
        } else {
            PathModel { absolute: self.absolute, names: Seq::empty() }
        }
    }

    /// `self` is `base` or lies below it: walking up from `self` meets `base`.
    pub open spec fn within(self, base: PathModel) -> bool {
        &&& self.absolute == base.absolute
        &&& base.names.len() <= self.names.len()
        &&& self.names.take(base.names.len() as int) == base.names
    }

    /// `tail` resolved against `self`: an absolute `tail` stands for itself, a
    /// relative one is appended.
    pub open spec fn join(self, tail: PathModel) -> PathModel {
        if tail.absolute {
            tail
        } else {
            PathModel { absolute: self.absolute, names: self.names + tail.names }
        }
    }

    /// The path written out: `/` for the root marker, then the names with `/`
    /// between them.
    pub open spec fn text(self) -> Seq<char> {
        if self.absolute {
            seq!['/'] + join_names(self.names)
        } else {
            join_names(self.names)
        }
    }

    /// A number that equal paths share; it decides where a path is filed.
    pub open spec fn digest(self) -> u64 {
        digest_names(if self.absolute { 1 } else { 0 }, self.names)
    }
}

/// Walking up from a path meets exactly the paths it lies within.
pub proof fn lemma_within_is_ancestor(path: PathModel, base: PathModel)
    ensures
        path.within(base) <==> exists|up: nat|
            up <= path.names.len() && #[trigger] path.ancestor(up) == base,
{
    if path.within(base) {
        let up = (path.names.len() - base.names.len()) as nat;
        assert(path.ancestor(up) == base);
    }
    if exists|up: nat| up <= path.names.len() && #[trigger] path.ancestor(up) == base {
        let up = choose|up: nat| up <= path.names.len() && #[trigger] path.ancestor(up) == base;
        assert(path.ancestor(up).names.len() == path.names.len() - up);
    }
}

/// A path, split into its components.
#[derive(Debug)]
pub struct FsPath {
    absolute: bool,
    names: Vec<String>,
}

impl View for FsPath {
    type V = PathModel;

    closed spec fn view(&self) -> PathModel {
        PathModel { absolute: self.absolute, names: self.names.deep_view() }
    }
}

/// The paths of `paths`, as the proofs see them.
pub open spec fn models(paths: Seq<FsPath>) -> Seq<PathModel> {
    paths.map_values(|p: FsPath| p@)
}

/// The path that `path` holds, if any, as the proofs see it.
pub open spec fn opt_model(path: Option<FsPath>) -> Option<PathModel> {
    match path {
        Some(p) => Some(p@),
        None => None,
    }
}

/// A copy of `names`, name for name.
fn copy_names(names: &Vec<String>, count: usize) -> (r: Vec<String>)
    requires
        count <= names.len(),
    ensures
        r.deep_view() == names.deep_view().take(count as int),
{
    let mut out: Vec<String> = Vec::new();
    let mut i: usize = 0;
    while i < count
        invariant
            i <= count <= names.len(),
            out.len() == i,
            forall|j: int| 0 <= j < i ==> out@[j]@ == names@[j]@,
        decreases count - i,
    {
        out.push(names[i].clone());
        i += 1;
    }
    assert(out.deep_view() =~= names.deep_view().take(count as int));
    out
}

/// A copy of `paths`, path for path.
pub fn copy_paths(paths: &Vec<FsPath>) -> (r: Vec<FsPath>)
    ensures
        models(r@) == models(paths@),
{
    let mut out: Vec<FsPath> = Vec::new();
    let mut i: usize = 0;
    while i < paths.len()
        invariant
            i <= paths.len(),
            out.len() == i,
            forall|j: int| 0 <= j < i ==> out@[j]@ == paths@[j]@,
        decreases paths.len() - i,
    {
        out.push(paths[i].clone());
        i += 1;
    }
    assert(models(out@) =~= models(paths@));
    out
}

impl FsPath {
    /// The path with the given root marker and names.
    pub fn new(absolute: bool, names: Vec<String>) -> (r: FsPath)
        ensures
            r@ == (PathModel { absolute, names: names.deep_view() }),
    {
        FsPath { absolute, names }
    }

    /// Whether the path starts at the filesystem root.
    pub fn is_absolute(&self) -> (r: bool)
        ensures
            r == self@.absolute,
    {
        self.absolute
    }

    /// Number of names below the root marker.
    pub fn depth(&self) -> (n: usize)
        ensures
            n == self@.names.len(),
    {
        self.names.len()
    }

    /// The `i`-th name, counted from the root marker.
    pub fn name(&self, i: usize) -> (r: &String)
        requires
            i < self@.names.len(),
        ensures
            r@ == self@.names[i as int],
    {
        &self.names[i]
    }

    /// Whether both paths have the same root marker and the same names.
    pub fn same(&self, other: &FsPath) -> (r: bool)
        ensures
            r == (self@ == other@),
    {
        assert(self@.names.len() == self.names.len() && other@.names.len() == other.names.len());
        if self.absolute != other.absolute || self.names.len() != other.names.len() {
            return false;
        }
        let mut i: usize = 0;
        while i < self.names.len()
            invariant
                i <= self.names.len(),
                self.names.len() == other.names.len(),
                forall|j: int| 0 <= j < i ==> self.names@[j]@ == other.names@[j]@,
            decreases self.names.len() - i,
        {
            let equal = self.names[i] == other.names[i];
            if !equal {
                assert(self@.names[i as int] != other@.names[i as int]);
                return false;
            }
            i += 1;
        }
        assert(self@.names =~= other@.names);
        true
    }

    /// Whether this path is `base` or lies below it.
    pub fn is_within(&self, base: &FsPath) -> (r: bool)
        ensures
            r == self@.within(base@),
    {
        assert(self@.names.len() == self.names.len() && base@.names.len() == base.names.len());
        if self.absolute != base.absolute || base.names.len() > self.names.len() {
            return false;
        }
        let mut i: usize = 0;
        while i < base.names.len()
            invariant
                i <= base.names.len() <= self.names.len(),
                forall|j: int| 0 <= j < i ==> self.names@[j]@ == base.names@[j]@,
            decreases base.names.len() - i,
        {
            let equal = self.names[i] == base.names[i];
            if !equal {
                assert(self@.names.take(base@.names.len() as int)[i as int] != base@.names[i as int]);
                return false;
            }
            i += 1;
        }
        assert(self@.names.take(base@.names.len() as int) =~= base@.names);
        true
    }

    /// Drops the last name, if there is one, and says whether it did.
    pub fn pop(&mut self) -> (r: bool)
        ensures
            r == old(self)@.parent().is_some(),
            r ==> final(self)@ == old(self)@.parent().unwrap(),
            !r ==> final(self)@ == old(self)@,
    {
        match self.names.pop() {
            Some(_) => {
                assert(self@.names =~= old(self)@.names.drop_last());
                true
            },
            None => {
                assert(self@.names =~= old(self)@.names);
                false
            },
        }
    }

    /// The directory that holds this entry.
    pub fn parent(&self) -> (r: Option<FsPath>)
        ensures
            match r {
                Some(p) => self@.parent() == Some(p@),
                None => self@.parent().is_none(),
            },
    {
        let n = self.names.len();
        if n == 0 {
            None
        } else {
            let names = copy_names(&self.names, n - 1);
            assert(self@.names.take(n - 1) =~= self@.names.drop_last());
            Some(FsPath { absolute: self.absolute, names })
        }
    }

    /// `tail` resolved against this path.
    pub fn join(&self, tail: &FsPath) -> (r: FsPath)
        ensures
            r@ == self@.join(tail@),
    {
        if tail.absolute {
            tail.clone()
        } else {
            let mut names = copy_names(&self.names, self.names.len());
            assert(self@.names.take(self@.names.len() as int) =~= self@.names);
            let mut i: usize = 0;
            while i < tail.names.len()
                invariant
                    i <= tail.names.len(),
                    names.deep_view() == self@.names + tail@.names.take(i as int),
                decreases tail.names.len() - i,
            {
                let ghost before = names.deep_view();
                names.push(tail.names[i].clone());
                assert(names.deep_view() =~= before.push(tail@.names[i as int]));
                assert(tail@.names.take(i + 1) =~= tail@.names.take(i as int).push(
                    tail@.names[i as int],
                ));
                assert(names.deep_view() =~= self@.names + tail@.names.take(i + 1));
                i += 1;
            }
            assert(tail@.names.take(tail@.names.len() as int) =~= tail@.names);
            FsPath { absolute: self.absolute, names }
        }
    }

    /// The path written out for a message.
    pub fn to_text(&self) -> (r: String)
        ensures
            r@ == self@.text(),
    {
        let mut out = String::new();
        proof {
            reveal_strlit("/");
        }
        if self.absolute {
            out.append("/");
        }
        let ghost head = out@;
        let mut i: usize = 0;
        while i < self.names.len()
            invariant
                i <= self.names.len(),
                "/"@ == seq!['/'],
                out@ == head + join_names(self@.names.take(i as int)),
            decreases self.names.len() - i,
        {
            let ghost done = self@.names.take(i as int);
            let ghost next = self@.names.take(i + 1);
            assert(next.drop_last() =~= done);
            assert(next.last() == self@.names[i as int]);
            if i > 0 {
                out.append("/");
            }
            out.append(self.names[i].as_str());
            assert(out@ =~= head + join_names(next));
            i += 1;
        }
        assert(self@.names.take(self@.names.len() as int) =~= self@.names);
        assert(head + Seq::<char>::empty() =~= head);
        out
    }

    /// The number under which the path is filed.
    pub fn digest(&self) -> (h: u64)
        ensures
            h == self@.digest(),
    {
        let mut h: u64 = if self.absolute { 1 } else { 0 };
        let mut i: usize = 0;
        while i < self.names.len()
            invariant
                i <= self.names.len(),
                h < 4294967291,
                h == digest_names(if self@.absolute { 1 } else { 0 }, self@.names.take(i as int)),
            decreases self.names.len() - i,
        {
            let ghost done = self@.names.take(i as int);
            let ghost next = self@.names.take(i + 1);
            assert(next.drop_last() =~= done);
            assert(next.last() == self@.names[i as int]);
            let bytes = self.names[i].as_str().as_bytes();
            let ghost start = h;
            let mut k: usize = 0;
            while k < bytes.len()
                invariant
                    k <= bytes.len(),
                    h < 4294967291,
                    h == digest_bytes(start, bytes@.take(k as int)),
                decreases bytes.len() - k,
            {
                assert(bytes@.take(k + 1).drop_last() =~= bytes@.take(k as int));
                h = (h * 31 + (bytes[k] as u64) + 1) % 4294967291;
                k += 1;
            }
            assert(bytes@.take(bytes@.len() as int) =~= bytes@);
            h = (h * 31 + 47 + 1) % 4294967291;
            i += 1;
        }
        assert(self@.names.take(self@.names.len() as int) =~= self@.names);
        h
    }
}

impl Clone for FsPath {
    fn clone(&self) -> (r: FsPath)
        ensures
            r@ == self@,
    {
        let names = copy_names(&self.names, self.names.len());
        assert(self@.names.take(self@.names.len() as int) =~= self@.names);
        FsPath { absolute: self.absolute, names }
    }
}

impl PartialEq for FsPath {
    fn eq(&self, other: &FsPath) -> (r: bool) {
        self.same(other)
    }
}

impl PartialEqSpecImpl for FsPath {
    open spec fn obeys_eq_spec() -> bool {
        true
    }

    open spec fn eq_spec(&self, other: &FsPath) -> bool {
        self@ == other@
    }
}

impl Eq for FsPath {

}

} // verus!
