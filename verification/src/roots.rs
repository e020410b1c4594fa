//! Which directories are watched, and to which library each belongs.
//!
//! An event names the exact entry that changed, possibly deep inside a
//! library. To learn which watched root it belongs to, the index is asked
//! about the entry, then about its parent, and so on upwards: the first root
//! met is the nearest one. The number of lookups is the depth of the path,
//! whatever the number of roots.

use crate::config::{
    lemma_library_found, library_models, Config, ConfigModel, LibraryModel,
};
use crate::path::{lemma_within_is_ancestor, models, opt_model, FsPath, PathModel};
use crate::table::PathMap;
use vstd::prelude::*;

verus! {

/// The watched roots, as the proofs see them.
pub struct RootsModel {
    /// The library that each root belongs to, by name.
    pub library: Map<PathModel, Seq<char>>,
    /// The roots in the order in which they were first configured.
    pub listed: Seq<PathModel>,
}

impl RootsModel {
    /// No roots.
    pub open spec fn empty() -> RootsModel {
        RootsModel { library: Map::empty(), listed: Seq::empty() }
    }

    /// These roots and `root` for the library `name`. A root that was there
    /// already keeps its place and changes its library.
    pub open spec fn with(self, root: PathModel, name: Seq<char>) -> RootsModel {
        RootsModel {
            library: self.library.insert(root, name),
            listed: if self.library.contains_key(root) {
                self.listed
            } else {
                self.listed.push(root)
            },
        }
    }

    /// These roots and each of `folders` for the library `name`.
    pub open spec fn with_folders(self, name: Seq<char>, folders: Seq<PathModel>) -> RootsModel
        decreases folders.len(),
    {
        if folders.len() == 0 {
            self
        } else {
            self.with_folders(name, folders.drop_last()).with(folders.last(), name)
        }
    }

    /// These roots and the folders of each of `libraries`, in order.
    pub open spec fn with_libraries(self, libraries: Seq<LibraryModel>) -> RootsModel
        decreases libraries.len(),
    {
        if libraries.len() == 0 {
            self
        } else {
            self.with_libraries(libraries.drop_last()).with_folders(
                libraries.last().name,
                libraries.last().folders,
            )
        }
    }

    /// The roots that `config` asks for. Where two libraries name the same
    /// folder, the one configured later has it.
    pub open spec fn of(config: ConfigModel) -> RootsModel {
        RootsModel::empty().with_libraries(config.libraries)
    }

    /// Every root is listed once, and nothing else is.
    pub open spec fn wf(self) -> bool {
        &&& forall|root: PathModel| self.library.contains_key(root) <==> self.listed.contains(root)
        &&& forall|i: int, j: int|
            0 <= i < j < self.listed.len() ==> self.listed[i] != self.listed[j]
    }

    /// The nearest root at least `up` steps above `path`.
    pub open spec fn find_from(self, path: PathModel, up: nat) -> Option<PathModel>
        decreases path.names.len() + 1 - up,
    {
        if up > path.names.len() {
            None
        } else if self.library.contains_key(path.ancestor(up)) {
            Some(path.ancestor(up))
        } else {
            self.find_from(path, up + 1)
        }
    }

    /// The nearest root that `path` is or lies below.
    pub open spec fn find_root(self, path: PathModel) -> Option<PathModel> {
        self.find_from(path, 0)
    }
}

proof fn lemma_find_from(roots: RootsModel, path: PathModel, up: nat)
    ensures
        match roots.find_from(path, up) {
            Some(root) => exists|k: nat|
                up <= k <= path.names.len() && #[trigger] path.ancestor(k) == root
                    && roots.library.contains_key(root) && forall|j: nat|
                    up <= j < k ==> !roots.library.contains_key(#[trigger] path.ancestor(j)),
            None => forall|j: nat|
                up <= j <= path.names.len() ==> !roots.library.contains_key(
                    #[trigger] path.ancestor(j),
                ),
        },
    decreases path.names.len() + 1 - up,
{
    if up > path.names.len() {
    } else if roots.library.contains_key(path.ancestor(up)) {
        assert(path.ancestor(up) == roots.find_from(path, up).unwrap());
    } else {
        lemma_find_from(roots, path, up + 1);
        match roots.find_from(path, up + 1) {
            Some(root) => {
                let k = choose|k: nat|
                    up + 1 <= k <= path.names.len() && #[trigger] path.ancestor(k) == root
                        && roots.library.contains_key(root) && forall|j: nat|
                        up + 1 <= j < k ==> !roots.library.contains_key(
                            #[trigger] path.ancestor(j),
                        );
                assert(path.ancestor(k) == root);
                assert forall|j: nat| up <= j < k implies !roots.library.contains_key(
                    #[trigger] path.ancestor(j),
                ) by {
                    if j != up {
                        assert(up + 1 <= j);
                    }
                }
            },
            None => {
                assert forall|j: nat| up <= j <= path.names.len() implies !roots.library.contains_key(
                    #[trigger] path.ancestor(j),
                ) by {
                    if j != up {
                        assert(up + 1 <= j);
                    }
                }
            },
        }
    }
}

/// What the resolver returns: a root that `path` is or lies below and that
/// lies below every other such root; none exactly when `path` lies below no
/// root.
pub proof fn lemma_find_root(roots: RootsModel, path: PathModel)
    ensures
        match roots.find_root(path) {
            Some(root) => {
                &&& roots.library.contains_key(root)
                &&& path.within(root)
                &&& forall|other: PathModel|
                    roots.library.contains_key(other) && path.within(other) ==> root.within(other)
            },
            None => forall|other: PathModel|
                roots.library.contains_key(other) ==> !path.within(other),
        },
{
    lemma_find_from(roots, path, 0);
    match roots.find_root(path) {
        Some(root) => {
            let k = choose|k: nat|
                0 <= k <= path.names.len() && #[trigger] path.ancestor(k) == root
                    && roots.library.contains_key(root) && forall|j: nat|
                    0 <= j < k ==> !roots.library.contains_key(#[trigger] path.ancestor(j));
            assert(path.ancestor(k) == root);
            lemma_within_is_ancestor(path, root);
            assert forall|other: PathModel|
                roots.library.contains_key(other) && path.within(other) implies root.within(
                other,
            ) by {
                lemma_within_is_ancestor(path, other);
                let j = choose|j: nat| j <= path.names.len() && #[trigger] path.ancestor(j) == other;
                assert(path.ancestor(j) == other);
                assert(j >= k);
                assert(root.names.take(other.names.len() as int) =~= other.names);
            }
        },
        None => {
            assert forall|other: PathModel| roots.library.contains_key(other) implies !path.within(
                other,
            ) by {
                if path.within(other) {
                    lemma_within_is_ancestor(path, other);
                    let j = choose|j: nat|
                        j <= path.names.len() && #[trigger] path.ancestor(j) == other;
                    assert(path.ancestor(j) == other);
                }
            }
        },
    }
}

/// A path that is a root or lies below it resolves to that root, provided no
/// other root lies in between.
pub proof fn law_root_resolution(roots: RootsModel, root: PathModel, path: PathModel)
    requires
        roots.library.contains_key(root),
        path.within(root),
        forall|other: PathModel|
            roots.library.contains_key(other) && path.within(other) ==> root.within(other),
    ensures
        roots.find_root(path) == Some(root),
{
    lemma_find_root(roots, path);
    let found = roots.find_root(path).unwrap();
    assert(found.within(root));
    assert(root.within(found));
    assert(found.names =~= root.names);
}

/// A path that lies below no root resolves to none.
pub proof fn law_outside_every_root(roots: RootsModel, path: PathModel)
    requires
        forall|root: PathModel| roots.library.contains_key(root) ==> !path.within(root),
    ensures
        roots.find_root(path).is_none(),
{
    lemma_find_root(roots, path);
}

/// Adding a root keeps the list of roots in step with the index.
pub proof fn lemma_with_wf(roots: RootsModel, root: PathModel, name: Seq<char>)
    requires
        roots.wf(),
    ensures
        roots.with(root, name).wf(),
{
    let next = roots.with(root, name);
    if roots.library.contains_key(root) {
    } else {
        assert forall|other: PathModel| next.library.contains_key(other) <==> next.listed.contains(
            other,
        ) by {
            if other == root {
                assert(next.listed[roots.listed.len() as int] == root);
            } else {
                if roots.listed.contains(other) {
                    let i = choose|i: int| 0 <= i < roots.listed.len() && roots.listed[i] == other;
                    assert(next.listed[i] == other);
                }
                if next.listed.contains(other) {
                    let i = choose|i: int| 0 <= i < next.listed.len() && next.listed[i] == other;
                    assert(roots.listed[i] == other);
                }
            }
        }
        assert forall|i: int, j: int| 0 <= i < j < next.listed.len() implies next.listed[i]
            != next.listed[j] by {
            if j == roots.listed.len() {
                assert(roots.listed.contains(roots.listed[i]));
            }
        }
    }
}

/// The roots built from a configuration are listed once each, and a
/// configuration without libraries has none.
pub proof fn lemma_roots_of(config: ConfigModel)
    ensures
        RootsModel::of(config).wf(),
        config.libraries.len() == 0 ==> RootsModel::of(config).listed.len() == 0,
{
    lemma_with_libraries_wf(RootsModel::empty(), config.libraries);
}

proof fn lemma_with_folders_wf(roots: RootsModel, name: Seq<char>, folders: Seq<PathModel>)
    requires
        roots.wf(),
    ensures
        roots.with_folders(name, folders).wf(),
    decreases folders.len(),
{
    if folders.len() > 0 {
        lemma_with_folders_wf(roots, name, folders.drop_last());
        lemma_with_wf(roots.with_folders(name, folders.drop_last()), folders.last(), name);
    }
}

proof fn lemma_with_libraries_wf(roots: RootsModel, libraries: Seq<LibraryModel>)
    requires
        roots.wf(),
    ensures
        roots.with_libraries(libraries).wf(),
    decreases libraries.len(),
{
    if libraries.len() > 0 {
        lemma_with_libraries_wf(roots, libraries.drop_last());
        lemma_with_folders_wf(
            roots.with_libraries(libraries.drop_last()),
            libraries.last().name,
            libraries.last().folders,
        );
    }
}

/// The library at position `i` of `libraries` names `folder`.
pub open spec fn lists(libraries: Seq<LibraryModel>, i: int, folder: PathModel) -> bool {
    0 <= i < libraries.len() && libraries[i].folders.contains(folder)
}

proof fn lemma_with_folders(
    roots: RootsModel,
    name: Seq<char>,
    folders: Seq<PathModel>,
    folder: PathModel,
)
    ensures
        roots.with_folders(name, folders).library.contains_key(folder) <==> (
        roots.library.contains_key(folder) || folders.contains(folder)),
        folders.contains(folder) ==> roots.with_folders(name, folders).library[folder] == name,
        !folders.contains(folder) ==> roots.with_folders(name, folders).library[folder]
            == roots.library[folder],
    decreases folders.len(),
{
    if folders.len() > 0 {
        let front = folders.drop_last();
        lemma_with_folders(roots, name, front, folder);
        if folders.last() == folder {
            assert(folders[folders.len() - 1] == folder);
        } else {
            if front.contains(folder) {
                let i = choose|i: int| 0 <= i < front.len() && front[i] == folder;
                assert(folders[i] == folder);
            }
            if folders.contains(folder) {
                let i = choose|i: int| 0 <= i < folders.len() && folders[i] == folder;
                assert(front[i] == folder);
            }
        }
    }
}

proof fn lemma_with_libraries(libraries: Seq<LibraryModel>, folder: PathModel)
    ensures
        RootsModel::empty().with_libraries(libraries).library.contains_key(folder) <==> exists|
            i: int,
        | lists(libraries, i, folder),
        forall|i: int|
            lists(libraries, i, folder) && (forall|k: int|
                lists(libraries, k, folder) ==> k <= i)
                ==> RootsModel::empty().with_libraries(libraries).library[folder]
                == libraries[i].name,
    decreases libraries.len(),
{
    if libraries.len() > 0 {
        let front = libraries.drop_last();
        let last = libraries.last();
        let top = libraries.len() - 1;
        let sofar = RootsModel::empty().with_libraries(front);
        let all = RootsModel::empty().with_libraries(libraries);
        lemma_with_libraries(front, folder);
        lemma_with_folders(sofar, last.name, last.folders, folder);
        assert forall|i: int| lists(front, i, folder) implies lists(libraries, i, folder) by {
            assert(front[i] == libraries[i]);
        }
        assert forall|i: int| lists(libraries, i, folder) && i != top implies lists(
            front,
            i,
            folder,
        ) by {
            assert(front[i] == libraries[i]);
        }
        if last.folders.contains(folder) {
            assert(lists(libraries, top, folder));
        } else {
            if all.library.contains_key(folder) {
                let i = choose|i: int| lists(front, i, folder);
                assert(lists(libraries, i, folder));
            }
            if exists|i: int| lists(libraries, i, folder) {
                let i = choose|i: int| lists(libraries, i, folder);
                assert(lists(front, i, folder));
            }
            assert forall|i: int|
                lists(libraries, i, folder) && (forall|k: int|
                    lists(libraries, k, folder) ==> k <= i) implies all.library[folder]
                == libraries[i].name by {
                assert(lists(front, i, folder));
                assert(front[i] == libraries[i]);
                assert forall|k: int| lists(front, k, folder) implies k <= i by {
                    assert(lists(libraries, k, folder));
                }
            }
        }
    } else {
        assert(!exists|i: int| lists(libraries, i, folder));
    }
}

proof fn lemma_owner(libraries: Seq<LibraryModel>, folder: PathModel)
    requires
        RootsModel::empty().with_libraries(libraries).library.contains_key(folder),
    ensures
        exists|i: int|
            0 <= i < libraries.len() && RootsModel::empty().with_libraries(
                libraries,
            ).library[folder] == (#[trigger] libraries[i]).name,
    decreases libraries.len(),
{
    if libraries.len() > 0 {
        let front = libraries.drop_last();
        let last = libraries.last();
        let sofar = RootsModel::empty().with_libraries(front);
        lemma_with_folders(sofar, last.name, last.folders, folder);
        if last.folders.contains(folder) {
            assert(libraries[libraries.len() - 1].name == last.name);
        } else {
            lemma_owner(front, folder);
            let i = choose|i: int|
                0 <= i < front.len() && sofar.library[folder] == (#[trigger] front[i]).name;
            assert(libraries[i] == front[i]);
        }
    }
}

/// Every root belongs to a library that the configuration holds.
pub proof fn lemma_root_library_configured(config: ConfigModel, root: PathModel)
    requires
        RootsModel::of(config).library.contains_key(root),
    ensures
        config.library(RootsModel::of(config).library[root]).is_some(),
{
    lemma_owner(config.libraries, root);
    let name = RootsModel::of(config).library[root];
    let i = choose|i: int|
        0 <= i < config.libraries.len() && name == (#[trigger] config.libraries[i]).name;
    lemma_library_found(config, name, i, 0);
}

/// Exactly the folders that some library names are watched, and each belongs
/// to the last library that names it.
pub proof fn law_roots_follow_config(config: ConfigModel, folder: PathModel)
    ensures
        RootsModel::of(config).library.contains_key(folder) <==> exists|i: int|
            lists(config.libraries, i, folder),
        forall|i: int|
            lists(config.libraries, i, folder) && (forall|k: int|
                lists(config.libraries, k, folder) ==> k <= i) ==> RootsModel::of(
                config,
            ).library[folder] == config.libraries[i].name,
{
    lemma_with_libraries(config.libraries, folder);
}

/// The index of watched roots. It is filled once and then only read.
#[derive(Debug, Clone)]
pub struct RootIndex {
    library: PathMap<String>,
    listed: Vec<FsPath>,
}

impl View for RootIndex {
    type V = RootsModel;

    closed spec fn view(&self) -> RootsModel {
        RootsModel {
            library: self.library@.map_values(|name: String| name@),
            listed: models(self.listed@),
        }
    }
}

impl RootIndex {
    /// The index without roots.
    pub fn new() -> (r: RootIndex)
        ensures
            r@ == RootsModel::empty(),
    {
        let r = RootIndex { library: PathMap::new(), listed: Vec::new() };
        assert(r@.library =~= Map::<PathModel, Seq<char>>::empty());
        assert(r@.listed =~= Seq::<PathModel>::empty());
        r
    }

    /// Watches `root` for the library `name`.
    pub fn insert(&mut self, root: FsPath, name: String)
        ensures
            final(self)@ == old(self)@.with(root@, name@),
    {
        let ghost before = self@;
        if !self.library.contains(&root) {
            self.listed.push(root.clone());
            assert(models(self.listed@) =~= before.listed.push(root@));
        }
        self.library.insert(root, name);
        assert(self@.library =~= before.library.insert(root@, name@));
    }

    /// The index that `config` asks for.
    pub fn from_config(config: &Config) -> (r: RootIndex)
        ensures
            r@ == RootsModel::of(config@),
    {
        let mut index = RootIndex::new();
        let mut i: usize = 0;
        while i < config.libraries.len()
            invariant
                i <= config.libraries.len(),
                index@ == RootsModel::empty().with_libraries(config@.libraries.take(i as int)),
            decreases config.libraries.len() - i,
        {
            let library = &config.libraries[i];
            let ghost start = index@;
            let ghost next = config@.libraries.take(i + 1);
            assert(next.drop_last() =~= config@.libraries.take(i as int));
            assert(next.last() == library@);
            let mut k: usize = 0;
            while k < library.folders.len()
                invariant
                    k <= library.folders.len(),
                    index@ == start.with_folders(library@.name, library@.folders.take(k as int)),
                decreases library.folders.len() - k,
            {
                let ghost upto = library@.folders.take(k + 1);
                assert(upto.drop_last() =~= library@.folders.take(k as int));
                assert(upto.last() == library.folders@[k as int]@);
                index.insert(library.folders[k].clone(), library.name.clone());
                k += 1;
            }
            assert(library@.folders.take(library@.folders.len() as int) =~= library@.folders);
            i += 1;
        }
        assert(config@.libraries.take(config@.libraries.len() as int) =~= config@.libraries);
        index
    }

    /// The library that the root `root` belongs to.
    pub fn resolve_library(&self, root: &FsPath) -> (r: Option<&String>)
        ensures
            match r {
                Some(name) => self@.library.contains_key(root@) && self@.library[root@] == name@,
                None => !self@.library.contains_key(root@),
            },
    {
        self.library.get(root)
    }

    /// The nearest watched root that `path` is or lies below.
    pub fn find_root(&self, path: &FsPath) -> (r: Option<FsPath>)
        ensures
            opt_model(r) == self@.find_root(path@),
    {
        let mut cursor = path.clone();
        let ghost mut up: nat = 0;
        assert(path@.names.take(path@.names.len() as int) =~= path@.names);
        loop
            invariant
                up <= path@.names.len(),
                cursor@ == path@.ancestor(up),
                self@.find_root(path@) == self@.find_from(path@, up),
            decreases cursor@.names.len(),
        {
            if self.library.contains(&cursor) {
                return Some(cursor);
            }
            if !cursor.pop() {
                assert(self@.find_from(path@, up + 1).is_none());
                return None;
            }
            proof {
                assert(path@.ancestor(up).names.drop_last() =~= path@.ancestor(up + 1).names);
                up = up + 1;
            }
        }
    }

    /// The watched roots, in the order in which they were first configured.
    pub fn roots(&self) -> (r: &Vec<FsPath>)
        ensures
            models(r@) == self@.listed,
    {
        &self.listed
    }

    /// Whether nothing is watched.
    pub fn is_empty(&self) -> (r: bool)
        ensures
            r == (self@.listed.len() == 0),
    {
        self.listed.len() == 0
    }
}

} // verus!
