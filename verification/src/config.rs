//! The libraries to watch, as configuration hands them over.

use crate::path::{models, FsPath, PathModel};
use crate::sorting::{Options, OptionsModel};
use vstd::prelude::*;

verus! {

/// A library, as the proofs see it.
pub struct LibraryModel {
    pub name: Seq<char>,
    pub folders: Seq<PathModel>,
    pub options: OptionsModel,
}

/// A named collection: the directories it is rooted at, and how its files
/// are sorted.
#[derive(Debug, Clone)]
pub struct Library {
    pub name: String,
    pub folders: Vec<FsPath>,
    pub options: Options,
}

impl View for Library {
    type V = LibraryModel;

    open spec fn view(&self) -> LibraryModel {
        LibraryModel { name: self.name@, folders: models(self.folders@), options: self.options@ }
    }
}

/// The libraries of `libraries`, as the proofs see them.
pub open spec fn library_models(libraries: Seq<Library>) -> Seq<LibraryModel> {
    libraries.map_values(|l: Library| l@)
}

/// A configuration, as the proofs see it.
pub struct ConfigModel {
    pub libraries: Seq<LibraryModel>,
    pub every: Option<u64>,
}

impl ConfigModel {
    /// The first library from position `from` on that is called `name`.
    pub open spec fn library_from(self, name: Seq<char>, from: nat) -> Option<LibraryModel>
        decreases self.libraries.len() - from,
    {
        if from >= self.libraries.len() {
            None
        } else if self.libraries[from as int].name == name {
            Some(self.libraries[from as int])
        } else {
            self.library_from(name, from + 1)
        }
    }

    /// The library called `name`: the first of that name.
    pub open spec fn library(self, name: Seq<char>) -> Option<LibraryModel> {
        self.library_from(name, 0)
    }

    /// Seconds over which events are gathered into one batch: one, unless
    /// configured.
    pub open spec fn interval(self) -> u64 {
        match self.every {
            Some(seconds) => seconds,
            None => 1,
        }
    }
}

/// A name that some library from position `from` on has is found.
pub proof fn lemma_library_found(config: ConfigModel, name: Seq<char>, at: int, from: nat)
    requires
        from <= at < config.libraries.len(),
        config.libraries[at].name == name,
    ensures
        config.library_from(name, from).is_some(),
        config.library_from(name, from).unwrap().name == name,
    decreases at - from,
{
    if config.libraries[from as int].name != name {
        lemma_library_found(config, name, at, from + 1);
    }
}

/// What the watcher is configured with.
#[derive(Debug, Clone)]
pub struct Config {
    /// The libraries, in the order in which they were configured.
    pub libraries: Vec<Library>,
    /// Seconds over which events are gathered into one batch.
    pub every: Option<u64>,
}

impl View for Config {
    type V = ConfigModel;

    open spec fn view(&self) -> ConfigModel {
        ConfigModel { libraries: library_models(self.libraries@), every: self.every }
    }
}

impl Config {
    /// The library called `name`.
    pub fn library(&self, name: &String) -> (r: Option<&Library>)
        ensures
            match r {
                Some(library) => self@.library(name@) == Some(library@),
                None => self@.library(name@).is_none(),
            },
    {
        let mut i: usize = 0;
        while i < self.libraries.len()
            invariant
                i <= self.libraries.len(),
                self@.library(name@) == self@.library_from(name@, i as nat),
            decreases self.libraries.len() - i,
        {
            if self.libraries[i].name == *name {
                return Some(&self.libraries[i]);
            }
            i += 1;
        }
        None
    }

    /// Seconds over which events are gathered into one batch.
    pub fn interval(&self) -> (r: u64)
        ensures
            r == self@.interval(),
    {
        match self.every {
            Some(seconds) => seconds,
            None => 1,
        }
    }
}

} // verus!
