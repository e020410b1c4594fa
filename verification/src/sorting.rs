//! What is handed to the sorting engine, and what it hands back.
//!
//! The engine itself is not part of this library: it reads a file's metadata,
//! picks the destination and moves the file. The watcher only says what to
//! sort and with which options, and takes note of where things went.

use crate::path::{models, FsPath, PathModel};
use vstd::prelude::*;

verus! {

/// Sort options, as the proofs see them.
pub struct OptionsModel {
    pub format: Seq<char>,
    pub dryrun: bool,
    pub recursive: bool,
    pub exfat_compat: bool,
    pub remove_empty: bool,
}

impl OptionsModel {
    /// The options of a sort that the watcher starts: the library's format and
    /// its name compatibility, never a dry run, always recursive, always
    /// removing directories that were left empty.
    pub open spec fn for_watch(self) -> OptionsModel {
        OptionsModel {
            format: self.format,
            dryrun: false,
            recursive: true,
            exfat_compat: self.exfat_compat,
            remove_empty: true,
        }
    }
}

/// How the engine is to sort.
#[derive(Debug, PartialEq, Eq)]
pub struct Options {
    /// The pattern from which destinations are built.
    pub format: String,
    /// Only report what would be moved.
    pub dryrun: bool,
    /// Descend into directories.
    pub recursive: bool,
    /// Keep names that FAT32 accepts.
    pub exfat_compat: bool,
    /// Remove directories that were left empty.
    pub remove_empty: bool,
}

impl View for Options {
    type V = OptionsModel;

    open spec fn view(&self) -> OptionsModel {
        OptionsModel {
            format: self.format@,
            dryrun: self.dryrun,
            recursive: self.recursive,
            exfat_compat: self.exfat_compat,
            remove_empty: self.remove_empty,
        }
    }
}

impl Clone for Options {
    fn clone(&self) -> (r: Options)
        ensures
            r@ == self@,
    {
        Options {
            format: self.format.clone(),
            dryrun: self.dryrun,
            recursive: self.recursive,
            exfat_compat: self.exfat_compat,
            remove_empty: self.remove_empty,
        }
    }
}

impl Options {
    /// These options as the watcher uses them.
    pub fn for_watch(&self) -> (r: Options)
        ensures
            r@ == self@.for_watch(),
    {
        Options {
            format: self.format.clone(),
            dryrun: false,
            recursive: true,
            exfat_compat: self.exfat_compat,
            remove_empty: true,
        }
    }
}

/// One call of the engine, as the proofs see it.
pub struct RequestModel {
    pub folder: bool,
    pub root: PathModel,
    pub path: PathModel,
    pub options: OptionsModel,
}

/// One call of the engine.
#[derive(Debug, PartialEq, Eq)]
pub struct SortRequest {
    /// Whether `path` is sorted as a directory or as a single file.
    pub folder: bool,
    /// The watched root under which `path` lies.
    pub root: FsPath,
    /// What is to be sorted.
    pub path: FsPath,
    pub options: Options,
}

impl View for SortRequest {
    type V = RequestModel;

    open spec fn view(&self) -> RequestModel {
        RequestModel {
            folder: self.folder,
            root: self.root@,
            path: self.path@,
            options: self.options@,
        }
    }
}

impl Clone for SortRequest {
    fn clone(&self) -> (r: SortRequest)
        ensures
            r@ == self@,
    {
        SortRequest {
            folder: self.folder,
            root: self.root.clone(),
            path: self.path.clone(),
            options: self.options.clone(),
        }
    }
}

/// What sorting a directory came to, as the proofs see it.
pub struct ReportModel {
    pub total: nat,
    pub success: nat,
    pub new_paths: Seq<PathModel>,
}

/// What sorting a directory came to: how many files were tried, how many
/// were moved, and where those went. No more files are moved than were tried.
#[derive(Debug)]
pub struct Report {
    total: usize,
    success: usize,
    new_paths: Vec<FsPath>,
}

impl View for Report {
    type V = ReportModel;

    closed spec fn view(&self) -> ReportModel {
        ReportModel {
            total: self.total as nat,
            success: self.success as nat,
            new_paths: models(self.new_paths@),
        }
    }
}

/// The counts of a finished sort.
#[derive(Debug, Clone, Copy, PartialEq, Eq, Structural)]
pub struct Summary {
    pub total: usize,
    pub success: usize,
    pub failed: usize,
}

impl ReportModel {
    /// The counts of the report: what failed is what was tried and not moved.
    pub open spec fn summary(self) -> Summary {
        Summary {
            total: self.total as usize,
            success: self.success as usize,
            failed: (self.total - self.success) as usize,
        }
    }
}

impl Report {
    #[verifier::type_invariant]
    spec fn inv(self) -> bool {
        self.success <= self.total
    }

    /// The report with these counts and destinations; none if more files are
    /// said to be moved than were tried.
    pub fn new(total: usize, success: usize, new_paths: Vec<FsPath>) -> (r: Option<Report>)
        ensures
            r.is_some() == (success <= total),
            r matches Some(report) ==> report@ == (ReportModel {
                total: total as nat,
                success: success as nat,
                new_paths: models(new_paths@),
            }),
    {
        if success <= total {
            Some(Report { total, success, new_paths })
        } else {
            None
        }
    }

    /// How many files were tried.
    pub fn total(&self) -> (r: usize)
        ensures
            r == self@.total,
    {
        self.total
    }

    /// How many files were moved.
    pub fn success(&self) -> (r: usize)
        ensures
            r == self@.success,
    {
        self.success
    }

    /// Where the moved files went.
    pub fn new_paths(&self) -> (r: &Vec<FsPath>)
        ensures
            models(r@) == self@.new_paths,
    {
        &self.new_paths
    }

    /// The counts of the report.
    pub fn summary(&self) -> (r: Summary)
        ensures
            self@.success <= self@.total,
            r == self@.summary(),
            r.failed == self@.total - self@.success,
    {
        proof {
            use_type_invariant(self);
        }
        Summary { total: self.total, success: self.success, failed: self.total - self.success }
    }
}

/// What the engine hands back when it succeeds, as the proofs see it.
pub enum OutcomeModel {
    File(PathModel),
    Folder(ReportModel),
}

/// What the engine hands back when it succeeds.
#[derive(Debug)]
pub enum SortOutcome {
    /// A single file was moved to this path.
    File(FsPath),
    /// A directory was sorted.
    Folder(Report),
}

impl View for SortOutcome {
    type V = OutcomeModel;

    open spec fn view(&self) -> OutcomeModel {
        match *self {
            SortOutcome::File(path) => OutcomeModel::File(path@),
            SortOutcome::Folder(report) => OutcomeModel::Folder(report@),
        }
    }
}

impl OutcomeModel {
    /// Where things went, in the order reported.
    pub open spec fn new_paths(self) -> Seq<PathModel> {
        match self {
            OutcomeModel::File(path) => seq![path],
            OutcomeModel::Folder(report) => report.new_paths,
        }
    }

    /// The counts of the sort: one of one for a single file.
    pub open spec fn summary(self) -> Summary {
        match self {
            OutcomeModel::File(_) => Summary { total: 1, success: 1, failed: 0 },
            OutcomeModel::Folder(report) => report.summary(),
        }
    }
}

} // verus!
