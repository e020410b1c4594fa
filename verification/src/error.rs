//! What can go wrong for one candidate path or one resource.

use vstd::prelude::*;

verus! {

/// A failure, as the proofs see it.
pub enum ErrorModel {
    InvalidRoot { path: Seq<char> },
    InvalidParent { child: Seq<char> },
    ResourceNotFound { path: Seq<char> },
}

/// A failure that concerns one path. None of them stops the watcher.
#[derive(Debug, Clone, PartialEq, Eq)]
pub enum Error {
    /// The path lies under no watched root.
    InvalidRoot { path: String },
    /// The path has no parent directory.
    InvalidParent { child: String },
    /// The shared copy of a resource is not installed and no default was given.
    ResourceNotFound { path: String },
}

impl View for Error {
    type V = ErrorModel;

    open spec fn view(&self) -> ErrorModel {
        match *self {
            Error::InvalidRoot { path } => ErrorModel::InvalidRoot { path: path@ },
            Error::InvalidParent { child } => ErrorModel::InvalidParent { child: child@ },
            Error::ResourceNotFound { path } => ErrorModel::ResourceNotFound { path: path@ },
        }
    }
}

impl ErrorModel {
    /// The sentence shown to the user.
    pub open spec fn message(self) -> Seq<char> {
        match self {
            ErrorModel::InvalidRoot { path } => "Path "@ + path + " is not valid as root folder!"@,
            ErrorModel::InvalidParent { child } => "Path "@ + child + " has no parent folder!"@,
            ErrorModel::ResourceNotFound { path } => "Resource "@ + path + " was not found!"@,
        }
    }
}

impl Error {
    /// The sentence shown to the user.
    pub fn message(&self) -> (r: String)
        ensures
            r@ == self@.message(),
    {
        match self {
            Error::InvalidRoot { path } => {
                let mut out = String::from_str("Path ");
                out.append(path.as_str());
                out.append(" is not valid as root folder!");
                out
            },
            Error::InvalidParent { child } => {
                let mut out = String::from_str("Path ");
                out.append(child.as_str());
                out.append(" has no parent folder!");
                out
            },
            Error::ResourceNotFound { path } => {
                let mut out = String::from_str("Resource ");
                out.append(path.as_str());
                out.append(" was not found!");
                out
            },
        }
    }
}

} // verus!
