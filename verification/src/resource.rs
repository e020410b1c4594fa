//! The files that come with the program, and how one is put in place.
//!
//! A resource is installed from the shared copy that a package put on the
//! machine or, where there is none, from a default text. Which of the two it
//! is, and where the file goes, is decided here; writing and copying is left
//! to the caller.

use crate::error::{Error, ErrorModel};
use crate::path::{FsPath, PathModel};
use vstd::prelude::*;

verus! {

/// A file that comes with the program.
#[derive(Debug, Clone, Copy, PartialEq, Eq, Structural)]
pub enum Resource {
    /// The configuration file.
    Config,
    /// The unit file of the user service.
    Service,
}

/// The configuration file below the user's configuration directory.
pub open spec fn config_path(config_dir: PathModel) -> PathModel {
    config_dir.join(PathModel { absolute: false, names: seq!["musso"@, "config.toml"@] })
}

/// The unit file below the user's configuration directory.
pub open spec fn service_path(config_dir: PathModel) -> PathModel {
    config_dir.join(
        PathModel { absolute: false, names: seq!["systemd"@, "user"@, "musso.service"@] },
    )
}

impl Resource {
    /// What the resource is called in messages.
    pub open spec fn label(self) -> Seq<char> {
        match self {
            Resource::Config => "config"@,
            Resource::Service => "service"@,
        }
    }

    /// Where a package puts the shared copy.
    pub open spec fn shared(self) -> PathModel {
        match self {
            Resource::Config => PathModel {
                absolute: true,
                names: seq!["usr"@, "share"@, "musso"@, "config.toml"@],
            },
            Resource::Service => PathModel {
                absolute: true,
                names: seq!["usr"@, "share"@, "musso"@, "musso.service"@],
            },
        }
    }

    /// Where the resource is installed, below the user's configuration
    /// directory.
    pub open spec fn destination(self, config_dir: PathModel) -> PathModel {
        match self {
            Resource::Config => config_path(config_dir),
            Resource::Service => service_path(config_dir),
        }
    }

    /// What the resource is called in messages.
    pub fn name(&self) -> (r: &'static str)
        ensures
            r@ == self.label(),
    {
        match self {
            Resource::Config => "config",
            Resource::Service => "service",
        }
    }

    /// Where a package puts the shared copy.
    pub fn shared_path(&self) -> (r: FsPath)
        ensures
            r@ == self.shared(),
    {
        let mut names: Vec<String> = Vec::new();
        names.push(String::from_str("usr"));
        names.push(String::from_str("share"));
        names.push(String::from_str("musso"));
        match self {
            Resource::Config => names.push(String::from_str("config.toml")),
            Resource::Service => names.push(String::from_str("musso.service")),
        }
        assert(names.deep_view() =~= self.shared().names);
        FsPath::new(true, names)
    }

    /// Where the resource is installed, below the user's configuration
    /// directory.
    pub fn destination_under(&self, config_dir: &FsPath) -> (r: FsPath)
        ensures
            r@ == self.destination(config_dir@),
    {
        match self {
            Resource::Config => default_config_path(config_dir),
            Resource::Service => default_service_path(config_dir),
        }
    }
}

/// The configuration file below the user's configuration directory.
pub fn default_config_path(config_dir: &FsPath) -> (r: FsPath)
    ensures
        r@ == config_path(config_dir@),
{
    let mut names: Vec<String> = Vec::new();
    names.push(String::from_str("musso"));
    names.push(String::from_str("config.toml"));
    assert(names.deep_view() =~= seq!["musso"@, "config.toml"@]);
    config_dir.join(&FsPath::new(false, names))
}

/// The unit file below the user's configuration directory.
pub fn default_service_path(config_dir: &FsPath) -> (r: FsPath)
    ensures
        r@ == service_path(config_dir@),
{
    let mut names: Vec<String> = Vec::new();
    names.push(String::from_str("systemd"));
    names.push(String::from_str("user"));
    names.push(String::from_str("musso.service"));
    assert(names.deep_view() =~= seq!["systemd"@, "user"@, "musso.service"@]);
    config_dir.join(&FsPath::new(false, names))
}

/// How a resource is put in place, as the proofs see it.
pub enum InstallModel {
    Write { dest: PathModel, text: Seq<char> },
    Copy { from: PathModel, parent: PathModel, dest: PathModel },
}

/// How a resource is put in place.
#[derive(Debug, Clone, PartialEq, Eq)]
pub enum Install {
    /// Create `dest` and write `text` to it.
    Write { dest: FsPath, text: String },
    /// Make sure the directory `parent` is there, then copy `from` to `dest`.
    Copy { from: FsPath, parent: FsPath, dest: FsPath },
}

impl View for Install {
    type V = InstallModel;

    open spec fn view(&self) -> InstallModel {
        match *self {
            Install::Write { dest, text } => InstallModel::Write { dest: dest@, text: text@ },
            Install::Copy { from, parent, dest } => InstallModel::Copy {
                from: from@,
                parent: parent@,
                dest: dest@,
            },
        }
    }
}

/// The default text, if any, as the proofs see it.
pub open spec fn text_model(text: Option<&str>) -> Option<Seq<char>> {
    match text {
        Some(t) => Some(t@),
        None => None,
    }
}

/// The way to install, or the failure, as the proofs see it.
pub open spec fn install_model(plan: Result<Install, Error>) -> Result<InstallModel, ErrorModel> {
    match plan {
        Ok(install) => Ok(install@),
        Err(e) => Err(e@),
    }
}

/// How `res` is to be installed below `config_dir`: by copying the shared
/// copy if there is one, else by writing the default text; without either it
/// cannot be installed.
pub open spec fn installation(
    res: Resource,
    default: Option<Seq<char>>,
    config_dir: PathModel,
    shared_exists: bool,
) -> Result<InstallModel, ErrorModel> {
    let dest = res.destination(config_dir);
    if shared_exists {
        Ok(InstallModel::Copy { from: res.shared(), parent: dest.parent().unwrap(), dest })
    } else {
        match default {
            Some(text) => Ok(InstallModel::Write { dest, text }),
            None => Err(ErrorModel::ResourceNotFound { path: res.shared().text() }),
        }
    }
}

/// Decides how `res` is installed below the configuration directory
/// `config_dir`, given the default text, if there is one, and whether the
/// shared copy exists.
pub fn generate_resource(
    res: Resource,
    default: Option<&str>,
    config_dir: &FsPath,
    shared_exists: bool,
) -> (r: Result<Install, Error>)
    ensures
        install_model(r) == installation(res, text_model(default), config_dir@, shared_exists),
{
    let dest = res.destination_under(config_dir);
    let shared = res.shared_path();
    if !shared_exists {
        match default {
            Some(text) => Ok(Install::Write { dest, text: String::from_str(text) }),
            None => Err(Error::ResourceNotFound { path: shared.to_text() }),
        }
    } else {
        match dest.parent() {
            Some(parent) => Ok(Install::Copy { from: shared, parent, dest }),
            None => {
                assert(false);
                Err(Error::InvalidParent { child: dest.to_text() })
            },
        }
    }
}

} // verus!
