//! The lock file: which revision of the catalog the user has pinned.

use crate::astrocommunity::Platform;
use crate::error::Failure;
use crate::git_operations::LATEST;
use crate::json::{document_of_text, member, member_of, read_text, string, string_of};
use crate::path::{join, joined};
use vstd::prelude::*;
use vstd::string::StringExecFns;

verus! {

/// The name of the lock file.
pub const LOCK_FILE: &'static str = "lazy-lock.json";

/// The folder, below the data directory, that holds the lock file.
pub const LOCK_FOLDER: &'static str = "nvim";

/// The same folder below the home directory, on macOS.
pub const HOME_LOCK_FOLDER: &'static str = ".local/share/nvim";

/// The member of the lock file that describes the catalog.
pub const DEPENDENCY_FIELD: &'static str = "astrocommunity";

/// The member of a dependency that holds its pinned commit.
pub const COMMIT_FIELD: &'static str = "commit";

/// The commit that a lock document pins the catalog to: the text of the
/// commit of the catalog's dependency, where the document holds one.
pub open spec fn pinned_commit(document: serde_json::Value) -> Option<Seq<char>> {
    match member_of(document, DEPENDENCY_FIELD@) {
        Some(dependency) => match member_of(dependency, COMMIT_FIELD@) {
            Some(commit) => string_of(commit),
            None => None,
        },
        None => None,
    }
}

/// The reference to list the catalog at: the pinned commit, or the latest
/// revision where none is pinned.
pub open spec fn reference_of(commit: Option<Seq<char>>) -> Seq<char> {
    match commit {
        Some(hash) => hash,
        None => LATEST@,
    }
}

/// Where the lock file stands, if the platform names the directory.
pub open spec fn lock_location(platform: Platform) -> Option<Seq<char>> {
    if platform.macos {
        match platform.home_dir {
            Some(home) => Some(joined(joined(home@, HOME_LOCK_FOLDER@), LOCK_FILE@)),
            None => None,
        }
    } else {
        match platform.data_local_dir {
            Some(data) => Some(joined(joined(data@, LOCK_FOLDER@), LOCK_FILE@)),
            None => None,
        }
    }
}

/// What the local files say about the catalog.
#[derive(Debug, PartialEq, Eq)]
pub struct FileSystem {
    /// The reference at which the remote catalog is listed.
    pub astrocommunity_hash: String,
}

impl FileSystem {
    /// Reads the pinned reference from the text of the lock file, if there
    /// is a lock file. Without one, and where the lock file pins no commit,
    /// the reference is the latest revision. A lock file that is no JSON
    /// document is malformed.
    pub fn new(lock: Option<&str>) -> (outcome: Result<FileSystem, Failure>)
        ensures
            match lock {
                None => outcome matches Ok(files) && files.astrocommunity_hash@ == LATEST@,
                Some(text) => match document_of_text(text@) {
                    Some(document) => outcome matches Ok(files) && files.astrocommunity_hash@
                        == reference_of(pinned_commit(document)),
                    None => outcome matches Err(Failure::Parse),
                },
            },
    {
        let text = match lock {
            Some(text) => text,
            None => {
                return Ok(FileSystem { astrocommunity_hash: String::from_str(LATEST) });
            },
        };
        match read_text(text) {
            Ok(document) => Ok(FileSystem { astrocommunity_hash: Self::reference(&document) }),
            Err(_) => Err(Failure::Parse),
        }
    }

    /// The reference that a lock document asks for.
    pub fn reference(document: &serde_json::Value) -> (reference: String)
        ensures
            reference@ == reference_of(pinned_commit(*document)),
    {
        let dependency = match member(document, DEPENDENCY_FIELD) {
            Some(dependency) => dependency,
            None => {
                return String::from_str(LATEST);
            },
        };
        let commit = match member(dependency, COMMIT_FIELD) {
            Some(commit) => commit,
            None => {
                return String::from_str(LATEST);
            },
        };
        match string(commit) {
            Some(hash) => String::from_str(hash),
            None => String::from_str(LATEST),
        }
    }

    /// Where the lock file stands.
    pub fn lock_file(platform: &Platform) -> (outcome: Result<String, Failure>)
        ensures
            match lock_location(*platform) {
                Some(location) => outcome matches Ok(found) && found@ == location,
                None => outcome matches Err(Failure::Resolution),
            },
    {
        if platform.macos {
            match &platform.home_dir {
                Some(home) => Ok(join(join(home.as_str(), HOME_LOCK_FOLDER).as_str(), LOCK_FILE)),
                None => Err(Failure::Resolution),
            }
        } else {
            match &platform.data_local_dir {
                Some(data) => Ok(join(join(data.as_str(), LOCK_FOLDER).as_str(), LOCK_FILE)),
                None => Err(Failure::Resolution),
            }
        }
    }
}

} // verus!
