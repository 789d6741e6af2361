//! The settings of one run.

use vstd::prelude::*;
use vstd::string::StringExecFns;

verus! {

/// The settings of one run.
#[derive(Clone, Debug, PartialEq, Eq)]
pub struct Options {
    /// The revision that changes are counted from: a tag, a branch or a
    /// commit.
    pub since: String,
    /// The version to stamp onto affected packages and onto the dependency
    /// entries that point at them.
    pub new_version: String,
    /// The directory that holds the workspace manifest.
    pub workspace_path: String,
    /// Treat every package as affected, whatever changed.
    pub replace_all: bool,
}

/// The workspace path that is taken when none is given: the current
/// directory.
pub open spec fn default_workspace_path() -> Seq<char> {
    "."@
}

impl Options {
    /// The settings for the given inputs. A workspace path that is left out
    /// is the current directory.
    pub fn new(
        since: String,
        new_version: String,
        workspace_path: Option<String>,
        replace_all: bool,
    ) -> (options: Options)
        ensures
            options.since == since,
            options.new_version == new_version,
            options.replace_all == replace_all,
            options.workspace_path@ == match workspace_path {
                Some(path) => path@,
                None => default_workspace_path(),
            },
    {
        let workspace_path = match workspace_path {
            Some(path) => path,
            None => String::from_str("."),
        };
        Options { since, new_version, workspace_path, replace_all }
    }
}

} // verus!
