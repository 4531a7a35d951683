//! Invocation arguments shared by the commands: where the repository is and
//! what its default branch is called.

use vstd::prelude::*;
use vstd::string::StringExecFns;

verus! {

/// The common arguments: an optional repository path and an optional
/// default branch name, each with a fixed fallback.
pub struct CommonArgs {
    pub path: Option<String>,
    pub default_branch: Option<String>,
}

impl CommonArgs {
    /// The repository path: the given one, or the current directory.
    pub fn path(&self) -> (r: &str)
        ensures
            r@ == match self.path {
                Some(p) => p@,
                None => "./"@,
            },
    {
        match &self.path {
            Some(p) => p.as_str(),
            None => "./",
        }
    }

    /// The default branch name: the given one if any; otherwise the
    /// configured one, with `main` standing in where the configuration is
    /// empty.
    pub fn branch_default_name(&self, config_default: &str) -> (r: String)
        ensures
            r@ == match self.default_branch {
                Some(n) => n@,
                None => if config_default@.len() == 0 {
                    "main"@
                } else {
                    config_default@
                },
            },
    {
        match &self.default_branch {
            Some(name) => name.clone(),
            None => {
                if config_default.is_empty() {
                    String::from_str("main")
                } else {
                    String::from_str(config_default)
                }
            },
        }
    }
}

} // verus!
