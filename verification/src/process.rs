//! The captured result of a subprocess.
use crate::text::{cat, starts_with, starts_with_str, str_eq};
use vstd::prelude::*;

verus! {

/// Exit code (`None` when the process timed out or was killed) and output.
#[derive(Debug)]
pub struct ProcessOutput {
    pub code: Option<i32>,
    pub stdout: String,
    pub stderr: String,
}

impl Clone for ProcessOutput {
    fn clone(&self) -> (r: Self)
        ensures
            r.code == self.code,
            r.stdout@ == self.stdout@,
            r.stderr@ == self.stderr@,
    {
        ProcessOutput { code: self.code, stdout: self.stdout.clone(), stderr: self.stderr.clone() }
    }
}

impl ProcessOutput {
    /// The process exited with code 0.
    pub fn success(&self) -> (r: bool)
        ensures
            r == (self.code == Some(0i32)),
    {
        match self.code {
            Some(c) => c == 0,
            None => false,
        }
    }

    /// Standard output followed by standard error.
    pub fn combined(&self) -> (r: String)
        ensures
            r@ == self.stdout@ + self.stderr@,
    {
        cat(self.stdout.as_str(), self.stderr.as_str())
    }
}

/// An environment variable that would make a Git subprocess read or write
/// another repository, index or configuration than the one selected:
/// these are removed before Git runs. The user's own global and system
/// configuration files are left as chosen.
pub open spec fn redirects_git(name: Seq<char>) -> bool {
    ||| name == "GIT_DIR"@
    ||| name == "GIT_WORK_TREE"@
    ||| name == "GIT_INDEX_FILE"@
    ||| name == "GIT_COMMON_DIR"@
    ||| name == "GIT_OBJECT_DIRECTORY"@
    ||| name == "GIT_ALTERNATE_OBJECT_DIRECTORIES"@
    ||| name == "GIT_NAMESPACE"@
    ||| name == "GIT_CONFIG"@
    ||| name == "GIT_CONFIG_PARAMETERS"@
    ||| name == "GIT_CONFIG_COUNT"@
    ||| starts_with(name, "GIT_CONFIG_KEY_"@)
    ||| starts_with(name, "GIT_CONFIG_VALUE_"@)
}

/// Whether the environment variable `name` is removed from a subprocess.
pub fn redirects_git_environment(name: &str) -> (r: bool)
    ensures
        r == redirects_git(name@),
{
    str_eq(name, "GIT_DIR") || str_eq(name, "GIT_WORK_TREE") || str_eq(name, "GIT_INDEX_FILE") || str_eq(
        name,
        "GIT_COMMON_DIR",
    ) || str_eq(name, "GIT_OBJECT_DIRECTORY") || str_eq(name, "GIT_ALTERNATE_OBJECT_DIRECTORIES") || str_eq(
        name,
        "GIT_NAMESPACE",
    ) || str_eq(name, "GIT_CONFIG") || str_eq(name, "GIT_CONFIG_PARAMETERS") || str_eq(name, "GIT_CONFIG_COUNT")
        || starts_with_str(name, "GIT_CONFIG_KEY_") || starts_with_str(name, "GIT_CONFIG_VALUE_")
}

/// Runs programs as operating-system processes, with a timeout. Running
/// them is the caller's part; this value names that runner.
#[derive(Debug, Clone, Copy)]
pub struct SystemRunner;

} // verus!
