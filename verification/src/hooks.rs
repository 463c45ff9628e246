//! The pre-commit and pre-push hooks that run `gitpersona check`.
use crate::config::{join_path, join_path_exec};
use crate::error::{ErrorKind, GitPersonaError};
use crate::text::{cat, cat3, contains, has_sub, has_sub_at, str_eq};
use vstd::prelude::*;

verus! {

/// The line that marks a hook as written by GitPersona.
pub const MARKER: &'static str = "# Managed by GitPersona v0.1";

/// The pre-commit hook, exactly as installed.
pub const PRE_COMMIT: &'static str = "#!/bin/sh\n# Managed by GitPersona v0.1\nexec gitpersona check --hook pre-commit\n";

/// The pre-push hook, exactly as installed.
pub const PRE_PUSH: &'static str = "#!/bin/sh\n# Managed by GitPersona v0.1\nexec gitpersona check --hook pre-push --remote \"${1:-origin}\"\n";

/// What reading a hook file gave.
#[derive(Debug)]
pub enum HookFile {
    Missing,
    Unreadable(String),
    Contents(String),
}

/// Hooks are not touched while `core.hooksPath` points elsewhere.
pub fn hooks_path_check(hooks_path: &Option<String>) -> (r: Result<(), GitPersonaError>)
    ensures
        r is Ok <==> hooks_path is None,
        r is Err ==> r->Err_0@ == (
            ErrorKind::Usage,
            "core.hooksPath is configured; GitPersona will not modify or chain that hook setup"@,
        ),
{
    match hooks_path {
        Some(_) => Err(
            GitPersonaError::usage(
                "core.hooksPath is configured; GitPersona will not modify or chain that hook setup".to_string(),
            ),
        ),
        None => Ok(()),
    }
}

/// The two hook files under the common Git directory.
pub fn hook_paths(common_dir: &str) -> (r: (String, String))
    ensures
        r.0@ == join_path(join_path(common_dir@, "hooks"@), "pre-commit"@),
        r.1@ == join_path(join_path(common_dir@, "hooks"@), "pre-push"@),
{
    let hooks = join_path_exec(common_dir, "hooks");
    (join_path_exec(hooks.as_str(), "pre-commit"), join_path_exec(hooks.as_str(), "pre-push"))
}

/// Installing never replaces a file that is already there.
pub fn install_check(commit_exists: bool, push_exists: bool, commit_path: &str, push_path: &str) -> (r:
    Result<(), GitPersonaError>)
    ensures
        r is Ok <==> !commit_exists && !push_exists,
        commit_exists ==> r is Err && r->Err_0@ == (
            ErrorKind::Usage,
            "hook already exists; refusing to replace "@ + commit_path@,
        ),
        !commit_exists && push_exists ==> r is Err && r->Err_0@ == (
            ErrorKind::Usage,
            "hook already exists; refusing to replace "@ + push_path@,
        ),
{
    if commit_exists {
        return Err(GitPersonaError::usage(cat("hook already exists; refusing to replace ", commit_path)));
    }
    if push_exists {
        return Err(GitPersonaError::usage(cat("hook already exists; refusing to replace ", push_path)));
    }
    Ok(())
}

/// How a hook file compares with the hook GitPersona installs.
pub open spec fn hook_state_of(file: HookFile, expected: Seq<char>) -> Seq<char> {
    match file {
        HookFile::Contents(c) => if c@ == expected {
            "installed"@
        } else {
            "occupied by another hook"@
        },
        HookFile::Missing => "not installed"@,
        HookFile::Unreadable(_) => "unreadable"@,
    }
}

/// The state of one hook, in words.
pub fn hook_state(file: &HookFile, expected: &str) -> (r: &'static str)
    ensures
        r@ == hook_state_of(*file, expected@),
{
    match file {
        HookFile::Contents(c) => if str_eq(c.as_str(), expected) {
            "installed"
        } else {
            "occupied by another hook"
        },
        HookFile::Missing => "not installed",
        HookFile::Unreadable(_) => "unreadable",
    }
}

/// The status report of both hooks.
pub open spec fn status_text(commit: HookFile, push: HookFile) -> Seq<char> {
    "pre-commit: "@ + hook_state_of(commit, PRE_COMMIT@) + "\npre-push:   "@ + hook_state_of(
        push,
        PRE_PUSH@,
    )
}

/// Reports whether each hook is installed.
pub fn status(commit: &HookFile, push: &HookFile) -> (r: String)
    ensures
        r@ == status_text(*commit, *push),
{
    let a = cat("pre-commit: ", hook_state(commit, PRE_COMMIT));
    cat3(a.as_str(), "\npre-push:   ", hook_state(push, PRE_PUSH))
}

/// Why a hook file may not be removed, if it may not.
pub open spec fn removal_problem(file: HookFile, expected: Seq<char>, path: Seq<char>) -> Option<
    (ErrorKind, Seq<char>),
> {
    match file {
        HookFile::Missing => None,
        HookFile::Unreadable(e) => Some(
            (ErrorKind::Dependency, "could not read "@ + path + ": "@ + e@),
        ),
        HookFile::Contents(c) => if c@ != expected || !has_sub(c@, MARKER@) {
            Some(
                (
                    ErrorKind::Usage,
                    path + " is not an exact GitPersona-managed hook; refusing to remove it"@,
                ),
            )
        } else {
            None
        },
    }
}

fn removal_check(file: &HookFile, expected: &str, path: &str) -> (r: Result<(), GitPersonaError>)
    ensures
        match removal_problem(*file, expected@, path@) {
            None => r is Ok,
            Some(e) => r is Err && r->Err_0@ == e,
        },
{
    match file {
        HookFile::Missing => Ok(()),
        HookFile::Unreadable(e) => Err(
            GitPersonaError::dependency(cat3("could not read ", path, cat(": ", e.as_str()).as_str())),
        ),
        HookFile::Contents(c) => if !str_eq(c.as_str(), expected) || !contains(c.as_str(), MARKER) {
            Err(
                GitPersonaError::usage(
                    cat(path, " is not an exact GitPersona-managed hook; refusing to remove it"),
                ),
            )
        } else {
            Ok(())
        },
    }
}

/// Uninstalling removes only hooks that are exactly the ones GitPersona
/// installs; the pre-commit hook is checked first.
pub fn uninstall_check(commit: &HookFile, push: &HookFile, commit_path: &str, push_path: &str) -> (r:
    Result<(), GitPersonaError>)
    ensures
        match (removal_problem(*commit, PRE_COMMIT@, commit_path@), removal_problem(*push, PRE_PUSH@, push_path@)) {
            (Some(e), _) => r is Err && r->Err_0@ == e,
            (None, Some(e)) => r is Err && r->Err_0@ == e,
            (None, None) => r is Ok,
        },
{
    removal_check(commit, PRE_COMMIT, commit_path)?;
    removal_check(push, PRE_PUSH, push_path)
}

/// Hooks just installed are reported as installed.
pub proof fn lemma_installed_hooks_report_installed(commit: String, push: String)
    requires
        commit@ == PRE_COMMIT@,
        push@ == PRE_PUSH@,
    ensures
        status_text(HookFile::Contents(commit), HookFile::Contents(push)) == "pre-commit: installed\npre-push:   installed"@,
{
    reveal_strlit("pre-commit: ");
    reveal_strlit("installed");
    reveal_strlit("\npre-push:   ");
    reveal_strlit("pre-commit: installed\npre-push:   installed");
    assert(status_text(HookFile::Contents(commit), HookFile::Contents(push)) =~= "pre-commit: installed\npre-push:   installed"@);
}

/// Hooks exactly as installed may always be uninstalled again.
pub proof fn lemma_installed_hooks_are_removable(commit: String, push: String, commit_path: Seq<char>, push_path: Seq<char>)
    requires
        commit@ == PRE_COMMIT@,
        push@ == PRE_PUSH@,
    ensures
        removal_problem(HookFile::Contents(commit), PRE_COMMIT@, commit_path) is None,
        removal_problem(HookFile::Contents(push), PRE_PUSH@, push_path) is None,
{
    reveal_strlit("#!/bin/sh\n# Managed by GitPersona v0.1\nexec gitpersona check --hook pre-commit\n");
    reveal_strlit("#!/bin/sh\n# Managed by GitPersona v0.1\nexec gitpersona check --hook pre-push --remote \"${1:-origin}\"\n");
    reveal_strlit("# Managed by GitPersona v0.1");
    assert(PRE_COMMIT@.subrange(10, 38) =~= MARKER@);
    assert(has_sub_at(PRE_COMMIT@, MARKER@, 10));
    assert(PRE_PUSH@.subrange(10, 38) =~= MARKER@);
    assert(has_sub_at(PRE_PUSH@, MARKER@, 10));
}

/// Any other file under a hook's name is never removed.
pub proof fn lemma_foreign_hook_is_kept(contents: String, expected: Seq<char>, path: Seq<char>)
    requires
        contents@ != expected,
    ensures
        removal_problem(HookFile::Contents(contents), expected, path) is Some,
{
}

} // verus!
