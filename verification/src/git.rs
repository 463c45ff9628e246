//! The `git` subcommands the library asks for, and how their answers read.
use crate::binding::{slot_key, slot_name, ErrorView, SLOT_COUNT};
use crate::config::{join_path, join_path_exec, opt_view};
use crate::error::{ErrorKind, GitPersonaError};
use crate::process::ProcessOutput;
use crate::remote::{parse_remote, parse_remote_spec, result_view, RemoteInfo, RemoteInfoView};
use crate::text::{
    cat, cat3, contains, lines, lower_seq, has_sub, split_lines, starts_with, starts_with_str,
    to_ascii_lowercase, trim, trim_end, trim_end_str, trim_str,
};
use vstd::prelude::*;

verus! {

pub open spec fn strings(v: Vec<String>) -> Seq<Seq<char>> {
    v@.map_values(|s: String| s@)
}

fn push_str(v: &mut Vec<String>, s: &str)
    ensures
        strings(*final(v)) == strings(*old(v)).push(s@),
        final(v).len() == old(v).len() + 1,
{
    let ghost before = strings(*v);
    v.push(s.to_string());
    assert(strings(*v) =~= before.push(s@));
}

/// The slot whose key stands at position `i` of a binding transaction:
/// the managed keys first, then each backup's presence flag and value.
pub open spec fn transaction_slot(i: int) -> int {
    if i < 8 {
        i
    } else if (i - 8) % 2 == 0 {
        8 + (i - 8) / 2
    } else {
        14 + (i - 8) / 2
    }
}

/// Every key a binding reads, writes or restores, in transaction order.
pub fn transaction_keys() -> (r: Vec<String>)
    ensures
        r.len() == SLOT_COUNT,
        forall|i: int| 0 <= i < SLOT_COUNT ==> #[trigger] strings(r)[i] == slot_name(transaction_slot(i)),
{
    let mut r: Vec<String> = Vec::new();
    let mut i: usize = 0;
    while i < 8
        invariant
            i <= 8,
            r.len() == i,
            forall|j: int| 0 <= j < i ==> #[trigger] strings(r)[j] == slot_name(transaction_slot(j)),
        decreases 8 - i,
    {
        push_str(&mut r, slot_key(i));
        i = i + 1;
    }
    let mut k: usize = 0;
    while k < 6
        invariant
            k <= 6,
            r.len() == 8 + 2 * k,
            forall|j: int| 0 <= j < 8 + 2 * k ==> #[trigger] strings(r)[j] == slot_name(transaction_slot(j)),
        decreases 6 - k,
    {
        assert(transaction_slot(8 + 2 * k) == 8 + k);
        assert(transaction_slot(8 + 2 * k + 1) == 14 + k);
        push_str(&mut r, slot_key(8 + k));
        push_str(&mut r, slot_key(14 + k));
        k = k + 1;
    }
    r
}

/// The arguments of `git config [--local] --get <key>`, or `--get-all`.
pub fn config_read_args(key: &str, local: bool, all: bool) -> (r: Vec<String>)
    ensures
        strings(r) == seq!["config"@] + (if local { seq!["--local"@] } else { Seq::empty() }) + seq![
            if all { "--get-all"@ } else { "--get"@ },
            key@,
        ],
{
    let mut r: Vec<String> = Vec::new();
    push_str(&mut r, "config");
    if local {
        push_str(&mut r, "--local");
    }
    if all {
        push_str(&mut r, "--get-all");
    } else {
        push_str(&mut r, "--get");
    }
    push_str(&mut r, key);
    assert(strings(r) =~= seq!["config"@] + (if local { seq!["--local"@] } else { Seq::empty() }) + seq![
        if all { "--get-all"@ } else { "--get"@ },
        key@,
    ]);
    r
}

/// The value `git config --get <key>` printed: exit 0 gives the value,
/// exit 1 means the key is unset, anything else is a failure.
pub fn config_value(key: &str, output: &ProcessOutput) -> (r: Result<Option<String>, GitPersonaError>)
    ensures
        output.code == Some(0i32) ==> r is Ok && opt_view(r->Ok_0) == Some(trim_end(output.stdout@)),
        output.code == Some(1i32) ==> r is Ok && r->Ok_0 is None,
        output.code != Some(0i32) && output.code != Some(1i32) ==> r is Err && r->Err_0@ == (
            ErrorKind::Dependency,
            "git config --get "@ + key@ + " failed: "@ + trim(output.stderr@),
        ),
{
    match output.code {
        Some(0) => Ok(Some(trim_end_str(output.stdout.as_str()))),
        Some(1) => Ok(None),
        _ => {
            let t = trim_str(output.stderr.as_str());
            Err(GitPersonaError::dependency(cat3("git config --get ", key, cat(" failed: ", t.as_str()).as_str())))
        },
    }
}

/// The values `git config --get-all <key>` printed, one per line.
pub fn config_values(key: &str, output: &ProcessOutput) -> (r: Result<Vec<String>, GitPersonaError>)
    ensures
        output.code == Some(0i32) ==> r is Ok && strings(r->Ok_0) == lines(output.stdout@),
        output.code == Some(1i32) ==> r is Ok && r->Ok_0.len() == 0,
        output.code != Some(0i32) && output.code != Some(1i32) ==> r is Err && r->Err_0@ == (
            ErrorKind::Dependency,
            "git config --get-all "@ + key@ + " failed: "@ + trim(output.stderr@),
        ),
{
    match output.code {
        Some(0) => {
            let v = split_lines(output.stdout.as_str());
            assert(strings(v) =~= lines(output.stdout@));
            Ok(v)
        },
        Some(1) => Ok(Vec::new()),
        _ => {
            let t = trim_str(output.stderr.as_str());
            Err(GitPersonaError::dependency(cat3("git config --get-all ", key, cat(" failed: ", t.as_str()).as_str())))
        },
    }
}

/// The arguments of `git config --local <key> <value>`.
pub fn config_set_args(key: &str, value: &str) -> (r: Vec<String>)
    ensures
        strings(r) == seq!["config"@, "--local"@, key@, value@],
{
    let mut r: Vec<String> = Vec::new();
    push_str(&mut r, "config");
    push_str(&mut r, "--local");
    push_str(&mut r, key);
    push_str(&mut r, value);
    assert(strings(r) =~= seq!["config"@, "--local"@, key@, value@]);
    r
}

/// The arguments of `git config --local --unset-all <key>`.
pub fn config_unset_args(key: &str) -> (r: Vec<String>)
    ensures
        strings(r) == seq!["config"@, "--local"@, "--unset-all"@, key@],
{
    let mut r: Vec<String> = Vec::new();
    push_str(&mut r, "config");
    push_str(&mut r, "--local");
    push_str(&mut r, "--unset-all");
    push_str(&mut r, key);
    assert(strings(r) =~= seq!["config"@, "--local"@, "--unset-all"@, key@]);
    r
}

/// Setting a key succeeded when git exited with 0.
pub fn set_outcome(key: &str, output: &ProcessOutput) -> (r: Result<(), GitPersonaError>)
    ensures
        r is Ok <==> output.code == Some(0i32),
        r is Err ==> r->Err_0@ == (
            ErrorKind::Dependency,
            "could not set "@ + key@ + ": "@ + trim(output.stderr@),
        ),
{
    if output.success() {
        Ok(())
    } else {
        let t = trim_str(output.stderr.as_str());
        Err(GitPersonaError::dependency(cat3("could not set ", key, cat(": ", t.as_str()).as_str())))
    }
}

/// Unsetting a key succeeded when git exited with 0, or with 5 because the
/// key was not set.
pub fn unset_outcome(key: &str, output: &ProcessOutput) -> (r: Result<(), GitPersonaError>)
    ensures
        r is Ok <==> (output.code == Some(0i32) || output.code == Some(5i32)),
        r is Err ==> r->Err_0@ == (
            ErrorKind::Dependency,
            "could not unset "@ + key@ + ": "@ + trim(output.stderr@),
        ),
{
    match output.code {
        Some(0) | Some(5) => Ok(()),
        _ => {
            let t = trim_str(output.stderr.as_str());
            Err(GitPersonaError::dependency(cat3("could not unset ", key, cat(": ", t.as_str()).as_str())))
        },
    }
}

/// The remote `git remote get-url` printed; none when git failed.
pub fn remote_from_output(output: &ProcessOutput) -> (r: Result<Option<RemoteInfo>, GitPersonaError>)
    ensures
        output.code != Some(0i32) ==> r is Ok && r->Ok_0 is None,
        output.code == Some(0i32) ==> match parse_remote_spec(trim(output.stdout@)) {
            Ok(v) => r is Ok && r->Ok_0 is Some && r->Ok_0->Some_0@ == v,
            Err(e) => r is Err && r->Err_0@ == e,
        },
{
    if !output.success() {
        return Ok(None);
    }
    let t = trim_str(output.stdout.as_str());
    let parsed = parse_remote(t.as_str());
    match parsed {
        Ok(info) => Ok(Some(info)),
        Err(e) => Err(e),
    }
}

/// The worktree root `git rev-parse --show-toplevel` printed.
pub fn repository_root(output: &ProcessOutput) -> (r: Result<String, GitPersonaError>)
    ensures
        r is Ok <==> output.code == Some(0i32),
        r is Ok ==> r->Ok_0@ == trim(output.stdout@),
        r is Err ==> r->Err_0@ == (
            ErrorKind::Usage,
            "current directory is not inside a Git worktree"@,
        ),
{
    if !output.success() {
        return Err(GitPersonaError::usage("current directory is not inside a Git worktree".to_string()));
    }
    Ok(trim_str(output.stdout.as_str()))
}

/// The common Git directory `git rev-parse --git-common-dir` printed,
/// resolved against the worktree root when it is relative.
pub fn common_dir_from(root: &str, output: &ProcessOutput) -> (r: Result<String, GitPersonaError>)
    ensures
        r is Ok <==> output.code == Some(0i32),
        r is Ok ==> r->Ok_0@ == (if starts_with(trim(output.stdout@), "/"@) {
            trim(output.stdout@)
        } else {
            join_path(root@, trim(output.stdout@))
        }),
        r is Err ==> r->Err_0@ == (
            ErrorKind::Dependency,
            "could not locate the Git common directory"@,
        ),
{
    if !output.success() {
        return Err(GitPersonaError::dependency("could not locate the Git common directory".to_string()));
    }
    let path = trim_str(output.stdout.as_str());
    if starts_with_str(path.as_str(), "/") {
        Ok(path)
    } else {
        Ok(join_path_exec(root, path.as_str()))
    }
}

/// The credential-helper key scoped to a host.
pub fn credential_helper_key(hostname: &str) -> (r: String)
    ensures
        r@ == "credential.https://"@ + hostname@ + ".helper"@,
{
    cat3("credential.https://", hostname, ".helper")
}

/// Some configured credential helper is GitHub CLI's.
pub open spec fn gh_helper_among(values: Seq<Seq<char>>) -> bool {
    exists|i: int| 0 <= i < values.len() && has_sub(lower_seq(values[i]), "gh auth git-credential"@)
}

/// Whether any of the helpers (those scoped to the host, then the general
/// ones) runs `gh auth git-credential`, compared ignoring ASCII case.
pub fn has_compatible_credential_helper(values: &Vec<String>) -> (r: bool)
    ensures
        r == gh_helper_among(strings(*values)),
{
    let mut i: usize = 0;
    while i < values.len()
        invariant
            i <= values.len(),
            forall|j: int| 0 <= j < i ==> !has_sub(lower_seq(#[trigger] strings(*values)[j]), "gh auth git-credential"@),
        decreases values.len() - i,
    {
        let low = to_ascii_lowercase(values[i].as_str());
        if contains(low.as_str(), "gh auth git-credential") {
            assert(has_sub(lower_seq(strings(*values)[i as int]), "gh auth git-credential"@));
            return true;
        }
        i = i + 1;
    }
    false
}


/// A failed binding whose rollback failed too: both are reported.
pub fn rollback_failure(error: &GitPersonaError, rollback: &GitPersonaError) -> (r: GitPersonaError)
    ensures
        r@ == (ErrorKind::Dependency, error@.1 + "; rollback also failed: "@ + rollback@.1),
{
    GitPersonaError::dependency(cat3(error.message(), "; rollback also failed: ", rollback.message()))
}

} // verus!
