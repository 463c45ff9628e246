//! Which GitHub account an SSH key authenticates as.
use crate::config::{expand_path_with, opt_view, expansion, Profile, ProfileView};
use crate::error::{ErrorKind, GitPersonaError};
use crate::matching::{captures_view, groups_view, regex_captures, regex_captures_result};
use crate::process::ProcessOutput;
use crate::text::{cat, eq_ignore_ascii_case, eq_ignore_case, trim, trim_str};
use vstd::prelude::*;

verus! {

/// The outcome of an SSH authentication test.
#[derive(Debug)]
pub enum SshIdentity {
    /// GitHub greeted the expected user (the greeting's spelling is kept).
    Verified(String),
    /// GitHub greeted another user.
    Rejected(String),
    /// No greeting; the output, trimmed, explains why.
    Unavailable(String),
}

pub ghost enum SshIdentityView {
    Verified(Seq<char>),
    Rejected(Seq<char>),
    Unavailable(Seq<char>),
}

impl View for SshIdentity {
    type V = SshIdentityView;

    open spec fn view(&self) -> SshIdentityView {
        match self {
            SshIdentity::Verified(u) => SshIdentityView::Verified(u@),
            SshIdentity::Rejected(u) => SshIdentityView::Rejected(u@),
            SshIdentity::Unavailable(r) => SshIdentityView::Unavailable(r@),
        }
    }
}

impl PartialEq for SshIdentity {
    fn eq(&self, other: &Self) -> (r: bool) {
        match (self, other) {
            (SshIdentity::Verified(a), SshIdentity::Verified(b)) => crate::text::str_eq(a.as_str(), b.as_str()),
            (SshIdentity::Rejected(a), SshIdentity::Rejected(b)) => crate::text::str_eq(a.as_str(), b.as_str()),
            (SshIdentity::Unavailable(a), SshIdentity::Unavailable(b)) => crate::text::str_eq(a.as_str(), b.as_str()),
            _ => false,
        }
    }
}

impl vstd::std_specs::cmp::PartialEqSpecImpl for SshIdentity {
    open spec fn obeys_eq_spec() -> bool {
        true
    }

    open spec fn eq_spec(&self, other: &Self) -> bool {
        self@ == other@
    }
}

/// GitHub's SSH greeting, case-insensitive: `Hi <user>!`.
pub const GREETING_PATTERN: &'static str = "(?i)Hi\\s+([^!\\s]+)!";

/// The identity an SSH test reports, given the captures of the greeting
/// pattern in the combined output.
pub open spec fn identity_from(
    github_user: Seq<char>,
    captures: Option<Option<Seq<Option<Seq<char>>>>>,
    combined: Seq<char>,
) -> SshIdentityView {
    match captures {
        Some(Some(g)) => if g.len() > 1 && g[1] is Some {
            if eq_ignore_case(g[1]->0, github_user) {
                SshIdentityView::Verified(g[1]->0)
            } else {
                SshIdentityView::Rejected(g[1]->0)
            }
        } else {
            SshIdentityView::Unavailable(trim(combined))
        },
        _ => SshIdentityView::Unavailable(trim(combined)),
    }
}

/// Decides the identity from the greeting's captures: the greeted user is
/// verified when it equals the profile's GitHub user up to ASCII case.
pub fn identity_from_captures(
    github_user: &str,
    captures: Option<Option<Vec<Option<String>>>>,
    combined: &str,
) -> (r: SshIdentity)
    ensures
        r@ == identity_from(github_user@, captures_view(captures), combined@),
{
    match captures {
        Some(Some(groups)) => {
            if groups.len() > 1 {
                match &groups[1] {
                    Some(user) => {
                        proof {
                            assert(groups_view(groups)[1] == Some(user@));
                        }
                        if eq_ignore_ascii_case(user.as_str(), github_user) {
                            SshIdentity::Verified(user.clone())
                        } else {
                            SshIdentity::Rejected(user.clone())
                        }
                    },
                    None => {
                        proof {
                            assert(groups_view(groups)[1] is None);
                        }
                        SshIdentity::Unavailable(trim_str(combined))
                    },
                }
            } else {
                SshIdentity::Unavailable(trim_str(combined))
            }
        },
        _ => SshIdentity::Unavailable(trim_str(combined)),
    }
}

/// Reads the SSH test's output. GitHub answers a successful authentication
/// with a greeting and a non-zero exit code; the greeting decides.
pub fn interpret_ssh_output(github_user: &str, output: &ProcessOutput) -> (r: SshIdentity)
    ensures
        r@ == identity_from(
            github_user@,
            regex_captures_result(GREETING_PATTERN@, output.stdout@ + output.stderr@),
            output.stdout@ + output.stderr@,
        ),
{
    let combined = output.combined();
    let captures = regex_captures(GREETING_PATTERN, combined.as_str());
    identity_from_captures(github_user, captures, combined.as_str())
}

/// The arguments of the SSH test: batch mode, a timeout, only the
/// profile's key, and the profile's host.
pub open spec fn ssh_args(key: Seq<char>, hostname: Seq<char>) -> Seq<Seq<char>> {
    seq![
        "-T"@,
        "-o"@,
        "BatchMode=yes"@,
        "-o"@,
        "ConnectTimeout=10"@,
        "-o"@,
        "IdentitiesOnly=yes"@,
        "-i"@,
        key,
        "git@"@ + hostname,
    ]
}

pub fn ssh_test_args(profile: &Profile, home: &Option<String>) -> (r: Result<Vec<String>, GitPersonaError>)
    ensures
        match profile@.ssh_key {
            None => r is Err && r->Err_0@ == (ErrorKind::Usage, "profile has no SSH key"@),
            Some(k) => match expansion(k, opt_view(*home)) {
                None => r is Err && r->Err_0@ == (
                    ErrorKind::Dependency,
                    "could not determine the home directory"@,
                ),
                Some(e) => r is Ok && crate::config::strings_view(r->Ok_0) == ssh_args(
                    e,
                    profile@.hostname,
                ),
            },
        },
{
    let key = match &profile.ssh_key {
        Some(k) => k,
        None => {
            return Err(GitPersonaError::usage(String::from_str("profile has no SSH key")));
        },
    };
    let key = expand_path_with(key.as_str(), home)?;
    let mut args: Vec<String> = Vec::new();
    args.push(String::from_str("-T"));
    args.push(String::from_str("-o"));
    args.push(String::from_str("BatchMode=yes"));
    args.push(String::from_str("-o"));
    args.push(String::from_str("ConnectTimeout=10"));
    args.push(String::from_str("-o"));
    args.push(String::from_str("IdentitiesOnly=yes"));
    args.push(String::from_str("-i"));
    args.push(key);
    args.push(cat("git@", profile.hostname.as_str()));
    assert(crate::config::strings_view(args) =~= ssh_args(
        expansion(profile@.ssh_key->0, opt_view(*home))->0,
        profile@.hostname,
    ));
    Ok(args)
}

} // verus!
