//! Cloning a repository with a profile's identity, then binding it.
use crate::binding::{expected_ssh_command, ssh_command_for, ErrorView};
use crate::check::{is_owner_allowed, owner_allowed};
use crate::cli::{CloneArgs, CloneProtocol};
use crate::config::{opt_view, strings_view, Config, LocalFacts, ProfileView};
use crate::error::{ErrorKind, GitPersonaError};
use crate::process::ProcessOutput;
use crate::remote::{
    parse_repository, parse_repository_spec, result_view, url_for, RemoteInfo, RemoteInfoView,
    RemoteProtocol,
};
use crate::text::{cat, cat3, chars_of, ends_with, starts_with, eq_ignore_ascii_case, eq_ignore_case, is_ascii_alnum, trim, trim_str};
use vstd::prelude::*;

verus! {

/// A remote name: letters, digits, `.`, `_` and `-`, at least one.
pub open spec fn remote_name_ok(name: Seq<char>) -> bool {
    name.len() > 0 && forall|i: int|
        0 <= i < name.len() ==> is_ascii_alnum(#[trigger] name[i]) || name[i] == '.' || name[i] == '_'
            || name[i] == '-'
}

/// Checks the name given for the clone's remote.
pub fn validate_remote_name(name: &str) -> (r: Result<(), GitPersonaError>)
    ensures
        r is Ok <==> remote_name_ok(name@),
        r is Err ==> r->Err_0@ == (
            ErrorKind::Usage,
            "remote name may contain only letters, numbers, '.', '_' and '-'"@,
        ),
{
    let v = chars_of(name);
    let mut ok = v.len() > 0;
    let mut i: usize = 0;
    while i < v.len()
        invariant
            v@ == name@,
            i <= v.len(),
            ok == (v.len() > 0 && forall|j: int|
                0 <= j < i ==> is_ascii_alnum(#[trigger] v@[j]) || v@[j] == '.' || v@[j] == '_' || v@[j]
                    == '-'),
        decreases v.len() - i,
    {
        let c = v[i];
        let good = ('A' <= c && c <= 'Z') || ('a' <= c && c <= 'z') || ('0' <= c && c <= '9') || c == '.'
            || c == '_' || c == '-';
        ok = ok && good;
        i = i + 1;
    }
    if ok {
        Ok(())
    } else {
        Err(GitPersonaError::usage("remote name may contain only letters, numbers, '.', '_' and '-'".to_string()))
    }
}

/// The protocol of a clone: the one asked for, else SSH when the profile
/// has a key and HTTPS when it has none.
pub open spec fn clone_protocol(asked: Option<CloneProtocol>, p: ProfileView) -> RemoteProtocol {
    match asked {
        Some(CloneProtocol::Ssh) => RemoteProtocol::Ssh,
        Some(CloneProtocol::Https) => RemoteProtocol::Https,
        None => if p.ssh_key is Some {
            RemoteProtocol::Ssh
        } else {
            RemoteProtocol::Https
        },
    }
}

/// What a clone will do: the repository, the protocol, the URL and the
/// destination directory.
#[derive(Debug)]
pub struct ClonePlan {
    pub source: RemoteInfo,
    pub protocol: RemoteProtocol,
    pub url: String,
    pub destination: String,
}

/// The checks made before anything is cloned, in order, and the plan they
/// leave.
pub open spec fn clone_plan_spec(args: CloneArgs, config: Config, facts: LocalFacts) -> Result<
    (RemoteInfoView, RemoteProtocol, Seq<char>, Seq<char>),
    ErrorView,
> {
    if !config.profiles@.contains_key(args.profile@) {
        Err((ErrorKind::Usage, "profile '"@ + args.profile@ + "' does not exist"@))
    } else {
        let p = config.profiles@[args.profile@];
        match parse_repository_spec(args.repository@, p.hostname) {
            Err(e) => Err(e),
            Ok(source) => if !eq_ignore_case(source.hostname, p.hostname) {
                Err(
                    (
                        ErrorKind::Usage,
                        "repository host '"@ + source.hostname + "' does not match profile host '"@
                            + p.hostname + "'"@,
                    ),
                )
            } else if p.allowed_owners.len() > 0 && !owner_allowed(p.allowed_owners, source.owner) {
                Err(
                    (
                        ErrorKind::Check,
                        "repository owner '"@ + source.owner + "' is not allowed by profile '"@
                            + args.profile@ + "'"@,
                    ),
                )
            } else {
                let protocol = clone_protocol(args.protocol, p);
                if protocol == RemoteProtocol::Ssh && ssh_command_for(p, facts) is Err {
                    Err(ssh_command_for(p, facts)->Err_0)
                } else if !remote_name_ok(args.remote@) {
                    Err(
                        (
                            ErrorKind::Usage,
                            "remote name may contain only letters, numbers, '.', '_' and '-'"@,
                        ),
                    )
                } else {
                    Ok(
                        (
                            source,
                            protocol,
                            url_for(source, protocol, p.hostname),
                            match args.directory {
                                Some(d) => d@,
                                None => source.repository,
                            },
                        ),
                    )
                }
            },
        }
    }
}

/// Plans a clone: the profile must exist, the repository must be on the
/// profile's host and, when the profile lists owners, belong to one of
/// them; SSH needs the profile's key, and the remote name must be valid.
pub fn clone_plan(args: &CloneArgs, config: &Config, facts: &LocalFacts) -> (r: Result<
    ClonePlan,
    GitPersonaError,
>)
    ensures
        match clone_plan_spec(*args, *config, *facts) {
            Ok((source, protocol, url, destination)) => r is Ok && r->Ok_0.source@ == source
                && r->Ok_0.protocol == protocol && r->Ok_0.url@ == url && r->Ok_0.destination@
                == destination,
            Err(e) => r is Err && r->Err_0@ == e,
        },
{
    let profile = match config.profiles.get(args.profile.as_str()) {
        None => {
            return Err(GitPersonaError::usage(cat3("profile '", args.profile.as_str(), "' does not exist")));
        },
        Some(p) => p,
    };
    let source = match parse_repository(args.repository.as_str(), profile.hostname.as_str()) {
        Ok(s) => s,
        Err(e) => {
            return Err(e);
        },
    };
    if !eq_ignore_ascii_case(source.hostname.as_str(), profile.hostname.as_str()) {
        let a = cat3("repository host '", source.hostname.as_str(), "' does not match profile host '");
        return Err(GitPersonaError::usage(cat3(a.as_str(), profile.hostname.as_str(), "'")));
    }
    if profile.allowed_owners.len() > 0 && !is_owner_allowed(&profile.allowed_owners, source.owner.as_str()) {
        let a = cat3("repository owner '", source.owner.as_str(), "' is not allowed by profile '");
        return Err(GitPersonaError::check(cat3(a.as_str(), args.profile.as_str(), "'")));
    }
    let protocol = match args.protocol {
        Some(CloneProtocol::Ssh) => RemoteProtocol::Ssh,
        Some(CloneProtocol::Https) => RemoteProtocol::Https,
        None => if profile.ssh_key.is_some() {
            RemoteProtocol::Ssh
        } else {
            RemoteProtocol::Https
        },
    };
    if protocol == RemoteProtocol::Ssh {
        expected_ssh_command(profile, facts)?;
    }
    validate_remote_name(args.remote.as_str())?;
    let destination = match &args.directory {
        Some(d) => d.clone(),
        None => source.repository.clone(),
    };
    let url = source.as_url(protocol, profile.hostname.as_str());
    Ok(ClonePlan { source, protocol, url, destination })
}

/// A clone goes over the protocol asked for; without one, over SSH exactly
/// when the profile has an SSH key, else over HTTPS. An SSH clone uses a
/// `git@host:owner/repository.git` URL, an HTTPS clone an `https://` URL,
/// both on the profile's host, and never cleartext HTTP. A clone is planned
/// only for an existing profile, a repository on the profile's host and of
/// an allowed owner, with the profile's SSH key when over SSH, and a valid
/// remote name; it goes into the directory asked for, else one named after
/// the repository.
pub proof fn lemma_clone_protocol_follows_the_profile(args: CloneArgs, config: Config, facts: LocalFacts)
    requires
        clone_plan_spec(args, config, facts) is Ok,
    ensures
        ({
            let (source, protocol, url, destination) = clone_plan_spec(args, config, facts)->Ok_0;
            let p = config.profiles@[args.profile@];
            &&& args.protocol == Some(CloneProtocol::Ssh) ==> protocol == RemoteProtocol::Ssh
            &&& args.protocol == Some(CloneProtocol::Https) ==> protocol == RemoteProtocol::Https
            &&& args.protocol is None ==> (protocol == RemoteProtocol::Ssh <==> p.ssh_key is Some)
            &&& protocol != RemoteProtocol::Http
            &&& protocol == RemoteProtocol::Ssh ==> starts_with(url, "git@"@ + p.hostname + ":"@)
            &&& protocol == RemoteProtocol::Https ==> starts_with(url, "https://"@ + p.hostname + "/"@)
            &&& ends_with(url, source.owner + "/"@ + source.repository + ".git"@)
            &&& config.profiles@.contains_key(args.profile@)
            &&& eq_ignore_case(source.hostname, p.hostname)
            &&& p.allowed_owners.len() > 0 ==> owner_allowed(p.allowed_owners, source.owner)
            &&& protocol == RemoteProtocol::Ssh ==> ssh_command_for(p, facts) is Ok
            &&& remote_name_ok(args.remote@)
            &&& destination == match args.directory {
                Some(d) => d@,
                None => source.repository,
            }
        }),
{
    let (source, protocol, url, destination) = clone_plan_spec(args, config, facts)->Ok_0;
    let p = config.profiles@[args.profile@];
    let tail = source.owner + "/"@ + source.repository + ".git"@;
    if protocol == RemoteProtocol::Ssh {
        let head = "git@"@ + p.hostname + ":"@;
        assert(url =~= head + tail);
        assert((head + tail).subrange(0, head.len() as int) =~= head);
        assert((head + tail).subrange((head + tail).len() - tail.len(), (head + tail).len() as int) =~= tail);
    } else {
        let head = "https://"@ + p.hostname + "/"@;
        assert(url =~= head + tail);
        assert((head + tail).subrange(0, head.len() as int) =~= head);
        assert((head + tail).subrange((head + tail).len() - tail.len(), (head + tail).len() as int) =~= tail);
    }
}

/// With `--no-switch`, an HTTPS clone needs GitHub CLI to be active as the
/// profile's user already.
pub fn no_switch_check(protocol: RemoteProtocol, active: &Option<String>, github_user: &str) -> (r: Result<
    (),
    GitPersonaError,
>)
    ensures
        r is Err <==> (protocol == RemoteProtocol::Https && !(active is Some && eq_ignore_case(
            active->Some_0@,
            github_user@,
        ))),
        r is Err ==> r->Err_0@ == (
            ErrorKind::Check,
            "HTTPS clone requires GitHub CLI to be active as "@ + github_user@
                + "; omit --no-switch to switch explicitly"@,
        ),
{
    if protocol != RemoteProtocol::Https {
        return Ok(());
    }
    match active {
        Some(a) => if eq_ignore_ascii_case(a.as_str(), github_user) {
            return Ok(());
        },
        None => {},
    }
    Err(
        GitPersonaError::check(
            cat3(
                "HTTPS clone requires GitHub CLI to be active as ",
                github_user,
                "; omit --no-switch to switch explicitly",
            ),
        ),
    )
}

/// The arguments of `git clone --origin <remote> <url> <destination>`.
pub fn clone_args(remote: &str, url: &str, destination: &str) -> (r: Vec<String>)
    ensures
        strings_view(r) == seq!["clone"@, "--origin"@, remote@, url@, destination@],
{
    let r = vec!["clone".to_string(), "--origin".to_string(), remote.to_string(), url.to_string(), destination.to_string()];
    assert(strings_view(r) =~= seq!["clone"@, "--origin"@, remote@, url@, destination@]);
    r
}

/// A failed `git clone` is reported with its trimmed output.
pub fn clone_outcome(output: &ProcessOutput) -> (r: Result<(), GitPersonaError>)
    ensures
        r is Ok <==> output.code == Some(0i32),
        r is Err ==> r->Err_0@ == (
            ErrorKind::Dependency,
            "git clone failed: "@ + trim(output.stdout@ + output.stderr@),
        ),
{
    if output.success() {
        Ok(())
    } else {
        let all = output.combined();
        let t = trim_str(all.as_str());
        Err(GitPersonaError::dependency(cat("git clone failed: ", t.as_str())))
    }
}

/// The account to switch GitHub CLI back to after a failed clone: the one
/// active before, unless the clone did not switch.
pub fn account_to_restore(previous: &Option<String>, no_switch: bool) -> (r: Option<String>)
    ensures
        opt_view(r) == (if no_switch { None } else { opt_view(*previous) }),
{
    if no_switch {
        None
    } else {
        match previous {
            Some(p) => Some(p.clone()),
            None => None,
        }
    }
}

/// The error of a clone whose binding failed, after the clone was removed.
pub fn bind_failure(profile: &str, error: &GitPersonaError) -> (r: GitPersonaError)
    ensures
        r@ == (
            ErrorKind::Dependency,
            "binding to profile '"@ + profile@ + "' failed; the cloned directory has been removed: "@
                + error@.1,
        ),
{
    let a = cat3("binding to profile '", profile, "' failed; the cloned directory has been removed: ");
    GitPersonaError::dependency(cat(a.as_str(), error.message()))
}

} // verus!
