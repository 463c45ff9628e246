//! The arguments of the command-line interface, and the profile they make.
use crate::config::{clone_opt, clone_strings, opt_view, strings_view, Profile, ProfileView, SigningFormat};
use crate::binding::ErrorView;
use crate::error::{ErrorKind, GitPersonaError};
use crate::text::cat;
use vstd::prelude::*;

verus! {

/// `gitpersona clone`.
#[derive(Debug)]
pub struct CloneArgs {
    pub profile: String,
    pub repository: String,
    pub directory: Option<String>,
    pub protocol: Option<CloneProtocol>,
    pub remote: String,
    pub no_switch: bool,
}

#[derive(Debug, Clone, Copy, PartialEq, Eq, Structural)]
pub enum CloneProtocol {
    Ssh,
    Https,
}

/// `gitpersona profile ...`.
#[derive(Debug)]
pub enum ProfileCommand {
    Add(ProfileMutationArgs),
    Import(ProfileImportArgs),
    Edit(ProfileMutationArgs),
    List { json: bool },
    Show { name: String, json: bool },
    Remove { name: String, yes: bool },
    Rename { old_name: String, new_name: String },
}

/// The fields of `profile add` and `profile edit`.
#[derive(Debug)]
pub struct ProfileMutationArgs {
    pub name: String,
    pub github_user: Option<String>,
    pub git_name: Option<String>,
    pub git_email: Option<String>,
    pub hostname: Option<String>,
    pub ssh_key: Option<String>,
    pub allowed_owners: Vec<String>,
    pub clear_ssh_key: bool,
    pub clear_allowed_owners: bool,
    pub signing_key: Option<String>,
    pub signing_format: Option<SigningFormat>,
    pub require_signing: bool,
    pub no_require_signing: bool,
    pub clear_signing_key: bool,
}

/// `gitpersona profile import`.
#[derive(Debug)]
pub struct ProfileImportArgs {
    pub name: String,
    pub repo: Option<String>,
    pub remote: String,
    pub no_owner: bool,
}

/// `gitpersona bind`.
#[derive(Debug)]
pub struct BindArgs {
    pub profile: String,
    pub remote: String,
    pub switch: bool,
    pub force: bool,
    pub repo: Option<String>,
}

/// `gitpersona status` and `gitpersona check`.
#[derive(Debug)]
pub struct InspectArgs {
    pub remote: String,
    pub json: bool,
    pub hook: Option<HookMode>,
    pub repo: Option<String>,
}

/// The Git hook a check runs for.
#[derive(Debug, Clone, Copy, PartialEq, Eq, Structural)]
pub enum HookMode {
    PreCommit,
    PrePush,
}

/// `gitpersona hooks ...`.
#[derive(Debug, Clone, Copy, PartialEq, Eq, Structural)]
pub enum HooksCommand {
    Install,
    Status,
    Uninstall,
}

/// `gitpersona directory ...`.
#[allow(inconsistent_fields)]
#[derive(Debug)]
pub enum DirectoryCommand {
    Add { profile: String, path: String },
    List { json: bool },
    Sync { profile: Option<String> },
    Remove { path: String },
}

/// A check for the pre-commit hook stays offline; every other check may
/// ask GitHub CLI and SSH.
pub fn network_allowed(hook: Option<HookMode>) -> (r: bool)
    ensures
        r == (hook != Some(HookMode::PreCommit)),
{
    match hook {
        Some(HookMode::PreCommit) => false,
        _ => true,
    }
}

/// A value given on the command line, else kept from the old profile; when
/// neither has it, the error says which of the two was expected.
pub open spec fn required_spec(label: Seq<char>, value: Option<Seq<char>>, require: bool) -> Result<
    Seq<char>,
    ErrorView,
> {
    match value {
        Some(v) => Ok(v),
        None => if !require {
            Err((ErrorKind::Usage, label + " is missing from the existing profile"@))
        } else {
            Err((ErrorKind::Usage, "missing required "@ + label + "; provide the corresponding flag"@))
        },
    }
}

/// The first of two optional values that is present.
pub open spec fn or_else<T>(a: Option<T>, b: Option<T>) -> Option<T> {
    match a {
        Some(x) => Some(x),
        None => b,
    }
}

/// The profile that `profile add` (no old profile, values required) or
/// `profile edit` (over the old profile) makes of its arguments.
pub open spec fn profile_from_args_spec(args: ProfileMutationArgs, old: Option<ProfileView>, require: bool) -> Result<
    ProfileView,
    ErrorView,
> {
    let user = required_spec(
        "GitHub user"@,
        or_else(opt_view(args.github_user), match old { Some(p) => Some(p.github_user), None => None }),
        require,
    );
    let name = required_spec(
        "Git author name"@,
        or_else(opt_view(args.git_name), match old { Some(p) => Some(p.git_name), None => None }),
        require,
    );
    let email = required_spec(
        "Git author email"@,
        or_else(opt_view(args.git_email), match old { Some(p) => Some(p.git_email), None => None }),
        require,
    );
    match (user, name, email) {
        (Err(e), _, _) => Err(e),
        (Ok(_), Err(e), _) => Err(e),
        (Ok(_), Ok(_), Err(e)) => Err(e),
        (Ok(u), Ok(n), Ok(m)) => Ok(
            ProfileView {
                github_user: u,
                git_name: n,
                git_email: m,
                hostname: match or_else(opt_view(args.hostname), match old { Some(p) => Some(p.hostname), None => None }) {
                    Some(h) => h,
                    None => "github.com"@,
                },
                ssh_key: if args.clear_ssh_key {
                    None
                } else {
                    or_else(opt_view(args.ssh_key), match old { Some(p) => p.ssh_key, None => None })
                },
                allowed_owners: if args.clear_allowed_owners {
                    Seq::empty()
                } else if args.allowed_owners.len() == 0 {
                    match old {
                        Some(p) => p.allowed_owners,
                        None => Seq::empty(),
                    }
                } else {
                    strings_view(args.allowed_owners)
                },
                signing_key: if args.clear_signing_key {
                    None
                } else {
                    or_else(opt_view(args.signing_key), match old { Some(p) => p.signing_key, None => None })
                },
                signing_format: match or_else(args.signing_format, match old { Some(p) => Some(p.signing_format), None => None }) {
                    Some(f) => f,
                    None => SigningFormat::Openpgp,
                },
                require_signing: if args.require_signing {
                    true
                } else if args.no_require_signing || args.clear_signing_key {
                    false
                } else {
                    match old {
                        Some(p) => p.require_signing,
                        None => false,
                    }
                },
            },
        ),
    }
}

fn required_value(label: &str, value: Option<String>, require: bool) -> (r: Result<String, GitPersonaError>)
    ensures
        match required_spec(label@, opt_view(value), require) {
            Ok(v) => r is Ok && r->Ok_0@ == v,
            Err(e) => r is Err && r->Err_0@ == e,
        },
{
    match value {
        Some(v) => Ok(v),
        None => if !require {
            Err(GitPersonaError::usage(cat(label, " is missing from the existing profile")))
        } else {
            let m = cat("missing required ", label);
            Err(GitPersonaError::usage(cat(m.as_str(), "; provide the corresponding flag")))
        },
    }
}

fn pick(given: &Option<String>, kept: Option<&String>) -> (r: Option<String>)
    ensures
        opt_view(r) == or_else(opt_view(*given), match kept { Some(k) => Some(k@), None => None }),
{
    match given {
        Some(g) => Some(g.clone()),
        None => match kept {
            Some(k) => Some(k.clone()),
            None => None,
        },
    }
}

/// Builds a profile from `profile add` or `profile edit` arguments. The
/// caller asks interactively for missing required values beforehand; those
/// still missing are an error.
pub fn profile_from_args(args: &ProfileMutationArgs, old: Option<&Profile>, require: bool) -> (r: Result<
    Profile,
    GitPersonaError,
>)
    ensures
        match profile_from_args_spec(*args, match old { Some(p) => Some(p@), None => None }, require) {
            Ok(p) => r is Ok && r->Ok_0@ == p,
            Err(e) => r is Err && r->Err_0@ == e,
        },
{
    let github_user = required_value(
        "GitHub user",
        pick(&args.github_user, match old { Some(p) => Some(&p.github_user), None => None }),
        require,
    )?;
    let git_name = required_value(
        "Git author name",
        pick(&args.git_name, match old { Some(p) => Some(&p.git_name), None => None }),
        require,
    )?;
    let git_email = required_value(
        "Git author email",
        pick(&args.git_email, match old { Some(p) => Some(&p.git_email), None => None }),
        require,
    )?;
    let hostname = match pick(&args.hostname, match old { Some(p) => Some(&p.hostname), None => None }) {
        Some(h) => h,
        None => "github.com".to_string(),
    };
    let ssh_key = if args.clear_ssh_key {
        None
    } else {
        match &args.ssh_key {
            Some(k) => Some(k.clone()),
            None => match old {
                Some(p) => clone_opt(&p.ssh_key),
                None => None,
            },
        }
    };
    let allowed_owners = if args.clear_allowed_owners {
        Vec::new()
    } else if args.allowed_owners.len() == 0 {
        match old {
            Some(p) => clone_strings(&p.allowed_owners),
            None => Vec::new(),
        }
    } else {
        clone_strings(&args.allowed_owners)
    };
    let signing_key = if args.clear_signing_key {
        None
    } else {
        match &args.signing_key {
            Some(k) => Some(k.clone()),
            None => match old {
                Some(p) => clone_opt(&p.signing_key),
                None => None,
            },
        }
    };
    let signing_format = match args.signing_format {
        Some(f) => f,
        None => match old {
            Some(p) => p.signing_format,
            None => SigningFormat::Openpgp,
        },
    };
    let require_signing = if args.require_signing {
        true
    } else if args.no_require_signing || args.clear_signing_key {
        false
    } else {
        match old {
            Some(p) => p.require_signing,
            None => false,
        }
    };
    let r = Profile {
        github_user,
        git_name,
        git_email,
        hostname,
        ssh_key,
        allowed_owners,
        signing_key,
        signing_format,
        require_signing,
    };
    assert(strings_view(r.allowed_owners) =~= (if args.clear_allowed_owners {
        Seq::empty()
    } else if args.allowed_owners.len() == 0 {
        match old {
            Some(p) => p@.allowed_owners,
            None => Seq::empty(),
        }
    } else {
        strings_view(args.allowed_owners)
    }));
    Ok(r)
}


/// `profile edit` with no flags leaves the profile as it was.
pub proof fn lemma_edit_without_flags_keeps_profile(args: ProfileMutationArgs, old: ProfileView)
    requires
        args.github_user is None,
        args.git_name is None,
        args.git_email is None,
        args.hostname is None,
        args.ssh_key is None,
        args.allowed_owners.len() == 0,
        !args.clear_ssh_key,
        !args.clear_allowed_owners,
        args.signing_key is None,
        args.signing_format is None,
        !args.require_signing,
        !args.no_require_signing,
        !args.clear_signing_key,
    ensures
        profile_from_args_spec(args, Some(old), false) == Ok::<ProfileView, ErrorView>(old),
{
}

/// `profile add` with every identity flag given cannot fail for want of a
/// value, and keeps what the flags say.
pub proof fn lemma_add_with_flags_keeps_values(args: ProfileMutationArgs)
    requires
        args.github_user is Some,
        args.git_name is Some,
        args.git_email is Some,
    ensures
        profile_from_args_spec(args, None, true) is Ok,
        profile_from_args_spec(args, None, true)->Ok_0.github_user == args.github_user->Some_0@,
        profile_from_args_spec(args, None, true)->Ok_0.git_name == args.git_name->Some_0@,
        profile_from_args_spec(args, None, true)->Ok_0.git_email == args.git_email->Some_0@,
{
}

} // verus!
