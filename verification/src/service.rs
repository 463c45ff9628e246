//! Profile management, import, SSH tests, diagnostics and approved
//! repository roots, on a loaded configuration.
use crate::api::{
    DependencyState, DependencyStatus, DoctorReport, NamedProfile, ProfileDraft, SshTestReport,
    SshTestStatus,
};
use crate::binding::ErrorView;
use crate::config::{
    clone_opt, name_error, opt_view, profile_problem, profile_valid, resource_problem,
    rules_view, strings_view, validate_profile_name, Config, LocalFacts, Profile, ProfileView,
    SigningFormat, PROFILE_NAME_PATTERN,
};
use crate::directory::{paths_equal, profile_has_rules, has_rule_for, same_dir};
use crate::error::{ErrorKind, GitPersonaError};
use crate::matching::regex_match_result;
use crate::process::ProcessOutput;
use crate::profiles::ProfileMap;
use crate::remote::RemoteInfo;
use crate::ssh::{SshIdentity, SshIdentityView};
use crate::text::{cat, cat3, eq_ignore_ascii_case, eq_ignore_case, lines, split_lines, str_eq, trim, trim_str};
use vstd::prelude::*;

verus! {

/// Looking a profile up by name.
pub open spec fn lookup(m: Map<Seq<char>, ProfileView>, name: Seq<char>) -> Result<ProfileView, ErrorView> {
    if m.contains_key(name) {
        Ok(m[name])
    } else {
        Err((ErrorKind::Usage, "profile '"@ + name + "' does not exist"@))
    }
}

/// The profiles of the configuration with their names, in name order.
pub fn list_profiles(config: &Config) -> (r: Vec<NamedProfile>)
    ensures
        r.len() == config.profiles.names().len(),
        forall|i: int| 0 <= i < r.len() ==> {
            &&& (#[trigger] r@[i]).name@ == config.profiles.names()[i]
            &&& config.profiles@.contains_key(r@[i].name@)
            &&& r@[i].profile@ == config.profiles@[r@[i].name@]
        },
        forall|k: Seq<char>|
            #![trigger config.profiles@.contains_key(k)]
            config.profiles@.contains_key(k) ==> exists|i: int| 0 <= i < r.len() && (#[trigger] r@[i]).name@ == k,
        config.profiles.names_are_keys(),
{
    let entries = config.profiles.entries();
    let mut out: Vec<NamedProfile> = Vec::new();
    let mut i: usize = 0;
    while i < entries.len()
        invariant
            i <= entries.len(),
            entries@ == config.profiles.entries_seq(),
            crate::profiles::entry_names(entries@) == config.profiles.names(),
            forall|k: int| 0 <= k < entries@.len() ==> config.profiles@.contains_key(#[trigger] entries@[k].0@)
                && config.profiles@[entries@[k].0@] == entries@[k].1@,
            out.len() == i,
            forall|k: int| 0 <= k < i ==> {
                &&& (#[trigger] out@[k]).name@ == config.profiles.names()[k]
                &&& config.profiles@.contains_key(out@[k].name@)
                &&& out@[k].profile@ == config.profiles@[out@[k].name@]
            },
        decreases entries.len() - i,
    {
        assert(crate::profiles::entry_names(entries@)[i as int] == entries@[i as int].0@);
        out.push(NamedProfile { name: entries[i].0.clone(), profile: entries[i].1.clone() });
        i = i + 1;
    }
    assert forall|k: Seq<char>| #![trigger config.profiles@.contains_key(k)] config.profiles@.contains_key(k) implies exists|
        i: int,
    | 0 <= i < out.len() && (#[trigger] out@[i]).name@ == k by {
        assert(config.profiles.names().contains(k));
        let i = choose|i: int| 0 <= i < config.profiles.names().len() && config.profiles.names()[i] == k;
        assert(out@[i].name@ == k);
    }
    out
}

/// One profile with its name.
pub fn get_profile(config: &Config, name: &str) -> (r: Result<NamedProfile, GitPersonaError>)
    ensures
        match lookup(config.profiles@, name@) {
            Ok(p) => r is Ok && r->Ok_0.name@ == name@ && r->Ok_0.profile@ == p,
            Err(e) => r is Err && r->Err_0@ == e,
        },
{
    match config.profiles.get(name) {
        Some(p) => Ok(NamedProfile { name: name.to_string(), profile: p.clone() }),
        None => Err(GitPersonaError::usage(cat3("profile '", name, "' does not exist"))),
    }
}

/// Why a profile may not be saved under a name: the name, the profile's
/// fields and its key files are checked, in that order.
pub open spec fn save_problem(name: Seq<char>, p: ProfileView, facts: LocalFacts) -> Option<ErrorView> {
    if regex_match_result(PROFILE_NAME_PATTERN@, name) != Some(true) {
        Some(name_error(name))
    } else if !profile_valid(p) {
        Some((ErrorKind::Usage, profile_problem(p)->0))
    } else {
        resource_problem(p, facts)
    }
}

fn check_save(name: &str, profile: &Profile, facts: &LocalFacts) -> (r: Result<(), GitPersonaError>)
    ensures
        match save_problem(name@, profile@, *facts) {
            None => r is Ok,
            Some(e) => r is Err && r->Err_0@ == e,
        },
{
    validate_profile_name(name)?;
    profile.validate()?;
    profile.validate_local_resources(facts)?;
    Ok(())
}

/// Why a new profile is refused: a save problem, or the name is taken.
pub open spec fn create_problem(m: Map<Seq<char>, ProfileView>, name: Seq<char>, p: ProfileView, facts: LocalFacts) -> Option<
    ErrorView,
> {
    match save_problem(name, p, facts) {
        Some(e) => Some(e),
        None => if m.contains_key(name) {
            Some((ErrorKind::Usage, "profile '"@ + name + "' already exists"@))
        } else {
            None
        },
    }
}

/// Adds a new profile under a name that is free.
pub fn create_profile(config: &mut Config, name: &str, profile: Profile, facts: &LocalFacts) -> (r: Result<
    NamedProfile,
    GitPersonaError,
>)
    ensures
        match create_problem(old(config).profiles@, name@, profile@, *facts) {
            Some(e) => r is Err && r->Err_0@ == e && final(config).profiles@ == old(config).profiles@,
            None => r is Ok && r->Ok_0.name@ == name@ && r->Ok_0.profile@ == profile@
                && final(config).profiles@ == old(config).profiles@.insert(name@, profile@),
        },
        rules_view(final(config).directories) == rules_view(old(config).directories),
        strings_view(final(config).repository_roots) == strings_view(old(config).repository_roots),
        final(config).schema_version == old(config).schema_version,
{
    check_save(name, &profile, facts)?;
    if config.profiles.contains_key(name) {
        return Err(GitPersonaError::usage(cat3("profile '", name, "' already exists")));
    }
    config.profiles.insert(name.to_string(), profile.clone());
    Ok(NamedProfile { name: name.to_string(), profile })
}

/// Why an edited profile is refused: a save problem, or no such profile.
pub open spec fn update_problem(m: Map<Seq<char>, ProfileView>, name: Seq<char>, p: ProfileView, facts: LocalFacts) -> Option<
    ErrorView,
> {
    match save_problem(name, p, facts) {
        Some(e) => Some(e),
        None => if !m.contains_key(name) {
            Some((ErrorKind::Usage, "profile '"@ + name + "' does not exist"@))
        } else {
            None
        },
    }
}

/// Replaces an existing profile.
pub fn update_profile(config: &mut Config, name: &str, profile: Profile, facts: &LocalFacts) -> (r: Result<
    NamedProfile,
    GitPersonaError,
>)
    ensures
        match update_problem(old(config).profiles@, name@, profile@, *facts) {
            Some(e) => r is Err && r->Err_0@ == e && final(config).profiles@ == old(config).profiles@,
            None => r is Ok && r->Ok_0.name@ == name@ && r->Ok_0.profile@ == profile@
                && final(config).profiles@ == old(config).profiles@.insert(name@, profile@),
        },
        rules_view(final(config).directories) == rules_view(old(config).directories),
        strings_view(final(config).repository_roots) == strings_view(old(config).repository_roots),
        final(config).schema_version == old(config).schema_version,
{
    check_save(name, &profile, facts)?;
    if !config.profiles.contains_key(name) {
        return Err(GitPersonaError::usage(cat3("profile '", name, "' does not exist")));
    }
    config.profiles.insert(name.to_string(), profile.clone());
    Ok(NamedProfile { name: name.to_string(), profile })
}

/// Why a profile may not be removed: it does not exist, or a directory
/// rule still applies it.
pub open spec fn remove_problem(config: Config, name: Seq<char>) -> Option<ErrorView> {
    if !config.profiles@.contains_key(name) {
        Some((ErrorKind::Usage, "profile '"@ + name + "' does not exist"@))
    } else if has_rule_for(rules_view(config.directories), name) {
        Some((ErrorKind::Usage, "profile '"@ + name + "' has directory rules; remove them first"@))
    } else {
        None
    }
}

/// Removes a profile that no directory rule applies.
pub fn remove_profile(config: &mut Config, name: &str) -> (r: Result<(), GitPersonaError>)
    ensures
        match remove_problem(*old(config), name@) {
            Some(e) => r is Err && r->Err_0@ == e && final(config).profiles@ == old(config).profiles@,
            None => r is Ok && final(config).profiles@ == old(config).profiles@.remove(name@),
        },
        rules_view(final(config).directories) == rules_view(old(config).directories),
        strings_view(final(config).repository_roots) == strings_view(old(config).repository_roots),
        final(config).schema_version == old(config).schema_version,
{
    if !config.profiles.contains_key(name) {
        return Err(GitPersonaError::usage(cat3("profile '", name, "' does not exist")));
    }
    if profile_has_rules(config, name) {
        return Err(GitPersonaError::usage(cat3("profile '", name, "' has directory rules; remove them first")));
    }
    config.profiles.remove(name);
    Ok(())
}

/// The rules after a rename: those of `old_name` now apply `new_name`.
pub open spec fn renamed_rules(rules: Seq<(Seq<char>, Seq<char>)>, old_name: Seq<char>, new_name: Seq<char>) -> Seq<
    (Seq<char>, Seq<char>),
> {
    rules.map_values(
        |r: (Seq<char>, Seq<char>)|
            if r.0 == old_name {
                (new_name, r.1)
            } else {
                r
            },
    )
}

/// Why a rename is refused: the new name is invalid, the profile does not
/// exist, or the new name is taken.
pub open spec fn rename_problem(m: Map<Seq<char>, ProfileView>, old_name: Seq<char>, new_name: Seq<char>) -> Option<
    ErrorView,
> {
    if regex_match_result(PROFILE_NAME_PATTERN@, new_name) != Some(true) {
        Some(name_error(new_name))
    } else if !m.contains_key(old_name) {
        Some((ErrorKind::Usage, "profile '"@ + old_name + "' does not exist"@))
    } else if m.contains_key(new_name) {
        Some((ErrorKind::Usage, "profile '"@ + new_name + "' already exists"@))
    } else {
        None
    }
}

/// Renames a profile, and the directory rules that apply it with it.
pub fn rename_profile(config: &mut Config, old_name: &str, new_name: &str) -> (r: Result<
    NamedProfile,
    GitPersonaError,
>)
    ensures
        match rename_problem(old(config).profiles@, old_name@, new_name@) {
            Some(e) => r is Err && r->Err_0@ == e && final(config).profiles@ == old(config).profiles@
                && rules_view(final(config).directories) == rules_view(old(config).directories),
            None => r is Ok && r->Ok_0.name@ == new_name@ && r->Ok_0.profile@ == old(config).profiles@[old_name@]
                && final(config).profiles@ == old(config).profiles@.remove(old_name@).insert(
                new_name@,
                old(config).profiles@[old_name@],
            ) && rules_view(final(config).directories) == renamed_rules(
                rules_view(old(config).directories),
                old_name@,
                new_name@,
            ),
        },
        strings_view(final(config).repository_roots) == strings_view(old(config).repository_roots),
        final(config).schema_version == old(config).schema_version,
{
    validate_profile_name(new_name)?;
    if !config.profiles.contains_key(old_name) {
        return Err(GitPersonaError::usage(cat3("profile '", old_name, "' does not exist")));
    }
    if config.profiles.contains_key(new_name) {
        return Err(GitPersonaError::usage(cat3("profile '", new_name, "' already exists")));
    }
    let profile = match config.profiles.remove(old_name) {
        Some(p) => p,
        None => {
            return Err(GitPersonaError::usage(cat3("profile '", old_name, "' does not exist")));
        },
    };
    config.profiles.insert(new_name.to_string(), profile.clone());
    let ghost rules = rules_view(config.directories);
    let ghost m1 = config.profiles@;
    let ghost roots0 = strings_view(config.repository_roots);
    let ghost schema0 = config.schema_version;
    let mut i: usize = 0;
    while i < config.directories.len()
        invariant
            i <= config.directories.len(),
            rules.len() == config.directories.len(),
            config.profiles@ == m1,
            strings_view(config.repository_roots) == roots0,
            config.schema_version == schema0,
            forall|k: int| 0 <= k < i ==> rules_view(config.directories)[k] == (if rules[k].0 == old_name@ {
                (new_name@, rules[k].1)
            } else {
                rules[k]
            }),
            forall|k: int| i <= k < rules.len() ==> rules_view(config.directories)[k] == rules[k],
        decreases config.directories.len() - i,
    {
        if str_eq(config.directories[i].profile.as_str(), old_name) {
            let path = config.directories[i].path.clone();
            let ghost before = rules_view(config.directories);
            config.directories.set(i, crate::config::DirectoryRule { profile: new_name.to_string(), path });
            assert(rules_view(config.directories) =~= before.update(i as int, (new_name@, rules[i as int].1)));
        }
        i = i + 1;
    }
    assert(rules_view(config.directories) =~= renamed_rules(rules, old_name@, new_name@));
    Ok(NamedProfile { name: new_name.to_string(), profile })
}

/// A profile just created is what a lookup of its name gives.
pub proof fn lemma_created_profile_is_found(m: Map<Seq<char>, ProfileView>, name: Seq<char>, p: ProfileView, facts: LocalFacts)
    requires
        create_problem(m, name, p, facts) is None,
    ensures
        lookup(m.insert(name, p), name) == Ok::<ProfileView, ErrorView>(p),
{
}

/// A name is refused for a second profile while the first exists.
pub proof fn lemma_create_refuses_a_taken_name(m: Map<Seq<char>, ProfileView>, name: Seq<char>, p: ProfileView, facts: LocalFacts)
    requires
        m.contains_key(name),
    ensures
        create_problem(m, name, p, facts) is Some,
{
}

/// After a removal, the name no longer finds a profile, and every other
/// name finds what it found before.
pub proof fn lemma_removed_profile_is_gone(config: Config, name: Seq<char>, other: Seq<char>)
    requires
        remove_problem(config, name) is None,
        other != name,
    ensures
        lookup(config.profiles@.remove(name), name) is Err,
        lookup(config.profiles@.remove(name), other) == lookup(config.profiles@, other),
{
}

/// A rename moves the profile: the new name finds what the old one found,
/// the old name finds nothing, and no rule still applies the old name.
pub proof fn lemma_rename_moves_profile_and_rules(
    m: Map<Seq<char>, ProfileView>,
    rules: Seq<(Seq<char>, Seq<char>)>,
    old_name: Seq<char>,
    new_name: Seq<char>,
)
    requires
        rename_problem(m, old_name, new_name) is None,
    ensures
        lookup(m.remove(old_name).insert(new_name, m[old_name]), new_name) == lookup(m, old_name),
        lookup(m.remove(old_name).insert(new_name, m[old_name]), old_name) is Err,
        !has_rule_for(renamed_rules(rules, old_name, new_name), old_name),
        has_rule_for(rules, old_name) ==> has_rule_for(renamed_rules(rules, old_name, new_name), new_name),
        renamed_rules(rules, old_name, new_name).len() == rules.len(),
{
    let n = renamed_rules(rules, old_name, new_name);
    assert(old_name != new_name);
    assert forall|i: int| 0 <= i < n.len() implies (#[trigger] crate::directory::rule_profiles(n)[i]) != old_name by {
        assert(crate::directory::rule_profiles(n)[i] == n[i].0);
    }
    if has_rule_for(rules, old_name) {
        let i = choose|i: int| 0 <= i < rules.len() && crate::directory::rule_profiles(rules)[i] == old_name;
        assert(crate::directory::rule_profiles(n)[i] == new_name);
    }
}

/// The signing format recorded in `gpg.format`: SSH when it says `ssh`,
/// OpenPGP otherwise.
pub fn signing_format_from(value: &Option<String>) -> (r: SigningFormat)
    ensures
        r == (if opt_view(*value) == Some("ssh"@) { SigningFormat::Ssh } else { SigningFormat::Openpgp }),
{
    match value {
        Some(v) => if str_eq(v.as_str(), "ssh") {
            SigningFormat::Ssh
        } else {
            SigningFormat::Openpgp
        },
        None => SigningFormat::Openpgp,
    }
}

/// Whether `commit.gpgSign` says `true`, ignoring ASCII case.
pub fn signing_required_from(value: &Option<String>) -> (r: bool)
    ensures
        r == (value is Some && eq_ignore_case(value->Some_0@, "true"@)),
{
    match value {
        Some(v) => eq_ignore_ascii_case(v.as_str(), "true"),
        None => false,
    }
}

/// What a repository's Git configuration holds that an import reads.
#[derive(Debug)]
pub struct ImportFacts {
    pub git_name: Option<String>,
    pub git_email: Option<String>,
    pub signing_key: Option<String>,
    pub gpg_format: Option<String>,
    pub gpg_sign: Option<String>,
}

/// The draft of a profile imported from a repository. An identity GitHub
/// CLI could not give becomes a warning, not an error.
pub fn import_draft(
    root: String,
    remote: &RemoteInfo,
    active: Result<Option<String>, GitPersonaError>,
    facts: &ImportFacts,
) -> (r: ProfileDraft)
    ensures
        r.repository@ == root@,
        match active {
            Ok(a) => opt_view(r.github_user) == opt_view(a) && r.warnings.len() == 0,
            Err(e) => r.github_user is None && strings_view(r.warnings) == seq![
                "GitHub CLI identity could not be imported: "@ + e@.1,
            ],
        },
        opt_view(r.git_name) == opt_view(facts.git_name),
        opt_view(r.git_email) == opt_view(facts.git_email),
        r.hostname@ == remote.hostname@,
        strings_view(r.allowed_owners) == seq![remote.owner@],
        opt_view(r.signing_key) == opt_view(facts.signing_key),
        r.signing_format == (if opt_view(facts.gpg_format) == Some("ssh"@) {
            SigningFormat::Ssh
        } else {
            SigningFormat::Openpgp
        }),
        r.require_signing == (facts.gpg_sign is Some && eq_ignore_case(facts.gpg_sign->Some_0@, "true"@)),
{
    let mut warnings: Vec<String> = Vec::new();
    let github_user = match active {
        Ok(a) => a,
        Err(e) => {
            warnings.push(cat("GitHub CLI identity could not be imported: ", e.message()));
            None
        },
    };
    let owners = vec![remote.owner.clone()];
    assert(strings_view(owners) =~= seq![remote.owner@]);
    let r = ProfileDraft {
        repository: root,
        github_user,
        git_name: clone_opt(&facts.git_name),
        git_email: clone_opt(&facts.git_email),
        hostname: remote.hostname.clone(),
        allowed_owners: owners,
        signing_key: clone_opt(&facts.signing_key),
        signing_format: signing_format_from(&facts.gpg_format),
        require_signing: signing_required_from(&facts.gpg_sign),
        warnings,
    };
    assert(strings_view(r.warnings) =~= match active {
        Ok(_) => Seq::<Seq<char>>::empty(),
        Err(e) => seq!["GitHub CLI identity could not be imported: "@ + e@.1],
    });
    r
}

/// The profile `profile import` makes of a repository: GitHub CLI's active
/// account, the repository's author and signing settings, and its remote's
/// host and (unless `no_owner`) owner. No SSH key is ever inferred.
pub open spec fn imported_profile_spec(remote: RemoteInfo, active: Option<Seq<char>>, facts: ImportFacts, no_owner: bool) -> Result<
    ProfileView,
    ErrorView,
> {
    match active {
        None => Err(
            (
                ErrorKind::Usage,
                "cannot import profile: GitHub CLI has no active account on "@ + remote.hostname@,
            ),
        ),
        Some(user) => match (opt_view(facts.git_name), opt_view(facts.git_email)) {
            (None, _) => Err((ErrorKind::Usage, "cannot import profile: Git author name is not configured"@)),
            (Some(_), None) => Err((ErrorKind::Usage, "cannot import profile: Git author email is not configured"@)),
            (Some(n), Some(m)) => Ok(
                ProfileView {
                    github_user: user,
                    git_name: n,
                    git_email: m,
                    hostname: remote.hostname@,
                    ssh_key: None,
                    allowed_owners: if no_owner { Seq::empty() } else { seq![remote.owner@] },
                    signing_key: opt_view(facts.signing_key),
                    signing_format: if opt_view(facts.gpg_format) == Some("ssh"@) {
                        SigningFormat::Ssh
                    } else {
                        SigningFormat::Openpgp
                    },
                    require_signing: facts.gpg_sign is Some && eq_ignore_case(facts.gpg_sign->Some_0@, "true"@),
                },
            ),
        },
    }
}

/// Builds the profile `profile import` saves.
pub fn imported_profile(remote: &RemoteInfo, active: &Option<String>, facts: &ImportFacts, no_owner: bool) -> (r: Result<
    Profile,
    GitPersonaError,
>)
    ensures
        match imported_profile_spec(*remote, opt_view(*active), *facts, no_owner) {
            Ok(p) => r is Ok && r->Ok_0@ == p,
            Err(e) => r is Err && r->Err_0@ == e,
        },
{
    let github_user = match active {
        None => {
            return Err(
                GitPersonaError::usage(
                    cat("cannot import profile: GitHub CLI has no active account on ", remote.hostname.as_str()),
                ),
            );
        },
        Some(u) => u.clone(),
    };
    let git_name = match &facts.git_name {
        None => {
            return Err(GitPersonaError::usage("cannot import profile: Git author name is not configured".to_string()));
        },
        Some(n) => n.clone(),
    };
    let git_email = match &facts.git_email {
        None => {
            return Err(GitPersonaError::usage("cannot import profile: Git author email is not configured".to_string()));
        },
        Some(m) => m.clone(),
    };
    let owners = if no_owner { Vec::new() } else { vec![remote.owner.clone()] };
    assert(strings_view(owners) =~= (if no_owner { Seq::<Seq<char>>::empty() } else { seq![remote.owner@] }));
    Ok(Profile {
        github_user,
        git_name,
        git_email,
        hostname: remote.hostname.clone(),
        ssh_key: None,
        allowed_owners: owners,
        signing_key: clone_opt(&facts.signing_key),
        signing_format: signing_format_from(&facts.gpg_format),
        require_signing: signing_required_from(&facts.gpg_sign),
    })
}

/// The report of an SSH test, from what SSH answered.
pub fn ssh_test_report(named: &NamedProfile, identity: SshIdentity) -> (r: SshTestReport)
    ensures
        r.profile@ == named.name@,
        r.expected_user@ == named.profile.github_user@,
        r.hostname@ == named.profile.hostname@,
        opt_view(r.key) == opt_view(named.profile.ssh_key),
        match identity@ {
            SshIdentityView::Verified(u) => r.status == SshTestStatus::Verified && opt_view(r.actual_user) == Some(u)
                && r.message@ == "SSH authenticates as "@ + u,
            SshIdentityView::Rejected(u) => r.status == SshTestStatus::Rejected && opt_view(r.actual_user) == Some(u)
                && r.message@ == "SSH authenticates as "@ + u + ", not "@ + named.profile.github_user@,
            SshIdentityView::Unavailable(reason) => r.status == SshTestStatus::Unavailable && r.actual_user is None
                && r.message@ == (if reason.len() == 0 { "SSH identity could not be verified"@ } else { reason }),
        },
{
    let (status, actual_user, message) = match identity {
        SshIdentity::Verified(user) => {
            let m = cat("SSH authenticates as ", user.as_str());
            (SshTestStatus::Verified, Some(user), m)
        },
        SshIdentity::Rejected(user) => {
            let m = cat3("SSH authenticates as ", user.as_str(), ", not ");
            let m = cat(m.as_str(), named.profile.github_user.as_str());
            (SshTestStatus::Rejected, Some(user), m)
        },
        SshIdentity::Unavailable(reason) => {
            let m = if reason.as_str().is_empty() { "SSH identity could not be verified".to_string() } else { reason };
            (SshTestStatus::Unavailable, None, m)
        },
    };
    SshTestReport {
        profile: named.name.clone(),
        expected_user: named.profile.github_user.clone(),
        actual_user,
        hostname: named.profile.hostname.clone(),
        key: clone_opt(&named.profile.ssh_key),
        status,
        message,
    }
}

/// The first line of a program's trimmed output, or `available` when it
/// printed nothing.
pub open spec fn version_line(text: Seq<char>) -> Seq<char> {
    if lines(trim(text)).len() > 0 {
        lines(trim(text))[0]
    } else {
        "available"@
    }
}

/// How a program answered `doctor`: it ran, it timed out, or it could not
/// be run.
pub fn dependency_status(program: &str, remediation: &str, outcome: &Result<ProcessOutput, GitPersonaError>) -> (r:
    DependencyStatus)
    ensures
        r.name@ == program@,
        match outcome {
            Ok(o) => if o.code is Some {
                r.state == DependencyState::Available && r.detail@ == version_line(o.stdout@ + o.stderr@)
                    && r.remediation is None
            } else {
                r.state == DependencyState::Unavailable && r.detail@ == "timed out"@ && opt_view(
                    r.remediation,
                ) == Some(remediation@)
            },
            Err(e) => r.state == DependencyState::Unavailable && r.detail@ == e@.1 && opt_view(r.remediation)
                == Some(remediation@),
        },
{
    match outcome {
        Ok(o) => if o.code.is_some() {
            let all = o.combined();
            let t = trim_str(all.as_str());
            let ls = split_lines(t.as_str());
            let detail = if ls.len() > 0 {
                assert(ls@.map_values(|l: String| l@)[0] == ls@[0]@);
                ls[0].clone()
            } else {
                "available".to_string()
            };
            DependencyStatus {
                name: program.to_string(),
                state: DependencyState::Available,
                detail,
                remediation: None,
            }
        } else {
            DependencyStatus {
                name: program.to_string(),
                state: DependencyState::Unavailable,
                detail: "timed out".to_string(),
                remediation: Some(remediation.to_string()),
            }
        },
        Err(e) => DependencyStatus {
            name: program.to_string(),
            state: DependencyState::Unavailable,
            detail: e.message().to_string(),
            remediation: Some(remediation.to_string()),
        },
    }
}

/// The programs `doctor` runs: the program, its version flag and what to
/// do when it is missing.
pub fn doctor_programs() -> (r: Vec<(&'static str, &'static str, &'static str)>)
    ensures
        r.len() == 3,
        r@[0].0@ == "git"@ && r@[0].1@ == "--version"@,
        r@[1].0@ == "gh"@ && r@[1].1@ == "--version"@,
        r@[2].0@ == "ssh"@ && r@[2].1@ == "-V"@,
        r@[0].2@ == "Install Git and ensure it is on PATH."@,
        r@[1].2@ == "Install GitHub CLI and authenticate the accounts used by your profiles."@,
        r@[2].2@ == "Install OpenSSH and ensure it is on PATH."@,
{
    vec![
        ("git", "--version", "Install Git and ensure it is on PATH."),
        ("gh", "--version", "Install GitHub CLI and authenticate the accounts used by your profiles."),
        ("ssh", "-V", "Install OpenSSH and ensure it is on PATH."),
    ]
}

/// The problem `doctor` reports for each profile whose key files are
/// missing, in name order: `<name>: <error>`.
pub open spec fn profile_issues_of(entries: Seq<(String, Profile)>, facts: LocalFacts) -> Seq<Seq<char>>
    decreases entries.len(),
{
    if entries.len() == 0 {
        Seq::empty()
    } else {
        let rest = profile_issues_of(entries.drop_last(), facts);
        match resource_problem(entries.last().1@, facts) {
            Some(e) => rest.push(entries.last().0@ + ": "@ + e.1),
            None => rest,
        }
    }
}

/// Each profile whose key files are missing, in name order, with the
/// reason: what `doctor` prints as unavailable.
pub open spec fn profile_problems_of(entries: Seq<(String, Profile)>, facts: LocalFacts) -> Seq<(Seq<char>, Seq<char>)>
    decreases entries.len(),
{
    if entries.len() == 0 {
        Seq::empty()
    } else {
        let rest = profile_problems_of(entries.drop_last(), facts);
        match resource_problem(entries.last().1@, facts) {
            Some(e) => rest.push((entries.last().0@, e.1)),
            None => rest,
        }
    }
}

/// Names with reasons, as plain values.
pub open spec fn problems_view(v: Vec<(String, String)>) -> Seq<(Seq<char>, Seq<char>)> {
    v@.map_values(|p: (String, String)| (p.0@, p.1@))
}

/// Why a profile's key files are unavailable (empty when they are not).
pub open spec fn problem_text(p: ProfileView, facts: LocalFacts) -> Seq<char> {
    match resource_problem(p, facts) {
        Some(e) => e.1,
        None => Seq::empty(),
    }
}

proof fn lemma_problem_listed(e: Seq<(String, Profile)>, facts: LocalFacts, i: int)
    requires
        0 <= i < e.len(),
        resource_problem(e[i].1@, facts) is Some,
    ensures
        profile_problems_of(e, facts).contains((e[i].0@, problem_text(e[i].1@, facts))),
        profile_issues_of(e, facts).contains(e[i].0@ + ": "@ + problem_text(e[i].1@, facts)),
    decreases e.len(),
{
    let d = e.drop_last();
    let p = profile_problems_of(d, facts);
    let q = profile_issues_of(d, facts);
    if i == e.len() - 1 {
        assert(profile_problems_of(e, facts) == p.push((e[i].0@, problem_text(e[i].1@, facts))));
        assert(profile_problems_of(e, facts)[p.len() as int] == (e[i].0@, problem_text(e[i].1@, facts)));
        assert(profile_issues_of(e, facts)[q.len() as int] == e[i].0@ + ": "@ + problem_text(e[i].1@, facts));
    } else {
        assert(d[i] == e[i]);
        lemma_problem_listed(d, facts, i);
        let x = (e[i].0@, problem_text(e[i].1@, facts));
        let j = choose|j: int| 0 <= j < p.len() && p[j] == x;
        assert(profile_problems_of(e, facts)[j] == x);
        let y = e[i].0@ + ": "@ + problem_text(e[i].1@, facts);
        let l = choose|l: int| 0 <= l < q.len() && q[l] == y;
        assert(profile_issues_of(e, facts)[l] == y);
    }
}

proof fn lemma_problem_source(e: Seq<(String, Profile)>, facts: LocalFacts, j: int)
    requires
        0 <= j < profile_problems_of(e, facts).len(),
    ensures
        exists|i: int|
            0 <= i < e.len() && e[i].0@ == profile_problems_of(e, facts)[j].0 && resource_problem(e[i].1@, facts)
                is Some && problem_text(e[i].1@, facts) == profile_problems_of(e, facts)[j].1,
    decreases e.len(),
{
    let d = e.drop_last();
    let p = profile_problems_of(d, facts);
    if j < p.len() {
        assert(profile_problems_of(e, facts)[j] == p[j]);
        lemma_problem_source(d, facts, j);
        let i = choose|i: int|
            0 <= i < d.len() && d[i].0@ == p[j].0 && resource_problem(d[i].1@, facts) is Some && problem_text(d[i].1@, facts) == p[j].1;
        assert(e[i] == d[i]);
    } else {
        assert(e[e.len() - 1] == e.last());
    }
}

/// The profiles whose key files are missing, with the reason.
pub fn profile_problems(config: &Config, facts: &LocalFacts) -> (r: Vec<(String, String)>)
    ensures
        problems_view(r) == profile_problems_of(config.profiles.entries_seq(), *facts),
        forall|k: Seq<char>, m: Seq<char>|
            #![trigger config.profiles@.contains_key(k), problems_view(r).contains((k, m))]
            problems_view(r).contains((k, m)) <==> (config.profiles@.contains_key(k)
                && resource_problem(config.profiles@[k], *facts) is Some && problem_text(config.profiles@[k], *facts) == m),
{
    let entries = config.profiles.entries();
    let mut problems: Vec<(String, String)> = Vec::new();
    let mut i: usize = 0;
    assert(entries@.subrange(0, 0) =~= Seq::<(String, Profile)>::empty());
    while i < entries.len()
        invariant
            i <= entries.len(),
            entries@ == config.profiles.entries_seq(),
            problems_view(problems) == profile_problems_of(
                entries@.subrange(0, i as int),
                *facts,
            ),
        decreases entries.len() - i,
    {
        let ghost t = entries@.subrange(0, i + 1);
        assert(t.drop_last() =~= entries@.subrange(0, i as int));
        assert(t.last() == entries@[i as int]);
        match entries[i].1.validate_local_resources(facts) {
            Err(e) => {
                let ghost before = problems_view(problems);
                problems.push((entries[i].0.clone(), e.message().to_string()));
                assert(problems_view(problems) =~= before.push(
                    (entries@[i as int].0@, e@.1),
                ));
            },
            Ok(()) => {},
        }
        i = i + 1;
    }
    assert(entries@.subrange(0, entries.len() as int) =~= entries@);
    proof {
        let e = entries@;
        let pv = problems_view(problems);
        let names = config.profiles.names();
        assert forall|k: Seq<char>, m: Seq<char>|
            #![trigger config.profiles@.contains_key(k), pv.contains((k, m))]
            pv.contains((k, m)) <==> (config.profiles@.contains_key(k) && resource_problem(
                config.profiles@[k],
                *facts,
            ) is Some && problem_text(config.profiles@[k], *facts) == m) by {
            if pv.contains((k, m)) {
                let j = choose|j: int| 0 <= j < pv.len() && pv[j] == (k, m);
                lemma_problem_source(e, *facts, j);
                let i = choose|i: int|
                    0 <= i < e.len() && e[i].0@ == pv[j].0 && resource_problem(e[i].1@, *facts) is Some
                        && problem_text(e[i].1@, *facts) == pv[j].1;
                assert(config.profiles@.contains_key(e[i].0@));
            }
            if config.profiles@.contains_key(k) && resource_problem(config.profiles@[k], *facts) is Some
                && problem_text(config.profiles@[k], *facts) == m {
                assert(names.contains(k));
                let i = choose|i: int| 0 <= i < names.len() && names[i] == k;
                assert(crate::profiles::entry_names(e)[i] == e[i].0@);
                assert(config.profiles@.contains_key(e[i].0@));
                lemma_problem_listed(e, *facts, i);
            }
        }
    }
    problems
}

pub open spec fn all_available(deps: Seq<DependencyStatus>) -> bool {
    forall|i: int| 0 <= i < deps.len() ==> (#[trigger] deps[i]).state == DependencyState::Available
}

/// The `doctor` report: healthy when every program answered and every
/// profile's key files exist.
pub fn doctor_report(config_path: &str, config: &Config, dependencies: Vec<DependencyStatus>, facts: &LocalFacts) -> (r:
    DoctorReport)
    ensures
        r.config_path@ == config_path@,
        r.schema_version == config.schema_version,
        r.profile_count == config.profiles.names().len(),
        r.dependencies@ == dependencies@,
        strings_view(r.profile_issues) == profile_issues_of(config.profiles.entries_seq(), *facts),
        r.healthy == (all_available(dependencies@) && profile_issues_of(config.profiles.entries_seq(), *facts).len() == 0),
        forall|k: Seq<char>|
            #![trigger config.profiles@.contains_key(k)]
            config.profiles@.contains_key(k) && resource_problem(config.profiles@[k], *facts) is Some ==> strings_view(
                r.profile_issues,
            ).contains(k + ": "@ + problem_text(config.profiles@[k], *facts)),
{
    let entries = config.profiles.entries();
    let mut issues: Vec<String> = Vec::new();
    let mut i: usize = 0;
    assert(entries@.subrange(0, 0) =~= Seq::<(String, Profile)>::empty());
    while i < entries.len()
        invariant
            i <= entries.len(),
            entries@ == config.profiles.entries_seq(),
            strings_view(issues) == profile_issues_of(entries@.subrange(0, i as int), *facts),
        decreases entries.len() - i,
    {
        let ghost t = entries@.subrange(0, i + 1);
        assert(t.drop_last() =~= entries@.subrange(0, i as int));
        assert(t.last() == entries@[i as int]);
        match entries[i].1.validate_local_resources(facts) {
            Err(e) => {
                let ghost before = strings_view(issues);
                issues.push(cat3(entries[i].0.as_str(), ": ", e.message()));
                assert(strings_view(issues) =~= before.push(entries@[i as int].0@ + ": "@ + e@.1));
            },
            Ok(()) => {},
        }
        i = i + 1;
    }
    assert(entries@.subrange(0, entries.len() as int) =~= entries@);
    proof {
        let e = entries@;
        let names = config.profiles.names();
        assert forall|k: Seq<char>| #![trigger config.profiles@.contains_key(k)]
            config.profiles@.contains_key(k) && resource_problem(config.profiles@[k], *facts) is Some implies strings_view(
                issues,
            ).contains(k + ": "@ + problem_text(config.profiles@[k], *facts)) by {
            assert(names.contains(k));
            let i = choose|i: int| 0 <= i < names.len() && names[i] == k;
            assert(crate::profiles::entry_names(e)[i] == e[i].0@);
            assert(config.profiles@.contains_key(e[i].0@));
            lemma_problem_listed(e, *facts, i);
        }
    }
    let mut healthy = true;
    let mut j: usize = 0;
    while j < dependencies.len()
        invariant
            j <= dependencies.len(),
            healthy == (forall|k: int| 0 <= k < j ==> (#[trigger] dependencies@[k]).state == DependencyState::Available),
        decreases dependencies.len() - j,
    {
        healthy = healthy && dependencies[j].state == DependencyState::Available;
        j = j + 1;
    }
    let healthy = healthy && issues.len() == 0;
    DoctorReport {
        config_path: config_path.to_string(),
        schema_version: config.schema_version,
        profile_count: config.profiles.len(),
        dependencies,
        profile_issues: issues,
        healthy,
    }
}

/// Approves a repository root, which the caller has resolved, unless it is
/// approved already.
pub fn add_repository_root(config: &mut Config, root: &str, windows: bool)
    ensures
        (exists|i: int| 0 <= i < old(config).repository_roots.len() && same_dir(
            old(config).repository_roots@[i]@,
            root@,
            windows,
        )) ==> strings_view(final(config).repository_roots) == strings_view(old(config).repository_roots),
        !(exists|i: int| 0 <= i < old(config).repository_roots.len() && same_dir(
            old(config).repository_roots@[i]@,
            root@,
            windows,
        )) ==> strings_view(final(config).repository_roots) == strings_view(old(config).repository_roots).push(root@),
        final(config).profiles@ == old(config).profiles@,
        rules_view(final(config).directories) == rules_view(old(config).directories),
        final(config).schema_version == old(config).schema_version,
{
    let mut i: usize = 0;
    while i < config.repository_roots.len()
        invariant
            i <= config.repository_roots.len(),
            forall|k: int| 0 <= k < i ==> !same_dir(config.repository_roots@[k]@, root@, windows),
        decreases config.repository_roots.len() - i,
    {
        if paths_equal(config.repository_roots[i].as_str(), root, windows) {
            return;
        }
        i = i + 1;
    }
    let ghost before = strings_view(config.repository_roots);
    config.repository_roots.push(root.to_string());
    assert(strings_view(config.repository_roots) =~= before.push(root@));
}

/// The roots left after removing those equal to `root`.
pub open spec fn roots_without(roots: Seq<Seq<char>>, root: Seq<char>, windows: bool) -> Seq<Seq<char>>
    decreases roots.len(),
{
    if roots.len() == 0 {
        roots
    } else if same_dir(roots.last(), root, windows) {
        roots_without(roots.drop_last(), root, windows)
    } else {
        roots_without(roots.drop_last(), root, windows).push(roots.last())
    }
}

/// Withdraws the approval of a repository root; refused when it was not
/// approved.
pub fn remove_repository_root(config: &mut Config, root: &str, windows: bool) -> (r: Result<(), GitPersonaError>)
    ensures
        roots_without(strings_view(old(config).repository_roots), root@, windows).len() == old(config).repository_roots.len()
            ==> r is Err && r->Err_0@ == (ErrorKind::Usage, "approved repository root does not exist"@)
            && strings_view(final(config).repository_roots) == strings_view(old(config).repository_roots),
        roots_without(strings_view(old(config).repository_roots), root@, windows).len() != old(config).repository_roots.len()
            ==> r is Ok && strings_view(final(config).repository_roots) == roots_without(
            strings_view(old(config).repository_roots),
            root@,
            windows,
        ),
        final(config).profiles@ == old(config).profiles@,
        rules_view(final(config).directories) == rules_view(old(config).directories),
        final(config).schema_version == old(config).schema_version,
{
    let ghost roots = strings_view(config.repository_roots);
    let mut kept: Vec<String> = Vec::new();
    let mut i: usize = 0;
    assert(roots.subrange(0, 0) =~= Seq::<Seq<char>>::empty());
    assert(strings_view(kept) =~= roots_without(roots.subrange(0, 0), root@, windows));
    while i < config.repository_roots.len()
        invariant
            i <= config.repository_roots.len(),
            roots == strings_view(config.repository_roots),
            strings_view(kept) == roots_without(roots.subrange(0, i as int), root@, windows),
        decreases config.repository_roots.len() - i,
    {
        let ghost t = roots.subrange(0, i + 1);
        assert(t.drop_last() =~= roots.subrange(0, i as int));
        assert(t.last() == roots[i as int]);
        if !paths_equal(config.repository_roots[i].as_str(), root, windows) {
            let ghost before = strings_view(kept);
            kept.push(config.repository_roots[i].clone());
            assert(strings_view(kept) =~= before.push(roots[i as int]));
        }
        i = i + 1;
    }
    assert(roots.subrange(0, config.repository_roots.len() as int) =~= roots);
    if kept.len() == config.repository_roots.len() {
        return Err(GitPersonaError::usage("approved repository root does not exist".to_string()));
    }
    config.repository_roots = kept;
    Ok(())
}

} // verus!
