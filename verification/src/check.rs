//! Identity checks: the repository's actual state against its profile.
use crate::binding::{ssh_command_for, ErrorView};
use crate::config::{opt_view, strings_view, Config, LocalFacts, Profile, ProfileView};
use crate::error::GitPersonaError;
use crate::remote::{RemoteInfo, RemoteInfoView, RemoteProtocol};
use crate::ssh::{SshIdentity, SshIdentityView};
use crate::text::{cat, eq_ignore_ascii_case, eq_ignore_case, str_eq};
use vstd::prelude::*;

verus! {

/// The result of one check.
#[derive(Debug, Clone, Copy, PartialEq, Eq, Structural)]
pub enum CheckStatus {
    Passed,
    Warning,
    Failure,
    Unverified,
}

/// One check: what was expected, what was found, and what it means.
#[derive(Debug)]
pub struct CheckItem {
    pub id: String,
    pub status: CheckStatus,
    pub expected: Option<String>,
    pub actual: Option<String>,
    pub message: String,
}

pub ghost struct CheckItemView {
    pub id: Seq<char>,
    pub status: CheckStatus,
    pub expected: Option<Seq<char>>,
    pub actual: Option<Seq<char>>,
    pub message: Seq<char>,
}

impl View for CheckItem {
    type V = CheckItemView;

    open spec fn view(&self) -> CheckItemView {
        CheckItemView {
            id: self.id@,
            status: self.status,
            expected: opt_view(self.expected),
            actual: opt_view(self.actual),
            message: self.message@,
        }
    }
}

pub open spec fn items_view(v: Vec<CheckItem>) -> Seq<CheckItemView> {
    v@.map_values(|c: CheckItem| c@)
}

/// The summary of all checks.
#[derive(Debug, Clone, Copy, PartialEq, Eq, Structural)]
pub enum OverallStatus {
    Passed,
    Warning,
    Failure,
}

/// Every check made on one repository.
#[derive(Debug)]
pub struct CheckReport {
    pub repository: String,
    pub profile: Option<String>,
    pub remote: Option<RemoteInfo>,
    pub overall: OverallStatus,
    pub checks: Vec<CheckItem>,
}

/// What to inspect: the remote's name, and whether to ask GitHub CLI and
/// SSH (which may contact the network).
pub struct CheckOptions<'a> {
    pub remote_name: &'a str,
    pub network: bool,
}

pub open spec fn any_status(items: Seq<CheckItemView>, s: CheckStatus) -> bool {
    exists|i: int| 0 <= i < items.len() && (#[trigger] items[i]).status == s
}

/// Failure if any check failed, else Warning if any warned or could not be
/// verified, else Ok.
pub open spec fn overall_of(items: Seq<CheckItemView>) -> OverallStatus {
    if any_status(items, CheckStatus::Failure) {
        OverallStatus::Failure
    } else if any_status(items, CheckStatus::Warning) || any_status(items, CheckStatus::Unverified) {
        OverallStatus::Warning
    } else {
        OverallStatus::Passed
    }
}

/// A report can be enforced (a hook may let work proceed) only when no check
/// failed and none is unverified.
pub open spec fn enforceable_items(items: Seq<CheckItemView>) -> bool {
    !any_status(items, CheckStatus::Failure) && !any_status(items, CheckStatus::Unverified)
}

fn has_status(items: &Vec<CheckItem>, s: CheckStatus) -> (r: bool)
    ensures
        r == any_status(items_view(*items), s),
{
    let mut i: usize = 0;
    while i < items.len()
        invariant
            i <= items.len(),
            forall|k: int| 0 <= k < i ==> (#[trigger] items_view(*items)[k]).status != s,
        decreases items.len() - i,
    {
        if items[i].status == s {
            assert(items_view(*items)[i as int].status == s);
            return true;
        }
        i = i + 1;
    }
    false
}

impl CheckReport {
    /// The exit code of `check` and `status`: 1 when enforcing a report
    /// that has a failure or an unverified item, else 0.
    pub fn exit_code(&self, enforce: bool) -> (r: u8)
        ensures
            r == (if enforce && !enforceable_items(items_view(self.checks)) {
                1u8
            } else {
                0u8
            }),
    {
        if enforce && !self.enforceable() {
            1
        } else {
            0
        }
    }

    pub fn enforceable(&self) -> (r: bool)
        ensures
            r == enforceable_items(items_view(self.checks)),
    {
        !has_status(&self.checks, CheckStatus::Failure) && !has_status(
            &self.checks,
            CheckStatus::Unverified,
        )
    }
}

pub open spec fn item_view(
    id: Seq<char>,
    status: CheckStatus,
    expected: Option<Seq<char>>,
    actual: Option<Seq<char>>,
    message: Seq<char>,
) -> CheckItemView {
    CheckItemView { id, status, expected, actual, message }
}

pub fn item(
    id: &str,
    status: CheckStatus,
    expected: Option<String>,
    actual: Option<String>,
    message: String,
) -> (r: CheckItem)
    ensures
        r@ == item_view(id@, status, opt_view(expected), opt_view(actual), message@),
{
    CheckItem { id: String::from_str(id), status, expected, actual, message }
}

/// Puts the overall status on a list of checks.
pub fn finish(
    repository: String,
    profile: Option<String>,
    remote: Option<RemoteInfo>,
    checks: Vec<CheckItem>,
) -> (r: CheckReport)
    ensures
        r.repository@ == repository@,
        opt_view(r.profile) == opt_view(profile),
        r.remote == remote,
        items_view(r.checks) == items_view(checks),
        r.overall == overall_of(items_view(checks)),
{
    let overall = if has_status(&checks, CheckStatus::Failure) {
        OverallStatus::Failure
    } else if has_status(&checks, CheckStatus::Warning) || has_status(
        &checks,
        CheckStatus::Unverified,
    ) {
        OverallStatus::Warning
    } else {
        OverallStatus::Passed
    };
    CheckReport { repository, profile, remote, overall, checks }
}

/// A report that reaches Ok has nothing left to enforce against; a report
/// with a failed check is a failure and cannot be enforced; an unverified
/// check keeps a report from Ok and from being enforceable.
pub proof fn lemma_overall_matches_enforcement(items: Seq<CheckItemView>)
    ensures
        overall_of(items) == OverallStatus::Passed ==> enforceable_items(items),
        any_status(items, CheckStatus::Failure) ==> overall_of(items) == OverallStatus::Failure
            && !enforceable_items(items),
        any_status(items, CheckStatus::Unverified) ==> overall_of(items) != OverallStatus::Passed
            && !enforceable_items(items),
{
}

pub open spec fn equal_item(id: Seq<char>, expected: Seq<char>, actual: Option<Seq<char>>, label: Seq<char>) -> CheckItemView {
    if actual == Some(expected) {
        item_view(id, CheckStatus::Passed, Some(expected), actual, label + " matches the profile"@)
    } else {
        item_view(id, CheckStatus::Failure, Some(expected), actual, label + " does not match the profile"@)
    }
}

pub open spec fn equal_ci_item(
    id: Seq<char>,
    expected: Seq<char>,
    actual: Option<Seq<char>>,
    label: Seq<char>,
) -> CheckItemView {
    if actual is Some && eq_ignore_case(actual->0, expected) {
        item_view(id, CheckStatus::Passed, Some(expected), actual, label + " matches the profile"@)
    } else {
        item_view(id, CheckStatus::Failure, Some(expected), actual, label + " does not match the profile"@)
    }
}

fn push_item(checks: &mut Vec<CheckItem>, c: CheckItem)
    ensures
        items_view(*final(checks)) == items_view(*old(checks)).push(c@),
{
    let ghost before = items_view(*checks);
    checks.push(c);
    assert(items_view(*checks) =~= before.push(c@));
}

/// Records whether `actual` is exactly `expected`.
pub fn check_equal(
    checks: &mut Vec<CheckItem>,
    id: &str,
    expected: &str,
    actual: Option<&str>,
    label: &str,
)
    ensures
        items_view(*final(checks)) == items_view(*old(checks)).push(
            equal_item(
                id@,
                expected@,
                match actual {
                    Some(a) => Some(a@),
                    None => None,
                },
                label@,
            ),
        ),
{
    let actual_owned: Option<String> = match actual {
        Some(a) => Some(String::from_str(a)),
        None => None,
    };
    let same = match actual {
        Some(a) => str_eq(a, expected),
        None => false,
    };
    if same {
        push_item(
            checks,
            item(
                id,
                CheckStatus::Passed,
                Some(String::from_str(expected)),
                actual_owned,
                cat(label, " matches the profile"),
            ),
        );
    } else {
        push_item(
            checks,
            item(
                id,
                CheckStatus::Failure,
                Some(String::from_str(expected)),
                actual_owned,
                cat(label, " does not match the profile"),
            ),
        );
    }
}

/// Records whether `actual` is `expected` up to ASCII case.
pub fn check_equal_case_insensitive(
    checks: &mut Vec<CheckItem>,
    id: &str,
    expected: &str,
    actual: Option<&str>,
    label: &str,
)
    ensures
        items_view(*final(checks)) == items_view(*old(checks)).push(
            equal_ci_item(
                id@,
                expected@,
                match actual {
                    Some(a) => Some(a@),
                    None => None,
                },
                label@,
            ),
        ),
{
    let actual_owned: Option<String> = match actual {
        Some(a) => Some(String::from_str(a)),
        None => None,
    };
    let same = match actual {
        Some(a) => eq_ignore_ascii_case(a, expected),
        None => false,
    };
    if same {
        push_item(
            checks,
            item(
                id,
                CheckStatus::Passed,
                Some(String::from_str(expected)),
                actual_owned,
                cat(label, " matches the profile"),
            ),
        );
    } else {
        push_item(
            checks,
            item(
                id,
                CheckStatus::Failure,
                Some(String::from_str(expected)),
                actual_owned,
                cat(label, " does not match the profile"),
            ),
        );
    }
}

/// The items joined with a separator, as `[String]::join`.
pub open spec fn join_with(v: Seq<Seq<char>>, sep: Seq<char>) -> Seq<char>
    decreases v.len(),
{
    if v.len() == 0 {
        Seq::<char>::empty()
    } else if v.len() == 1 {
        v[0]
    } else {
        join_with(v.drop_last(), sep) + sep + v.last()
    }
}

pub fn join_strings(v: &Vec<String>, sep: &str) -> (r: String)
    ensures
        r@ == join_with(strings_view(*v), sep@),
{
    let mut r = String::new();
    let ghost sv = strings_view(*v);
    let mut i: usize = 0;
    assert(sv.subrange(0, 0) =~= Seq::<Seq<char>>::empty());
    while i < v.len()
        invariant
            i <= v.len(),
            sv == strings_view(*v),
            r@ == join_with(sv.subrange(0, i as int), sep@),
        decreases v.len() - i,
    {
        let ghost t = sv.subrange(0, i + 1);
        assert(t.drop_last() =~= sv.subrange(0, i as int));
        assert(t.last() == v@[i as int]@);
        if i > 0 {
            r.append(sep);
        }
        r.append(v[i].as_str());
        i = i + 1;
    }
    assert(sv.subrange(0, v.len() as int) =~= sv);
    r
}

pub open spec fn owner_allowed(owners: Seq<Seq<char>>, owner: Seq<char>) -> bool {
    exists|i: int| 0 <= i < owners.len() && eq_ignore_case(#[trigger] owners[i], owner)
}

pub fn is_owner_allowed(owners: &Vec<String>, owner: &str) -> (r: bool)
    ensures
        r == owner_allowed(strings_view(*owners), owner@),
{
    let mut i: usize = 0;
    while i < owners.len()
        invariant
            i <= owners.len(),
            forall|k: int| 0 <= k < i ==> !eq_ignore_case(#[trigger] strings_view(*owners)[k], owner@),
        decreases owners.len() - i,
    {
        if eq_ignore_ascii_case(owners[i].as_str(), owner) {
            assert(eq_ignore_case(strings_view(*owners)[i as int], owner@));
            return true;
        }
        i = i + 1;
    }
    false
}

pub open spec fn owner_item(p: ProfileView, r: RemoteInfoView) -> CheckItemView {
    if p.allowed_owners.len() == 0 {
        item_view(
            "owner"@,
            CheckStatus::Passed,
            None,
            Some(r.owner),
            "remote owner is reported; this profile has no owner restriction"@,
        )
    } else if owner_allowed(p.allowed_owners, r.owner) {
        item_view(
            "owner"@,
            CheckStatus::Passed,
            Some(join_with(p.allowed_owners, ", "@)),
            Some(r.owner),
            "remote owner is allowed"@,
        )
    } else {
        item_view(
            "owner"@,
            CheckStatus::Failure,
            Some(join_with(p.allowed_owners, ", "@)),
            Some(r.owner),
            "remote owner is not allowed by this profile"@,
        )
    }
}

/// A plain-HTTP remote sends credentials and code in cleartext.
pub open spec fn transport_items(r: RemoteInfoView) -> Seq<CheckItemView> {
    if r.protocol == RemoteProtocol::Http {
        seq![
            item_view(
                "transport"@,
                CheckStatus::Failure,
                Some("https or ssh"@),
                Some("http"@),
                "remote uses cleartext HTTP; use HTTPS or SSH"@,
            ),
        ]
    } else {
        Seq::empty()
    }
}

pub open spec fn ssh_command_items(
    p: ProfileView,
    r: RemoteInfoView,
    local_command: Option<Seq<char>>,
    facts: LocalFacts,
) -> Seq<CheckItemView> {
    if r.protocol == RemoteProtocol::Ssh {
        match ssh_command_for(p, facts) {
            Ok(c) => seq![equal_item("ssh_command"@, c, local_command, "repository SSH command"@)],
            Err(e) => seq![item_view("ssh_command"@, CheckStatus::Failure, None, None, e.1)],
        }
    } else {
        Seq::empty()
    }
}

/// What GitHub CLI, SSH and Git's credential helpers reported for the
/// profile's host.
pub struct NetworkFacts {
    pub active_account: Result<Option<String>, GitPersonaError>,
    pub ssh_identity: Result<SshIdentity, GitPersonaError>,
    pub credential_helper: Result<bool, GitPersonaError>,
}

pub ghost struct NetworkView {
    pub active_account: Result<Option<Seq<char>>, ErrorView>,
    pub ssh_identity: Result<SshIdentityView, ErrorView>,
    pub credential_helper: Result<bool, ErrorView>,
}

impl View for NetworkFacts {
    type V = NetworkView;

    open spec fn view(&self) -> NetworkView {
        NetworkView {
            active_account: match self.active_account {
                Ok(a) => Ok(opt_view(a)),
                Err(e) => Err(e@),
            },
            ssh_identity: match self.ssh_identity {
                Ok(i) => Ok(i@),
                Err(e) => Err(e@),
            },
            credential_helper: match self.credential_helper {
                Ok(b) => Ok(b),
                Err(e) => Err(e@),
            },
        }
    }
}

pub open spec fn github_item(p: ProfileView, active: Result<Option<Seq<char>>, ErrorView>) -> CheckItemView {
    match active {
        Ok(Some(a)) => if eq_ignore_case(a, p.github_user) {
            item_view(
                "github_cli"@,
                CheckStatus::Passed,
                Some(p.github_user),
                Some(a),
                "GitHub CLI account matches the profile"@,
            )
        } else {
            item_view(
                "github_cli"@,
                CheckStatus::Failure,
                Some(p.github_user),
                Some(a),
                "GitHub CLI account does not match the profile"@,
            )
        },
        Ok(None) => item_view(
            "github_cli"@,
            CheckStatus::Unverified,
            Some(p.github_user),
            None,
            "GitHub CLI has no active account for this host"@,
        ),
        Err(e) => item_view(
            "github_cli"@,
            CheckStatus::Unverified,
            Some(p.github_user),
            None,
            "could not verify GitHub CLI identity: "@ + e.1,
        ),
    }
}

pub open spec fn identity_item(p: ProfileView, r: RemoteInfoView, n: NetworkView) -> CheckItemView {
    if r.protocol == RemoteProtocol::Ssh {
        match n.ssh_identity {
            Ok(SshIdentityView::Verified(u)) => item_view(
                "ssh_identity"@,
                CheckStatus::Passed,
                Some(p.github_user),
                Some(u),
                "SSH authenticates as the expected GitHub user"@,
            ),
            Ok(SshIdentityView::Rejected(u)) => item_view(
                "ssh_identity"@,
                CheckStatus::Failure,
                Some(p.github_user),
                Some(u),
                "SSH authenticates as a different GitHub user"@,
            ),
            Ok(SshIdentityView::Unavailable(reason)) => item_view(
                "ssh_identity"@,
                CheckStatus::Unverified,
                Some(p.github_user),
                None,
                "could not verify SSH identity: "@ + reason,
            ),
            Err(e) => item_view(
                "ssh_identity"@,
                CheckStatus::Unverified,
                Some(p.github_user),
                None,
                "could not verify SSH identity: "@ + e.1,
            ),
        }
    } else {
        match n.credential_helper {
            Ok(true) => item_view(
                "credential_helper"@,
                CheckStatus::Passed,
                Some("gh auth git-credential"@),
                Some("configured"@),
                "GitHub CLI credential helper is configured"@,
            ),
            Ok(false) => item_view(
                "credential_helper"@,
                CheckStatus::Unverified,
                Some("gh auth git-credential"@),
                None,
                "HTTPS push identity is unverified; run gh auth setup-git for this host"@,
            ),
            Err(e) => item_view(
                "credential_helper"@,
                CheckStatus::Unverified,
                None,
                None,
                "could not inspect Git credential helper: "@ + e.1,
            ),
        }
    }
}

/// The checks on a remote: host, owner policy, transport, the SSH command,
/// and, with network facts, the GitHub CLI account and the push identity.
pub open spec fn remote_items(
    p: ProfileView,
    r: RemoteInfoView,
    local_command: Option<Seq<char>>,
    facts: LocalFacts,
    net: Option<NetworkView>,
) -> Seq<CheckItemView> {
    seq![equal_ci_item("hostname"@, p.hostname, Some(r.hostname), "remote hostname"@), owner_item(p, r)]
        + transport_items(r) + ssh_command_items(p, r, local_command, facts) + match net {
        Some(n) => seq![github_item(p, n.active_account), identity_item(p, r, n)],
        None => Seq::empty(),
    }
}


pub open spec fn opt_ref_view(o: Option<&str>) -> Option<Seq<char>> {
    match o {
        Some(a) => Some(a@),
        None => None,
    }
}

pub open spec fn network_view(n: Option<&NetworkFacts>) -> Option<NetworkView> {
    match n {
        Some(x) => Some(x@),
        None => None,
    }
}

fn push_github(checks: &mut Vec<CheckItem>, profile: &Profile, active: &Result<Option<String>, GitPersonaError>)
    ensures
        items_view(*final(checks)) == items_view(*old(checks)).push(
            github_item(
                profile@,
                match *active {
                    Ok(a) => Ok(opt_view(a)),
                    Err(e) => Err(e@),
                },
            ),
        ),
{
    let user = &profile.github_user;
    match active {
        Ok(Some(a)) => {
            if eq_ignore_ascii_case(a.as_str(), user.as_str()) {
                push_item(checks, item("github_cli", CheckStatus::Passed, Some(user.clone()), Some(a.clone()), String::from_str("GitHub CLI account matches the profile")));
            } else {
                push_item(checks, item("github_cli", CheckStatus::Failure, Some(user.clone()), Some(a.clone()), String::from_str("GitHub CLI account does not match the profile")));
            }
        },
        Ok(None) => {
            push_item(checks, item("github_cli", CheckStatus::Unverified, Some(user.clone()), None, String::from_str("GitHub CLI has no active account for this host")));
        },
        Err(e) => {
            push_item(checks, item("github_cli", CheckStatus::Unverified, Some(user.clone()), None, cat("could not verify GitHub CLI identity: ", e.message())));
        },
    }
}

fn push_identity(checks: &mut Vec<CheckItem>, profile: &Profile, remote: &RemoteInfo, n: &NetworkFacts)
    ensures
        items_view(*final(checks)) == items_view(*old(checks)).push(identity_item(profile@, remote@, n@)),
{
    let user = &profile.github_user;
    match remote.protocol {
        RemoteProtocol::Ssh => match &n.ssh_identity {
            Ok(SshIdentity::Verified(u)) => {
                push_item(checks, item("ssh_identity", CheckStatus::Passed, Some(user.clone()), Some(u.clone()), String::from_str("SSH authenticates as the expected GitHub user")));
            },
            Ok(SshIdentity::Rejected(u)) => {
                push_item(checks, item("ssh_identity", CheckStatus::Failure, Some(user.clone()), Some(u.clone()), String::from_str("SSH authenticates as a different GitHub user")));
            },
            Ok(SshIdentity::Unavailable(reason)) => {
                push_item(checks, item("ssh_identity", CheckStatus::Unverified, Some(user.clone()), None, cat("could not verify SSH identity: ", reason.as_str())));
            },
            Err(e) => {
                push_item(checks, item("ssh_identity", CheckStatus::Unverified, Some(user.clone()), None, cat("could not verify SSH identity: ", e.message())));
            },
        },
        _ => match &n.credential_helper {
            Ok(true) => {
                push_item(checks, item("credential_helper", CheckStatus::Passed, Some(String::from_str("gh auth git-credential")), Some(String::from_str("configured")), String::from_str("GitHub CLI credential helper is configured")));
            },
            Ok(false) => {
                push_item(checks, item("credential_helper", CheckStatus::Unverified, Some(String::from_str("gh auth git-credential")), None, String::from_str("HTTPS push identity is unverified; run gh auth setup-git for this host")));
            },
            Err(e) => {
                push_item(checks, item("credential_helper", CheckStatus::Unverified, None, None, cat("could not inspect Git credential helper: ", e.message())));
            },
        },
    }
}

/// The checks on a remote, appended to `checks`.
pub fn inspect_remote(
    checks: &mut Vec<CheckItem>,
    profile: &Profile,
    remote: &RemoteInfo,
    local_command: Option<&str>,
    facts: &LocalFacts,
    network: Option<&NetworkFacts>,
)
    ensures
        items_view(*final(checks)) == items_view(*old(checks)) + remote_items(
            profile@,
            remote@,
            opt_ref_view(local_command),
            *facts,
            network_view(network),
        ),
{
    let ghost start = items_view(*checks);
    check_equal_case_insensitive(checks, "hostname", profile.hostname.as_str(), Some(remote.hostname.as_str()), "remote hostname");
    if profile.allowed_owners.len() == 0 {
        push_item(checks, item("owner", CheckStatus::Passed, None, Some(remote.owner.clone()), String::from_str("remote owner is reported; this profile has no owner restriction")));
    } else if is_owner_allowed(&profile.allowed_owners, remote.owner.as_str()) {
        push_item(checks, item("owner", CheckStatus::Passed, Some(join_strings(&profile.allowed_owners, ", ")), Some(remote.owner.clone()), String::from_str("remote owner is allowed")));
    } else {
        push_item(checks, item("owner", CheckStatus::Failure, Some(join_strings(&profile.allowed_owners, ", ")), Some(remote.owner.clone()), String::from_str("remote owner is not allowed by this profile")));
    }
    let ghost after_owner = items_view(*checks);
    assert(after_owner == start + seq![equal_ci_item("hostname"@, profile@.hostname, Some(remote@.hostname), "remote hostname"@), owner_item(profile@, remote@)]);
    match remote.protocol {
        RemoteProtocol::Http => {
            push_item(checks, item("transport", CheckStatus::Failure, Some(String::from_str("https or ssh")), Some(String::from_str("http")), String::from_str("remote uses cleartext HTTP; use HTTPS or SSH")));
        },
        _ => {},
    }
    let ghost after_transport = items_view(*checks);
    assert(after_transport =~= after_owner + transport_items(remote@));
    match remote.protocol {
        RemoteProtocol::Ssh => {
            match crate::binding::expected_ssh_command(profile, facts) {
                Ok(expected) => check_equal(checks, "ssh_command", expected.as_str(), local_command, "repository SSH command"),
                Err(e) => push_item(checks, item("ssh_command", CheckStatus::Failure, None, None, String::from_str(e.message()))),
            }
        },
        _ => {},
    }
    let ghost after_command = items_view(*checks);
    assert(after_command =~= after_transport + ssh_command_items(profile@, remote@, opt_ref_view(local_command), *facts));
    match network {
        Some(n) => {
            push_github(checks, profile, &n.active_account);
            push_identity(checks, profile, remote, n);
        },
        None => {},
    }
    assert(items_view(*checks) =~= start + remote_items(profile@, remote@, opt_ref_view(local_command), *facts, network_view(network)));
}

/// What the caller read from the repository: its top-level directory, the
/// bound profile name, the remote, and the repository-local author and SSH
/// command.
pub struct RepositoryFacts {
    pub root: String,
    pub bound_profile: Option<String>,
    pub remote: Option<RemoteInfo>,
    pub git_name: Option<String>,
    pub git_email: Option<String>,
    pub ssh_command: Option<String>,
}

pub open spec fn remote_opt_view(r: Option<RemoteInfo>) -> Option<RemoteInfoView> {
    match r {
        Some(x) => Some(x@),
        None => None,
    }
}

/// Every check on a repository, in order: binding, profile, author name and
/// email, then the remote's checks (or a warning that it is missing).
pub open spec fn inspect_items(
    profiles: Map<Seq<char>, ProfileView>,
    repo: RepositoryFacts,
    remote_name: Seq<char>,
    facts: LocalFacts,
    net: Option<NetworkView>,
) -> Seq<CheckItemView> {
    match repo.bound_profile {
        None => seq![
            item_view(
                "binding"@,
                CheckStatus::Failure,
                None,
                None,
                "repository is not bound to a GitPersona profile"@,
            ),
        ],
        Some(name) => {
            let bound = item_view(
                "binding"@,
                CheckStatus::Passed,
                Some(name@),
                Some(name@),
                "repository binding is present"@,
            );
            if !profiles.contains_key(name@) {
                seq![
                    bound,
                    item_view(
                        "profile"@,
                        CheckStatus::Failure,
                        Some(name@),
                        None,
                        "bound profile does not exist in the user configuration"@,
                    ),
                ]
            } else {
                let p = profiles[name@];
                seq![
                    bound,
                    equal_item("git_name"@, p.git_name, opt_view(repo.git_name), "Git author name"@),
                    equal_item(
                        "git_email"@,
                        p.git_email,
                        opt_view(repo.git_email),
                        "Git author email"@,
                    ),
                ] + match repo.remote {
                    None => seq![
                        item_view(
                            "remote"@,
                            CheckStatus::Warning,
                            Some(remote_name),
                            None,
                            "configured remote is not available"@,
                        ),
                    ],
                    Some(r) => remote_items(p, r@, opt_view(repo.ssh_command), facts, net),
                }
            }
        },
    }
}

/// A check never passes under the wrong GitHub CLI account: when the bound
/// profile exists, the remote is there, and GitHub CLI's active account is
/// not the profile's GitHub user (ASCII case aside), the report holds a
/// failing `github_cli` item, its overall status is a failure, and it cannot
/// be enforced.
pub proof fn lemma_wrong_account_fails(
    profiles: Map<Seq<char>, ProfileView>,
    repo: RepositoryFacts,
    remote_name: Seq<char>,
    facts: LocalFacts,
    n: NetworkView,
    a: Seq<char>,
)
    requires
        repo.bound_profile is Some,
        profiles.contains_key(repo.bound_profile->0@),
        repo.remote is Some,
        n.active_account == Ok::<Option<Seq<char>>, ErrorView>(Some(a)),
        !eq_ignore_case(a, profiles[repo.bound_profile->0@].github_user),
    ensures
        ({
            let items = inspect_items(profiles, repo, remote_name, facts, Some(n));
            &&& exists|i: int|
                0 <= i < items.len() && (#[trigger] items[i]).id == "github_cli"@ && items[i].status
                    == CheckStatus::Failure && items[i].actual == Some(a)
            &&& overall_of(items) == OverallStatus::Failure
            &&& !enforceable_items(items)
        }),
{
    let p = profiles[repo.bound_profile->0@];
    let r = repo.remote->0@;
    let items = inspect_items(profiles, repo, remote_name, facts, Some(n));
    let head = seq![
        item_view(
            "binding"@,
            CheckStatus::Passed,
            Some(repo.bound_profile->0@),
            Some(repo.bound_profile->0@),
            "repository binding is present"@,
        ),
        equal_item("git_name"@, p.git_name, opt_view(repo.git_name), "Git author name"@),
        equal_item("git_email"@, p.git_email, opt_view(repo.git_email), "Git author email"@),
    ];
    let rest = seq![equal_ci_item("hostname"@, p.hostname, Some(r.hostname), "remote hostname"@), owner_item(p, r)]
        + transport_items(r) + ssh_command_items(p, r, opt_view(repo.ssh_command), facts);
    let i: int = (head.len() + rest.len()) as int;
    assert(items == head + (rest + seq![github_item(p, n.active_account), identity_item(p, r, n)]));
    assert(items[i] == github_item(p, n.active_account));
    assert(items[i].status == CheckStatus::Failure);
}

/// A report that can be enforced confirms the whole identity: the
/// repository is bound to an existing profile; its local author name and
/// email are the profile's; when the remote is there, its host is the
/// profile's (ASCII case aside), its owner is allowed, it is not cleartext
/// HTTP, and an SSH remote uses the profile's SSH command; and when network
/// facts were used, GitHub CLI is active as the profile's user and SSH
/// authenticated as expected or, over HTTPS, the credential helper is set.
pub proof fn lemma_enforceable_report_confirms_identity(
    profiles: Map<Seq<char>, ProfileView>,
    repo: RepositoryFacts,
    remote_name: Seq<char>,
    facts: LocalFacts,
    net: Option<NetworkView>,
)
    requires
        enforceable_items(inspect_items(profiles, repo, remote_name, facts, net)),
    ensures
        repo.bound_profile is Some,
        profiles.contains_key(repo.bound_profile->0@),
        ({
            let p = profiles[repo.bound_profile->0@];
            &&& opt_view(repo.git_name) == Some(p.git_name)
            &&& opt_view(repo.git_email) == Some(p.git_email)
            &&& repo.remote is Some ==> {
                let r = repo.remote->0@;
                &&& eq_ignore_case(r.hostname, p.hostname)
                &&& p.allowed_owners.len() > 0 ==> owner_allowed(p.allowed_owners, r.owner)
                &&& r.protocol != RemoteProtocol::Http
                &&& r.protocol == RemoteProtocol::Ssh ==> ssh_command_for(p, facts) is Ok && opt_view(
                    repo.ssh_command,
                ) == Some(ssh_command_for(p, facts)->Ok_0)
                &&& net is Some ==> {
                    let n = net->0;
                    &&& n.active_account is Ok && n.active_account->Ok_0 is Some && eq_ignore_case(
                        n.active_account->Ok_0->0,
                        p.github_user,
                    )
                    &&& r.protocol == RemoteProtocol::Ssh ==> n.ssh_identity is Ok && n.ssh_identity->Ok_0 is Verified
                    &&& r.protocol != RemoteProtocol::Ssh ==> n.credential_helper == Ok::<bool, ErrorView>(true)
                }
            }
        }),
{
    let items = inspect_items(profiles, repo, remote_name, facts, net);
    assert(items[0].status != CheckStatus::Failure);
    if repo.bound_profile is Some && !profiles.contains_key(repo.bound_profile->0@) {
        assert(items[1].status != CheckStatus::Failure);
    }
    if repo.bound_profile is Some && profiles.contains_key(repo.bound_profile->0@) {
        let p = profiles[repo.bound_profile->0@];
        assert(items[1].status != CheckStatus::Failure);
        assert(items[2].status != CheckStatus::Failure);
        if repo.remote is Some {
            let r = repo.remote->0@;
            let t = transport_items(r);
            let c = ssh_command_items(p, r, opt_view(repo.ssh_command), facts);
            assert(items[3].status != CheckStatus::Failure);
            assert(items[4].status != CheckStatus::Failure);
            if r.protocol == RemoteProtocol::Http {
                assert(items[5] == t[0]);
                assert(items[5].status != CheckStatus::Failure);
            }
            if r.protocol == RemoteProtocol::Ssh {
                assert(items[5] == c[0]);
                assert(items[5].status != CheckStatus::Failure);
            }
            if net is Some {
                let n = net->0;
                let k: int = (5 + t.len() + c.len()) as int;
                assert(items[k] == github_item(p, n.active_account));
                assert(items[k + 1] == identity_item(p, r, n));
                assert(items[k].status != CheckStatus::Failure && items[k].status != CheckStatus::Unverified);
                assert(items[k + 1].status != CheckStatus::Failure && items[k + 1].status
                    != CheckStatus::Unverified);
            }
        }
    }
}

fn opt_as_str(o: &Option<String>) -> (r: Option<&str>)
    ensures
        opt_ref_view(r) == opt_view(*o),
{
    match o {
        Some(s) => Some(s.as_str()),
        None => None,
    }
}

fn clone_remote(r: &Option<RemoteInfo>) -> (c: Option<RemoteInfo>)
    ensures
        remote_opt_view(c) == remote_opt_view(*r),
{
    match r {
        Some(x) => Some(x.clone()),
        None => None,
    }
}

/// The profile whose network identity a check needs: the bound profile,
/// when it exists and the repository has the remote.
pub fn network_profile<'a>(config: &'a Config, repo: &RepositoryFacts) -> (r: Option<&'a Profile>)
    ensures
        r is Some <==> (repo.bound_profile is Some && config.profiles@.contains_key(
            repo.bound_profile->0@,
        ) && repo.remote is Some),
        r is Some ==> r->0@ == config.profiles@[repo.bound_profile->0@],
{
    match (&repo.bound_profile, &repo.remote) {
        (Some(name), Some(_)) => config.profiles.get(name.as_str()),
        _ => None,
    }
}

/// Checks a repository against its bound profile. When `options.network`
/// is set and the repository is bound to a known profile and has the remote,
/// the caller must supply what GitHub CLI and SSH answered: the identity
/// checks are never left out.
pub fn inspect(
    config: &Config,
    repo: &RepositoryFacts,
    options: &CheckOptions,
    facts: &LocalFacts,
    network: Option<&NetworkFacts>,
) -> (r: CheckReport)
    requires
        options.network && repo.bound_profile is Some && config.profiles@.contains_key(repo.bound_profile->0@)
            && repo.remote is Some ==> network is Some,
    ensures
        r.repository@ == repo.root@,
        opt_view(r.profile) == opt_view(repo.bound_profile),
        remote_opt_view(r.remote) == remote_opt_view(repo.remote),
        items_view(r.checks) == inspect_items(
            config.profiles@,
            *repo,
            options.remote_name@,
            *facts,
            if options.network {
                network_view(network)
            } else {
                None
            },
        ),
        r.overall == overall_of(items_view(r.checks)),
{
    let mut checks: Vec<CheckItem> = Vec::new();
    let ghost net = if options.network {
        network_view(network)
    } else {
        None
    };
    let net_facts = if options.network {
        network
    } else {
        None
    };
    let root = repo.root.clone();
    let remote = clone_remote(&repo.remote);
    match &repo.bound_profile {
        None => {
            push_item(&mut checks, item("binding", CheckStatus::Failure, None, None, String::from_str("repository is not bound to a GitPersona profile")));
            assert(items_view(checks) =~= inspect_items(config.profiles@, *repo, options.remote_name@, *facts, net));
            finish(root, None, remote, checks)
        },
        Some(name) => {
            push_item(&mut checks, item("binding", CheckStatus::Passed, Some(name.clone()), Some(name.clone()), String::from_str("repository binding is present")));
            match config.profiles.get(name.as_str()) {
                None => {
                    push_item(&mut checks, item("profile", CheckStatus::Failure, Some(name.clone()), None, String::from_str("bound profile does not exist in the user configuration")));
                    assert(items_view(checks) =~= inspect_items(config.profiles@, *repo, options.remote_name@, *facts, net));
                    finish(root, Some(name.clone()), remote, checks)
                },
                Some(profile) => {
                    check_equal(&mut checks, "git_name", profile.git_name.as_str(), opt_as_str(&repo.git_name), "Git author name");
                    check_equal(&mut checks, "git_email", profile.git_email.as_str(), opt_as_str(&repo.git_email), "Git author email");
                    let ghost head = items_view(checks);
                    match &repo.remote {
                        None => {
                            push_item(&mut checks, item("remote", CheckStatus::Warning, Some(String::from_str(options.remote_name)), None, String::from_str("configured remote is not available")));
                        },
                        Some(r) => {
                            inspect_remote(&mut checks, profile, r, opt_as_str(&repo.ssh_command), facts, net_facts);
                        },
                    }
                    assert(items_view(checks) =~= inspect_items(config.profiles@, *repo, options.remote_name@, *facts, net));
                    finish(root, Some(name.clone()), remote, checks)
                },
            }
        },
    }
}


/// A check's status as a ten-column label, the way the report prints it.
pub open spec fn status_cell(s: CheckStatus) -> Seq<char> {
    match s {
        CheckStatus::Passed => "OK        "@,
        CheckStatus::Warning => "WARNING   "@,
        CheckStatus::Failure => "FAILURE   "@,
        CheckStatus::Unverified => "UNVERIFIED"@,
    }
}

pub open spec fn overall_word(s: OverallStatus) -> Seq<char> {
    match s {
        OverallStatus::Passed => "OK"@,
        OverallStatus::Warning => "WARNING"@,
        OverallStatus::Failure => "FAILURE"@,
    }
}

pub open spec fn check_line(c: CheckItemView) -> Seq<char> {
    "["@ + status_cell(c.status) + "] "@ + c.message + "\n"@
}

pub open spec fn check_lines(items: Seq<CheckItemView>) -> Seq<char>
    decreases items.len(),
{
    if items.len() == 0 {
        Seq::<char>::empty()
    } else {
        check_lines(items.drop_last()) + check_line(items.last())
    }
}

/// The human-readable report.
pub open spec fn rendered(r: CheckReport) -> Seq<char> {
    "Repository: "@ + r.repository@ + "\nProfile:    "@ + match r.profile {
        Some(p) => p@,
        None => "(none)"@,
    } + "\n"@ + match r.remote {
        Some(x) => "Remote:     "@ + x.url@ + " ("@ + x.owner@ + "/"@ + x.repository@ + ")\n"@,
        None => Seq::<char>::empty(),
    } + "\n"@ + check_lines(items_view(r.checks)) + "\nSTATUS: "@ + overall_word(r.overall)
        + "\n"@
}

fn status_cell_exec(s: CheckStatus) -> (r: &'static str)
    ensures
        r@ == status_cell(s),
{
    match s {
        CheckStatus::Passed => "OK        ",
        CheckStatus::Warning => "WARNING   ",
        CheckStatus::Failure => "FAILURE   ",
        CheckStatus::Unverified => "UNVERIFIED",
    }
}

fn overall_word_exec(s: OverallStatus) -> (r: &'static str)
    ensures
        r@ == overall_word(s),
{
    match s {
        OverallStatus::Passed => "OK",
        OverallStatus::Warning => "WARNING",
        OverallStatus::Failure => "FAILURE",
    }
}

impl CheckReport {
    pub fn render_human(&self) -> (r: String)
        ensures
            r@ == rendered(*self),
    {
        let mut out = String::from_str("Repository: ");
        out.append(self.repository.as_str());
        out.append("\nProfile:    ");
        match &self.profile {
            Some(p) => out.append(p.as_str()),
            None => out.append("(none)"),
        }
        out.append("\n");
        match &self.remote {
            Some(x) => {
                out.append("Remote:     ");
                out.append(x.url.as_str());
                out.append(" (");
                out.append(x.owner.as_str());
                out.append("/");
                out.append(x.repository.as_str());
                out.append(")\n");
            },
            None => {},
        }
        out.append("\n");
        let ghost head = out@;
        let ghost items = items_view(self.checks);
        let mut i: usize = 0;
        assert(items.subrange(0, 0) =~= Seq::<CheckItemView>::empty());
        assert(out@ =~= head + check_lines(items.subrange(0, 0)));
        while i < self.checks.len()
            invariant
                i <= self.checks.len(),
                items == items_view(self.checks),
                out@ == head + check_lines(items.subrange(0, i as int)),
            decreases self.checks.len() - i,
        {
            let c = &self.checks[i];
            out.append("[");
            out.append(status_cell_exec(c.status));
            out.append("] ");
            out.append(c.message.as_str());
            out.append("\n");
            let ghost t = items.subrange(0, i + 1);
            assert(t.drop_last() =~= items.subrange(0, i as int));
            assert(t.last() == c@);
            assert(out@ =~= head + check_lines(t));
            i = i + 1;
        }
        assert(items.subrange(0, self.checks.len() as int) =~= items);
        out.append("\nSTATUS: ");
        out.append(overall_word_exec(self.overall));
        out.append("\n");
        assert(out@ =~= rendered(*self));
        out
    }
}


/// A repository that is not bound never passes a check.
pub proof fn lemma_unbound_repository_fails(
    profiles: Map<Seq<char>, ProfileView>,
    repo: RepositoryFacts,
    remote_name: Seq<char>,
    facts: LocalFacts,
    net: Option<NetworkView>,
)
    requires
        repo.bound_profile is None,
    ensures
        overall_of(inspect_items(profiles, repo, remote_name, facts, net)) == OverallStatus::Failure,
        !enforceable_items(inspect_items(profiles, repo, remote_name, facts, net)),
{
    let items = inspect_items(profiles, repo, remote_name, facts, net);
    assert(items[0].status == CheckStatus::Failure);
}

/// A check that asks the network fails closed: when GitHub CLI's identity
/// cannot be confirmed (it has no active account, or could not be asked),
/// the report cannot be enforced, whatever else it says.
pub proof fn lemma_unverified_identity_blocks_push(
    profiles: Map<Seq<char>, ProfileView>,
    repo: RepositoryFacts,
    remote_name: Seq<char>,
    facts: LocalFacts,
    n: NetworkView,
)
    requires
        repo.bound_profile is Some,
        profiles.contains_key(repo.bound_profile->Some_0@),
        repo.remote is Some,
        n.active_account is Err || n.active_account == Ok::<Option<Seq<char>>, ErrorView>(None),
    ensures
        !enforceable_items(inspect_items(profiles, repo, remote_name, facts, Some(n))),
{
    let name = repo.bound_profile->Some_0@;
    let p = profiles[name];
    let r = repo.remote->Some_0@;
    let items = inspect_items(profiles, repo, remote_name, facts, Some(n));
    let head = seq![equal_ci_item("hostname"@, p.hostname, Some(r.hostname), "remote hostname"@), owner_item(p, r)]
        + transport_items(r) + ssh_command_items(p, r, opt_view(repo.ssh_command), facts);
    let k: int = 3 + head.len() as int;
    assert(items[k] == github_item(p, n.active_account));
    assert(items[k].status == CheckStatus::Unverified);
}

} // verus!
