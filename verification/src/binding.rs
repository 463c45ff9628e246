//! The repository-local binding transaction.
//!
//! A repository is bound to a profile by writing a fixed set of
//! repository-local Git configuration keys. The keys form twenty slots: the
//! profile name and format version, six managed identity settings, and for
//! each managed setting a presence flag and a backup value recording what the
//! repository had before its first binding. Binding and unbinding are
//! computed here as lists of operations on those slots; the caller carries
//! them out with `git config --local`. Unbinding restores the exact values
//! that existed before the first bind.
use crate::config::{opt_view, LocalFacts, Profile, ProfileView, SigningFormat, expansion, signing_git_value};
use crate::config::expand_path_with;
use crate::error::{ErrorKind, GitPersonaError};
use crate::remote::{is_ssh_remote, remote_is_ssh, RemoteInfo, RemoteInfoView};
use crate::text::{cat3, chars_of, str_eq, string_of};
use vstd::prelude::*;

verus! {

pub const SLOT_COUNT: usize = 20;

pub const SLOT_PROFILE: usize = 0;

pub const SLOT_VERSION: usize = 1;

/// Number of managed identity settings.
pub const MANAGED_COUNT: usize = 6;

pub open spec fn managed_slot(m: int) -> int {
    2 + m
}

pub open spec fn present_slot(m: int) -> int {
    8 + m
}

pub open spec fn backup_slot(m: int) -> int {
    14 + m
}

/// The Git configuration key behind each slot.
pub open spec fn slot_name(slot: int) -> Seq<char> {
    if slot == 0 {
        "gitpersona.profile"@
    } else if slot == 1 {
        "gitpersona.version"@
    } else if slot == 2 {
        "user.name"@
    } else if slot == 3 {
        "user.email"@
    } else if slot == 4 {
        "core.sshCommand"@
    } else if slot == 5 {
        "user.signingKey"@
    } else if slot == 6 {
        "gpg.format"@
    } else if slot == 7 {
        "commit.gpgSign"@
    } else if slot == 8 {
        "gitpersona.backupUserNamePresent"@
    } else if slot == 9 {
        "gitpersona.backupUserEmailPresent"@
    } else if slot == 10 {
        "gitpersona.backupSshCommandPresent"@
    } else if slot == 11 {
        "gitpersona.backupSigningKeyPresent"@
    } else if slot == 12 {
        "gitpersona.backupGpgFormatPresent"@
    } else if slot == 13 {
        "gitpersona.backupCommitGpgSignPresent"@
    } else if slot == 14 {
        "gitpersona.backupUserName"@
    } else if slot == 15 {
        "gitpersona.backupUserEmail"@
    } else if slot == 16 {
        "gitpersona.backupSshCommand"@
    } else if slot == 17 {
        "gitpersona.backupSigningKey"@
    } else if slot == 18 {
        "gitpersona.backupGpgFormat"@
    } else {
        "gitpersona.backupCommitGpgSign"@
    }
}

/// The Git configuration key of a slot.
pub fn slot_key(slot: usize) -> (r: &'static str)
    requires
        slot < SLOT_COUNT,
    ensures
        r@ == slot_name(slot as int),
{
    match slot {
        0 => "gitpersona.profile",
        1 => "gitpersona.version",
        2 => "user.name",
        3 => "user.email",
        4 => "core.sshCommand",
        5 => "user.signingKey",
        6 => "gpg.format",
        7 => "commit.gpgSign",
        8 => "gitpersona.backupUserNamePresent",
        9 => "gitpersona.backupUserEmailPresent",
        10 => "gitpersona.backupSshCommandPresent",
        11 => "gitpersona.backupSigningKeyPresent",
        12 => "gitpersona.backupGpgFormatPresent",
        13 => "gitpersona.backupCommitGpgSignPresent",
        14 => "gitpersona.backupUserName",
        15 => "gitpersona.backupUserEmail",
        16 => "gitpersona.backupSshCommand",
        17 => "gitpersona.backupSigningKey",
        18 => "gitpersona.backupGpgFormat",
        _ => "gitpersona.backupCommitGpgSign",
    }
}

/// The repository-local values of the twenty slots; `None` is unset.
pub struct LocalState {
    pub values: Vec<Option<String>>,
}

pub type Slots = Seq<Option<Seq<char>>>;

pub open spec fn slots_view(v: Vec<Option<String>>) -> Slots {
    v@.map_values(|o: Option<String>| opt_view(o))
}

impl View for LocalState {
    type V = Slots;

    open spec fn view(&self) -> Slots {
        slots_view(self.values)
    }
}

impl LocalState {
    pub open spec fn wf(&self) -> bool {
        self.values.len() == SLOT_COUNT
    }
}

/// One change to a slot.
#[derive(Debug)]
pub enum ConfigOp {
    Assign { slot: usize, value: String },
    Clear { slot: usize },
}

pub type OpView = (int, Option<Seq<char>>);

pub open spec fn op_view(op: ConfigOp) -> OpView {
    match op {
        ConfigOp::Assign { slot, value } => (slot as int, Some(value@)),
        ConfigOp::Clear { slot } => (slot as int, None),
    }
}

pub open spec fn ops_view(ops: Vec<ConfigOp>) -> Seq<OpView> {
    ops@.map_values(|op: ConfigOp| op_view(op))
}

pub open spec fn apply_op(s: Slots, op: OpView) -> Slots {
    if 0 <= op.0 < s.len() {
        s.update(op.0, op.1)
    } else {
        s
    }
}

/// The slots after carrying out the operations in order.
pub open spec fn apply_ops(s: Slots, ops: Seq<OpView>) -> Slots
    decreases ops.len(),
{
    if ops.len() == 0 {
        s
    } else {
        apply_op(apply_ops(s, ops.drop_last()), ops.last())
    }
}

pub open spec fn ops_in_range(ops: Seq<OpView>) -> bool {
    forall|i: int| 0 <= i < ops.len() ==> 0 <= (#[trigger] ops[i]).0 < SLOT_COUNT
}

pub open spec fn true_text() -> Seq<char> {
    "true"@
}

pub open spec fn false_text() -> Seq<char> {
    "false"@
}

/// `path` escaped for a double-quoted shell word: backslashes and quotes.
pub open spec fn escape_char(c: char) -> Seq<char> {
    if c == '\\' {
        seq!['\\', '\\']
    } else if c == '"' {
        seq!['\\', '"']
    } else {
        seq![c]
    }
}

pub open spec fn escape(s: Seq<char>) -> Seq<char>
    decreases s.len(),
{
    if s.len() == 0 {
        s
    } else {
        escape(s.drop_last()) + escape_char(s.last())
    }
}

/// The `core.sshCommand` that pins a key file.
pub open spec fn ssh_command_text(path: Seq<char>) -> Seq<char> {
    "ssh -i \""@ + escape(path) + "\" -o IdentitiesOnly=yes"@
}

pub type ErrorView = (ErrorKind, Seq<char>);

/// The SSH command a profile needs, or why there is none.
pub open spec fn ssh_command_for(p: ProfileView, facts: LocalFacts) -> Result<Seq<char>, ErrorView> {
    match p.ssh_key {
        None => Err((ErrorKind::Usage, "SSH remotes require the profile to define --ssh-key"@)),
        Some(k) => match expansion(k, facts.home_view()) {
            None => Err((ErrorKind::Dependency, "could not determine the home directory"@)),
            Some(e) => if facts.is_file(e) {
                Ok(ssh_command_text(e))
            } else {
                Err((ErrorKind::Usage, "SSH key does not exist: "@ + e))
            },
        },
    }
}

fn escape_path(path: &str) -> (r: String)
    ensures
        r@ == escape(path@),
{
    let v = chars_of(path);
    let mut out: Vec<char> = Vec::new();
    let mut i: usize = 0;
    while i < v.len()
        invariant
            v@ == path@,
            i <= v.len(),
            out@ == escape(v@.subrange(0, i as int)),
        decreases v.len() - i,
    {
        let c = v[i];
        if c == '\\' {
            out.push('\\');
            out.push('\\');
        } else if c == '"' {
            out.push('\\');
            out.push('"');
        } else {
            out.push(c);
        }
        assert(v@.subrange(0, i + 1).drop_last() =~= v@.subrange(0, i as int));
        proof {
            let t = v@.subrange(0, i + 1);
            assert(escape(t) == escape(t.drop_last()) + escape_char(t.last()));
        }
        assert(out@ =~= escape(v@.subrange(0, i + 1)));
        i = i + 1;
    }
    assert(v@.subrange(0, v.len() as int) =~= path@);
    string_of(out.as_slice())
}

/// The repository SSH command for a profile: its key file, quoted, with
/// `IdentitiesOnly=yes` so that no other key is offered.
pub fn expected_ssh_command(profile: &Profile, facts: &LocalFacts) -> (r: Result<String, GitPersonaError>)
    ensures
        match ssh_command_for(profile@, *facts) {
            Ok(c) => r is Ok && r->Ok_0@ == c,
            Err(e) => r is Err && r->Err_0@ == e,
        },
{
    let key = match &profile.ssh_key {
        Some(k) => k,
        None => {
            return Err(
                GitPersonaError::usage(
                    String::from_str("SSH remotes require the profile to define --ssh-key"),
                ),
            );
        },
    };
    let path = expand_path_with(key.as_str(), &facts.home)?;
    if !facts.has_file(path.as_str()) {
        return Err(
            GitPersonaError::usage(crate::text::cat("SSH key does not exist: ", path.as_str())),
        );
    }
    let escaped = escape_path(path.as_str());
    Ok(cat3("ssh -i \"", escaped.as_str(), "\" -o IdentitiesOnly=yes"))
}

} // verus!

verus! {

/// The values binding gives the six managed settings: the author name and
/// email, the SSH command (for SSH remotes), and the signing key, format
/// and `commit.gpgSign` when the profile has a signing key.
pub open spec fn expected(p: ProfileView, ssh: Option<Seq<char>>) -> Slots {
    seq![
        Some(p.git_name),
        Some(p.git_email),
        ssh,
        p.signing_key,
        if p.signing_key is Some {
            Some(signing_git_value(p.signing_format))
        } else {
            None
        },
        if p.signing_key is Some && p.require_signing {
            Some(true_text())
        } else {
            None
        },
    ]
}

pub open spec fn version_text() -> Seq<char> {
    "1"@
}

/// The slots after binding `s` to profile `p` named `name`. A first bind
/// (no version recorded) also records, for each managed setting, whether it
/// was set and its value; a rebind leaves that record alone.
pub open spec fn bind_effect(s: Slots, name: Seq<char>, p: ProfileView, ssh: Option<Seq<char>>) -> Slots {
    Seq::new(
        SLOT_COUNT as nat,
        |i: int|
            if i == 0 {
                Some(name)
            } else if i == 1 {
                Some(version_text())
            } else if 2 <= i < 8 {
                expected(p, ssh)[i - 2]
            } else if 8 <= i < 14 {
                if s[1] is None {
                    Some(
                        if s[i - 6] is Some {
                            true_text()
                        } else {
                            false_text()
                        },
                    )
                } else {
                    s[i]
                }
            } else if s[1] is None {
                s[i - 12]
            } else {
                s[i]
            },
    )
}

pub open spec fn remote_view(remote: Option<&RemoteInfo>) -> Option<RemoteInfoView> {
    match remote {
        Some(r) => Some(r@),
        None => None,
    }
}

pub open spec fn profile_opt_view(p: Option<&Profile>) -> Option<ProfileView> {
    match p {
        Some(x) => Some(x@),
        None => None,
    }
}

/// The SSH command binding writes: the profile's for an SSH remote, none otherwise.
pub open spec fn bound_ssh(p: ProfileView, remote: Option<RemoteInfoView>, facts: LocalFacts) -> Option<Seq<char>> {
    if remote_is_ssh(remote) {
        match ssh_command_for(p, facts) {
            Ok(c) => Some(c),
            Err(_) => None,
        }
    } else {
        None
    }
}

pub open spec fn signing_drifted(s: Slots, p: ProfileView) -> bool {
    let e = expected(p, None);
    s[5] != e[3] || s[6] != e[4] || s[7] != e[5]
}

/// Whether the managed settings differ from what the profile prescribes:
/// author name and email, the SSH command for an SSH remote, and signing.
pub open spec fn drift_result(s: Slots, p: ProfileView, remote: Option<RemoteInfoView>, facts: LocalFacts) -> Result<bool, ErrorView> {
    if s[2] != Some(p.git_name) || s[3] != Some(p.git_email) {
        Ok(true)
    } else if remote_is_ssh(remote) {
        match ssh_command_for(p, facts) {
            Err(e) => Err(e),
            Ok(c) => Ok(s[4] != Some(c) || signing_drifted(s, p)),
        }
    } else {
        Ok(signing_drifted(s, p))
    }
}

/// Why a bind is refused, if it is: a bound repository is rebound without
/// `force` only when its settings still match its (existing) profile, and an
/// SSH remote needs the profile's key file.
pub open spec fn bind_refusal(
    s: Slots,
    p: ProfileView,
    remote: Option<RemoteInfoView>,
    force: bool,
    old: Option<ProfileView>,
    facts: LocalFacts,
) -> Option<ErrorView> {
    let guard: Option<ErrorView> = if s[0] is Some && !force {
        match old {
            None => Some(
                (
                    ErrorKind::Usage,
                    "the repository references a missing profile; rerun with --force to repair the binding"@,
                ),
            ),
            Some(o) => match drift_result(s, o, remote, facts) {
                Err(e) => Some(e),
                Ok(true) => Some(
                    (
                        ErrorKind::Usage,
                        "managed Git settings have changed; inspect them and rerun with --force to rebind"@,
                    ),
                ),
                Ok(false) => None,
            },
        }
    } else {
        None
    };
    if guard is Some {
        guard
    } else if remote_is_ssh(remote) && ssh_command_for(p, facts) is Err {
        Some(ssh_command_for(p, facts)->Err_0)
    } else {
        None
    }
}

/// A hand edit of the repository's author is drift: when a bound
/// repository's local `user.name` or `user.email` is not the one its profile
/// sets, a rebind without `force` is refused with the drift message, to
/// whichever profile, over whatever remote.
pub proof fn lemma_hand_edited_author_blocks_rebind(
    s: Slots,
    p: ProfileView,
    remote: Option<RemoteInfoView>,
    old: ProfileView,
    facts: LocalFacts,
)
    requires
        s.len() == SLOT_COUNT,
        s[0] is Some,
        s[2] != Some(old.git_name) || s[3] != Some(old.git_email),
    ensures
        drift_result(s, old, remote, facts) == Ok::<bool, ErrorView>(true),
        bind_refusal(s, p, remote, false, Some(old), facts) == Some::<ErrorView>(
            (
                ErrorKind::Usage,
                "managed Git settings have changed; inspect them and rerun with --force to rebind"@,
            ),
        ),
{
}

/// A changed signing key is drift too: a bound repository whose local
/// `user.signingKey` is not the profile's is not rebound without `force`.
pub proof fn lemma_changed_signing_key_blocks_rebind(
    s: Slots,
    p: ProfileView,
    remote: Option<RemoteInfoView>,
    old: ProfileView,
    facts: LocalFacts,
)
    requires
        s.len() == SLOT_COUNT,
        s[0] is Some,
        s[5] != old.signing_key,
    ensures
        bind_refusal(s, p, remote, false, Some(old), facts) is Some,
{
}

/// Over an SSH remote, a repository-local `core.sshCommand` that is not
/// the one the profile's key gives is drift as well.
pub proof fn lemma_changed_ssh_command_blocks_rebind(
    s: Slots,
    p: ProfileView,
    remote: Option<RemoteInfoView>,
    old: ProfileView,
    facts: LocalFacts,
)
    requires
        s.len() == SLOT_COUNT,
        s[0] is Some,
        remote_is_ssh(remote),
        ssh_command_for(old, facts) is Ok,
        s[4] != Some(ssh_command_for(old, facts)->Ok_0),
    ensures
        drift_result(s, old, remote, facts) == Ok::<bool, ErrorView>(true),
        bind_refusal(s, p, remote, false, Some(old), facts) is Some,
{
}

/// Only a rebind of a bound repository without `force` is refused for
/// drift or a missing profile; otherwise a bind is refused only when an SSH
/// remote needs a key the profile cannot supply.
pub proof fn lemma_refusal_needs_a_reason(
    s: Slots,
    p: ProfileView,
    remote: Option<RemoteInfoView>,
    force: bool,
    old: Option<ProfileView>,
    facts: LocalFacts,
)
    ensures
        bind_refusal(s, p, remote, force, old, facts) is Some ==> (s[0] is Some && !force) || (remote_is_ssh(remote)
            && ssh_command_for(p, facts) is Err),
        s[0] is Some && !force && old is None ==> bind_refusal(s, p, remote, force, old, facts) is Some,
{
}

/// What a bind writes: the profile's name and the version, the profile's
/// author name and email, the SSH command given, the signing key with its
/// format, and commit signing exactly when the profile requires it with a
/// key. A rebind leaves the record of the earlier settings alone.
pub proof fn lemma_bind_writes_the_profile(s: Slots, name: Seq<char>, p: ProfileView, ssh: Option<Seq<char>>)
    requires
        s.len() == SLOT_COUNT,
    ensures
        ({
            let b = bind_effect(s, name, p, ssh);
            &&& b.len() == SLOT_COUNT
            &&& b[0] == Some(name)
            &&& b[1] is Some
            &&& b[2] == Some(p.git_name)
            &&& b[3] == Some(p.git_email)
            &&& b[4] == ssh
            &&& b[5] == p.signing_key
            &&& p.signing_key is Some ==> b[6] == Some(signing_git_value(p.signing_format))
            &&& p.signing_key is None ==> b[6] is None
            &&& (b[7] is Some <==> p.signing_key is Some && p.require_signing)
            &&& s[1] is Some ==> forall|i: int| 8 <= i < SLOT_COUNT ==> #[trigger] b[i] == s[i]
        }),
{
}

fn push_op(ops: &mut Vec<ConfigOp>, op: ConfigOp, Ghost(s): Ghost<Slots>)
    requires
        0 <= op_view(op).0 < SLOT_COUNT,
        ops_in_range(ops_view(*old(ops))),
    ensures
        ops_view(*final(ops)) == ops_view(*old(ops)).push(op_view(op)),
        ops_in_range(ops_view(*final(ops))),
        apply_ops(s, ops_view(*final(ops))) == apply_op(apply_ops(s, ops_view(*old(ops))), op_view(op)),
{
    let ghost before = ops_view(*ops);
    ops.push(op);
    assert(ops_view(*ops) =~= before.push(op_view(op)));
    assert(ops_view(*ops).drop_last() =~= before);
}

fn op_for(slot: usize, value: &Option<String>) -> (r: ConfigOp)
    ensures
        op_view(r) == (slot as int, opt_view(*value)),
{
    match value {
        Some(v) => ConfigOp::Assign { slot, value: v.clone() },
        None => ConfigOp::Clear { slot },
    }
}

fn expected_values(profile: &Profile, ssh: Option<String>) -> (r: Vec<Option<String>>)
    ensures
        r.len() == MANAGED_COUNT,
        slots_view(r) == expected(profile@, opt_view(ssh)),
{
    let mut r: Vec<Option<String>> = Vec::new();
    r.push(Some(profile.git_name.clone()));
    r.push(Some(profile.git_email.clone()));
    r.push(ssh);
    r.push(crate::config::clone_opt(&profile.signing_key));
    match &profile.signing_key {
        Some(_) => {
            r.push(Some(String::from_str(profile.signing_format.as_git_value())));
            if profile.require_signing {
                r.push(Some(String::from_str("true")));
            } else {
                r.push(None);
            }
        },
        None => {
            r.push(None);
            r.push(None);
        },
    }
    assert(slots_view(r) =~= expected(profile@, opt_view(ssh)));
    r
}

fn slot_equals(state: &LocalState, slot: usize, value: &Option<String>) -> (r: bool)
    requires
        state.wf(),
        slot < SLOT_COUNT,
    ensures
        r == (state@[slot as int] == opt_view(*value)),
{
    match (&state.values[slot], value) {
        (Some(a), Some(b)) => str_eq(a.as_str(), b.as_str()),
        (None, None) => true,
        _ => false,
    }
}

/// Whether the repository's managed settings have drifted from the profile.
pub fn binding_drifted(
    state: &LocalState,
    profile: &Profile,
    remote: Option<&RemoteInfo>,
    facts: &LocalFacts,
) -> (r: Result<bool, GitPersonaError>)
    requires
        state.wf(),
    ensures
        match drift_result(state@, profile@, remote_view(remote), *facts) {
            Ok(b) => r is Ok && r->Ok_0 == b,
            Err(e) => r is Err && r->Err_0@ == e,
        },
{
    if !slot_equals(state, 2, &Some(profile.git_name.clone())) {
        return Ok(true);
    }
    if !slot_equals(state, 3, &Some(profile.git_email.clone())) {
        return Ok(true);
    }
    let exp = expected_values(profile, None);
    let signing = !slot_equals(state, 5, &exp[3]) || !slot_equals(state, 6, &exp[4])
        || !slot_equals(state, 7, &exp[5]);
    if is_ssh_remote(remote) {
        let command = expected_ssh_command(profile, facts)?;
        Ok(!slot_equals(state, 4, &Some(command)) || signing)
    } else {
        Ok(signing)
    }
}

/// The operations that bind the repository to `profile`, or why binding is
/// refused. Carried out in order, the operations turn the slots into
/// `bind_effect`; a refusal changes nothing.
pub fn bind_plan(
    state: &LocalState,
    profile_name: &str,
    profile: &Profile,
    remote: Option<&RemoteInfo>,
    force: bool,
    old_profile: Option<&Profile>,
    facts: &LocalFacts,
) -> (r: Result<Vec<ConfigOp>, GitPersonaError>)
    requires
        state.wf(),
    ensures
        match bind_refusal(
            state@,
            profile@,
            remote_view(remote),
            force,
            profile_opt_view(old_profile),
            *facts,
        ) {
            Some(e) => r is Err && r->Err_0@ == e,
            None => r is Ok && ops_in_range(ops_view(r->Ok_0)) && apply_ops(
                state@,
                ops_view(r->Ok_0),
            ) == bind_effect(state@, profile_name@, profile@, bound_ssh(profile@, remote_view(remote), *facts)),
        },
{
    if state.values[SLOT_PROFILE].is_some() && !force {
        match old_profile {
            Some(old) => {
                if binding_drifted(state, old, remote, facts)? {
                    return Err(
                        GitPersonaError::usage(
                            String::from_str(
                                "managed Git settings have changed; inspect them and rerun with --force to rebind",
                            ),
                        ),
                    );
                }
            },
            None => {
                return Err(
                    GitPersonaError::usage(
                        String::from_str(
                            "the repository references a missing profile; rerun with --force to repair the binding",
                        ),
                    ),
                );
            },
        }
    }
    let ssh: Option<String> = if is_ssh_remote(remote) {
        Some(expected_ssh_command(profile, facts)?)
    } else {
        None
    };
    let ops = bind_ops(state, profile_name, profile, ssh);
    Ok(ops)
}


/// The slots after a first bind records its backups.
pub open spec fn backup_effect(s: Slots) -> Slots {
    Seq::new(
        SLOT_COUNT as nat,
        |i: int|
            if 8 <= i < 14 {
                Some(
                    if s[i - 6] is Some {
                        true_text()
                    } else {
                        false_text()
                    },
                )
            } else if 14 <= i < 20 {
                s[i - 12]
            } else {
                s[i]
            },
    )
}

fn record_backups(state: &LocalState, ops: &mut Vec<ConfigOp>)
    requires
        state.wf(),
        ops_view(*old(ops)) == Seq::<OpView>::empty(),
    ensures
        ops_in_range(ops_view(*final(ops))),
        apply_ops(state@, ops_view(*final(ops))) == backup_effect(state@),
{
    let ghost s = state@;
    assert(apply_ops(s, ops_view(*ops)) == s);
    let mut m: usize = 0;
    while m < MANAGED_COUNT
        invariant
            state.wf(),
            s == state@,
            s.len() == SLOT_COUNT,
            m <= MANAGED_COUNT,
            ops_in_range(ops_view(*ops)),
            apply_ops(s, ops_view(*ops)).len() == SLOT_COUNT,
            forall|i: int|
                0 <= i < SLOT_COUNT ==> (#[trigger] apply_ops(s, ops_view(*ops))[i]) == if 8 <= i < 8
                    + m {
                    Some(
                        if s[i - 6] is Some {
                            true_text()
                        } else {
                            false_text()
                        },
                    )
                } else {
                    s[i]
                },
        decreases MANAGED_COUNT - m,
    {
        let flag = if state.values[2 + m].is_some() {
            String::from_str("true")
        } else {
            String::from_str("false")
        };
        push_op(ops, ConfigOp::Assign { slot: 8 + m, value: flag }, Ghost(s));
        m = m + 1;
    }
    let mut m: usize = 0;
    while m < MANAGED_COUNT
        invariant
            state.wf(),
            s == state@,
            s.len() == SLOT_COUNT,
            m <= MANAGED_COUNT,
            ops_in_range(ops_view(*ops)),
            apply_ops(s, ops_view(*ops)).len() == SLOT_COUNT,
            forall|i: int|
                0 <= i < SLOT_COUNT ==> (#[trigger] apply_ops(s, ops_view(*ops))[i]) == if 8 <= i
                    < 14 {
                    Some(
                        if s[i - 6] is Some {
                            true_text()
                        } else {
                            false_text()
                        },
                    )
                } else if 14 <= i < 14 + m {
                    s[i - 12]
                } else {
                    s[i]
                },
        decreases MANAGED_COUNT - m,
    {
        let op = op_for(14 + m, &state.values[2 + m]);
        push_op(ops, op, Ghost(s));
        m = m + 1;
    }
    assert(apply_ops(s, ops_view(*ops)) =~= backup_effect(s));
}

fn write_managed(exp: &Vec<Option<String>>, ops: &mut Vec<ConfigOp>, Ghost(s): Ghost<Slots>)
    requires
        exp.len() == MANAGED_COUNT,
        ops_in_range(ops_view(*old(ops))),
        apply_ops(s, ops_view(*old(ops))).len() == SLOT_COUNT,
    ensures
        ops_in_range(ops_view(*final(ops))),
        apply_ops(s, ops_view(*final(ops))) == Seq::new(
            SLOT_COUNT as nat,
            |i: int|
                if 2 <= i < 8 {
                    slots_view(*exp)[i - 2]
                } else {
                    apply_ops(s, ops_view(*old(ops)))[i]
                },
        ),
{
    let ghost mid = apply_ops(s, ops_view(*ops));
    let mut m: usize = 0;
    while m < MANAGED_COUNT
        invariant
            m <= MANAGED_COUNT,
            exp.len() == MANAGED_COUNT,
            mid.len() == SLOT_COUNT,
            ops_in_range(ops_view(*ops)),
            apply_ops(s, ops_view(*ops)).len() == SLOT_COUNT,
            forall|i: int|
                0 <= i < SLOT_COUNT ==> (#[trigger] apply_ops(s, ops_view(*ops))[i]) == if 2 <= i < 2
                    + m {
                    slots_view(*exp)[i - 2]
                } else {
                    mid[i]
                },
        decreases MANAGED_COUNT - m,
    {
        let op = op_for(2 + m, &exp[m]);
        push_op(ops, op, Ghost(s));
        m = m + 1;
    }
    assert(apply_ops(s, ops_view(*ops)) =~= Seq::new(
        SLOT_COUNT as nat,
        |i: int|
            if 2 <= i < 8 {
                slots_view(*exp)[i - 2]
            } else {
                mid[i]
            },
    ));
}

/// The operations that bind, without the refusal checks.
fn bind_ops(state: &LocalState, profile_name: &str, profile: &Profile, ssh: Option<String>) -> (r: Vec<ConfigOp>)
    requires
        state.wf(),
    ensures
        ops_in_range(ops_view(r)),
        apply_ops(state@, ops_view(r)) == bind_effect(state@, profile_name@, profile@, opt_view(ssh)),
{
    let ghost s = state@;
    let ghost ssh_v = opt_view(ssh);
    let mut ops: Vec<ConfigOp> = Vec::new();
    assert(ops_view(ops) =~= Seq::<OpView>::empty());
    if state.values[SLOT_VERSION].is_none() {
        record_backups(state, &mut ops);
    }
    let ghost base = apply_ops(s, ops_view(ops));
    assert(base.len() == SLOT_COUNT);
    push_op(
        &mut ops,
        ConfigOp::Assign { slot: SLOT_PROFILE, value: String::from_str(profile_name) },
        Ghost(s),
    );
    push_op(&mut ops, ConfigOp::Assign { slot: SLOT_VERSION, value: String::from_str("1") }, Ghost(s));
    let exp = expected_values(profile, ssh);
    write_managed(&exp, &mut ops, Ghost(s));
    assert(apply_ops(s, ops_view(ops)) =~= bind_effect(s, profile_name@, profile@, ssh_v));
    ops
}


pub open spec fn incomplete(s: Slots, m: int) -> bool {
    s[present_slot(m)] == Some(true_text()) && s[backup_slot(m)] is None
}

/// The first managed setting, from `m` on, whose backup is marked present
/// but missing.
pub open spec fn first_incomplete(s: Slots, m: int) -> Option<int>
    decreases 6 - m,
{
    if m >= 6 || m < 0 {
        None
    } else if incomplete(s, m) {
        Some(m)
    } else {
        first_incomplete(s, m + 1)
    }
}

/// Why an unbind is refused, if it is: the repository must be bound, and
/// every backup marked present must be there.
pub open spec fn unbind_refusal(s: Slots) -> Option<ErrorView> {
    if s[0] is None {
        Some((ErrorKind::Usage, "repository is not bound to a GitPersona profile"@))
    } else {
        match first_incomplete(s, 0) {
            Some(m) => Some(
                (
                    ErrorKind::Dependency,
                    "binding backup for "@ + slot_name(managed_slot(m)) + " is incomplete"@,
                ),
            ),
            None => None,
        }
    }
}

/// The slots after unbinding: every managed setting back to its recorded
/// value (unset when it was recorded as absent), and every GitPersona key
/// removed.
pub open spec fn unbind_effect(s: Slots) -> Slots {
    Seq::new(
        SLOT_COUNT as nat,
        |i: int|
            if 2 <= i < 8 {
                if s[i + 6] == Some(true_text()) {
                    s[i + 12]
                } else {
                    None
                }
            } else {
                None
            },
    )
}

fn is_true_flag(value: &Option<String>) -> (r: bool)
    ensures
        r == (opt_view(*value) == Some(true_text())),
{
    match value {
        Some(v) => str_eq(v.as_str(), "true"),
        None => false,
    }
}

pub proof fn lemma_first_incomplete_none(s: Slots, m: int)
    requires
        0 <= m <= 6,
        forall|k: int| m <= k < 6 ==> !incomplete(s, k),
    ensures
        first_incomplete(s, m) is None,
    decreases 6 - m,
{
    if m < 6 {
        lemma_first_incomplete_none(s, m + 1);
    }
}

pub proof fn lemma_first_incomplete_at(s: Slots, m: int, k: int)
    requires
        0 <= m <= k < 6,
        incomplete(s, k),
        forall|j: int| m <= j < k ==> !incomplete(s, j),
    ensures
        first_incomplete(s, m) == Some(k),
    decreases k - m,
{
    if m < k {
        lemma_first_incomplete_at(s, m + 1, k);
    }
}

/// The operations that unbind the repository, or why unbinding is refused.
/// Carried out in order, they turn the slots into `unbind_effect`.
pub fn unbind_plan(state: &LocalState) -> (r: Result<Vec<ConfigOp>, GitPersonaError>)
    requires
        state.wf(),
    ensures
        match unbind_refusal(state@) {
            Some(e) => r is Err && r->Err_0@ == e,
            None => r is Ok && ops_in_range(ops_view(r->Ok_0)) && apply_ops(
                state@,
                ops_view(r->Ok_0),
            ) == unbind_effect(state@),
        },
{
    if state.values[SLOT_PROFILE].is_none() {
        return Err(
            GitPersonaError::usage(
                String::from_str("repository is not bound to a GitPersona profile"),
            ),
        );
    }
    let ghost s = state@;
    let mut ops: Vec<ConfigOp> = Vec::new();
    assert(apply_ops(s, ops_view(ops)) == s) by {
        assert(ops_view(ops) =~= Seq::<OpView>::empty());
    }
    let mut m: usize = 0;
    while m < MANAGED_COUNT
        invariant
            state.wf(),
            s == state@,
            s.len() == SLOT_COUNT,
            s[0] is Some,
            m <= MANAGED_COUNT,
            forall|k: int| 0 <= k < m ==> !incomplete(s, k),
            ops_in_range(ops_view(ops)),
            apply_ops(s, ops_view(ops)).len() == SLOT_COUNT,
            forall|i: int|
                0 <= i < SLOT_COUNT ==> (#[trigger] apply_ops(s, ops_view(ops))[i]) == if 2 <= i < 2
                    + m {
                    unbind_effect(s)[i]
                } else {
                    s[i]
                },
        decreases MANAGED_COUNT - m,
    {
        if is_true_flag(&state.values[8 + m]) {
            match &state.values[14 + m] {
                Some(v) => {
                    push_op(&mut ops, ConfigOp::Assign { slot: 2 + m, value: v.clone() }, Ghost(s));
                },
                None => {
                    proof {
                        assert(incomplete(s, m as int));
                        lemma_first_incomplete_at(s, 0, m as int);
                    }
                    return Err(
                        GitPersonaError::dependency(
                            cat3("binding backup for ", slot_key(2 + m), " is incomplete"),
                        ),
                    );
                },
            }
        } else {
            push_op(&mut ops, ConfigOp::Clear { slot: 2 + m }, Ghost(s));
        }
        m = m + 1;
    }
    proof {
        lemma_first_incomplete_none(s, 0);
    }
    push_op(&mut ops, ConfigOp::Clear { slot: SLOT_PROFILE }, Ghost(s));
    push_op(&mut ops, ConfigOp::Clear { slot: SLOT_VERSION }, Ghost(s));
    let mut m: usize = 0;
    while m < MANAGED_COUNT
        invariant
            s.len() == SLOT_COUNT,
            m <= MANAGED_COUNT,
            ops_in_range(ops_view(ops)),
            apply_ops(s, ops_view(ops)).len() == SLOT_COUNT,
            forall|i: int|
                0 <= i < SLOT_COUNT ==> (#[trigger] apply_ops(s, ops_view(ops))[i]) == if 2 <= i < 8 {
                    unbind_effect(s)[i]
                } else if i < 2 || 8 <= i < 8 + m || 14 <= i < 14 + m {
                    None
                } else {
                    s[i]
                },
        decreases MANAGED_COUNT - m,
    {
        push_op(&mut ops, ConfigOp::Clear { slot: 8 + m }, Ghost(s));
        push_op(&mut ops, ConfigOp::Clear { slot: 14 + m }, Ghost(s));
        m = m + 1;
    }
    assert(apply_ops(s, ops_view(ops)) =~= unbind_effect(s));
    Ok(ops)
}

/// The operations that put every slot back to a snapshot, whatever the
/// slots hold when they are carried out.
pub fn restore_plan(snapshot: &LocalState) -> (r: Vec<ConfigOp>)
    requires
        snapshot.wf(),
    ensures
        ops_in_range(ops_view(r)),
        forall|t: Slots| t.len() == SLOT_COUNT ==> #[trigger] apply_ops(t, ops_view(r)) == snapshot@,
{
    let mut ops: Vec<ConfigOp> = Vec::new();
    assert(ops_view(ops) =~= Seq::<OpView>::empty());
    let mut i: usize = 0;
    while i < SLOT_COUNT
        invariant
            snapshot.wf(),
            i <= SLOT_COUNT,
            ops_in_range(ops_view(ops)),
            forall|t: Slots|
                t.len() == SLOT_COUNT ==> #[trigger] apply_ops(t, ops_view(ops)) == snapshot@.subrange(
                    0,
                    i as int,
                ) + t.subrange(i as int, SLOT_COUNT as int),
        decreases SLOT_COUNT - i,
    {
        let op = op_for(i, &snapshot.values[i]);
        let ghost before = ops_view(ops);
        ops.push(op);
        proof {
            assert(ops_view(ops) =~= before.push(op_view(op)));
            assert(ops_view(ops).drop_last() =~= before);
            assert forall|t: Slots| t.len() == SLOT_COUNT implies #[trigger] apply_ops(
                t,
                ops_view(ops),
            ) == snapshot@.subrange(0, i + 1) + t.subrange(i + 1, SLOT_COUNT as int) by {
                let prev = apply_ops(t, before);
                assert(prev == snapshot@.subrange(0, i as int) + t.subrange(i as int, SLOT_COUNT as int));
                assert(apply_ops(t, ops_view(ops)) == apply_op(prev, op_view(op)));
                assert(apply_op(prev, op_view(op)) =~= snapshot@.subrange(0, i + 1) + t.subrange(
                    i + 1,
                    SLOT_COUNT as int,
                ));
            }
        }
        i = i + 1;
    }
    assert forall|t: Slots| t.len() == SLOT_COUNT implies #[trigger] apply_ops(t, ops_view(ops))
        == snapshot@ by {
        assert(snapshot@.subrange(0, SLOT_COUNT as int) + t.subrange(
            SLOT_COUNT as int,
            SLOT_COUNT as int,
        ) =~= snapshot@);
    }
    ops
}

impl LocalState {
    /// Carries out operations on this in-memory copy of the slots.
    pub fn apply(&mut self, ops: &Vec<ConfigOp>)
        requires
            old(self).wf(),
            ops_in_range(ops_view(*ops)),
        ensures
            final(self).wf(),
            final(self)@ == apply_ops(old(self)@, ops_view(*ops)),
    {
        let ghost start = self@;
        let mut k: usize = 0;
        assert(ops_view(*ops).subrange(0, 0) =~= Seq::<OpView>::empty());
        while k < ops.len()
            invariant
                self.wf(),
                k <= ops.len(),
                ops_in_range(ops_view(*ops)),
                self@ == apply_ops(start, ops_view(*ops).subrange(0, k as int)),
            decreases ops.len() - k,
        {
            let ghost q = ops_view(*ops).subrange(0, k + 1);
            assert(q.drop_last() =~= ops_view(*ops).subrange(0, k as int));
            assert(q.last() == op_view(ops[k as int]));
            assert(0 <= ops_view(*ops)[k as int].0 < SLOT_COUNT);
            match &ops[k] {
                ConfigOp::Assign { slot, value } => {
                    self.values.set(*slot, Some(value.clone()));
                },
                ConfigOp::Clear { slot } => {
                    self.values.set(*slot, None);
                },
            }
            assert(self@ =~= apply_op(apply_ops(start, q.drop_last()), q.last()));
            k = k + 1;
        }
        assert(ops_view(*ops).subrange(0, ops.len() as int) =~= ops_view(*ops));
    }
}


/// No GitPersona key is set: the repository has never been bound, or has
/// been unbound.
pub open spec fn unbound_clean(s: Slots) -> bool {
    &&& s.len() == SLOT_COUNT
    &&& s[0] is None
    &&& s[1] is None
    &&& forall|i: int| 8 <= i < 20 ==> (#[trigger] s[i]) is None
}

/// `b` is bound and its backups record the managed settings of `s`.
pub open spec fn records(b: Slots, s: Slots) -> bool {
    &&& b.len() == SLOT_COUNT
    &&& s.len() == SLOT_COUNT
    &&& b[0] is Some
    &&& b[1] is Some
    &&& forall|i: int|
        8 <= i < 14 ==> (#[trigger] b[i]) == Some(
            if s[i - 6] is Some {
                true_text()
            } else {
                false_text()
            },
        )
    &&& forall|i: int| 14 <= i < 20 ==> (#[trigger] b[i]) == s[i - 12]
}

/// The first bind of a repository records its managed settings.
pub proof fn lemma_first_bind_records(s: Slots, name: Seq<char>, p: ProfileView, ssh: Option<Seq<char>>)
    requires
        s.len() == SLOT_COUNT,
        s[1] is None,
    ensures
        records(bind_effect(s, name, p, ssh), s),
{
}

/// Rebinding, to the same or another profile, keeps the record of the
/// settings from before the first bind.
pub proof fn lemma_rebind_keeps_record(b: Slots, s: Slots, name: Seq<char>, p: ProfileView, ssh: Option<Seq<char>>)
    requires
        records(b, s),
    ensures
        records(bind_effect(b, name, p, ssh), s),
{
}

/// The managed settings of `s`, with every GitPersona key unset.
pub open spec fn managed_only(s: Slots) -> Slots {
    Seq::new(SLOT_COUNT as nat, |i: int| if 2 <= i < 8 { s[i] } else { None })
}

/// Unbinding a repository whose backups record `s` succeeds, gives every
/// managed setting its value in `s` back, and leaves no GitPersona key.
pub proof fn lemma_unbind_restores_managed(b: Slots, s: Slots)
    requires
        records(b, s),
    ensures
        unbind_refusal(b) is None,
        unbind_effect(b) == managed_only(s),
{
    reveal_strlit("true");
    reveal_strlit("false");
    assert(true_text() != false_text()) by {
        assert(true_text().len() != false_text().len());
    }
    assert forall|k: int| 0 <= k < 6 implies !incomplete(b, k) by {
        assert(b[present_slot(k)] == b[8 + k]);
        assert(b[backup_slot(k)] == b[14 + k]);
    }
    lemma_first_incomplete_none(b, 0);
    assert(unbind_effect(b) =~= managed_only(s));
}

/// Unbinding a repository whose backups record `s` succeeds and gives back
/// exactly `s`.
pub proof fn lemma_unbind_restores_record(b: Slots, s: Slots)
    requires
        records(b, s),
        unbound_clean(s),
    ensures
        unbind_refusal(b) is None,
        unbind_effect(b) == s,
{
    lemma_unbind_restores_managed(b, s);
    assert(managed_only(s) =~= s);
}

/// Binding a never-bound repository and then unbinding it restores every
/// slot exactly: the managed settings get their original values back, and
/// no GitPersona key remains.
pub proof fn lemma_bind_then_unbind_restores(s: Slots, name: Seq<char>, p: ProfileView, ssh: Option<Seq<char>>)
    requires
        unbound_clean(s),
    ensures
        unbind_refusal(bind_effect(s, name, p, ssh)) is None,
        unbind_effect(bind_effect(s, name, p, ssh)) == s,
{
    lemma_first_bind_records(s, name, p, ssh);
    lemma_unbind_restores_record(bind_effect(s, name, p, ssh), s);
}

/// However many times a repository is rebound after its first bind,
/// unbinding restores the settings from before that first bind.
pub proof fn lemma_rebind_then_unbind_restores(
    s: Slots,
    b: Slots,
    name: Seq<char>,
    p: ProfileView,
    ssh: Option<Seq<char>>,
)
    requires
        unbound_clean(s),
        records(b, s),
    ensures
        unbind_refusal(bind_effect(b, name, p, ssh)) is None,
        unbind_effect(bind_effect(b, name, p, ssh)) == s,
{
    lemma_rebind_keeps_record(b, s, name, p, ssh);
    lemma_unbind_restores_record(bind_effect(b, name, p, ssh), s);
}

/// Binding twice to the same profile is the same as binding once.
pub proof fn lemma_bind_idempotent(s: Slots, name: Seq<char>, p: ProfileView, ssh: Option<Seq<char>>)
    requires
        s.len() == SLOT_COUNT,
    ensures
        bind_effect(bind_effect(s, name, p, ssh), name, p, ssh) == bind_effect(s, name, p, ssh),
{
    assert(bind_effect(bind_effect(s, name, p, ssh), name, p, ssh) =~= bind_effect(s, name, p, ssh));
}

/// A repository that was just bound (without refusal) shows no drift
/// against the profile it was bound to.
pub proof fn lemma_bound_is_not_drifted(
    s: Slots,
    name: Seq<char>,
    p: ProfileView,
    remote: Option<RemoteInfoView>,
    force: bool,
    old: Option<ProfileView>,
    facts: LocalFacts,
)
    requires
        s.len() == SLOT_COUNT,
        bind_refusal(s, p, remote, force, old, facts) is None,
    ensures
        drift_result(bind_effect(s, name, p, bound_ssh(p, remote, facts)), p, remote, facts)
            == Ok::<bool, ErrorView>(false),
{
    let b = bind_effect(s, name, p, bound_ssh(p, remote, facts));
    assert(b[2] == Some(p.git_name));
    assert(b[3] == Some(p.git_email));
    assert(b[5] == expected(p, None)[3]);
    assert(b[6] == expected(p, None)[4]);
    assert(b[7] == expected(p, None)[5]);
}


/// One bind: the profile's name, the profile, and the SSH command it sets.
pub type BindStep = (Seq<char>, ProfileView, Option<Seq<char>>);

/// The slots after binding `s` with each step in turn.
pub open spec fn bind_all(s: Slots, binds: Seq<BindStep>) -> Slots
    decreases binds.len(),
{
    if binds.len() == 0 {
        s
    } else {
        let b = binds.last();
        bind_effect(bind_all(s, binds.drop_last()), b.0, b.1, b.2)
    }
}

proof fn lemma_bind_all_records(s: Slots, binds: Seq<BindStep>)
    requires
        s.len() == SLOT_COUNT,
        s[1] is None,
        binds.len() >= 1,
    ensures
        records(bind_all(s, binds), s),
    decreases binds.len(),
{
    let b = binds.last();
    if binds.len() == 1 {
        assert(bind_all(s, binds.drop_last()) == s);
        lemma_first_bind_records(s, b.0, b.1, b.2);
    } else {
        lemma_bind_all_records(s, binds.drop_last());
        lemma_rebind_keeps_record(bind_all(s, binds.drop_last()), s, b.0, b.1, b.2);
    }
}

/// However many binds follow one another on an unbound repository, to
/// whichever profiles, unbinding afterwards succeeds: each managed setting
/// has its value from before the first bind again (or is unset again), and
/// no GitPersona key remains, leftover backup keys included. On a repository
/// that never held a GitPersona key, that is exactly the state it started in.
pub proof fn lemma_binds_then_unbind_restores(s: Slots, binds: Seq<BindStep>)
    requires
        s.len() == SLOT_COUNT,
        s[0] is None,
        s[1] is None,
        binds.len() >= 1,
    ensures
        unbind_refusal(bind_all(s, binds)) is None,
        unbind_effect(bind_all(s, binds)) == managed_only(s),
        forall|i: int| 2 <= i < 8 ==> #[trigger] unbind_effect(bind_all(s, binds))[i] == s[i],
        forall|i: int|
            0 <= i < SLOT_COUNT && !(2 <= i < 8) ==> (#[trigger] unbind_effect(bind_all(s, binds))[i]) is None,
        unbound_clean(s) ==> unbind_effect(bind_all(s, binds)) == s,
{
    lemma_bind_all_records(s, binds);
    lemma_unbind_restores_managed(bind_all(s, binds), s);
    if unbound_clean(s) {
        assert(managed_only(s) =~= s);
    }
}

} // verus!
