//! Profiles, their validation, path expansion, and the configuration document.
use crate::error::{ErrorKind, GitPersonaError};
use crate::matching::{regex_is_match, regex_match_result};
use crate::profiles::ProfileMap;
use crate::text::{
    any_ws, cat, decimal, decimal_string, cat3, chars_of, contains, contains_char, contains_whitespace, has_sub, skip_char,
    starts_with, starts_with_str, str_eq, string_of, strip_leading, sub_chars, trim, trim_str,
};
use vstd::prelude::*;

verus! {

/// How commits are signed.
#[derive(Debug, Clone, Copy, PartialEq, Eq, Structural)]
pub enum SigningFormat {
    Openpgp,
    Ssh,
}

/// The value Git's `gpg.format` takes for a signing format.
pub open spec fn signing_git_value(format: SigningFormat) -> Seq<char> {
    match format {
        SigningFormat::Openpgp => "openpgp"@,
        SigningFormat::Ssh => "ssh"@,
    }
}

impl SigningFormat {
    pub fn as_git_value(self) -> (r: &'static str)
        ensures
            r@ == signing_git_value(self),
    {
        match self {
            SigningFormat::Openpgp => "openpgp",
            SigningFormat::Ssh => "ssh",
        }
    }
}

impl Default for SigningFormat {
    fn default() -> (r: Self)
        ensures
            r == SigningFormat::Openpgp,
    {
        SigningFormat::Openpgp
    }
}

/// Whether a format is the default one, which the configuration file omits.
pub fn is_default_signing_format(value: &SigningFormat) -> (r: bool)
    ensures
        r == (*value == SigningFormat::Openpgp),
{
    match value {
        SigningFormat::Openpgp => true,
        SigningFormat::Ssh => false,
    }
}

/// The host a profile uses when none is given.
pub fn default_hostname() -> (r: String)
    ensures
        r@ == "github.com"@,
{
    String::from_str("github.com")
}

/// One identity: the GitHub account, the Git author, and the keys and
/// policy that go with them. Key paths are stored, never key contents.
#[derive(Debug)]
pub struct Profile {
    pub github_user: String,
    pub git_name: String,
    pub git_email: String,
    pub hostname: String,
    pub ssh_key: Option<String>,
    pub allowed_owners: Vec<String>,
    pub signing_key: Option<String>,
    pub signing_format: SigningFormat,
    pub require_signing: bool,
}

/// The mathematical value of a profile.
pub ghost struct ProfileView {
    pub github_user: Seq<char>,
    pub git_name: Seq<char>,
    pub git_email: Seq<char>,
    pub hostname: Seq<char>,
    pub ssh_key: Option<Seq<char>>,
    pub allowed_owners: Seq<Seq<char>>,
    pub signing_key: Option<Seq<char>>,
    pub signing_format: SigningFormat,
    pub require_signing: bool,
}

pub open spec fn opt_view(o: Option<String>) -> Option<Seq<char>> {
    match o {
        Some(s) => Some(s@),
        None => None,
    }
}

pub open spec fn strings_view(v: Vec<String>) -> Seq<Seq<char>> {
    v@.map_values(|s: String| s@)
}

impl View for Profile {
    type V = ProfileView;

    open spec fn view(&self) -> ProfileView {
        ProfileView {
            github_user: self.github_user@,
            git_name: self.git_name@,
            git_email: self.git_email@,
            hostname: self.hostname@,
            ssh_key: opt_view(self.ssh_key),
            allowed_owners: strings_view(self.allowed_owners),
            signing_key: opt_view(self.signing_key),
            signing_format: self.signing_format,
            require_signing: self.require_signing,
        }
    }
}

pub fn clone_opt(o: &Option<String>) -> (r: Option<String>)
    ensures
        opt_view(r) == opt_view(*o),
{
    match o {
        Some(s) => Some(s.clone()),
        None => None,
    }
}

pub fn clone_strings(v: &Vec<String>) -> (r: Vec<String>)
    ensures
        strings_view(r) == strings_view(*v),
{
    let mut r: Vec<String> = Vec::new();
    let mut i: usize = 0;
    while i < v.len()
        invariant
            i <= v.len(),
            r.len() == i,
            forall|k: int| 0 <= k < i ==> (#[trigger] r@[k])@ == v@[k]@,
        decreases v.len() - i,
    {
        r.push(v[i].clone());
        i = i + 1;
    }
    assert(strings_view(r) =~= strings_view(*v));
    r
}

impl Clone for Profile {
    fn clone(&self) -> (r: Self)
        ensures
            r@ == self@,
    {
        Profile {
            github_user: self.github_user.clone(),
            git_name: self.git_name.clone(),
            git_email: self.git_email.clone(),
            hostname: self.hostname.clone(),
            ssh_key: clone_opt(&self.ssh_key),
            allowed_owners: clone_strings(&self.allowed_owners),
            signing_key: clone_opt(&self.signing_key),
            signing_format: self.signing_format,
            require_signing: self.require_signing,
        }
    }
}

/// A string is blank when nothing but white space is left after trimming.
pub open spec fn blank(s: Seq<char>) -> bool {
    trim(s).len() == 0
}

pub fn is_blank(s: &str) -> (r: bool)
    ensures
        r == blank(s@),
{
    let t = trim_str(s);
    t.as_str().is_empty()
}

/// A host name: after trimming, non-empty, without a scheme, a path or
/// white space.
pub open spec fn hostname_ok(hostname: Seq<char>) -> bool {
    let v = trim(hostname);
    &&& v.len() > 0
    &&& !has_sub(v, "://"@)
    &&& !v.contains('/')
    &&& !any_ws(v)
}

pub open spec fn usage_error(e: GitPersonaError, message: Seq<char>) -> bool {
    e@ == (ErrorKind::Usage, message)
}

pub fn validate_hostname(hostname: &str) -> (r: Result<(), GitPersonaError>)
    ensures
        r is Ok <==> hostname_ok(hostname@),
        r is Err ==> usage_error(
            r->Err_0,
            "hostname must be a host name without a scheme or path"@,
        ),
{
    let value = trim_str(hostname);
    let v = value.as_str();
    if v.is_empty() || contains(v, "://") || contains_char(v, '/') || contains_whitespace(v) {
        Err(
            GitPersonaError::usage(
                String::from_str("hostname must be a host name without a scheme or path"),
            ),
        )
    } else {
        Ok(())
    }
}

pub open spec fn any_blank(v: Seq<Seq<char>>) -> bool {
    exists|i: int| 0 <= i < v.len() && blank(#[trigger] v[i])
}

/// The first problem `Profile::validate` reports, if any.
pub open spec fn profile_problem(p: ProfileView) -> Option<Seq<char>> {
    if blank(p.github_user) {
        Some("GitHub user cannot be empty"@)
    } else if blank(p.git_name) {
        Some("Git name cannot be empty"@)
    } else if blank(p.git_email) {
        Some("Git email cannot be empty"@)
    } else if !hostname_ok(p.hostname) {
        Some("hostname must be a host name without a scheme or path"@)
    } else if p.ssh_key == Some(Seq::<char>::empty()) {
        Some("SSH key path cannot be empty"@)
    } else if any_blank(p.allowed_owners) {
        Some("allowed owners cannot be empty"@)
    } else if p.signing_key is Some && blank(p.signing_key->0) {
        Some("signing key cannot be empty"@)
    } else if p.require_signing && p.signing_key is None {
        Some("required commit signing needs a signing key"@)
    } else {
        None
    }
}

pub open spec fn profile_valid(p: ProfileView) -> bool {
    profile_problem(p) is None
}

/// What a valid profile guarantees: a GitHub user, Git name and email
/// that are not blank, a plain host name, key paths and owners that are not
/// empty, and a signing key whenever signing is required. A profile that
/// requires signing without a key is refused with that reason once its
/// other fields are in order.
pub proof fn lemma_valid_profile_guarantees(p: ProfileView)
    ensures
        profile_valid(p) ==> {
            &&& !blank(p.github_user)
            &&& !blank(p.git_name)
            &&& !blank(p.git_email)
            &&& hostname_ok(p.hostname)
            &&& p.ssh_key != Some(Seq::<char>::empty())
            &&& !any_blank(p.allowed_owners)
            &&& (p.signing_key is Some ==> !blank(p.signing_key->0))
            &&& (p.require_signing ==> p.signing_key is Some)
        },
        p.require_signing && p.signing_key is None ==> !profile_valid(p),
        p.require_signing && p.signing_key is None && !blank(p.github_user) && !blank(p.git_name) && !blank(
            p.git_email,
        ) && hostname_ok(p.hostname) && p.ssh_key != Some(Seq::<char>::empty()) && !any_blank(p.allowed_owners)
            ==> profile_problem(p) == Some("required commit signing needs a signing key"@),
{
}

fn any_blank_exec(v: &Vec<String>) -> (r: bool)
    ensures
        r == any_blank(strings_view(*v)),
{
    let mut i: usize = 0;
    while i < v.len()
        invariant
            i <= v.len(),
            forall|k: int| 0 <= k < i ==> !blank(#[trigger] strings_view(*v)[k]),
        decreases v.len() - i,
    {
        if is_blank(v[i].as_str()) {
            assert(blank(strings_view(*v)[i as int]));
            return true;
        }
        i = i + 1;
    }
    false
}

impl Profile {
    /// Checks the fields that need no file system: non-blank identity
    /// fields, a plain host name, non-empty key paths and owners, and a
    /// signing key whenever signing is required.
    pub fn validate(&self) -> (r: Result<(), GitPersonaError>)
        ensures
            r is Ok <==> profile_valid(self@),
            r is Err ==> usage_error(r->Err_0, profile_problem(self@)->0),
    {
        if is_blank(self.github_user.as_str()) {
            return Err(GitPersonaError::usage(String::from_str("GitHub user cannot be empty")));
        }
        if is_blank(self.git_name.as_str()) {
            return Err(GitPersonaError::usage(String::from_str("Git name cannot be empty")));
        }
        if is_blank(self.git_email.as_str()) {
            return Err(GitPersonaError::usage(String::from_str("Git email cannot be empty")));
        }
        validate_hostname(self.hostname.as_str())?;
        match &self.ssh_key {
            Some(key) => {
                if key.as_str().is_empty() {
                    assert(key@ =~= Seq::<char>::empty());
                    return Err(
                        GitPersonaError::usage(String::from_str("SSH key path cannot be empty")),
                    );
                }
            },
            None => {},
        }
        if any_blank_exec(&self.allowed_owners) {
            return Err(GitPersonaError::usage(String::from_str("allowed owners cannot be empty")));
        }
        match &self.signing_key {
            Some(key) => {
                if is_blank(key.as_str()) {
                    return Err(
                        GitPersonaError::usage(String::from_str("signing key cannot be empty")),
                    );
                }
            },
            None => {
                if self.require_signing {
                    return Err(
                        GitPersonaError::usage(
                            String::from_str("required commit signing needs a signing key"),
                        ),
                    );
                }
            },
        }
        Ok(())
    }
}

/// The error for a name the pattern does not accept.
pub open spec fn name_error(name: Seq<char>) -> (ErrorKind, Seq<char>) {
    if regex_match_result(PROFILE_NAME_PATTERN@, name) == Some(false) {
        (ErrorKind::Usage, "profile name must match [A-Za-z0-9][A-Za-z0-9._-]{0,63}"@)
    } else {
        (ErrorKind::Dependency, "the profile name pattern is invalid"@)
    }
}

/// The pattern a profile name must match.
pub const PROFILE_NAME_PATTERN: &'static str = "^[A-Za-z0-9][A-Za-z0-9._-]{0,63}$";

/// A profile name is accepted exactly when the `regex` crate matches it
/// against `PROFILE_NAME_PATTERN`.
pub fn validate_profile_name(name: &str) -> (r: Result<(), GitPersonaError>)
    ensures
        r is Ok <==> regex_match_result(PROFILE_NAME_PATTERN@, name@) == Some(true),
        r is Err ==> r->Err_0@ == name_error(name@),
{
    match regex_is_match(PROFILE_NAME_PATTERN, name) {
        Some(true) => Ok(()),
        Some(false) => Err(
            GitPersonaError::usage(
                String::from_str("profile name must match [A-Za-z0-9][A-Za-z0-9._-]{0,63}"),
            ),
        ),
        None => Err(
            GitPersonaError::dependency(String::from_str("the profile name pattern is invalid")),
        ),
    }
}

} // verus!

verus! {

pub open spec fn is_sep(c: char) -> bool {
    c == '/' || c == '\\'
}

pub open spec fn strip_seps(s: Seq<char>) -> Seq<char>
    decreases s.len(),
{
    if s.len() > 0 && is_sep(s[0]) {
        strip_seps(s.drop_first())
    } else {
        s
    }
}

/// A path written relative to the home directory: `~`, `~/...` or `~\...`.
pub open spec fn is_tilde_path(t: Seq<char>) -> bool {
    t == "~"@ || starts_with(t, "~/"@) || starts_with(t, "~\\"@)
}

/// What follows the tilde and the separators after it.
pub open spec fn tilde_suffix(t: Seq<char>) -> Seq<char> {
    strip_seps(strip_leading(t, '~'))
}

/// A relative path `rel` appended to `base`, as `Path::join` does: a `/`
/// goes between them unless `base` is empty or already ends with one.
pub open spec fn join_path(base: Seq<char>, rel: Seq<char>) -> Seq<char> {
    if base.len() == 0 || base.last() == '/' {
        base + rel
    } else {
        base + "/"@ + rel
    }
}

/// The expansion of a path given the home directory, if one is known.
pub open spec fn expansion(path: Seq<char>, home: Option<Seq<char>>) -> Option<Seq<char>> {
    if !is_tilde_path(path) {
        Some(path)
    } else {
        match home {
            Some(h) => Some(join_path(h, tilde_suffix(path))),
            None => None,
        }
    }
}

pub fn join_path_exec(base: &str, rel: &str) -> (r: String)
    ensures
        r@ == join_path(base@, rel@),
{
    let b = chars_of(base);
    if b.len() == 0 || b[b.len() - 1] == '/' {
        cat(base, rel)
    } else {
        cat3(base, "/", rel)
    }
}

fn tilde_suffix_exec(path: &str) -> (r: String)
    ensures
        r@ == tilde_suffix(path@),
{
    let v = chars_of(path);
    let i = skip_char(&v, 0, '~');
    assert(v@.subrange(0, v.len() as int) =~= path@);
    let mut j = i;
    while j < v.len() && (v[j] == '/' || v[j] == '\\')
        invariant
            i <= j <= v.len(),
            v@ == path@,
            tilde_suffix(path@) == strip_seps(v@.subrange(j as int, v.len() as int)),
        decreases v.len() - j,
    {
        assert(v@.subrange(j as int, v.len() as int).drop_first() =~= v@.subrange(
            j + 1,
            v.len() as int,
        ));
        j = j + 1;
    }
    let w = sub_chars(&v, j, v.len());
    string_of(w.as_slice())
}

/// Expands a leading `~` against the given home directory.
pub fn expand_path_with(path: &str, home: &Option<String>) -> (r: Result<String, GitPersonaError>)
    ensures
        match expansion(path@, opt_view(*home)) {
            Some(e) => r is Ok && r->Ok_0@ == e,
            None => r is Err && r->Err_0@ == (
                ErrorKind::Dependency,
                "could not determine the home directory"@,
            ),
        },
{
    let tilde = str_eq(path, "~") || starts_with_str(path, "~/") || starts_with_str(path, "~\\");
    if !tilde {
        return Ok(String::from_str(path));
    }
    match home {
        Some(h) => {
            let suffix = tilde_suffix_exec(path);
            Ok(join_path_exec(h.as_str(), suffix.as_str()))
        },
        None => Err(
            GitPersonaError::dependency(String::from_str("could not determine the home directory")),
        ),
    }
}

/// The current user's home directory, from `directories::BaseDirs::new()`
/// and `BaseDirs::home_dir`. It depends on the environment, so nothing is
/// promised about it.
#[verifier::external_body]
fn home_directory() -> (r: Option<String>) {
    match directories::BaseDirs::new() {
        Some(dirs) => Some(dirs.home_dir().to_string_lossy().into_owned()),
        None => None,
    }
}

/// Expands a leading `~` against the current user's home directory; any
/// other path is returned unchanged.
pub fn expand_path(path: &str) -> (r: Result<String, GitPersonaError>)
    ensures
        !is_tilde_path(path@) ==> r is Ok && r->Ok_0@ == path@,
        is_tilde_path(path@) ==> (r is Ok ==> exists|h: Seq<char>|
            r->Ok_0@ == join_path(h, tilde_suffix(path@))),
        is_tilde_path(path@) ==> (r is Err ==> r->Err_0@ == (
            ErrorKind::Dependency,
            "could not determine the home directory"@,
        )),
{
    let home = home_directory();
    let r = expand_path_with(path, &home);
    proof {
        if is_tilde_path(path@) && r is Ok {
            let h = opt_view(home)->0;
            assert(r->Ok_0@ == join_path(h, tilde_suffix(path@)));
        }
    }
    r
}

/// What the caller found on the local machine: the home directory and the
/// paths among those it probed that are regular files.
pub struct LocalFacts {
    pub home: Option<String>,
    pub files: Vec<String>,
}

impl LocalFacts {
    pub open spec fn is_file(&self, path: Seq<char>) -> bool {
        strings_view(self.files).contains(path)
    }

    pub open spec fn home_view(&self) -> Option<Seq<char>> {
        opt_view(self.home)
    }

    pub fn has_file(&self, path: &str) -> (r: bool)
        ensures
            r == self.is_file(path@),
    {
        let mut i: usize = 0;
        while i < self.files.len()
            invariant
                i <= self.files.len(),
                forall|k: int| 0 <= k < i ==> (#[trigger] self.files@[k])@ != path@,
            decreases self.files.len() - i,
        {
            if str_eq(self.files[i].as_str(), path) {
                assert(strings_view(self.files)[i as int] == path@);
                return true;
            }
            i = i + 1;
        }
        assert forall|k: int| 0 <= k < strings_view(self.files).len() implies strings_view(
            self.files,
        )[k] != path@ by {
            assert(strings_view(self.files)[k] == self.files@[k]@);
        }
        false
    }
}

/// A signing key given inline (`key::...`) rather than as a file.
pub open spec fn inline_signing_key(key: Seq<char>) -> bool {
    starts_with(key, "key::"@)
}

/// The key files a profile refers to: its SSH key, and its SSH signing key
/// unless that key is given inline.
pub open spec fn resource_problem(p: ProfileView, facts: LocalFacts) -> Option<
    (ErrorKind, Seq<char>),
> {
    let home = facts.home_view();
    let ssh = match p.ssh_key {
        Some(k) => match expansion(k, home) {
            None => Some((ErrorKind::Dependency, "could not determine the home directory"@)),
            Some(e) => if facts.is_file(e) {
                None
            } else {
                Some((ErrorKind::Usage, "SSH key does not exist or is not a file: "@ + e))
            },
        },
        None => None,
    };
    if ssh is Some {
        ssh
    } else if p.signing_format == SigningFormat::Ssh && p.signing_key is Some
        && !inline_signing_key(p.signing_key->0) {
        match expansion(p.signing_key->0, home) {
            None => Some((ErrorKind::Dependency, "could not determine the home directory"@)),
            Some(e) => if facts.is_file(e) {
                None
            } else {
                Some((ErrorKind::Usage, "SSH signing key does not exist or is not a file: "@ + e))
            },
        }
    } else {
        None
    }
}

impl Profile {
    /// Checks that the key files the profile names exist as regular files.
    pub fn validate_local_resources(&self, facts: &LocalFacts) -> (r: Result<(), GitPersonaError>)
        ensures
            r is Ok <==> resource_problem(self@, *facts) is None,
            r is Err ==> r->Err_0@ == resource_problem(self@, *facts)->0,
    {
        match &self.ssh_key {
            Some(key) => {
                let expanded = expand_path_with(key.as_str(), &facts.home)?;
                if !facts.has_file(expanded.as_str()) {
                    return Err(
                        GitPersonaError::usage(
                            cat("SSH key does not exist or is not a file: ", expanded.as_str()),
                        ),
                    );
                }
            },
            None => {},
        }
        match self.signing_format {
            SigningFormat::Ssh => match &self.signing_key {
                Some(key) => {
                    if !starts_with_str(key.as_str(), "key::") {
                        let expanded = expand_path_with(key.as_str(), &facts.home)?;
                        if !facts.has_file(expanded.as_str()) {
                            return Err(
                                GitPersonaError::usage(
                                    cat(
                                        "SSH signing key does not exist or is not a file: ",
                                        expanded.as_str(),
                                    ),
                                ),
                            );
                        }
                    }
                },
                None => {},
            },
            SigningFormat::Openpgp => {},
        }
        Ok(())
    }

    /// The paths a caller should probe to build the facts that
    /// `validate_local_resources` and SSH command construction consult:
    /// the expanded SSH key, then the expanded signing key.
    pub fn resource_paths(&self, home: &Option<String>) -> (r: Vec<String>)
        ensures
            strings_view(r) == expanded_key(self@.ssh_key, opt_view(*home)) + expanded_key(
                self@.signing_key,
                opt_view(*home),
            ),
    {
        let mut r: Vec<String> = Vec::new();
        match &self.ssh_key {
            Some(key) => match expand_path_with(key.as_str(), home) {
                Ok(e) => {
                    r.push(e);
                },
                Err(_) => {},
            },
            None => {},
        }
        let ghost first = strings_view(r);
        assert(first =~= expanded_key(self@.ssh_key, opt_view(*home)));
        match &self.signing_key {
            Some(key) => match expand_path_with(key.as_str(), home) {
                Ok(e) => {
                    r.push(e);
                },
                Err(_) => {},
            },
            None => {},
        }
        assert(strings_view(r) =~= first + expanded_key(self@.signing_key, opt_view(*home)));
        r
    }
}

/// A key path expanded against the home directory, when there is one and
/// it can be expanded.
pub open spec fn expanded_key(key: Option<Seq<char>>, home: Option<Seq<char>>) -> Seq<Seq<char>> {
    match key {
        Some(k) => match expansion(k, home) {
            Some(e) => seq![e],
            None => Seq::empty(),
        },
        None => Seq::empty(),
    }
}

} // verus!

verus! {

/// A directory under which every repository takes a profile's identity.
#[derive(Debug)]
pub struct DirectoryRule {
    pub profile: String,
    pub path: String,
}

impl Clone for DirectoryRule {
    fn clone(&self) -> (r: Self)
        ensures
            r.profile@ == self.profile@,
            r.path@ == self.path@,
    {
        DirectoryRule { profile: self.profile.clone(), path: self.path.clone() }
    }
}

pub open spec fn rules_view(v: Vec<DirectoryRule>) -> Seq<(Seq<char>, Seq<char>)> {
    v@.map_values(|r: DirectoryRule| (r.profile@, r.path@))
}

/// The configuration schema this version writes.
pub const CURRENT_SCHEMA_VERSION: u32 = 2;

/// The whole configuration document.
#[derive(Debug)]
pub struct Config {
    pub schema_version: u32,
    pub profiles: ProfileMap,
    pub directories: Vec<DirectoryRule>,
    pub repository_roots: Vec<String>,
}

impl Default for Config {
    fn default() -> (r: Self)
        ensures
            r.schema_version == CURRENT_SCHEMA_VERSION,
            r.profiles@ == Map::<Seq<char>, ProfileView>::empty(),
            r.profiles.names().len() == 0,
            r.profiles.names_are_keys(),
            r.directories@.len() == 0,
            r.repository_roots@.len() == 0,
    {
        Config {
            schema_version: CURRENT_SCHEMA_VERSION,
            profiles: ProfileMap::new(),
            directories: Vec::new(),
            repository_roots: Vec::new(),
        }
    }
}

/// Schema versions this version reads.
pub open spec fn schema_supported(v: u32) -> bool {
    v == 1 || v == 2
}

pub open spec fn entry_ok(e: (String, Profile)) -> bool {
    regex_match_result(PROFILE_NAME_PATTERN@, e.0@) == Some(true) && profile_valid(e.1@)
}

/// What validation reports for an invalid entry: its name first.
pub open spec fn entry_error(e: (String, Profile)) -> (ErrorKind, Seq<char>) {
    if regex_match_result(PROFILE_NAME_PATTERN@, e.0@) != Some(true) {
        name_error(e.0@)
    } else {
        (ErrorKind::Usage, profile_problem(e.1@)->0)
    }
}

/// The first entry, from `i` on, whose name or profile is invalid.
pub open spec fn first_bad_entry(e: Seq<(String, Profile)>, i: int) -> Option<int>
    decreases e.len() - i,
{
    if i < 0 || i >= e.len() {
        None
    } else if !entry_ok(e[i]) {
        Some(i)
    } else {
        first_bad_entry(e, i + 1)
    }
}

pub proof fn lemma_first_bad_none(e: Seq<(String, Profile)>, i: int)
    requires
        0 <= i <= e.len(),
        forall|k: int| i <= k < e.len() ==> entry_ok(#[trigger] e[k]),
    ensures
        first_bad_entry(e, i) is None,
    decreases e.len() - i,
{
    if i < e.len() {
        lemma_first_bad_none(e, i + 1);
    }
}

pub proof fn lemma_first_bad_at(e: Seq<(String, Profile)>, i: int, k: int)
    requires
        0 <= i <= k < e.len(),
        !entry_ok(e[k]),
        forall|j: int| i <= j < k ==> entry_ok(#[trigger] e[j]),
    ensures
        first_bad_entry(e, i) == Some(k),
    decreases k - i,
{
    if i < k {
        lemma_first_bad_at(e, i + 1, k);
    }
}

/// Checks a loaded configuration: a supported schema version, and valid
/// names and profiles, in name order.
pub fn validate_config(config: &Config) -> (r: Result<(), GitPersonaError>)
    ensures
        !schema_supported(config.schema_version) ==> r is Err && usage_error(
            r->Err_0,
            "unsupported config schema version "@ + decimal(config.schema_version as nat),
        ),
        schema_supported(config.schema_version) ==> match first_bad_entry(
            config.profiles.entries_seq(),
            0,
        ) {
            None => r is Ok,
            Some(k) => r is Err && r->Err_0@ == entry_error(config.profiles.entries_seq()[k]),
        },
        r is Ok ==> forall|k: Seq<char>|
            #![trigger config.profiles@.contains_key(k)]
            config.profiles@.contains_key(k) ==> profile_valid(config.profiles@[k]),
{
    if config.schema_version != 1 && config.schema_version != 2 {
        let n = decimal_string(config.schema_version as u64);
        return Err(GitPersonaError::usage(cat("unsupported config schema version ", n.as_str())));
    }
    let entries = config.profiles.entries();
    let mut i: usize = 0;
    while i < entries.len()
        invariant
            i <= entries.len(),
            entries@ == config.profiles.entries_seq(),
            schema_supported(config.schema_version),
            forall|k: int| 0 <= k < i ==> entry_ok(#[trigger] entries@[k]),
        decreases entries.len() - i,
    {
        let name_ok = validate_profile_name(entries[i].0.as_str());
        let profile_ok = entries[i].1.validate();
        if name_ok.is_err() || profile_ok.is_err() {
            proof {
                lemma_first_bad_at(entries@, 0, i as int);
            }
            if name_ok.is_err() {
                return name_ok;
            }
            return profile_ok;
        }
        i = i + 1;
    }
    proof {
        lemma_first_bad_none(entries@, 0);
        let names = config.profiles.names();
        assert forall|k: Seq<char>| #![trigger config.profiles@.contains_key(k)] config.profiles@.contains_key(k)
            implies profile_valid(config.profiles@[k]) by {
            assert(names.contains(k));
            let i = choose|i: int| 0 <= i < names.len() && names[i] == k;
            assert(crate::profiles::entry_names(entries@)[i] == entries@[i].0@);
            assert(entry_ok(entries@[i]));
            assert(config.profiles@.contains_key(entries@[i].0@));
        }
    }
    Ok(())
}

/// Where the configuration file lives.
#[derive(Debug)]
pub struct ConfigStore {
    path: String,
}

impl ConfigStore {
    pub fn at(path: String) -> (r: Self)
        ensures
            r.path_view() == path@,
    {
        ConfigStore { path }
    }

    pub closed spec fn path_view(&self) -> Seq<char> {
        self.path@
    }

    pub fn path(&self) -> (r: &str)
        ensures
            r@ == self.path_view(),
    {
        self.path.as_str()
    }
}

impl Clone for ConfigStore {
    fn clone(&self) -> (r: Self)
        ensures
            r.path_view() == self.path_view(),
    {
        ConfigStore { path: self.path.clone() }
    }
}

} // verus!
