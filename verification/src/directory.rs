//! Directory rules: a profile applied to every repository below a directory
//! through a generated Git fragment and a global `includeIf` entry.
use crate::binding::{expected_ssh_command, ssh_command_for, ErrorView};
use crate::config::{join_path, join_path_exec, opt_view, rules_view, DirectoryRule, signing_git_value, strings_view, Config, ConfigStore, LocalFacts, Profile, ProfileView};
use crate::profiles::{lemma_lt_total, lemma_lt_transitive, seq_lt, str_lt, strictly_sorted};
use crate::error::{ErrorKind, GitPersonaError};
use crate::process::ProcessOutput;
use crate::text::{cat, cat3, chars_of, sub_chars, skip_char_back, str_eq, lines, split_lines, trim, trim_str, eq_ignore_ascii_case, eq_ignore_case, has_sub_at, starts_with, starts_with_str, string_of, strip_trailing};
use vstd::prelude::*;

verus! {

/// The first line of every generated fragment, and the only sign that
/// allows deleting one. It carries no version, so fragments written by
/// earlier releases still start with it.
pub const MARKER: &'static str = "# Managed by GitPersona";

/// How one character is written inside a quoted Git configuration value.
pub open spec fn quote_char(c: char) -> Seq<char> {
    if c == '\\' {
        seq!['\\', '\\']
    } else if c == '"' {
        seq!['\\', '"']
    } else if c == '\r' {
        seq!['\\', 'r']
    } else if c == '\n' {
        seq!['\\', 'n']
    } else if c == '\t' {
        seq!['\\', 't']
    } else {
        seq![c]
    }
}

pub open spec fn quote_body(s: Seq<char>) -> Seq<char>
    decreases s.len(),
{
    if s.len() == 0 {
        s
    } else {
        quote_body(s.drop_last()) + quote_char(s.last())
    }
}

/// A value in double quotes, with backslash, quote, carriage return, line
/// feed and tab escaped.
pub open spec fn quoted(s: Seq<char>) -> Seq<char> {
    "\""@ + quote_body(s) + "\""@
}

/// Quotes a value for a Git configuration file.
pub fn quote(value: &str) -> (r: String)
    ensures
        r@ == quoted(value@),
{
    let v = chars_of(value);
    let mut out: Vec<char> = Vec::new();
    out.push('"');
    let mut i: usize = 0;
    while i < v.len()
        invariant
            v@ == value@,
            i <= v.len(),
            out@ == seq!['"'] + quote_body(v@.subrange(0, i as int)),
        decreases v.len() - i,
    {
        let c = v[i];
        if c == '\\' {
            out.push('\\');
            out.push('\\');
        } else if c == '"' {
            out.push('\\');
            out.push('"');
        } else if c == '\r' {
            out.push('\\');
            out.push('r');
        } else if c == '\n' {
            out.push('\\');
            out.push('n');
        } else if c == '\t' {
            out.push('\\');
            out.push('t');
        } else {
            out.push(c);
        }
        proof {
            let t = v@.subrange(0, i + 1);
            assert(t.drop_last() =~= v@.subrange(0, i as int));
            assert(quote_body(t) == quote_body(t.drop_last()) + quote_char(t.last()));
        }
        assert(out@ =~= seq!['"'] + quote_body(v@.subrange(0, i + 1)));
        i = i + 1;
    }
    out.push('"');
    assert(v@.subrange(0, v.len() as int) =~= value@);
    proof {
        reveal_strlit("\"");
    }
    assert(out@ =~= quoted(value@));
    string_of(out.as_slice())
}

pub proof fn lemma_quote_body_single_line(s: Seq<char>)
    ensures
        forall|i: int| 0 <= i < quote_body(s).len() ==> quote_body(s)[i] != '\n' && quote_body(s)[i] != '\r',
    decreases s.len(),
{
    if s.len() > 0 {
        lemma_quote_body_single_line(s.drop_last());
        let a = quote_body(s.drop_last());
        let b = quote_char(s.last());
        assert forall|i: int| 0 <= i < quote_body(s).len() implies quote_body(s)[i] != '\n' && quote_body(s)[i] != '\r' by {
            if i >= a.len() {
                assert(quote_body(s)[i] == b[i - a.len()]);
            } else {
                assert(quote_body(s)[i] == a[i]);
            }
        }
    }
}

/// A quoted value stays on one line, whatever it holds: a profile's values
/// cannot start a new line or section of a generated fragment.
pub proof fn lemma_quoted_single_line(s: Seq<char>)
    ensures
        forall|i: int| 0 <= i < quoted(s).len() ==> quoted(s)[i] != '\n' && quoted(s)[i] != '\r',
{
    reveal_strlit("\"");
    lemma_quote_body_single_line(s);
    let b = quote_body(s);
    assert forall|i: int| 0 <= i < quoted(s).len() implies quoted(s)[i] != '\n' && quoted(s)[i] != '\r' by {
        if 0 < i < quoted(s).len() - 1 {
            assert(quoted(s)[i] == b[i - 1]);
        }
    }
}

/// The fragment text before the signing and SSH sections.
pub open spec fn fragment_head(name: Seq<char>, p: ProfileView) -> Seq<char> {
    MARKER@ + "\n[user]\n\tname = "@ + quoted(p.git_name) + "\n\temail = "@ + quoted(p.git_email)
        + "\n[gitpersona]\n\tprofile = "@ + quoted(name) + "\n\tversion = 3\n"@
}

/// The signing section: present only when the profile names a key.
pub open spec fn fragment_signing(p: ProfileView) -> Seq<char> {
    match p.signing_key {
        Some(k) => "[user]\n\tsigningKey = "@ + quoted(k) + "\n"@ + "[gpg]\n\tformat = "@ + quoted(
            signing_git_value(p.signing_format),
        ) + "\n"@ + (if p.require_signing {
            "[commit]\n\tgpgSign = true\n"@
        } else {
            Seq::empty()
        }),
        None => Seq::empty(),
    }
}

/// The whole fragment for a profile, or why it cannot be written.
pub open spec fn fragment_text(name: Seq<char>, p: ProfileView, facts: LocalFacts) -> Result<
    Seq<char>,
    ErrorView,
> {
    match p.ssh_key {
        None => Ok(fragment_head(name, p) + fragment_signing(p)),
        Some(_) => match ssh_command_for(p, facts) {
            Ok(c) => Ok(fragment_head(name, p) + fragment_signing(p) + "[core]\n\tsshCommand = "@
                + quoted(c) + "\n"@),
            Err(e) => Err(e),
        },
    }
}

/// What every fragment says: it starts with the marker that shows this
/// tool wrote it, and its `[user]` section sets the profile's Git author
/// name and email, each quoted, and `[gitpersona]` names the profile.
pub proof fn lemma_fragment_sets_the_identity(name: Seq<char>, p: ProfileView, facts: LocalFacts)
    requires
        fragment_text(name, p, facts) is Ok,
    ensures
        ({
            let t = fragment_text(name, p, facts)->Ok_0;
            &&& starts_with(t, MARKER@)
            &&& exists|i: int| has_sub_at(t, "\n[user]\n\tname = "@ + quoted(p.git_name), i)
            &&& exists|i: int| has_sub_at(t, "\n\temail = "@ + quoted(p.git_email), i)
            &&& exists|i: int| has_sub_at(t, "\n[gitpersona]\n\tprofile = "@ + quoted(name), i)
        }),
{
    let t = fragment_text(name, p, facts)->Ok_0;
    let m = MARKER@;
    let a = "\n[user]\n\tname = "@ + quoted(p.git_name);
    let b = "\n\temail = "@ + quoted(p.git_email);
    let c = "\n[gitpersona]\n\tprofile = "@ + quoted(name);
    let rest = t.subrange((m + a + b + c).len() as int, t.len() as int);
    assert(fragment_head(name, p) =~= m + a + b + c + "\n\tversion = 3\n"@);
    assert(t =~= m + a + b + c + rest);
    assert(t.subrange(0, m.len() as int) =~= m);
    assert(t.subrange(m.len() as int, (m + a).len() as int) =~= a);
    assert(t.subrange((m + a).len() as int, (m + a + b).len() as int) =~= b);
    assert(t.subrange((m + a + b).len() as int, (m + a + b + c).len() as int) =~= c);
    assert(has_sub_at(t, a, m.len() as int));
    assert(has_sub_at(t, b, (m + a).len() as int));
    assert(has_sub_at(t, c, (m + a + b).len() as int));
}

/// `y` occurs in `x + y + z` right after `x`.
proof fn lemma_sub_in_middle(x: Seq<char>, y: Seq<char>, z: Seq<char>)
    ensures
        has_sub_at(x + y + z, y, x.len() as int),
{
    assert((x + y + z).subrange(x.len() as int, (x.len() + y.len()) as int) =~= y);
}

/// Where the signing lines sit among a fragment's parts.
proof fn lemma_signing_lines_in(h: Seq<char>, a: Seq<char>, b: Seq<char>, e: Seq<char>, core: Seq<char>)
    ensures
        has_sub_at(h + (a + "\n"@ + b + "\n"@ + e) + core, a, h.len() as int),
        has_sub_at(h + (a + "\n"@ + b + "\n"@ + e) + core, b, (h + a + "\n"@).len() as int),
        has_sub_at(h + (a + "\n"@ + b + "\n"@ + e) + core, e, (h + a + "\n"@ + b + "\n"@).len() as int),
{
    let t = h + (a + "\n"@ + b + "\n"@ + e) + core;
    assert(t =~= h + a + ("\n"@ + b + "\n"@ + e + core));
    lemma_sub_in_middle(h, a, "\n"@ + b + "\n"@ + e + core);
    assert(t =~= (h + a + "\n"@) + b + ("\n"@ + e + core));
    lemma_sub_in_middle(h + a + "\n"@, b, "\n"@ + e + core);
    assert(t =~= (h + a + "\n"@ + b + "\n"@) + e + core);
    lemma_sub_in_middle(h + a + "\n"@ + b + "\n"@, e, core);
}

/// The rest of a fragment follows the profile: a signing key is set with
/// its format, commit signing is switched on when required, and a profile
/// with an SSH key sets the SSH command that uses it. A fragment can be
/// written exactly when the profile has no SSH key or its command can be
/// formed.
pub proof fn lemma_fragment_follows_the_profile(name: Seq<char>, p: ProfileView, facts: LocalFacts)
    ensures
        fragment_text(name, p, facts) is Ok <==> (p.ssh_key is None || ssh_command_for(p, facts) is Ok),
        fragment_text(name, p, facts) is Ok ==> {
            let t = fragment_text(name, p, facts)->Ok_0;
            &&& p.signing_key is Some ==> exists|i: int|
                has_sub_at(t, "[user]\n\tsigningKey = "@ + quoted(p.signing_key->0), i)
            &&& p.signing_key is Some ==> exists|i: int|
                has_sub_at(t, "[gpg]\n\tformat = "@ + quoted(signing_git_value(p.signing_format)), i)
            &&& p.signing_key is Some && p.require_signing ==> exists|i: int|
                has_sub_at(t, "[commit]\n\tgpgSign = true\n"@, i)
            &&& p.ssh_key is Some ==> exists|i: int|
                has_sub_at(t, "[core]\n\tsshCommand = "@ + quoted(ssh_command_for(p, facts)->Ok_0), i)
        },
{
    if fragment_text(name, p, facts) is Ok {
        let t = fragment_text(name, p, facts)->Ok_0;
        let h = fragment_head(name, p);
        let g = fragment_signing(p);
        if p.ssh_key is Some {
            let c = "[core]\n\tsshCommand = "@ + quoted(ssh_command_for(p, facts)->Ok_0);
            assert(t =~= (h + g) + c + "\n"@);
            lemma_sub_in_middle(h + g, c, "\n"@);
        }
        if p.signing_key is Some {
            let a = "[user]\n\tsigningKey = "@ + quoted(p.signing_key->0);
            let b = "[gpg]\n\tformat = "@ + quoted(signing_git_value(p.signing_format));
            let e: Seq<char> = if p.require_signing { "[commit]\n\tgpgSign = true\n"@ } else { Seq::empty() };
            let core = t.subrange((h + g).len() as int, t.len() as int);
            assert(g == a + "\n"@ + b + "\n"@ + e);
            assert(t =~= h + g + core);
            lemma_signing_lines_in(h, a, b, e, core);
        }
    }
}

/// Renders the Git configuration fragment of a profile.
pub fn render_fragment(name: &str, profile: &Profile, facts: &LocalFacts) -> (r: Result<
    String,
    GitPersonaError,
>)
    ensures
        match fragment_text(name@, profile@, *facts) {
            Ok(t) => r is Ok && r->Ok_0@ == t,
            Err(e) => r is Err && r->Err_0@ == e,
        },
{
    let mut out = cat3(MARKER, "\n[user]\n\tname = ", quote(profile.git_name.as_str()).as_str());
    out = cat3(out.as_str(), "\n\temail = ", quote(profile.git_email.as_str()).as_str());
    out = cat3(out.as_str(), "\n[gitpersona]\n\tprofile = ", quote(name).as_str());
    out = cat(out.as_str(), "\n\tversion = 3\n");
    assert(out@ =~= fragment_head(name@, profile@));
    let ghost head = out@;
    match &profile.signing_key {
        Some(k) => {
            out = cat3(out.as_str(), "[user]\n\tsigningKey = ", quote(k.as_str()).as_str());
            out = cat3(out.as_str(), "\n", "[gpg]\n\tformat = ");
            out = cat3(out.as_str(), quote(profile.signing_format.as_git_value()).as_str(), "\n");
            if profile.require_signing {
                out = cat(out.as_str(), "[commit]\n\tgpgSign = true\n");
            }
        },
        None => {},
    }
    assert(out@ =~= head + fragment_signing(profile@));
    if profile.ssh_key.is_some() {
        let command = expected_ssh_command(profile, facts)?;
        out = cat3(out.as_str(), "[core]\n\tsshCommand = ", quote(command.as_str()).as_str());
        out = cat(out.as_str(), "\n");
    }
    Ok(out)
}

/// A file starting with the marker is a generated fragment.
pub fn is_managed_fragment(contents: &str) -> (r: bool)
    ensures
        r == starts_with(contents@, MARKER@),
{
    starts_with_str(contents, MARKER)
}

/// The directory that holds a path, as `Path::parent` gives it.
pub uninterp spec fn path_parent_result(path: Seq<char>) -> Option<Seq<char>>;

/// `std::path::Path::parent`: the path without its final component;
/// `None` for a root or an empty path. Its result is a function of the path
/// alone, and is named, not stated.
#[verifier::external_body]
fn path_parent(path: &str) -> (r: Option<String>)
    ensures
        opt_view(r) == path_parent_result(path@),
{
    match std::path::Path::new(path).parent() {
        Some(parent) => Some(parent.to_string_lossy().into_owned()),
        None => None,
    }
}

/// Where the fragment of a profile lives: `profiles/<name>.gitconfig`
/// beside the configuration file.
pub open spec fn fragment_location(store_path: Seq<char>, name: Seq<char>) -> Result<Seq<char>, ErrorView> {
    match path_parent_result(store_path) {
        None => Err((ErrorKind::Dependency, "config path has no parent directory"@)),
        Some(parent) => Ok(join_path(join_path(parent, "profiles"@), name + ".gitconfig"@)),
    }
}

/// The path of a profile's fragment.
pub fn fragment_path(store: &ConfigStore, name: &str) -> (r: Result<String, GitPersonaError>)
    ensures
        match fragment_location(store.path_view(), name@) {
            Ok(p) => r is Ok && r->Ok_0@ == p,
            Err(e) => r is Err && r->Err_0@ == e,
        },
{
    match path_parent(store.path()) {
        None => Err(GitPersonaError::dependency("config path has no parent directory".to_string())),
        Some(parent) => {
            let dir = join_path_exec(parent.as_str(), "profiles");
            let file = cat(name, ".gitconfig");
            Ok(join_path_exec(dir.as_str(), file.as_str()))
        },
    }
}

/// A Windows path without its verbatim `\\?\` or `\\?\UNC\` prefix.
pub open spec fn without_verbatim(s: Seq<char>) -> Seq<char> {
    if starts_with(s, "\\\\?\\UNC\\"@) {
        "\\\\"@ + s.skip(8)
    } else if starts_with(s, "\\\\?\\"@) {
        s.skip(4)
    } else {
        s
    }
}

pub open spec fn forward_slashes(s: Seq<char>) -> Seq<char> {
    s.map_values(|c: char| if c == '\\' { '/' } else { c })
}

/// A path as Git configuration writes it: forward slashes, and on Windows
/// no verbatim prefix.
pub open spec fn git_path_of(path: Seq<char>, windows: bool) -> Seq<char> {
    forward_slashes(if windows { without_verbatim(path) } else { path })
}

fn forward_slashes_exec(s: &str) -> (r: String)
    ensures
        r@ == forward_slashes(s@),
{
    let v = chars_of(s);
    let mut out: Vec<char> = Vec::new();
    let mut i: usize = 0;
    while i < v.len()
        invariant
            v@ == s@,
            i <= v.len(),
            out@ == forward_slashes(v@.subrange(0, i as int)),
        decreases v.len() - i,
    {
        if v[i] == '\\' {
            out.push('/');
        } else {
            out.push(v[i]);
        }
        assert(out@ =~= forward_slashes(v@.subrange(0, i + 1)));
        i = i + 1;
    }
    assert(v@.subrange(0, v.len() as int) =~= s@);
    string_of(out.as_slice())
}

/// Writes a path for Git configuration.
pub fn git_path(path: &str, windows: bool) -> (r: String)
    ensures
        r@ == git_path_of(path@, windows),
{
    if !windows {
        return forward_slashes_exec(path);
    }
    let v = chars_of(path);
    let plain: String;
    if starts_with_str(path, "\\\\?\\UNC\\") {
        proof {
            reveal_strlit("\\\\?\\UNC\\");
        }
        let tail = sub_chars(&v, 8, v.len());
        let rest = string_of(tail.as_slice());
        plain = cat("\\\\", rest.as_str());
    } else if starts_with_str(path, "\\\\?\\") {
        proof {
            reveal_strlit("\\\\?\\");
        }
        let tail = sub_chars(&v, 4, v.len());
        plain = string_of(tail.as_slice());
    } else {
        plain = String::from_str(path);
    }
    forward_slashes_exec(plain.as_str())
}


/// The `includeIf` key that applies a fragment below a directory.
pub open spec fn include_key_of(path: Seq<char>, windows: bool) -> Seq<char> {
    "includeIf."@ + (if windows { "gitdir/i:"@ } else { "gitdir:"@ }) + strip_trailing(
        git_path_of(path, windows),
        '/',
    ) + "/.path"@
}

/// The `includeIf` key for a directory; on Windows it ignores case.
pub fn include_key(path: &str, windows: bool) -> (r: String)
    ensures
        r@ == include_key_of(path@, windows),
{
    let g = git_path(path, windows);
    let v = chars_of(g.as_str());
    let end = skip_char_back(&v, 0, v.len(), '/');
    assert(v@.subrange(0, v.len() as int) =~= g@);
    let trimmed_chars = sub_chars(&v, 0, end);
    let trimmed = string_of(trimmed_chars.as_slice());
    let prefix = if windows { "includeIf.gitdir/i:" } else { "includeIf.gitdir:" };
    proof {
        reveal_strlit("includeIf.gitdir/i:");
        reveal_strlit("includeIf.gitdir:");
        reveal_strlit("includeIf.");
        reveal_strlit("gitdir/i:");
        reveal_strlit("gitdir:");
    }
    let r = cat3(prefix, trimmed.as_str(), "/.path");
    assert(r@ =~= include_key_of(path@, windows));
    r
}

/// Whether two paths are equal as `Path`s: component by component.
pub uninterp spec fn path_eq_result(a: Seq<char>, b: Seq<char>) -> bool;

/// `std::path::Path`'s `==`, which compares the paths component by
/// component. Its result is a function of the two paths alone, and is
/// named, not stated.
#[verifier::external_body]
fn same_path(a: &str, b: &str) -> (r: bool)
    ensures
        r == path_eq_result(a@, b@),
{
    std::path::Path::new(a) == std::path::Path::new(b)
}

/// Two directories are the same: on Windows ignoring ASCII case, elsewhere
/// as equal paths.
pub open spec fn same_dir(a: Seq<char>, b: Seq<char>, windows: bool) -> bool {
    if windows {
        eq_ignore_case(a, b)
    } else {
        path_eq_result(a, b)
    }
}

/// Whether two directory paths name the same directory.
pub fn paths_equal(left: &str, right: &str, windows: bool) -> (r: bool)
    ensures
        r == same_dir(left@, right@, windows),
{
    if windows {
        eq_ignore_ascii_case(left, right)
    } else {
        same_path(left, right)
    }
}

/// A fragment to write: its path and its contents.
#[derive(Debug)]
pub struct FragmentWrite {
    pub path: String,
    pub contents: String,
}

pub open spec fn write_view(w: FragmentWrite) -> (Seq<char>, Seq<char>) {
    (w.path@, w.contents@)
}

/// The fragment a profile needs: where it goes and what it says.
pub open spec fn fragment_write(store_path: Seq<char>, name: Seq<char>, p: ProfileView, facts: LocalFacts) -> Result<
    (Seq<char>, Seq<char>),
    ErrorView,
> {
    match fragment_location(store_path, name) {
        Err(e) => Err(e),
        Ok(path) => match fragment_text(name, p, facts) {
            Err(e) => Err(e),
            Ok(t) => Ok((path, t)),
        },
    }
}

fn make_write(store: &ConfigStore, name: &str, profile: &Profile, facts: &LocalFacts) -> (r: Result<
    FragmentWrite,
    GitPersonaError,
>)
    ensures
        match fragment_write(store.path_view(), name@, profile@, *facts) {
            Ok(w) => r is Ok && write_view(r->Ok_0) == w,
            Err(e) => r is Err && r->Err_0@ == e,
        },
{
    let path = fragment_path(store, name)?;
    let contents = render_fragment(name, profile, facts)?;
    Ok(FragmentWrite { path, contents })
}

pub open spec fn rule_profiles(rules: Seq<(Seq<char>, Seq<char>)>) -> Seq<Seq<char>> {
    rules.map_values(|r: (Seq<char>, Seq<char>)| r.0)
}

/// Some rule applies the profile `name`.
pub open spec fn has_rule_for(rules: Seq<(Seq<char>, Seq<char>)>, name: Seq<char>) -> bool {
    rule_profiles(rules).contains(name)
}

/// Whether, once a directory rule is gone, the fragment of its profile goes
/// too: no rule of `config` applies the profile any more, and the fragment
/// (`contents`, when it exists) is one this tool wrote.
pub fn fragment_unused(config: &Config, profile: &str, contents: Option<&str>) -> (r: bool)
    ensures
        r == (!has_rule_for(rules_view(config.directories), profile@) && match contents {
            Some(c) => starts_with(c@, MARKER@),
            None => false,
        }),
{
    if profile_has_rules(config, profile) {
        return false;
    }
    match contents {
        Some(c) => is_managed_fragment(c),
        None => false,
    }
}

/// Whether a rename leaves the old profile's fragment behind to remove:
/// rules were moved away from it, and the fragment (`contents`, when it
/// exists) is one this tool wrote.
pub fn old_fragment_unused(plan: &RenamePlan, contents: Option<&str>) -> (r: bool)
    ensures
        r == (plan.keys.len() > 0 && match contents {
            Some(c) => starts_with(c@, MARKER@),
            None => false,
        }),
{
    if plan.keys.len() == 0 {
        return false;
    }
    match contents {
        Some(c) => is_managed_fragment(c),
        None => false,
    }
}

/// Whether a directory rule applies the profile `name`.
pub fn profile_has_rules(config: &Config, name: &str) -> (r: bool)
    ensures
        r == has_rule_for(rules_view(config.directories), name@),
{
    let ghost rp = rule_profiles(rules_view(config.directories));
    let mut i: usize = 0;
    while i < config.directories.len()
        invariant
            i <= config.directories.len(),
            rp == rule_profiles(rules_view(config.directories)),
            forall|j: int| 0 <= j < i ==> rp[j] != name@,
        decreases config.directories.len() - i,
    {
        if str_eq(config.directories[i].profile.as_str(), name) {
            assert(rp[i as int] == name@);
            return true;
        }
        i = i + 1;
    }
    false
}

/// Brings the fragment of one profile up to date, if a rule uses it:
/// `None` when no rule does, else the fragment to write.
pub fn sync_profile(name: &str, config: &Config, store: &ConfigStore, facts: &LocalFacts) -> (r: Result<
    Option<FragmentWrite>,
    GitPersonaError,
>)
    ensures
        !has_rule_for(rules_view(config.directories), name@) ==> r is Ok && r->Ok_0 is None,
        has_rule_for(rules_view(config.directories), name@) && !config.profiles@.contains_key(name@)
            ==> r is Err && r->Err_0@ == (
            ErrorKind::Usage,
            "profile '"@ + name@ + "' does not exist"@,
        ),
        has_rule_for(rules_view(config.directories), name@) && config.profiles@.contains_key(name@)
            ==> match fragment_write(store.path_view(), name@, config.profiles@[name@], *facts) {
            Ok(w) => r is Ok && r->Ok_0 is Some && write_view(r->Ok_0->Some_0) == w,
            Err(e) => r is Err && r->Err_0@ == e,
        },
{
    if !profile_has_rules(config, name) {
        return Ok(None);
    }
    match config.profiles.get(name) {
        None => Err(GitPersonaError::usage(cat3("profile '", name, "' does not exist"))),
        Some(profile) => {
            let w = make_write(store, name, profile, facts)?;
            Ok(Some(w))
        },
    }
}

/// The fragment of one profile for `sync_all`, which names a missing
/// profile as one a rule references.
pub open spec fn sync_one(config: Config, store_path: Seq<char>, facts: LocalFacts, name: Seq<char>) -> Result<
    (Seq<char>, Seq<char>),
    ErrorView,
> {
    if !config.profiles@.contains_key(name) {
        Err((ErrorKind::Usage, "directory rule references missing profile '"@ + name + "'"@))
    } else {
        fragment_write(store_path, name, config.profiles@[name], facts)
    }
}

/// The outcome of synchronising every fragment: the writes made in name
/// order, and the error that stopped them, if one did.
#[derive(Debug)]
pub struct SyncPlan {
    pub writes: Vec<FragmentWrite>,
    pub error: Option<GitPersonaError>,
}

/// Names sorted, each once, holding the same names as the rules' profiles.
pub open spec fn sorted_profiles_of(n: Seq<Seq<char>>, rules: Seq<(Seq<char>, Seq<char>)>) -> bool {
    &&& strictly_sorted(n)
    &&& forall|x: Seq<char>| n.contains(x) <==> rule_profiles(rules).contains(x)
}

/// What `sync_all` does with the names `n`: each fragment in turn until
/// the first that fails.
pub open spec fn sync_outcome(config: Config, store_path: Seq<char>, facts: LocalFacts, n: Seq<Seq<char>>, plan: SyncPlan) -> bool {
    let k = plan.writes.len() as int;
    &&& k <= n.len()
    &&& forall|j: int| 0 <= j < k ==> sync_one(config, store_path, facts, n[j]) == Ok::<(Seq<char>, Seq<char>), ErrorView>(write_view(#[trigger] plan.writes@[j]))
    &&& match plan.error {
        None => k == n.len(),
        Some(e) => k < n.len() && sync_one(config, store_path, facts, n[k]) == Err::<(Seq<char>, Seq<char>), ErrorView>(e@),
    }
}

/// Puts a name in its place in a sorted list, unless it is there already.
fn insert_name(out: &mut Vec<String>, name: &str)
    requires
        strictly_sorted(strings_view(*old(out))),
    ensures
        strictly_sorted(strings_view(*final(out))),
        forall|x: Seq<char>|
            strings_view(*final(out)).contains(x) <==> (strings_view(*old(out)).contains(x) || x == name@),
{
    let ghost s = strings_view(*out);
    let mut i: usize = 0;
    while i < out.len() && str_lt(out[i].as_str(), name)
        invariant
            i <= out.len(),
            strings_view(*out) == s,
            forall|j: int| 0 <= j < i ==> seq_lt(#[trigger] s[j], name@),
        decreases out.len() - i,
    {
        i = i + 1;
    }
    if i < out.len() && str_eq(out[i].as_str(), name) {
        assert forall|x: Seq<char>| s.contains(x) <==> (s.contains(x) || x == name@) by {
            if x == name@ {
                assert(s[i as int] == x);
            }
        }
        return;
    }
    out.insert(i, name.to_string());
    let ghost n = strings_view(*out);
    assert(n =~= s.insert(i as int, name@));
    assert forall|p: int, q: int| 0 <= p < q < n.len() implies seq_lt(n[p], n[q]) by {
        if q < i {
        } else if q == i {
            assert(n[p] == s[p]);
        } else if p == i {
            assert(n[q] == s[q - 1]);
            if q - 1 > i {
                assert(seq_lt(s[i as int], s[q - 1]));
            }
            assert(!seq_lt(s[i as int], name@));
            lemma_lt_total(s[i as int], name@);
            if q - 1 > i {
                lemma_lt_transitive(name@, s[i as int], s[q - 1]);
            }
        } else if p < i {
            assert(n[p] == s[p]);
            assert(n[q] == s[q - 1]);
        } else {
            assert(n[p] == s[p - 1]);
            assert(n[q] == s[q - 1]);
        }
    }
    assert forall|x: Seq<char>| n.contains(x) <==> (s.contains(x) || x == name@) by {
        if n.contains(x) {
            let k = choose|k: int| 0 <= k < n.len() && n[k] == x;
            if k < i {
                assert(s[k] == x);
            } else if k > i {
                assert(s[k - 1] == x);
            }
        }
        if s.contains(x) {
            let k = choose|k: int| 0 <= k < s.len() && s[k] == x;
            if k < i {
                assert(n[k] == x);
            } else {
                assert(n[k + 1] == x);
            }
        }
        if x == name@ {
            assert(n[i as int] == x);
        }
    }
}

/// The profiles the rules use, sorted, each once.
fn rule_profile_names(config: &Config) -> (r: Vec<String>)
    ensures
        sorted_profiles_of(strings_view(r), rules_view(config.directories)),
{
    let ghost rp = rule_profiles(rules_view(config.directories));
    let mut out: Vec<String> = Vec::new();
    let mut i: usize = 0;
    assert(strings_view(out) =~= Seq::<Seq<char>>::empty());
    while i < config.directories.len()
        invariant
            i <= config.directories.len(),
            rp == rule_profiles(rules_view(config.directories)),
            strictly_sorted(strings_view(out)),
            forall|x: Seq<char>| strings_view(out).contains(x) <==> rp.subrange(0, i as int).contains(x),
        decreases config.directories.len() - i,
    {
        insert_name(&mut out, config.directories[i].profile.as_str());
        assert forall|x: Seq<char>| strings_view(out).contains(x) <==> rp.subrange(0, i + 1).contains(x) by {
            let t = rp.subrange(0, i + 1);
            if t.contains(x) {
                let k = choose|k: int| 0 <= k < t.len() && t[k] == x;
                if k < i {
                    assert(rp.subrange(0, i as int)[k] == x);
                }
            }
            if rp.subrange(0, i as int).contains(x) {
                let k = choose|k: int| 0 <= k < i && rp.subrange(0, i as int)[k] == x;
                assert(t[k] == x);
            }
            if x == rp[i as int] {
                assert(t[i as int] == x);
            }
        }
        i = i + 1;
    }
    assert(rp.subrange(0, config.directories.len() as int) =~= rp);
    out
}

/// Brings every fragment a rule uses up to date, profile by profile in
/// name order, stopping at the first that fails.
pub fn sync_all(config: &Config, store: &ConfigStore, facts: &LocalFacts) -> (r: SyncPlan)
    ensures
        exists|n: Seq<Seq<char>>|
            sorted_profiles_of(n, rules_view(config.directories)) && sync_outcome(
                *config,
                store.path_view(),
                *facts,
                n,
                r,
            ),
{
    let names = rule_profile_names(config);
    let ghost n = strings_view(names);
    let mut writes: Vec<FragmentWrite> = Vec::new();
    let mut i: usize = 0;
    while i < names.len()
        invariant
            i <= names.len(),
            n == strings_view(names),
            sorted_profiles_of(n, rules_view(config.directories)),
            writes.len() == i,
            forall|j: int| 0 <= j < i ==> sync_one(*config, store.path_view(), *facts, n[j]) == Ok::<(Seq<char>, Seq<char>), ErrorView>(write_view(#[trigger] writes@[j])),
        decreases names.len() - i,
    {
        let name = names[i].as_str();
        let step = match config.profiles.get(name) {
            None => Err(GitPersonaError::usage(cat3("directory rule references missing profile '", name, "'"))),
            Some(profile) => make_write(store, name, profile, facts),
        };
        match step {
            Ok(w) => {
                writes.push(w);
            },
            Err(e) => {
                let plan = SyncPlan { writes, error: Some(e) };
                assert(sync_outcome(*config, store.path_view(), *facts, n, plan));
                return plan;
            },
        }
        i = i + 1;
    }
    let plan = SyncPlan { writes, error: None };
    assert(sync_outcome(*config, store.path_view(), *facts, n, plan));
    plan
}


/// The index of the first rule for the directory `path`, if any.
pub open spec fn first_rule_at(rules: Seq<(Seq<char>, Seq<char>)>, path: Seq<char>, windows: bool) -> Option<int> {
    if exists|i: int| 0 <= i < rules.len() && same_dir(rules[i].1, path, windows) {
        Some(
            choose|i: int|
                0 <= i < rules.len() && same_dir(rules[i].1, path, windows) && forall|j: int|
                    0 <= j < i ==> !same_dir(rules[j].1, path, windows),
        )
    } else {
        None
    }
}

fn find_rule(config: &Config, path: &str, windows: bool) -> (r: Option<usize>)
    ensures
        match r {
            Some(i) => i < config.directories.len() && first_rule_at(rules_view(config.directories), path@, windows) == Some(i as int),
            None => first_rule_at(rules_view(config.directories), path@, windows) is None,
        },
{
    let ghost rules = rules_view(config.directories);
    let mut i: usize = 0;
    while i < config.directories.len()
        invariant
            i <= config.directories.len(),
            rules == rules_view(config.directories),
            forall|j: int| 0 <= j < i ==> !same_dir(rules[j].1, path@, windows),
        decreases config.directories.len() - i,
    {
        if paths_equal(config.directories[i].path.as_str(), path, windows) {
            assert(same_dir(rules[i as int].1, path@, windows));
            let ghost k = choose|k: int|
                0 <= k < rules.len() && same_dir(rules[k].1, path@, windows) && forall|j: int|
                    0 <= j < k ==> !same_dir(rules[j].1, path@, windows);
            assert(k == i) by {
                if k > i {
                    assert(!same_dir(rules[i as int].1, path@, windows));
                }
            }
            return Some(i);
        }
        i = i + 1;
    }
    None
}

/// What adding a directory rule writes: the profile's fragment, and the
/// global `includeIf` key and value that point at it.
#[derive(Debug)]
pub struct AddPlan {
    pub fragment: FragmentWrite,
    pub key: String,
    pub value: String,
}

/// Plans a rule applying `profile_name` below the directory `path`, which
/// the caller has resolved. Refused when the profile does not exist or the
/// directory already has a rule.
pub fn add_plan(
    config: &Config,
    profile_name: &str,
    path: &str,
    store: &ConfigStore,
    facts: &LocalFacts,
    windows: bool,
) -> (r: Result<AddPlan, GitPersonaError>)
    ensures
        !config.profiles@.contains_key(profile_name@) ==> r is Err && r->Err_0@ == (
            ErrorKind::Usage,
            "profile '"@ + profile_name@ + "' does not exist"@,
        ),
        config.profiles@.contains_key(profile_name@) ==> match first_rule_at(
            rules_view(config.directories),
            path@,
            windows,
        ) {
            Some(i) => r is Err && r->Err_0@ == (
                ErrorKind::Usage,
                if rules_view(config.directories)[i].0 == profile_name@ {
                    "directory rule already exists"@
                } else {
                    "directory is already assigned to profile '"@ + rules_view(config.directories)[i].0
                        + "'"@
                },
            ),
            None => match fragment_write(
                store.path_view(),
                profile_name@,
                config.profiles@[profile_name@],
                *facts,
            ) {
                Err(e) => r is Err && r->Err_0@ == e,
                Ok(w) => r is Ok && write_view(r->Ok_0.fragment) == w && r->Ok_0.key@
                    == include_key_of(path@, windows) && r->Ok_0.value@ == git_path_of(w.0, windows),
            },
        },
{
    let profile = match config.profiles.get(profile_name) {
        None => {
            return Err(GitPersonaError::usage(cat3("profile '", profile_name, "' does not exist")));
        },
        Some(p) => p,
    };
    match find_rule(config, path, windows) {
        Some(i) => {
            let owner = config.directories[i].profile.as_str();
            if str_eq(owner, profile_name) {
                return Err(GitPersonaError::usage("directory rule already exists".to_string()));
            } else {
                return Err(GitPersonaError::usage(cat3("directory is already assigned to profile '", owner, "'")));
            }
        },
        None => {},
    }
    let fragment = make_write(store, profile_name, profile, facts)?;
    let key = include_key(path, windows);
    let value = git_path(fragment.path.as_str(), windows);
    Ok(AddPlan { fragment, key, value })
}

/// What Git's global configuration already holds under the key decides:
/// another value refuses the rule; none means the value must be added.
pub fn include_decision(existing: &Vec<String>, value: &str, path: &str) -> (r: Result<
    bool,
    GitPersonaError,
>)
    ensures
        (exists|i: int| 0 <= i < existing.len() && existing@[i]@ != value@) ==> r is Err
            && r->Err_0@ == (
            ErrorKind::Usage,
            "Git already has a different includeIf rule for "@ + path@,
        ),
        (forall|i: int| 0 <= i < existing.len() ==> existing@[i]@ == value@) ==> r is Ok && r->Ok_0
            == (existing.len() == 0),
{
    let mut i: usize = 0;
    while i < existing.len()
        invariant
            i <= existing.len(),
            forall|j: int| 0 <= j < i ==> existing@[j]@ == value@,
        decreases existing.len() - i,
    {
        if !str_eq(existing[i].as_str(), value) {
            return Err(GitPersonaError::usage(cat("Git already has a different includeIf rule for ", path)));
        }
        i = i + 1;
    }
    Ok(existing.len() == 0)
}

/// Records a directory rule in the configuration.
pub fn add_rule(config: &mut Config, profile: String, path: String)
    ensures
        rules_view(final(config).directories) == rules_view(old(config).directories).push(
            (profile@, path@),
        ),
        final(config).profiles@ == old(config).profiles@,
        final(config).schema_version == old(config).schema_version,
        strings_view(final(config).repository_roots) == strings_view(old(config).repository_roots),
{
    let ghost before = rules_view(config.directories);
    let ghost pv = profile@;
    let ghost av = path@;
    config.directories.push(DirectoryRule { profile, path });
    assert(rules_view(config.directories) =~= before.push((pv, av)));
}

/// The rules left after removing those for the directory `path`.
pub open spec fn rules_without(rules: Seq<(Seq<char>, Seq<char>)>, path: Seq<char>, windows: bool) -> Seq<
    (Seq<char>, Seq<char>),
>
    decreases rules.len(),
{
    if rules.len() == 0 {
        rules
    } else if same_dir(rules.last().1, path, windows) {
        rules_without(rules.drop_last(), path, windows)
    } else {
        rules_without(rules.drop_last(), path, windows).push(rules.last())
    }
}

/// Removes every rule for the directory `path`, keeping the others in order.
pub fn remove_rules_at(config: &mut Config, path: &str, windows: bool)
    ensures
        rules_view(final(config).directories) == rules_without(
            rules_view(old(config).directories),
            path@,
            windows,
        ),
        final(config).profiles@ == old(config).profiles@,
        final(config).schema_version == old(config).schema_version,
        strings_view(final(config).repository_roots) == strings_view(old(config).repository_roots),
{
    let ghost rules = rules_view(config.directories);
    let mut kept: Vec<DirectoryRule> = Vec::new();
    let mut i: usize = 0;
    assert(rules.subrange(0, 0) =~= Seq::<(Seq<char>, Seq<char>)>::empty());
    assert(rules_view(kept) =~= rules_without(rules.subrange(0, 0), path@, windows));
    while i < config.directories.len()
        invariant
            i <= config.directories.len(),
            rules == rules_view(config.directories),
            rules_view(kept) == rules_without(rules.subrange(0, i as int), path@, windows),
        decreases config.directories.len() - i,
    {
        let ghost t = rules.subrange(0, i + 1);
        assert(t.drop_last() =~= rules.subrange(0, i as int));
        assert(t.last() == rules[i as int]);
        if !paths_equal(config.directories[i].path.as_str(), path, windows) {
            let ghost before = rules_view(kept);
            kept.push(config.directories[i].clone());
            assert(rules_view(kept) =~= before.push(rules[i as int]));
        }
        i = i + 1;
    }
    assert(rules.subrange(0, config.directories.len() as int) =~= rules);
    config.directories = kept;
}

/// What removing a directory rule touches: the profile it applied, the
/// global `includeIf` key and value, and the profile's fragment.
#[derive(Debug)]
pub struct RemovePlan {
    pub profile: String,
    pub key: String,
    pub value: String,
    pub fragment: String,
}

/// Plans the removal of the rule for the directory `path`, which the caller
/// has resolved.
pub fn remove_plan(config: &Config, path: &str, store: &ConfigStore, windows: bool) -> (r: Result<
    RemovePlan,
    GitPersonaError,
>)
    ensures
        match first_rule_at(rules_view(config.directories), path@, windows) {
            None => r is Err && r->Err_0@ == (ErrorKind::Usage, "directory rule does not exist"@),
            Some(i) => match fragment_location(
                store.path_view(),
                rules_view(config.directories)[i].0,
            ) {
                Err(e) => r is Err && r->Err_0@ == e,
                Ok(f) => r is Ok && r->Ok_0.profile@ == rules_view(config.directories)[i].0
                    && r->Ok_0.key@ == include_key_of(rules_view(config.directories)[i].1, windows)
                    && r->Ok_0.fragment@ == f && r->Ok_0.value@ == git_path_of(f, windows),
            },
        },
{
    let i = match find_rule(config, path, windows) {
        None => {
            return Err(GitPersonaError::usage("directory rule does not exist".to_string()));
        },
        Some(i) => i,
    };
    let rule = &config.directories[i];
    let key = include_key(rule.path.as_str(), windows);
    let fragment = fragment_path(store, rule.profile.as_str())?;
    let value = git_path(fragment.as_str(), windows);
    Ok(RemovePlan { profile: rule.profile.clone(), key, value, fragment })
}

/// The `includeIf` keys of the rules that apply the profile `name`.
pub open spec fn rule_keys_for(rules: Seq<(Seq<char>, Seq<char>)>, name: Seq<char>, windows: bool) -> Seq<
    Seq<char>,
>
    decreases rules.len(),
{
    if rules.len() == 0 {
        Seq::empty()
    } else if rules.last().0 == name {
        rule_keys_for(rules.drop_last(), name, windows).push(include_key_of(rules.last().1, windows))
    } else {
        rule_keys_for(rules.drop_last(), name, windows)
    }
}

/// What renaming a profile changes in Git's global configuration: each
/// rule's key moves from the old fragment's path to the new one's.
#[derive(Debug)]
pub struct RenamePlan {
    pub keys: Vec<String>,
    pub old_value: String,
    pub new_value: String,
    pub old_fragment: String,
}

/// Plans moving the directory rules of `old_name` over to `new_name`.
pub fn rename_plan(config: &Config, store: &ConfigStore, old_name: &str, new_name: &str, windows: bool) -> (r:
    Result<RenamePlan, GitPersonaError>)
    ensures
        match (fragment_location(store.path_view(), old_name@), fragment_location(store.path_view(), new_name@)) {
            (Err(e), _) => r is Err && r->Err_0@ == e,
            (Ok(_), Err(e)) => r is Err && r->Err_0@ == e,
            (Ok(a), Ok(b)) => r is Ok && r->Ok_0.old_fragment@ == a && r->Ok_0.old_value@ == git_path_of(a, windows)
                && r->Ok_0.new_value@ == git_path_of(b, windows) && strings_view(r->Ok_0.keys)
                == rule_keys_for(rules_view(config.directories), old_name@, windows),
        },
{
    let old_fragment = fragment_path(store, old_name)?;
    let new_fragment = fragment_path(store, new_name)?;
    let old_value = git_path(old_fragment.as_str(), windows);
    let new_value = git_path(new_fragment.as_str(), windows);
    let ghost rules = rules_view(config.directories);
    let mut keys: Vec<String> = Vec::new();
    let mut i: usize = 0;
    assert(rules.subrange(0, 0) =~= Seq::<(Seq<char>, Seq<char>)>::empty());
    assert(strings_view(keys) =~= rule_keys_for(rules.subrange(0, 0), old_name@, windows));
    while i < config.directories.len()
        invariant
            i <= config.directories.len(),
            rules == rules_view(config.directories),
            strings_view(keys) == rule_keys_for(rules.subrange(0, i as int), old_name@, windows),
        decreases config.directories.len() - i,
    {
        let ghost t = rules.subrange(0, i + 1);
        assert(t.drop_last() =~= rules.subrange(0, i as int));
        assert(t.last() == rules[i as int]);
        if str_eq(config.directories[i].profile.as_str(), old_name) {
            let ghost before = strings_view(keys);
            let k = include_key(config.directories[i].path.as_str(), windows);
            keys.push(k);
            assert(strings_view(keys) =~= before.push(include_key_of(rules[i as int].1, windows)));
        }
        i = i + 1;
    }
    assert(rules.subrange(0, config.directories.len() as int) =~= rules);
    Ok(RenamePlan { keys, old_value, new_value, old_fragment })
}

/// The arguments of `git config --global --get-all <key>`.
pub fn global_values_args(key: &str) -> (r: Vec<String>)
    ensures
        strings_view(r) == seq!["config"@, "--global"@, "--get-all"@, key@],
{
    let r = vec!["config".to_string(), "--global".to_string(), "--get-all".to_string(), key.to_string()];
    assert(strings_view(r) =~= seq!["config"@, "--global"@, "--get-all"@, key@]);
    r
}

/// The arguments of `git config --global --add <key> <value>`.
pub fn global_add_args(key: &str, value: &str) -> (r: Vec<String>)
    ensures
        strings_view(r) == seq!["config"@, "--global"@, "--add"@, key@, value@],
{
    let r = vec!["config".to_string(), "--global".to_string(), "--add".to_string(), key.to_string(), value.to_string()];
    assert(strings_view(r) =~= seq!["config"@, "--global"@, "--add"@, key@, value@]);
    r
}

/// The arguments that remove exactly `value` under `key` from Git's global
/// configuration.
pub fn global_remove_args(key: &str, value: &str) -> (r: Vec<String>)
    ensures
        strings_view(r) == seq!["config"@, "--global"@, "--fixed-value"@, "--unset-all"@, key@, value@],
{
    let r = vec![
        "config".to_string(),
        "--global".to_string(),
        "--fixed-value".to_string(),
        "--unset-all".to_string(),
        key.to_string(),
        value.to_string(),
    ];
    assert(strings_view(r) =~= seq!["config"@, "--global"@, "--fixed-value"@, "--unset-all"@, key@, value@]);
    r
}

/// The values of a global key: exit 0 gives one per line, exit 1 none.
pub fn global_values_outcome(output: &ProcessOutput) -> (r: Result<Vec<String>, GitPersonaError>)
    ensures
        output.code == Some(0i32) ==> r is Ok && strings_view(r->Ok_0) == lines(output.stdout@),
        output.code == Some(1i32) ==> r is Ok && r->Ok_0.len() == 0,
        output.code != Some(0i32) && output.code != Some(1i32) ==> r is Err && r->Err_0@ == (
            ErrorKind::Dependency,
            "could not inspect global Git includeIf rule: "@ + trim(output.stderr@),
        ),
{
    match output.code {
        Some(0) => {
            let v = split_lines(output.stdout.as_str());
            assert(strings_view(v) =~= lines(output.stdout@));
            Ok(v)
        },
        Some(1) => Ok(Vec::new()),
        _ => {
            let t = trim_str(output.stderr.as_str());
            Err(GitPersonaError::dependency(cat("could not inspect global Git includeIf rule: ", t.as_str())))
        },
    }
}

/// Adding a global rule succeeded when git exited with 0.
pub fn global_add_outcome(output: &ProcessOutput) -> (r: Result<(), GitPersonaError>)
    ensures
        r is Ok <==> output.code == Some(0i32),
        r is Err ==> r->Err_0@ == (
            ErrorKind::Dependency,
            "could not add global Git includeIf rule: "@ + trim(output.stderr@),
        ),
{
    if output.success() {
        Ok(())
    } else {
        let t = trim_str(output.stderr.as_str());
        Err(GitPersonaError::dependency(cat("could not add global Git includeIf rule: ", t.as_str())))
    }
}

/// Removing a global rule succeeded when git exited with 0, or with 5
/// because it was not there.
pub fn global_remove_outcome(output: &ProcessOutput) -> (r: Result<(), GitPersonaError>)
    ensures
        r is Ok <==> (output.code == Some(0i32) || output.code == Some(5i32)),
        r is Err ==> r->Err_0@ == (
            ErrorKind::Dependency,
            "could not remove exact global Git includeIf rule: "@ + trim(output.stderr@),
        ),
{
    match output.code {
        Some(0) | Some(5) => Ok(()),
        _ => {
            let t = trim_str(output.stderr.as_str());
            Err(GitPersonaError::dependency(cat("could not remove exact global Git includeIf rule: ", t.as_str())))
        },
    }
}


/// Every fragment GitPersona renders starts with the marker, so removal
/// always recognises it as its own.
pub proof fn lemma_fragments_carry_marker(name: Seq<char>, p: ProfileView, facts: LocalFacts)
    requires
        fragment_text(name, p, facts) is Ok,
    ensures
        starts_with(fragment_text(name, p, facts)->Ok_0, MARKER@),
{
    let t = fragment_text(name, p, facts)->Ok_0;
    assert(t.subrange(0, MARKER@.len() as int) =~= MARKER@);
}

proof fn lemma_rules_without_untouched(rules: Seq<(Seq<char>, Seq<char>)>, path: Seq<char>, windows: bool)
    requires
        forall|i: int| 0 <= i < rules.len() ==> !same_dir(#[trigger] rules[i].1, path, windows),
    ensures
        rules_without(rules, path, windows) == rules,
    decreases rules.len(),
{
    if rules.len() > 0 {
        let r = rules.drop_last();
        assert forall|i: int| 0 <= i < r.len() implies !same_dir(#[trigger] r[i].1, path, windows) by {
            assert(r[i] == rules[i]);
        }
        lemma_rules_without_untouched(r, path, windows);
        assert(rules.last() == rules[rules.len() - 1]);
        assert(r.push(rules.last()) =~= rules);
    }
}

/// Removing the rule for a directory undoes adding it: a rule added where
/// none was (as `add_plan` requires) and then removed leaves the rules as
/// they were. The directory compares equal to itself, as every path does.
pub proof fn lemma_remove_undoes_add(
    rules: Seq<(Seq<char>, Seq<char>)>,
    profile: Seq<char>,
    path: Seq<char>,
    windows: bool,
)
    requires
        first_rule_at(rules, path, windows) is None,
        same_dir(path, path, windows),
    ensures
        rules_without(rules.push((profile, path)), path, windows) == rules,
{
    assert(rules.push((profile, path)).drop_last() =~= rules);
    assert forall|i: int| 0 <= i < rules.len() implies !same_dir(#[trigger] rules[i].1, path, windows) by {
        if same_dir(rules[i].1, path, windows) {
            assert(exists|i: int| 0 <= i < rules.len() && same_dir(rules[i].1, path, windows));
        }
    }
    lemma_rules_without_untouched(rules, path, windows);
}

} // verus!
