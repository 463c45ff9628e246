//! Git remote URLs: their protocol, host, owner and repository.
use crate::binding::ErrorView;
use crate::error::{ErrorKind, GitPersonaError};
use crate::matching::{captures_view, groups_view, regex_captures, regex_captures_result};
use crate::text::{
    cat, cat3, cat5, chars_of, contains, contains_char, ends_with, ends_with_str, has_sub,
    scan_word, skip_char, skip_char_back, str_eq, string_of, strip_leading, sub_chars, take_word,
    trim, trim_char, trim_str,
};
use vstd::prelude::*;

verus! {

/// The transport a remote uses.
#[derive(Debug, Clone, Copy, PartialEq, Eq, Structural)]
pub enum RemoteProtocol {
    Ssh,
    Https,
    Http,
}

/// A parsed remote.
#[derive(Debug)]
pub struct RemoteInfo {
    pub url: String,
    pub protocol: RemoteProtocol,
    pub hostname: String,
    pub owner: String,
    pub repository: String,
}

pub ghost struct RemoteInfoView {
    pub url: Seq<char>,
    pub protocol: RemoteProtocol,
    pub hostname: Seq<char>,
    pub owner: Seq<char>,
    pub repository: Seq<char>,
}

impl View for RemoteInfo {
    type V = RemoteInfoView;

    open spec fn view(&self) -> RemoteInfoView {
        RemoteInfoView {
            url: self.url@,
            protocol: self.protocol,
            hostname: self.hostname@,
            owner: self.owner@,
            repository: self.repository@,
        }
    }
}

impl Clone for RemoteInfo {
    fn clone(&self) -> (r: Self)
        ensures
            r@ == self@,
    {
        RemoteInfo {
            url: self.url.clone(),
            protocol: self.protocol,
            hostname: self.hostname.clone(),
            owner: self.owner.clone(),
            repository: self.repository.clone(),
        }
    }
}

/// Whether a remote, if there is one, uses SSH.
pub open spec fn remote_is_ssh(remote: Option<RemoteInfoView>) -> bool {
    remote is Some && remote->0.protocol == RemoteProtocol::Ssh
}

pub fn is_ssh_remote(remote: Option<&RemoteInfo>) -> (r: bool)
    ensures
        r == remote_is_ssh(
            match remote {
                Some(x) => Some(x@),
                None => None,
            },
        ),
{
    match remote {
        Some(x) => match x.protocol {
            RemoteProtocol::Ssh => true,
            _ => false,
        },
        None => false,
    }
}


/// A path with surrounding slashes and a `.git` suffix removed.
pub open spec fn clean_path(path: Seq<char>) -> Seq<char> {
    let t = trim_char(path, '/');
    if ends_with(t, ".git"@) {
        t.subrange(0, t.len() - ".git"@.len())
    } else {
        t
    }
}

/// The first two non-empty `/`-separated segments of the cleaned path.
pub open spec fn owner_of(path: Seq<char>) -> Seq<char> {
    take_word(strip_leading(clean_path(path), '/'))
}

pub open spec fn repository_of(path: Seq<char>) -> Seq<char> {
    let t1 = strip_leading(clean_path(path), '/');
    let owner = take_word(t1);
    take_word(strip_leading(t1.subrange(owner.len() as int, t1.len() as int), '/'))
}

pub open spec fn remote_result(
    url: Seq<char>,
    protocol: RemoteProtocol,
    hostname: Seq<char>,
    path: Seq<char>,
) -> Result<RemoteInfoView, ErrorView> {
    if owner_of(path).len() == 0 {
        Err((ErrorKind::Usage, "remote URL has no owner"@))
    } else if repository_of(path).len() == 0 {
        Err((ErrorKind::Usage, "remote URL has no repository"@))
    } else {
        Ok(
            RemoteInfoView {
                url,
                protocol,
                hostname,
                owner: owner_of(path),
                repository: repository_of(path),
            },
        )
    }
}

pub open spec fn result_view(r: Result<RemoteInfo, GitPersonaError>) -> Result<RemoteInfoView, ErrorView> {
    match r {
        Ok(x) => Ok(x@),
        Err(e) => Err(e@),
    }
}

fn clean_path_exec(path: &str) -> (r: Vec<char>)
    ensures
        r@ == clean_path(path@),
{
    let v = chars_of(path);
    let a = skip_char(&v, 0, '/');
    assert(v@.subrange(0, v.len() as int) =~= path@);
    let b = skip_char_back(&v, a, v.len(), '/');
    let t = sub_chars(&v, a, b);
    assert(t@ == trim_char(path@, '/'));
    let ts = string_of(t.as_slice());
    if ends_with_str(ts.as_str(), ".git") {
        proof {
            reveal_strlit(".git");
        }
        sub_chars(&t, 0, t.len() - 4)
    } else {
        t
    }
}

/// Builds a remote from its parts: the owner and repository are the first
/// two non-empty segments of the path, after a `.git` suffix is dropped.
pub fn build(
    original: &str,
    protocol: RemoteProtocol,
    hostname: String,
    path: &str,
) -> (r: Result<RemoteInfo, GitPersonaError>)
    ensures
        result_view(r) == remote_result(original@, protocol, hostname@, path@),
{
    let c = clean_path_exec(path);
    let i = skip_char(&c, 0, '/');
    let j = scan_word(&c, i);
    assert(c@.subrange(0, c.len() as int) =~= c@);
    let ghost t1 = c@.subrange(i as int, c.len() as int);
    proof {
        crate::text::lemma_take_word_len(t1);
        assert(t1.subrange(take_word(t1).len() as int, t1.len() as int) =~= c@.subrange(
            j as int,
            c.len() as int,
        ));
    }
    if i == j {
        return Err(GitPersonaError::usage(String::from_str("remote URL has no owner")));
    }
    let k = skip_char(&c, j, '/');
    let l = scan_word(&c, k);
    if k == l {
        return Err(GitPersonaError::usage(String::from_str("remote URL has no repository")));
    }
    let owner = sub_chars(&c, i, j);
    let repository = sub_chars(&c, k, l);
    Ok(
        RemoteInfo {
            url: String::from_str(original),
            protocol,
            hostname,
            owner: string_of(owner.as_slice()),
            repository: string_of(repository.as_slice()),
        },
    )
}

/// What `url::Url::parse` gives for a string: its scheme, host (if any)
/// and path, or the parse error's message.
pub uninterp spec fn url_parse_result(input: Seq<char>) -> Result<
    (Seq<char>, Option<Seq<char>>, Seq<char>),
    Seq<char>,
>;

pub open spec fn url_parts_view(r: Result<(String, Option<String>, String), String>) -> Result<
    (Seq<char>, Option<Seq<char>>, Seq<char>),
    Seq<char>,
> {
    match r {
        Ok((a, b, c)) => Ok((a@, crate::config::opt_view(b), c@)),
        Err(e) => Err(e@),
    }
}

/// Parses `input` with `url::Url::parse` and takes `Url::scheme`,
/// `Url::host_str` and `Url::path`; an error becomes its message. The
/// contract names the result through `url_parse_result` and restates
/// nothing of URL syntax.
#[verifier::external_body]
fn url_parse(input: &str) -> (r: Result<(String, Option<String>, String), String>)
    ensures
        url_parts_view(r) == url_parse_result(input@),
{
    match url::Url::parse(input) {
        Ok(u) => Ok((u.scheme().to_string(), u.host_str().map(|h| h.to_string()), u.path().to_string())),
        Err(e) => Err(e.to_string()),
    }
}

/// The remote a `scheme://` URL describes, given its parsed parts.
pub open spec fn remote_from_url_spec(
    input: Seq<char>,
    parts: Result<(Seq<char>, Option<Seq<char>>, Seq<char>), Seq<char>>,
) -> Result<RemoteInfoView, ErrorView> {
    match parts {
        Err(m) => Err((ErrorKind::Usage, "invalid remote URL: "@ + m)),
        Ok((scheme, host, path)) => {
            let protocol = if scheme == "ssh"@ {
                Some(RemoteProtocol::Ssh)
            } else if scheme == "https"@ {
                Some(RemoteProtocol::Https)
            } else if scheme == "http"@ {
                Some(RemoteProtocol::Http)
            } else {
                None
            };
            match protocol {
                None => Err((ErrorKind::Usage, "unsupported remote protocol: "@ + scheme)),
                Some(p) => match host {
                    None => Err((ErrorKind::Usage, "remote URL has no hostname"@)),
                    Some(h) => remote_result(input, p, h, path),
                },
            }
        },
    }
}

/// Turns the parts of a parsed URL into a remote: SSH, HTTPS and HTTP
/// schemes only, and a host is required.
pub fn remote_from_url(
    input: &str,
    parts: Result<(String, Option<String>, String), String>,
) -> (r: Result<RemoteInfo, GitPersonaError>)
    ensures
        result_view(r) == remote_from_url_spec(input@, url_parts_view(parts)),
{
    match parts {
        Err(m) => Err(GitPersonaError::usage(cat("invalid remote URL: ", m.as_str()))),
        Ok((scheme, host, path)) => {
            let protocol = if str_eq(scheme.as_str(), "ssh") {
                RemoteProtocol::Ssh
            } else if str_eq(scheme.as_str(), "https") {
                RemoteProtocol::Https
            } else if str_eq(scheme.as_str(), "http") {
                RemoteProtocol::Http
            } else {
                return Err(
                    GitPersonaError::usage(cat("unsupported remote protocol: ", scheme.as_str())),
                );
            };
            match host {
                None => Err(GitPersonaError::usage(String::from_str("remote URL has no hostname"))),
                Some(h) => build(input, protocol, h, path.as_str()),
            }
        },
    }
}

/// The scp-like form `[user@]host:path`.
pub const SCP_PATTERN: &'static str = "^(?:[^@]+@)?(?P<host>[^:]+):(?P<path>.+)$";

/// The remote an scp-like address describes, given the captures of
/// `SCP_PATTERN` (group 1 the host, group 2 the path).
pub open spec fn remote_from_scp_spec(
    input: Seq<char>,
    captures: Option<Option<Seq<Option<Seq<char>>>>>,
) -> Result<RemoteInfoView, ErrorView> {
    match captures {
        None => Err((ErrorKind::Dependency, "the remote URL pattern is invalid"@)),
        Some(Some(g)) => if g.len() > 2 && g[1] is Some && g[2] is Some {
            remote_result(input, RemoteProtocol::Ssh, g[1]->0, g[2]->0)
        } else {
            Err((ErrorKind::Usage, "unsupported remote URL; expected SSH, HTTPS, or HTTP"@))
        },
        Some(None) => Err((ErrorKind::Usage, "unsupported remote URL; expected SSH, HTTPS, or HTTP"@)),
    }
}

pub fn remote_from_scp(
    input: &str,
    captures: Option<Option<Vec<Option<String>>>>,
) -> (r: Result<RemoteInfo, GitPersonaError>)
    ensures
        result_view(r) == remote_from_scp_spec(input@, captures_view(captures)),
{
    let unsupported = "unsupported remote URL; expected SSH, HTTPS, or HTTP";
    match captures {
        None => Err(GitPersonaError::dependency(String::from_str("the remote URL pattern is invalid"))),
        Some(None) => Err(GitPersonaError::usage(String::from_str(unsupported))),
        Some(Some(groups)) => {
            if groups.len() > 2 {
                match (&groups[1], &groups[2]) {
                    (Some(host), Some(path)) => {
                        proof {
                            assert(groups_view(groups)[1] == Some(host@));
                            assert(groups_view(groups)[2] == Some(path@));
                        }
                        build(input, RemoteProtocol::Ssh, host.clone(), path.as_str())
                    },
                    _ => {
                        proof {
                            assert(groups_view(groups)[1] is None || groups_view(groups)[2] is None);
                        }
                        Err(GitPersonaError::usage(String::from_str(unsupported)))
                    },
                }
            } else {
                Err(GitPersonaError::usage(String::from_str(unsupported)))
            }
        },
    }
}

/// The remote a string describes: a `scheme://` URL or an scp-like
/// address, after trimming.
pub open spec fn parse_remote_spec(input: Seq<char>) -> Result<RemoteInfoView, ErrorView> {
    let t = trim(input);
    if has_sub(t, "://"@) {
        remote_from_url_spec(t, url_parse_result(t))
    } else {
        remote_from_scp_spec(t, regex_captures_result(SCP_PATTERN@, t))
    }
}

/// Parses a remote URL: SSH, HTTPS or HTTP `scheme://` URLs, or the
/// scp-like `[user@]host:owner/repository[.git]`.
pub fn parse_remote(input: &str) -> (r: Result<RemoteInfo, GitPersonaError>)
    ensures
        result_view(r) == parse_remote_spec(input@),
{
    let t = trim_str(input);
    if contains(t.as_str(), "://") {
        let parts = url_parse(t.as_str());
        remote_from_url(t.as_str(), parts)
    } else {
        let captures = regex_captures(SCP_PATTERN, t.as_str());
        remote_from_scp(t.as_str(), captures)
    }
}

/// A repository given as `owner/repository` on the default host, or as
/// any remote URL.
pub open spec fn parse_repository_spec(input: Seq<char>, default_host: Seq<char>) -> Result<
    RemoteInfoView,
    ErrorView,
> {
    let t = trim(input);
    if !has_sub(t, "://"@) && !t.contains(':') {
        remote_result(t, RemoteProtocol::Https, default_host, t)
    } else {
        parse_remote_spec(input)
    }
}

/// Parses the repository argument of a clone: `owner/repository` means the
/// profile's host; anything else is a remote URL.
pub fn parse_repository(input: &str, default_host: &str) -> (r: Result<RemoteInfo, GitPersonaError>)
    ensures
        result_view(r) == parse_repository_spec(input@, default_host@),
{
    let t = trim_str(input);
    if !contains(t.as_str(), "://") && !contains_char(t.as_str(), ':') {
        build(t.as_str(), RemoteProtocol::Https, String::from_str(default_host), t.as_str())
    } else {
        parse_remote(input)
    }
}

/// The URL for cloning a repository over a protocol.
pub open spec fn url_for(info: RemoteInfoView, protocol: RemoteProtocol, hostname: Seq<char>) -> Seq<char> {
    match protocol {
        RemoteProtocol::Ssh => "git@"@ + hostname + ":"@ + info.owner + "/"@ + info.repository
            + ".git"@,
        RemoteProtocol::Https => "https://"@ + hostname + "/"@ + info.owner + "/"@
            + info.repository + ".git"@,
        RemoteProtocol::Http => "http://"@ + hostname + "/"@ + info.owner + "/"@
            + info.repository + ".git"@,
    }
}

impl RemoteInfo {
    pub fn as_url(&self, protocol: RemoteProtocol, hostname: &str) -> (r: String)
        ensures
            r@ == url_for(self@, protocol, hostname@),
    {
        let prefix = match protocol {
            RemoteProtocol::Ssh => cat3("git@", hostname, ":"),
            RemoteProtocol::Https => cat3("https://", hostname, "/"),
            RemoteProtocol::Http => cat3("http://", hostname, "/"),
        };
        cat5(prefix.as_str(), self.owner.as_str(), "/", self.repository.as_str(), ".git")
    }
}

} // verus!
