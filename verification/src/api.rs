//! The values the desktop front end and the JSON output exchange.
use crate::check::CheckReport;
use crate::config::{Profile, SigningFormat};
use crate::error::{kind_exit_code, ErrorKind, GitPersonaError};
use crate::remote::RemoteInfo;
use vstd::prelude::*;

verus! {

/// A profile with its name.
#[derive(Debug)]
pub struct NamedProfile {
    pub name: String,
    pub profile: Profile,
}

/// What importing a repository's identity proposes, before it is saved.
#[derive(Debug)]
pub struct ProfileDraft {
    pub repository: String,
    pub github_user: Option<String>,
    pub git_name: Option<String>,
    pub git_email: Option<String>,
    pub hostname: String,
    pub allowed_owners: Vec<String>,
    pub signing_key: Option<String>,
    pub signing_format: SigningFormat,
    pub require_signing: bool,
    pub warnings: Vec<String>,
}

/// How a scanned repository stands with its binding.
#[derive(Debug, Clone, Copy, PartialEq, Eq, Structural)]
pub enum RepositoryLocalStatus {
    Bound,
    Unbound,
    Drifted,
    MissingProfile,
    Unavailable,
}

/// One repository found by a scan.
#[derive(Debug)]
pub struct RepositorySummary {
    pub path: String,
    pub name: String,
    pub bound_profile: Option<String>,
    pub git_name: Option<String>,
    pub git_email: Option<String>,
    pub remote: Option<RemoteInfo>,
    pub status: RepositoryLocalStatus,
    pub detail: Option<String>,
}

/// The progress of a repository scan.
#[derive(Debug)]
pub enum RepositoryScanEvent {
    Started { roots: usize },
    RootStarted { root: String },
    RepositoryFound { repository: Box<RepositorySummary> },
    RootUnavailable { root: String, message: String },
    Finished { repositories: usize, cancelled: bool },
}

/// Whether a program GitPersona needs answered.
#[derive(Debug, Clone, Copy, PartialEq, Eq, Structural)]
pub enum DependencyState {
    Available,
    Warning,
    Unavailable,
}

/// One program GitPersona needs, and how it answered.
#[derive(Debug)]
pub struct DependencyStatus {
    pub name: String,
    pub state: DependencyState,
    pub detail: String,
    pub remediation: Option<String>,
}

/// The result of `doctor`.
#[derive(Debug)]
pub struct DoctorReport {
    pub config_path: String,
    pub schema_version: u32,
    pub profile_count: usize,
    pub dependencies: Vec<DependencyStatus>,
    pub profile_issues: Vec<String>,
    pub healthy: bool,
}

/// Who SSH authenticated as, compared with the profile.
#[derive(Debug, Clone, Copy, PartialEq, Eq, Structural)]
pub enum SshTestStatus {
    Verified,
    Rejected,
    Unavailable,
}

/// The result of testing a profile's SSH identity.
#[derive(Debug)]
pub struct SshTestReport {
    pub profile: String,
    pub expected_user: String,
    pub actual_user: Option<String>,
    pub hostname: String,
    pub key: Option<String>,
    pub status: SshTestStatus,
    pub message: String,
}

/// An error as the front end receives it.
#[derive(Debug)]
pub struct ApiError {
    pub kind: String,
    pub message: String,
    pub exit_code: u8,
    pub field: Option<String>,
}

/// The name of an error class.
pub open spec fn kind_name(kind: ErrorKind) -> Seq<char> {
    match kind {
        ErrorKind::Check => "check"@,
        ErrorKind::Usage => "usage"@,
        ErrorKind::Dependency => "dependency"@,
    }
}

impl ApiError {
    /// The error's class by name, its message and its exit code.
    pub fn from_error(error: &GitPersonaError) -> (r: ApiError)
        ensures
            r.kind@ == kind_name(error@.0),
            r.message@ == error@.1,
            r.exit_code == kind_exit_code(error@.0),
            r.field is None,
    {
        let kind = match error.kind() {
            ErrorKind::Check => "check",
            ErrorKind::Usage => "usage",
            ErrorKind::Dependency => "dependency",
        };
        ApiError {
            kind: kind.to_string(),
            message: error.message().to_string(),
            exit_code: error.exit_code(),
            field: None,
        }
    }
}

/// A repository's check report, and whether it asked the network.
#[derive(Debug)]
pub struct RepositoryStatus {
    pub report: CheckReport,
    pub network_checked: bool,
}

} // verus!
