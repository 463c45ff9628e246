use gitpersona::check::{finish, item, CheckStatus, OverallStatus};
use gitpersona::clone_repo::validate_remote_name;
use gitpersona::config::{validate_config, validate_profile_name, Config, LocalFacts, Profile, SigningFormat};
use gitpersona::directory::render_fragment;
use gitpersona::github::{account_list, active_account_of, collect_accounts, Account, JsonValue};
use gitpersona::process::ProcessOutput;
use gitpersona::remote::parse_remote;
use gitpersona::repository::{
    DirEntry, RepositoryScan, ScanAction, ScanInput, SKIPPED_DIRECTORIES,
};
use gitpersona::api::{RepositoryLocalStatus, RepositoryScanEvent, RepositorySummary};
use gitpersona::binding::expected_ssh_command;
use gitpersona::ssh::{interpret_ssh_output, SshIdentity};

fn no_facts() -> LocalFacts {
    LocalFacts { home: None, files: vec![] }
}

fn json(value: &serde_json::Value) -> JsonValue {
    match value {
        serde_json::Value::Null => JsonValue::Null,
        serde_json::Value::Bool(b) => JsonValue::Bool(*b),
        serde_json::Value::Number(n) => JsonValue::Number(n.to_string()),
        serde_json::Value::String(s) => JsonValue::Str(s.clone()),
        serde_json::Value::Array(items) => JsonValue::Array(items.iter().map(json).collect()),
        serde_json::Value::Object(map) => {
            JsonValue::Object(map.iter().map(|(k, v)| (k.clone(), json(v))).collect())
        }
    }
}

fn parse(text: &str) -> Result<JsonValue, String> {
    serde_json::from_str::<serde_json::Value>(text)
        .map(|v| json(&v))
        .map_err(|e| e.to_string())
}

#[test]
fn unverified_is_not_enforceable() {
    let report = finish(
        "repo".into(),
        None,
        None,
        vec![item("network", CheckStatus::Unverified, None, None, "offline".into())],
    );
    assert!(!report.enforceable());
    assert_eq!(report.overall, OverallStatus::Warning);
}

#[test]
fn enforcing_a_report_exits_with_one_only_when_it_is_not_enforceable() {
    let unverified = finish(
        "repo".into(),
        None,
        None,
        vec![item("network", CheckStatus::Unverified, None, None, "offline".into())],
    );
    assert_eq!(unverified.exit_code(true), 1);
    assert_eq!(unverified.exit_code(false), 0);
    let fine = finish("repo".into(), None, None, vec![item("binding", CheckStatus::Passed, None, None, "bound".into())]);
    assert_eq!(fine.exit_code(true), 0);
}

#[test]
fn validates_remote_names() {
    assert!(validate_remote_name("origin").is_ok());
    assert!(validate_remote_name("bad name").is_err());
}

#[test]
fn fragment_quotes_identity_values() {
    let profile = Profile {
        github_user: "alice".into(),
        git_name: "Alice \"Dev\"".into(),
        git_email: "alice@example.com".into(),
        hostname: "github.com".into(),
        ssh_key: None,
        allowed_owners: vec![],
        signing_key: Some("ABC123".into()),
        signing_format: SigningFormat::Openpgp,
        require_signing: true,
    };
    let rendered = render_fragment("work", &profile, &no_facts()).unwrap();
    assert!(rendered.contains("Alice \\\"Dev\\\""));
    assert!(rendered.contains("gpgSign = true"));
}

#[test]
fn skipped_directories_cover_generated_trees() {
    for name in [".git", "node_modules", "target", "vendor"] {
        assert!(SKIPPED_DIRECTORIES.contains(&name));
    }
}

#[test]
fn profile_name_validation() {
    assert!(validate_profile_name("work-1.main").is_ok());
    assert!(validate_profile_name("bad name").is_err());
    assert!(validate_profile_name(&"a".repeat(65)).is_err());
}

#[test]
fn parses_supported_remotes() {
    for value in [
        "git@github.com:Org/repo.git",
        "ssh://git@github.example/Org/repo.git",
        "https://github.com/Org/repo.git",
    ] {
        let remote = parse_remote(value).unwrap();
        assert_eq!(remote.owner, "Org");
        assert_eq!(remote.repository, "repo");
    }
}

#[test]
fn extracts_accounts_from_gh_shape() {
    let value = parse(
        r#"{"hosts":{"github.com":[{"login":"alice","active":true,"state":"success"},{"login":"bob","active":false,"state":"error"}]}}"#,
    )
    .unwrap();
    let mut accounts = vec![];
    collect_accounts(&value, &mut accounts);
    assert_eq!(
        accounts,
        vec![
            Account { login: "alice".into(), active: true, valid: true },
            Account { login: "bob".into(), active: false, valid: false },
        ]
    );
}

#[test]
fn rejects_malformed_and_offline_status() {
    let malformed = ProcessOutput { code: Some(0), stdout: "not-json".into(), stderr: String::new() };
    assert!(account_list(&malformed)
        .and_then(|accounts| active_account_of(&accounts, "github.com"))
        .is_err());

    let offline = ProcessOutput {
        code: Some(0),
        stdout: r#"{"hosts":{"github.com":[{"login":"alice","active":true,"state":"error"}]}}"#.into(),
        stderr: String::new(),
    };
    assert!(account_list(&offline)
        .and_then(|accounts| active_account_of(&accounts, "github.com"))
        .is_err());
}

// Reading and writing the file are the application's part; this follows
// two updates through what they change and what must hold before a save.
#[test]
fn config_round_trip() {
    let mut config = Config::default();
    config.profiles.insert(
        "work".into(),
        Profile {
            github_user: "alice".into(),
            git_name: "Alice".into(),
            git_email: "a@example.com".into(),
            hostname: "github.com".into(),
            ssh_key: None,
            allowed_owners: vec!["Org".into()],
            signing_key: None,
            signing_format: SigningFormat::Openpgp,
            require_signing: false,
        },
    );
    assert!(validate_config(&config).is_ok());
    let mut updated = config.profiles.get("work").unwrap().clone();
    updated.git_name = "Alice Updated".into();
    config.profiles.insert("work".into(), updated);
    assert!(validate_config(&config).is_ok());
    assert_eq!(config.profiles.get("work").unwrap().github_user, "alice");
    assert_eq!(config.profiles.get("work").unwrap().git_name, "Alice Updated");
}

fn run_scan(
    config: &Config,
    cancelled: bool,
    dirs: &[&str],
    repositories: &[&str],
    events: &mut Vec<RepositoryScanEvent>,
) -> Vec<RepositorySummary> {
    let mut scan = RepositoryScan::new(config, false);
    let mut input = ScanInput::Resume;
    loop {
        match scan.step(input, cancelled) {
            ScanAction::Emit(event) => {
                events.push(event);
                input = ScanInput::Resume;
            }
            ScanAction::CheckRoot(root) => input = ScanInput::RootChecked(dirs.contains(&root.as_str())),
            ScanAction::Canonicalize(path) => input = ScanInput::Canonical(Some(path)),
            ScanAction::ProbeMarker(path) => {
                input = ScanInput::Marker(repositories.contains(&path.as_str()))
            }
            ScanAction::Summarize(path) => {
                let name = path.rsplit('/').next().unwrap().to_string();
                input = ScanInput::Summary(Some(RepositorySummary {
                    path,
                    name,
                    bound_profile: None,
                    git_name: None,
                    git_email: None,
                    remote: None,
                    status: RepositoryLocalStatus::Unbound,
                    detail: None,
                }))
            }
            ScanAction::ReadDir(path) => {
                let prefix = format!("{path}/");
                let entries = dirs
                    .iter()
                    .filter(|d| d.starts_with(&prefix) && !d[prefix.len()..].contains('/'))
                    .map(|d| DirEntry {
                        path: d.to_string(),
                        name: d[prefix.len()..].to_string(),
                        kind: Some((true, false)),
                    })
                    .collect();
                input = ScanInput::Entries(Some(entries));
            }
            ScanAction::Finish(found) => return found,
            ScanAction::Idle => return Vec::new(),
        }
    }
}

#[test]
fn scan_deduplicates_roots_and_skips_generated_trees() {
    let dirs = ["/t", "/t/project", "/t/node_modules", "/t/node_modules/private"];
    let repositories = ["/t/project", "/t/node_modules/private"];
    let config = Config { repository_roots: vec!["/t".into(), "/t".into()], ..Config::default() };
    let mut events = Vec::new();
    let found = run_scan(&config, false, &dirs, &repositories, &mut events);
    assert_eq!(found.len(), 1);
    assert_eq!(found[0].name, "project");
}

#[test]
fn cancelled_scan_finishes_without_descending() {
    let config = Config { repository_roots: vec!["/t".into()], ..Config::default() };
    let mut events = Vec::new();
    let found = run_scan(&config, true, &["/t"], &[], &mut events);
    assert!(found.is_empty());
    assert!(matches!(
        events.last(),
        Some(RepositoryScanEvent::Finished { cancelled: true, .. })
    ));
}

#[test]
fn scan_treats_a_mismatched_answer_as_a_failed_request() {
    let config = Config { repository_roots: vec!["/t".into()], ..Config::default() };
    let mut scan = RepositoryScan::new(&config, false);
    assert!(matches!(scan.step(ScanInput::Resume, false), ScanAction::Emit(RepositoryScanEvent::Started { roots: 1 })));
    assert!(matches!(scan.step(ScanInput::Resume, false), ScanAction::Emit(RepositoryScanEvent::RootStarted { .. })));
    assert!(matches!(scan.step(ScanInput::Resume, false), ScanAction::CheckRoot(_)));
    match scan.step(ScanInput::Marker(true), false) {
        ScanAction::Emit(RepositoryScanEvent::RootUnavailable { root, .. }) => assert_eq!(root, "/t"),
        _ => panic!("expected the root to be reported unavailable"),
    }
    assert!(matches!(
        scan.step(ScanInput::Resume, false),
        ScanAction::Emit(RepositoryScanEvent::Finished { repositories: 0, cancelled: false })
    ));
    assert!(matches!(scan.step(ScanInput::Resume, false), ScanAction::Finish(found) if found.is_empty()));
    assert!(matches!(scan.step(ScanInput::Resume, false), ScanAction::Idle));
}

#[test]
fn scan_results_follow_their_found_events_in_key_order() {
    let dirs = ["/t", "/t/b", "/t/a", "/t/c"];
    let repositories = ["/t/b", "/t/a", "/t/c"];
    let config = Config { repository_roots: vec!["/t".into()], ..Config::default() };
    let mut events = Vec::new();
    let found = run_scan(&config, false, &dirs, &repositories, &mut events);
    let paths: Vec<&str> = found.iter().map(|s| s.path.as_str()).collect();
    assert_eq!(paths, vec!["/t/a", "/t/b", "/t/c"]);
    let mut reported: Vec<String> = events
        .iter()
        .filter_map(|e| match e {
            RepositoryScanEvent::RepositoryFound { repository } => Some(repository.path.clone()),
            _ => None,
        })
        .collect();
    reported.sort();
    assert_eq!(reported, vec!["/t/a", "/t/b", "/t/c"]);
    assert!(matches!(
        events.last(),
        Some(RepositoryScanEvent::Finished { repositories: 3, cancelled: false })
    ));
}

#[test]
fn ssh_command_quotes_paths() {
    let key = "/keys/my key".to_string();
    let profile = Profile {
        github_user: "a".into(),
        git_name: "A".into(),
        git_email: "a@x".into(),
        hostname: "github.com".into(),
        ssh_key: Some(key.clone()),
        allowed_owners: vec![],
        signing_key: None,
        signing_format: SigningFormat::Openpgp,
        require_signing: false,
    };
    let facts = LocalFacts { home: None, files: vec![key] };
    let command = expected_ssh_command(&profile, &facts).unwrap();
    assert!(command.contains('"'));
    assert!(command.contains("IdentitiesOnly=yes"));
}

#[test]
fn github_success_message_beats_nonzero_exit() {
    let output = ProcessOutput {
        code: Some(1),
        stdout: String::new(),
        stderr: "Hi Alice! You've successfully authenticated, but GitHub does not provide shell access.".into(),
    };
    assert_eq!(interpret_ssh_output("alice", &output), SshIdentity::Verified("Alice".into()));
}
