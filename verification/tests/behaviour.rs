use gitpersona::api::{ApiError, DependencyState, NamedProfile, SshTestStatus};
use gitpersona::binding::{bind_plan, restore_plan, unbind_plan, LocalState, SLOT_COUNT};
use gitpersona::cli::{network_allowed, profile_from_args, CloneArgs, CloneProtocol, HookMode, ProfileMutationArgs};
use gitpersona::clone_repo::{account_to_restore, clone_plan, no_switch_check};
use gitpersona::config::{validate_config, Config, ConfigStore, DirectoryRule, LocalFacts, Profile, SigningFormat};
use gitpersona::directory::{
    add_plan, fragment_path, git_path, include_decision, include_key, is_managed_fragment,
    fragment_unused, old_fragment_unused, paths_equal, quote, remove_plan, remove_rules_at, rename_plan,
    sync_all, sync_profile,
};
use gitpersona::error::{ErrorKind, GitPersonaError};
use gitpersona::git::{
    common_dir_from, config_value, config_values, has_compatible_credential_helper, transaction_keys,
};
use gitpersona::github::{
    account_list, accounts_from_json, active_account_of, is_authenticated_in, switch_confirmed, switch_outcome,
    switch_precheck, Account, JsonValue,
};
use gitpersona::hooks::{hooks_path_check, install_check, status, uninstall_check, HookFile, PRE_COMMIT, PRE_PUSH};
use gitpersona::process::{redirects_git_environment, ProcessOutput};
use gitpersona::remote::{parse_remote, parse_repository, RemoteProtocol};
use gitpersona::repository::{is_skipped, path_key, summarize};
use gitpersona::api::RepositoryLocalStatus;
use gitpersona::service::{
    add_repository_root, create_profile, dependency_status, doctor_report, get_profile,
    imported_profile, remove_profile, remove_repository_root, rename_profile, ssh_test_report,
    list_profiles, profile_problems, ImportFacts,
};
use gitpersona::ssh::SshIdentity;
use gitpersona::check::{inspect, CheckOptions, NetworkFacts};
use gitpersona::directory::add_rule;
use gitpersona::desktop::{repository_approval, session_approval};

fn profile(user: &str) -> Profile {
    Profile {
        github_user: user.into(),
        git_name: "Alice Work".into(),
        git_email: "work@example.com".into(),
        hostname: "github.com".into(),
        ssh_key: None,
        allowed_owners: vec![],
        signing_key: None,
        signing_format: SigningFormat::Openpgp,
        require_signing: false,
    }
}

fn no_facts() -> LocalFacts {
    LocalFacts { home: Some("/home/alice".into()), files: vec![] }
}

fn output(code: Option<i32>, stdout: &str, stderr: &str) -> ProcessOutput {
    ProcessOutput { code, stdout: stdout.into(), stderr: stderr.into() }
}

fn account(login: &str, active: bool, valid: bool) -> Account {
    Account { login: login.into(), active, valid }
}

fn object(fields: Vec<(&str, JsonValue)>) -> JsonValue {
    JsonValue::Object(fields.into_iter().map(|(k, v)| (k.to_string(), v)).collect())
}

fn gh_account(login: &str, active: bool, state: &str) -> JsonValue {
    object(vec![
        ("active", JsonValue::Bool(active)),
        ("login", JsonValue::Str(login.into())),
        ("state", JsonValue::Str(state.into())),
    ])
}

fn config_with_rule(profile_name: &str, path: &str) -> Config {
    let mut config = Config::default();
    config.profiles.insert(profile_name.into(), profile("alice"));
    config.directories.push(DirectoryRule { profile: profile_name.into(), path: path.into() });
    config
}

fn store() -> ConfigStore {
    ConfigStore::at("/home/alice/.config/gitpersona/config.toml".into())
}

#[test]
fn bind_then_unbind_restores_every_setting() {
    let mut values: Vec<Option<String>> = vec![None; SLOT_COUNT];
    values[2] = Some("Original".into());
    values[3] = Some("original@example.com".into());
    values[5] = Some("OLDKEY".into());
    values[6] = Some("ssh".into());
    values[7] = Some("false".into());
    let original = LocalState { values: values.clone() };
    let mut state = LocalState { values };
    let mut signed = profile("alice");
    signed.signing_key = Some("NEWKEY".into());
    signed.require_signing = true;
    let ops = bind_plan(&state, "work", &signed, None, false, None, &no_facts()).unwrap();
    state.apply(&ops);
    assert_eq!(state.values[0].as_deref(), Some("work"));
    assert_eq!(state.values[2].as_deref(), Some("Alice Work"));
    assert_eq!(state.values[5].as_deref(), Some("NEWKEY"));
    assert_eq!(state.values[6].as_deref(), Some("openpgp"));
    assert_eq!(state.values[7].as_deref(), Some("true"));
    let ops = unbind_plan(&state).unwrap();
    state.apply(&ops);
    assert_eq!(state.values, original.values);
}

#[test]
fn several_binds_then_unbind_restore_the_first_state() {
    let mut values: Vec<Option<String>> = vec![None; SLOT_COUNT];
    values[2] = Some("Original".into());
    values[4] = Some("ssh -i /old".into());
    let original = LocalState { values: values.clone() };
    let mut state = LocalState { values };
    let first = profile("alice");
    let ops = bind_plan(&state, "work", &first, None, false, None, &no_facts()).unwrap();
    state.apply(&ops);
    let mut second = profile("bob");
    second.git_name = "Bob".into();
    second.git_email = "bob@example.com".into();
    let ops = bind_plan(&state, "personal", &second, None, true, Some(&first), &no_facts()).unwrap();
    state.apply(&ops);
    assert_eq!(state.values[0].as_deref(), Some("personal"));
    assert_eq!(state.values[3].as_deref(), Some("bob@example.com"));
    let ops = bind_plan(&state, "personal", &second, None, true, Some(&second), &no_facts()).unwrap();
    state.apply(&ops);
    let ops = unbind_plan(&state).unwrap();
    state.apply(&ops);
    assert_eq!(state.values, original.values);
}

#[test]
fn leftover_backup_keys_do_not_survive_binds_and_unbind() {
    let mut values: Vec<Option<String>> = vec![None; SLOT_COUNT];
    values[2] = Some("Original".into());
    values[9] = Some("true".into());
    values[15] = Some("stale@example.com".into());
    let mut state = LocalState { values: values.clone() };
    let first = profile("alice");
    let ops = bind_plan(&state, "work", &first, None, false, None, &no_facts()).unwrap();
    state.apply(&ops);
    let ops = bind_plan(&state, "work", &first, None, true, Some(&first), &no_facts()).unwrap();
    state.apply(&ops);
    let ops = unbind_plan(&state).unwrap();
    state.apply(&ops);
    for (slot, value) in state.values.iter().enumerate() {
        if (2..8).contains(&slot) {
            assert_eq!(value, &values[slot], "slot {slot}");
        } else {
            assert_eq!(value, &None, "slot {slot}");
        }
    }
}

#[test]
fn a_listed_profile_store_shows_what_was_added() {
    let mut config = Config::default();
    assert!(list_profiles(&config).is_empty());
    config.profiles.insert("work".into(), profile("alice"));
    config.profiles.insert("home".into(), profile("bob"));
    let names: Vec<String> = list_profiles(&config).into_iter().map(|p| p.name).collect();
    assert_eq!(names, vec!["home".to_string(), "work".to_string()]);
}

#[test]
fn git_redirecting_variables_are_recognised() {
    for name in ["GIT_DIR", "GIT_WORK_TREE", "GIT_INDEX_FILE", "GIT_CONFIG_COUNT", "GIT_CONFIG_KEY_0", "GIT_CONFIG_VALUE_12"] {
        assert!(redirects_git_environment(name), "{name}");
    }
    for name in ["GIT_CONFIG_GLOBAL", "HOME", "PATH", "GIT_DIRECTORY", "git_dir"] {
        assert!(!redirects_git_environment(name), "{name}");
    }
}

#[test]
fn doctor_lists_profiles_whose_key_is_missing() {
    let mut config = Config::default();
    let mut keyed = profile("alice");
    keyed.ssh_key = Some("/home/alice/.ssh/missing".into());
    config.profiles.insert("work".into(), keyed);
    config.profiles.insert("home".into(), profile("bob"));
    let problems = profile_problems(&config, &no_facts());
    assert_eq!(problems.len(), 1);
    assert_eq!(problems[0].0, "work");
    assert!(!problems[0].1.is_empty());
}

#[test]
fn restore_plan_returns_to_the_snapshot() {
    let snapshot = LocalState { values: vec![None; SLOT_COUNT] };
    let mut values: Vec<Option<String>> = vec![Some("x".into()); SLOT_COUNT];
    values[3] = None;
    let mut state = LocalState { values };
    state.apply(&restore_plan(&snapshot));
    assert_eq!(state.values, snapshot.values);
}

#[test]
fn unbinding_an_unbound_repository_is_refused() {
    let state = LocalState { values: vec![None; SLOT_COUNT] };
    let error = unbind_plan(&state).unwrap_err();
    assert_eq!(error.kind(), ErrorKind::Usage);
    assert_eq!(error.message(), "repository is not bound to a GitPersona profile");
}

#[test]
fn account_list_sorts_and_removes_duplicates() {
    let document = object(vec![(
        "hosts",
        object(vec![(
            "github.com",
            JsonValue::Array(vec![
                gh_account("zoe", false, "success"),
                gh_account("alice", true, "success"),
                gh_account("zoe", false, "SUCCESS"),
            ]),
        )]),
    )]);
    let list = accounts_from_json(&output(Some(0), "", ""), Ok(document)).unwrap();
    assert_eq!(list, vec![account("alice", true, true), account("zoe", false, true)]);
}

#[test]
fn account_list_reports_timeout_and_bad_json() {
    let error = accounts_from_json(&output(None, "", ""), Ok(JsonValue::Null)).unwrap_err();
    assert_eq!(error.message(), "GitHub CLI status timed out");
    assert_eq!(error.exit_code(), 3);
    let error = accounts_from_json(&output(Some(0), "x", ""), Err("expected value".into())).unwrap_err();
    assert_eq!(error.message(), "GitHub CLI returned invalid JSON: expected value");
    let error = account_list(&output(None, "", "")).unwrap_err();
    assert_eq!(error.message(), "GitHub CLI status timed out");
    let error = account_list(&output(Some(0), "x", "")).unwrap_err();
    assert!(error.message().starts_with("GitHub CLI returned invalid JSON: "), "{}", error.message());
}

#[test]
fn account_list_reads_the_status_json() {
    let text = r#"{"hosts":{"github.com":[{"login":"zoe","active":false,"state":"success"},{"login":"alice","active":true,"state":"success"}]}}"#;
    let list = account_list(&output(Some(0), text, "")).unwrap();
    assert_eq!(list, vec![account("alice", true, true), account("zoe", false, true)]);
}

#[test]
fn active_account_is_the_first_active_and_must_be_valid() {
    let accounts = vec![account("alice", false, true), account("bob", true, true)];
    assert_eq!(active_account_of(&accounts, "github.com").unwrap(), Some("bob".to_string()));
    let accounts = vec![account("bob", true, false)];
    let error = active_account_of(&accounts, "github.com").unwrap_err();
    assert_eq!(error.message(), "GitHub CLI could not validate the active account 'bob' on github.com");
    assert_eq!(active_account_of(&vec![], "github.com").unwrap(), None);
}

#[test]
fn switching_needs_a_valid_login() {
    let accounts = vec![account("Alice", false, true), account("bob", false, false)];
    assert!(is_authenticated_in(&accounts, "alice"));
    assert!(!is_authenticated_in(&accounts, "bob"));
    let error = switch_precheck(&accounts, "github.com", "bob").unwrap_err();
    assert_eq!(error.message(), "GitHub CLI is not authenticated as bob on github.com");
    assert_eq!(error.exit_code(), 2);
    let error = switch_outcome(&output(Some(1), "", "  denied \n")).unwrap_err();
    assert_eq!(error.message(), "GitHub CLI account switch failed: denied");
    assert!(switch_confirmed(&Some("ALICE".into()), "alice").is_ok());
    let error = switch_confirmed(&None, "alice").unwrap_err();
    assert_eq!(error.message(), "GitHub CLI did not activate alice after switching");
}

#[test]
fn config_reads_follow_git_exit_codes() {
    assert_eq!(config_value("user.name", &output(Some(0), "Alice \n", "")).unwrap(), Some("Alice".into()));
    assert_eq!(config_value("user.name", &output(Some(1), "", "")).unwrap(), None);
    let error = config_value("user.name", &output(Some(128), "", " fatal \n")).unwrap_err();
    assert_eq!(error.message(), "git config --get user.name failed: fatal");
    let values = config_values("credential.helper", &output(Some(0), "a\r\nb\n\nc", "")).unwrap();
    assert_eq!(values, vec!["a".to_string(), "b".into(), "".into(), "c".into()]);
}

#[test]
fn transaction_keys_cover_every_slot() {
    let keys = transaction_keys();
    assert_eq!(keys.len(), SLOT_COUNT);
    assert_eq!(keys[0], "gitpersona.profile");
    assert_eq!(keys[7], "commit.gpgSign");
    assert_eq!(keys[8], "gitpersona.backupUserNamePresent");
    assert_eq!(keys[9], "gitpersona.backupUserName");
}

#[test]
fn common_dir_resolves_relative_paths() {
    assert_eq!(common_dir_from("/repo", &output(Some(0), ".git\n", "")).unwrap(), "/repo/.git");
    assert_eq!(common_dir_from("/repo", &output(Some(0), "/elsewhere/.git\n", "")).unwrap(), "/elsewhere/.git");
    assert!(common_dir_from("/repo", &output(Some(128), "", "")).is_err());
}

#[test]
fn credential_helper_is_recognised_ignoring_case() {
    assert!(has_compatible_credential_helper(&vec!["!/usr/bin/GH AUTH GIT-CREDENTIAL".into()]));
    assert!(!has_compatible_credential_helper(&vec!["store".into()]));
}

#[test]
fn quoting_escapes_line_breaks() {
    assert_eq!(quote("a\"b\\c\nd\te\r"), "\"a\\\"b\\\\c\\nd\\te\\r\"");
}

#[test]
fn include_keys_and_git_paths() {
    assert_eq!(include_key("/home/alice/work/", false), "includeIf.gitdir:/home/alice/work/.path");
    assert_eq!(include_key("C:\\Work", true), "includeIf.gitdir/i:C:/Work/.path");
    assert_eq!(git_path("\\\\?\\C:\\Work", true), "C:/Work");
    assert_eq!(git_path("\\\\?\\UNC\\server\\share", true), "//server/share");
}

#[test]
fn fragment_path_is_beside_the_configuration() {
    assert_eq!(
        fragment_path(&store(), "work").unwrap(),
        "/home/alice/.config/gitpersona/profiles/work.gitconfig"
    );
    assert!(fragment_path(&ConfigStore::at("/".into()), "work").is_err());
}

#[test]
fn directories_compare_as_paths() {
    assert!(paths_equal("/home/alice/work", "/home/alice/work/", false));
    assert!(!paths_equal("/home/alice/work", "/home/alice/Work", false));
    assert!(paths_equal("C:\\Work", "c:\\work", true));
}

#[test]
fn sync_writes_only_fragments_that_rules_use() {
    let config = config_with_rule("work", "/home/alice/work");
    assert!(sync_profile("other", &config, &store(), &no_facts()).unwrap().is_none());
    let write = sync_profile("work", &config, &store(), &no_facts()).unwrap().unwrap();
    assert!(write.path.ends_with("profiles/work.gitconfig"));
    assert!(is_managed_fragment(&write.contents));
    let mut broken = Config::default();
    broken.directories.push(DirectoryRule { profile: "gone".into(), path: "/x".into() });
    let plan = sync_all(&broken, &store(), &no_facts());
    assert!(plan.writes.is_empty());
    assert_eq!(plan.error.unwrap().message(), "directory rule references missing profile 'gone'");
}

#[test]
fn directory_rules_are_added_once_and_removed_exactly() {
    let config = config_with_rule("work", "/home/alice/work");
    let error = add_plan(&config, "work", "/home/alice/work", &store(), &no_facts(), false).unwrap_err();
    assert_eq!(error.message(), "directory rule already exists");
    let error = add_plan(&config, "missing", "/x", &store(), &no_facts(), false).unwrap_err();
    assert_eq!(error.message(), "profile 'missing' does not exist");
    let plan = add_plan(&config, "work", "/home/alice/other", &store(), &no_facts(), false).unwrap();
    assert_eq!(plan.key, "includeIf.gitdir:/home/alice/other/.path");
    assert_eq!(plan.value, "/home/alice/.config/gitpersona/profiles/work.gitconfig");
    assert!(include_decision(&vec![], &plan.value, "/home/alice/other").unwrap());
    assert!(!include_decision(&vec![plan.value.clone()], &plan.value, "/p").unwrap());
    let error = include_decision(&vec!["other".into()], &plan.value, "/p").unwrap_err();
    assert_eq!(error.message(), "Git already has a different includeIf rule for /p");
    let removal = remove_plan(&config, "/home/alice/work", &store(), false).unwrap();
    assert_eq!(removal.profile, "work");
    assert!(remove_plan(&config, "/nowhere", &store(), false).is_err());
    let mut config = config;
    remove_rules_at(&mut config, "/home/alice/work", false);
    assert!(config.directories.is_empty());
}

#[test]
fn rename_plan_moves_each_rule_of_the_profile() {
    let mut config = config_with_rule("work", "/home/alice/work");
    config.directories.push(DirectoryRule { profile: "work".into(), path: "/home/alice/more".into() });
    let plan = rename_plan(&config, &store(), "work", "employer", false).unwrap();
    assert_eq!(plan.keys.len(), 2);
    assert!(plan.new_value.ends_with("profiles/employer.gitconfig"));
    assert!(plan.old_value.ends_with("profiles/work.gitconfig"));
}

#[test]
fn a_fragment_goes_only_when_unused_and_managed() {
    let managed = "# Managed by GitPersona\n[user]\n";
    let config = config_with_rule("work", "/home/alice/work");
    assert!(!fragment_unused(&config, "work", Some(managed)));
    assert!(fragment_unused(&config, "home", Some(managed)));
    assert!(!fragment_unused(&config, "home", Some("[user]\n")));
    assert!(!fragment_unused(&config, "home", None));
    let plan = rename_plan(&config, &store(), "work", "employer", false).unwrap();
    assert!(old_fragment_unused(&plan, Some(managed)));
    assert!(!old_fragment_unused(&plan, Some("[user]\n")));
    let idle = rename_plan(&config, &store(), "home", "house", false).unwrap();
    assert!(!old_fragment_unused(&idle, Some(managed)));
}

#[test]
fn hooks_are_never_replaced_or_removed_when_foreign() {
    assert!(hooks_path_check(&Some(".custom-hooks".into())).is_err());
    assert!(hooks_path_check(&None).is_ok());
    let error = install_check(true, false, "/r/.git/hooks/pre-commit", "/r/.git/hooks/pre-push").unwrap_err();
    assert_eq!(error.message(), "hook already exists; refusing to replace /r/.git/hooks/pre-commit");
    assert_eq!(
        status(&HookFile::Contents(PRE_COMMIT.into()), &HookFile::Missing),
        "pre-commit: installed\npre-push:   not installed"
    );
    let error = uninstall_check(
        &HookFile::Contents("#!/bin/sh\necho custom\n".into()),
        &HookFile::Missing,
        "/p",
        "/q",
    )
    .unwrap_err();
    assert!(error.message().contains("refusing to remove"));
    assert!(uninstall_check(&HookFile::Contents(PRE_COMMIT.into()), &HookFile::Contents(PRE_PUSH.into()), "/p", "/q").is_ok());
}

fn clone_args(repository: &str) -> CloneArgs {
    CloneArgs {
        profile: "work".into(),
        repository: repository.into(),
        directory: None,
        protocol: None,
        remote: "origin".into(),
        no_switch: false,
    }
}

#[test]
fn clone_checks_host_owner_and_protocol() {
    let mut config = Config::default();
    let mut p = profile("alice");
    p.allowed_owners = vec!["permitted-org".into()];
    config.profiles.insert("work".into(), p);
    let error = clone_plan(&clone_args("https://gitlab.example/org/project.git"), &config, &no_facts()).unwrap_err();
    assert!(error.message().contains("does not match profile host"));
    let error = clone_plan(&clone_args("other-org/project"), &config, &no_facts()).unwrap_err();
    assert!(error.message().contains("not allowed by profile"));
    assert_eq!(error.exit_code(), 1);
    let plan = clone_plan(&clone_args("Permitted-Org/project"), &config, &no_facts()).unwrap();
    assert_eq!(plan.protocol, RemoteProtocol::Https);
    assert_eq!(plan.url, "https://github.com/Permitted-Org/project.git");
    assert_eq!(plan.destination, "project");
    let mut ssh = clone_args("permitted-org/project");
    ssh.protocol = Some(CloneProtocol::Ssh);
    let error = clone_plan(&ssh, &config, &no_facts()).unwrap_err();
    assert_eq!(error.message(), "SSH remotes require the profile to define --ssh-key");
}

#[test]
fn no_switch_needs_the_active_account_for_https() {
    assert!(no_switch_check(RemoteProtocol::Ssh, &None, "alice").is_ok());
    assert!(no_switch_check(RemoteProtocol::Https, &Some("ALICE".into()), "alice").is_ok());
    let error = no_switch_check(RemoteProtocol::Https, &Some("bob".into()), "alice").unwrap_err();
    assert_eq!(error.exit_code(), 1);
    assert_eq!(account_to_restore(&Some("bob".into()), false), Some("bob".into()));
    assert_eq!(account_to_restore(&Some("bob".into()), true), None);
}

fn mutation(name: &str) -> ProfileMutationArgs {
    ProfileMutationArgs {
        name: name.into(),
        github_user: None,
        git_name: None,
        git_email: None,
        hostname: None,
        ssh_key: None,
        allowed_owners: vec![],
        clear_ssh_key: false,
        clear_allowed_owners: false,
        signing_key: None,
        signing_format: None,
        require_signing: false,
        no_require_signing: false,
        clear_signing_key: false,
    }
}

#[test]
fn profile_arguments_fill_and_keep_fields() {
    let error = profile_from_args(&mutation("work"), None, true).unwrap_err();
    assert_eq!(error.message(), "missing required GitHub user; provide the corresponding flag");
    let mut old = profile("alice");
    old.signing_key = Some("K".into());
    old.require_signing = true;
    let kept = profile_from_args(&mutation("work"), Some(&old), false).unwrap();
    assert_eq!(kept.github_user, "alice");
    assert!(kept.require_signing);
    let mut cleared = mutation("work");
    cleared.clear_signing_key = true;
    let edited = profile_from_args(&cleared, Some(&old), false).unwrap();
    assert_eq!(edited.signing_key, None);
    assert!(!edited.require_signing);
    let mut full = mutation("work");
    full.github_user = Some("alice".into());
    full.git_name = Some("Alice".into());
    full.git_email = Some("a@example.com".into());
    let made = profile_from_args(&full, None, true).unwrap();
    assert_eq!(made.hostname, "github.com");
    assert!(network_allowed(Some(HookMode::PrePush)));
    assert!(!network_allowed(Some(HookMode::PreCommit)));
    assert!(network_allowed(None));
}

#[test]
fn profiles_are_created_removed_and_renamed() {
    let mut config = Config::default();
    let created = create_profile(&mut config, "work", profile("alice"), &no_facts()).unwrap();
    assert_eq!(created.name, "work");
    let error = create_profile(&mut config, "work", profile("alice"), &no_facts()).unwrap_err();
    assert_eq!(error.message(), "profile 'work' already exists");
    assert!(create_profile(&mut config, "bad name", profile("alice"), &no_facts()).is_err());
    config.directories.push(DirectoryRule { profile: "work".into(), path: "/w".into() });
    let error = remove_profile(&mut config, "work").unwrap_err();
    assert_eq!(error.message(), "profile 'work' has directory rules; remove them first");
    let renamed = rename_profile(&mut config, "work", "employer").unwrap();
    assert_eq!(renamed.name, "employer");
    assert_eq!(config.directories[0].profile, "employer");
    assert!(get_profile(&config, "work").is_err());
    assert_eq!(get_profile(&config, "employer").unwrap().profile.github_user, "alice");
    config.directories.clear();
    remove_profile(&mut config, "employer").unwrap();
    assert!(config.profiles.is_empty());
}

#[test]
fn doctor_reports_health_and_dependency_lines() {
    let ok = dependency_status("git", "Install Git", &Ok(output(Some(0), "git version 2.45\nmore\n", "")));
    assert_eq!(ok.state, DependencyState::Available);
    assert_eq!(ok.detail, "git version 2.45");
    let timed = dependency_status("gh", "Install gh", &Ok(output(None, "", "")));
    assert_eq!(timed.detail, "timed out");
    let failed = dependency_status("ssh", "Install ssh", &Err(GitPersonaError::dependency("could not run ssh".into())));
    assert_eq!(failed.state, DependencyState::Unavailable);
    let mut config = Config::default();
    let mut keyed = profile("alice");
    keyed.ssh_key = Some("/keys/missing".into());
    config.profiles.insert("work".into(), keyed);
    let report = doctor_report("/c/config.toml", &config, vec![ok], &no_facts());
    assert!(!report.healthy);
    assert_eq!(report.profile_issues, vec!["work: SSH key does not exist or is not a file: /keys/missing".to_string()]);
    assert_eq!(report.schema_version, 2);
}

#[test]
fn ssh_test_reports_each_answer() {
    let named = NamedProfile { name: "work".into(), profile: profile("alice") };
    let report = ssh_test_report(&named, SshIdentity::Rejected("bob".into()));
    assert_eq!(report.status, SshTestStatus::Rejected);
    assert_eq!(report.message, "SSH authenticates as bob, not alice");
    let report = ssh_test_report(&named, SshIdentity::Unavailable(String::new()));
    assert_eq!(report.message, "SSH identity could not be verified");
}

#[test]
fn import_needs_an_active_account_and_author() {
    let remote = parse_remote("https://github.com/ImportedOrg/project.git").unwrap();
    let facts = ImportFacts {
        git_name: Some("Imported User".into()),
        git_email: Some("imported@example.com".into()),
        signing_key: None,
        gpg_format: Some("ssh".into()),
        gpg_sign: Some("TRUE".into()),
    };
    let error = imported_profile(&remote, &None, &facts, false).unwrap_err();
    assert_eq!(error.message(), "cannot import profile: GitHub CLI has no active account on github.com");
    let p = imported_profile(&remote, &Some("imported-user".into()), &facts, false).unwrap();
    assert_eq!(p.allowed_owners, vec!["ImportedOrg".to_string()]);
    assert_eq!(p.signing_format, SigningFormat::Ssh);
    assert!(p.require_signing);
    assert_eq!(p.ssh_key, None);
}

#[test]
fn repository_roots_are_approved_once() {
    let mut config = Config::default();
    add_repository_root(&mut config, "/src", false);
    add_repository_root(&mut config, "/src/", false);
    assert_eq!(config.repository_roots, vec!["/src".to_string()]);
    assert!(remove_repository_root(&mut config, "/elsewhere", false).is_err());
    remove_repository_root(&mut config, "/src", false).unwrap();
    assert!(config.repository_roots.is_empty());
}

#[test]
fn scan_keys_and_skipped_names() {
    assert_eq!(path_key("C:\\Src", true), "c:\\src");
    assert_eq!(path_key("/Src", false), "/Src");
    assert!(is_skipped("Node_Modules"));
    assert!(!is_skipped("src"));
}

#[test]
fn summaries_report_missing_profiles() {
    let mut values: Vec<Option<String>> = vec![None; SLOT_COUNT];
    values[0] = Some("gone".into());
    let state = LocalState { values };
    let summary = summarize("/src/project".into(), &state, None, None, None, &Config::default(), &no_facts());
    assert_eq!(summary.name, "project");
    assert_eq!(summary.status, RepositoryLocalStatus::MissingProfile);
    assert_eq!(summary.detail.as_deref(), Some("bound profile 'gone' does not exist"));
}

#[test]
fn errors_carry_exit_codes_and_kinds() {
    let error = GitPersonaError::usage("bad".into());
    assert_eq!(error.exit_code(), 2);
    let api = ApiError::from_error(&error);
    assert_eq!(api.kind, "usage");
    assert_eq!(api.exit_code, 2);
    assert_eq!(GitPersonaError::check("x".into()).exit_code(), 1);
    assert_eq!(GitPersonaError::dependency("x".into()).exit_code(), 3);
}

#[test]
fn repositories_parse_as_urls_or_shorthand() {
    let remote = parse_repository("Org/repo", "github.example").unwrap();
    assert_eq!(remote.hostname, "github.example");
    assert_eq!(remote.as_url(RemoteProtocol::Ssh, "github.example"), "git@github.example:Org/repo.git");
    let remote = parse_remote("http://github.com/alice-work/project.git").unwrap();
    assert_eq!(remote.protocol, RemoteProtocol::Http);
    assert!(parse_remote("not a remote").is_err());
}

#[test]
fn config_validation_rejects_unknown_schema() {
    let mut config = Config::default();
    config.schema_version = 9;
    let error = validate_config(&config).unwrap_err();
    assert_eq!(error.message(), "unsupported config schema version 9");
}

#[test]
fn desktop_acts_only_on_approved_folders() {
    let chosen = vec!["/home/alice/chosen".to_string()];
    let roots = vec!["/src".to_string()];
    assert!(session_approval(&chosen, "/home/alice/chosen").is_ok());
    let error = session_approval(&chosen, "/elsewhere").unwrap_err();
    assert_eq!(error.field.as_deref(), Some("path"));
    assert!(repository_approval(&chosen, &roots, "/src/project").is_ok());
    assert!(repository_approval(&chosen, &roots, "/home/alice/chosen").is_ok());
    let error = repository_approval(&chosen, &roots, "/srcx/project").unwrap_err();
    assert_eq!(error.message, "This repository is outside the folders approved in GitPersona.");
    assert_eq!(error.exit_code, 2);
}

fn bound_repo(remote: &str) -> gitpersona::check::RepositoryFacts {
    gitpersona::check::RepositoryFacts {
        root: "/src/project".into(),
        bound_profile: Some("work".into()),
        remote: Some(parse_remote(remote).unwrap()),
        git_name: Some("Alice Work".into()),
        git_email: Some("work@example.com".into()),
        ssh_command: None,
    }
}

#[test]
fn checks_fail_closed_without_a_verified_identity() {
    let mut config = Config::default();
    config.profiles.insert("work".into(), profile("alice"));
    let repo = bound_repo("https://github.com/alice/project.git");
    let options = CheckOptions { remote_name: "origin", network: true };
    let offline = NetworkFacts {
        active_account: Err(GitPersonaError::dependency("gh missing".into())),
        ssh_identity: Ok(SshIdentity::Unavailable(String::new())),
        credential_helper: Ok(true),
    };
    let report = inspect(&config, &repo, &options, &no_facts(), Some(&offline));
    assert!(!report.enforceable());
    let online = NetworkFacts {
        active_account: Ok(Some("Alice".into())),
        ssh_identity: Ok(SshIdentity::Unavailable(String::new())),
        credential_helper: Ok(true),
    };
    let report = inspect(&config, &repo, &options, &no_facts(), Some(&online));
    assert!(report.enforceable());
    let offline_only = CheckOptions { remote_name: "origin", network: false };
    let report = inspect(&config, &repo, &offline_only, &no_facts(), Some(&offline));
    assert!(report.enforceable());
    let mut unbound = bound_repo("https://github.com/alice/project.git");
    unbound.bound_profile = None;
    let report = inspect(&config, &unbound, &options, &no_facts(), None);
    assert!(!report.enforceable());
    let http = bound_repo("http://github.com/alice-work/project.git");
    let report = inspect(&config, &http, &options, &no_facts(), Some(&online));
    assert!(report.checks.iter().any(|c| c.id == "transport" && c.message.contains("cleartext HTTP")));
}

#[test]
fn adding_then_removing_a_rule_restores_the_rules() {
    let mut config = config_with_rule("work", "/home/alice/work");
    add_rule(&mut config, "work".into(), "/home/alice/other".into());
    assert_eq!(config.directories.len(), 2);
    remove_rules_at(&mut config, "/home/alice/other", false);
    assert_eq!(config.directories.len(), 1);
    assert_eq!(config.directories[0].path, "/home/alice/work");
}

#[test]
fn clone_urls_parse_back_to_their_repository() {
    let source = parse_repository("company-name/device-firmware", "github.com").unwrap();
    for protocol in [RemoteProtocol::Ssh, RemoteProtocol::Https, RemoteProtocol::Http] {
        let url = source.as_url(protocol, "github.com");
        let parsed = parse_remote(&url).unwrap();
        assert_eq!(parsed.protocol, protocol);
        assert_eq!(parsed.hostname, "github.com");
        assert_eq!(parsed.owner, "company-name");
        assert_eq!(parsed.repository, "device-firmware");
    }
}
