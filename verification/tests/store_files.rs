use gitconfig_scopes::api::{is_git_repo, read_scope, write_scope};
use gitconfig_scopes::entry::{ConfigEntry, ConfigError};
use gitconfig_scopes::scope::Scope;
use gitconfig_scopes::store::{entries_from_pairs, parent_dir, read_scope_entries, write_scope_entries};

fn entry(key: &str, value: &str) -> ConfigEntry {
    ConfigEntry {
        key: key.to_string(),
        value: value.to_string(),
        scope: Scope::Local,
        overridden_by: None,
    }
}

fn root_string(dir: &tempfile::TempDir) -> String {
    dir.path().to_str().unwrap().to_string()
}

#[test]
fn write_then_read_round_trips() {
    let dir = tempfile::tempdir().unwrap();
    let root = root_string(&dir);
    write_scope(
        Scope::Local,
        Some(root.clone()),
        vec![entry("user.name", "alice"), entry("core.editor", "vim")],
    )
    .unwrap();

    let first = read_scope(Scope::Local, Some(root.clone())).unwrap();
    let pairs: Vec<(String, String)> =
        first.iter().map(|e| (e.key.clone(), e.value.clone())).collect();
    assert!(pairs.contains(&("user.name".to_string(), "alice".to_string())));
    assert!(pairs.contains(&("core.editor".to_string(), "vim".to_string())));
    for e in &first {
        assert_eq!(e.scope, Scope::Local);
        assert_eq!(e.overridden_by, None);
    }

    // Writing a read result back and reading again yields the same entries.
    write_scope(Scope::Local, Some(root.clone()), first.clone()).unwrap();
    let second = read_scope(Scope::Local, Some(root)).unwrap();
    let pairs_again: Vec<(String, String)> =
        second.iter().map(|e| (e.key.clone(), e.value.clone())).collect();
    assert_eq!(pairs, pairs_again);
}

#[test]
fn write_creates_missing_file_and_directories() {
    // The .git directory exists but the config file does not.
    let dir = tempfile::tempdir().unwrap();
    let root = root_string(&dir);
    fs_err::create_dir_all(format!("{root}/.git")).unwrap();
    write_scope_entries(Scope::Local, Some(root.as_str()), vec![entry("user.name", "bob")]).unwrap();
    assert!(fs_err::read_to_string(format!("{root}/.git/config"))
        .unwrap()
        .contains("bob"));

    // Neither the parent directory nor the file exists.
    let nested = format!("{root}/deeper/clone");
    write_scope_entries(Scope::Local, Some(nested.as_str()), vec![entry("user.name", "carol")]).unwrap();
    assert!(fs_err::read_to_string(format!("{nested}/.git/config"))
        .unwrap()
        .contains("carol"));
}

#[test]
fn writing_zero_entries_changes_nothing() {
    let dir = tempfile::tempdir().unwrap();
    let root = root_string(&dir);
    write_scope_entries(Scope::Local, Some(root.as_str()), vec![entry("user.name", "dora")]).unwrap();
    let before = fs_err::read_to_string(format!("{root}/.git/config")).unwrap();
    write_scope_entries(Scope::Local, Some(root.as_str()), Vec::new()).unwrap();
    let after = fs_err::read_to_string(format!("{root}/.git/config")).unwrap();
    assert_eq!(before, after);
}

#[test]
fn reading_a_fresh_store_yields_no_entries() {
    let dir = tempfile::tempdir().unwrap();
    let root = root_string(&dir);
    let entries = read_scope_entries(Scope::Local, Some(root.as_str())).unwrap();
    assert!(entries.is_empty());
}

#[test]
fn is_git_repo_recognizes_repositories_only() {
    let dir = tempfile::tempdir().unwrap();
    let root = root_string(&dir);

    let missing = format!("{root}/does-not-exist");
    assert!(!is_git_repo(missing));

    let plain = format!("{root}/plain");
    fs_err::create_dir_all(&plain).unwrap();
    assert!(!is_git_repo(plain));

    let repo = format!("{root}/repo");
    git2::Repository::init(&repo).unwrap();
    assert!(is_git_repo(repo));
}

#[test]
fn malformed_store_content_reports_an_open_error() {
    let dir = tempfile::tempdir().unwrap();
    let root = root_string(&dir);
    fs_err::create_dir_all(format!("{root}/.git")).unwrap();
    fs_err::write(format!("{root}/.git/config"), "[unclosed\n").unwrap();
    let err = read_scope_entries(Scope::Local, Some(root.as_str())).unwrap_err();
    assert!(matches!(err, ConfigError::Open(_)));
    let message = err.message();
    assert!(message.starts_with("failed to open git config: "));
}

#[test]
fn unwritable_store_location_reports_an_io_error() {
    // A plain file stands where the .git directory would have to be created.
    let dir = tempfile::tempdir().unwrap();
    let root = root_string(&dir);
    fs_err::write(format!("{root}/blocker"), "not a directory").unwrap();
    let blocked = format!("{root}/blocker/clone");
    let err = write_scope_entries(Scope::Local, Some(blocked.as_str()), Vec::new()).unwrap_err();
    assert!(matches!(err, ConfigError::Io(_)));
    assert!(err.message().starts_with("io error: "));
}

#[test]
fn error_messages_follow_the_error_kind() {
    let open = ConfigError::Open("bad".to_string());
    assert_eq!(open.message(), "failed to open git config: bad");
    let io = ConfigError::Io("disk".to_string());
    assert_eq!(io.message(), "io error: disk");
}

#[test]
fn parent_dir_splits_off_the_directory_part() {
    assert_eq!(parent_dir("/etc/gitconfig").as_deref(), Some("/etc"));
    assert_eq!(parent_dir("a/b/.git/config").as_deref(), Some("a/b/.git"));
    assert_eq!(parent_dir(".git/config").as_deref(), Some(".git"));
    assert_eq!(parent_dir("gitconfig"), None);
    assert_eq!(parent_dir("/gitconfig"), None);
    assert_eq!(parent_dir(""), None);
}

#[test]
fn cloning_an_entry_keeps_its_fields() {
    let first = ConfigEntry {
        key: "user.name".to_string(),
        value: "alice".to_string(),
        scope: Scope::Global,
        overridden_by: Some(Scope::Local),
    };
    let copy = first.clone();
    assert_eq!(copy.key, first.key);
    assert_eq!(copy.value, first.value);
    assert_eq!(copy.scope, first.scope);
    assert_eq!(copy.overridden_by, first.overridden_by);
}

#[test]
fn entries_from_pairs_keeps_keys_values_and_order() {
    let pairs = vec![
        ("user.name".to_string(), "alice".to_string()),
        ("core.editor".to_string(), "vim".to_string()),
    ];
    let entries = entries_from_pairs(pairs, Scope::System);
    assert_eq!(entries.len(), 2);
    assert_eq!(entries[0].key, "user.name");
    assert_eq!(entries[0].value, "alice");
    assert_eq!(entries[1].key, "core.editor");
    assert_eq!(entries[1].value, "vim");
    for e in &entries {
        assert_eq!(e.scope, Scope::System);
        assert_eq!(e.overridden_by, None);
    }
}
