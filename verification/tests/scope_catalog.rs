use gitconfig_scopes::api::list_scopes;
use gitconfig_scopes::scope::{resolve_path, Scope};

#[test]
fn labels_are_stable() {
    assert_eq!(Scope::Local.label(), "Local");
    assert_eq!(Scope::Global.label(), "Global");
    assert_eq!(Scope::System.label(), "System");
}

#[test]
fn variants_lists_the_three_scopes_in_order() {
    let v = Scope::variants();
    assert_eq!(v, vec![Scope::Local, Scope::Global, Scope::System]);
}

#[test]
fn list_scopes_has_one_entry_per_scope_with_documented_paths() {
    let infos = list_scopes();
    assert_eq!(infos.len(), 3);

    assert_eq!(infos[0].scope, Scope::Local);
    assert_eq!(infos[0].label, "Local");
    assert_eq!(infos[0].path.as_deref(), Some(".git/config"));

    assert_eq!(infos[1].scope, Scope::Global);
    assert_eq!(infos[1].label, "Global");
    match dirs::home_dir().and_then(|p| p.into_os_string().into_string().ok()) {
        Some(home) => {
            assert_eq!(infos[1].path.as_deref(), Some(format!("{home}/.gitconfig").as_str()));
        }
        None => assert!(infos[1].path.is_none()),
    }

    assert_eq!(infos[2].scope, Scope::System);
    assert_eq!(infos[2].label, "System");
    assert_eq!(infos[2].path.as_deref(), Some("/etc/gitconfig"));
}

#[test]
fn resolve_path_uses_the_repository_root_for_local() {
    let p = resolve_path(Scope::Local, Some("/tmp/somewhere"));
    assert_eq!(p.as_deref(), Some("/tmp/somewhere/.git/config"));
    let q = resolve_path(Scope::System, Some("/tmp/somewhere"));
    assert_eq!(q.as_deref(), Some("/etc/gitconfig"));
}
