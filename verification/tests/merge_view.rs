use gitconfig_scopes::entry::ConfigEntry;
use gitconfig_scopes::merge::merge_entries;
use gitconfig_scopes::scope::Scope;

fn entry(key: &str, value: &str, scope: Scope) -> ConfigEntry {
    ConfigEntry {
        key: key.to_string(),
        value: value.to_string(),
        scope,
        overridden_by: None,
    }
}

#[test]
fn merged_view_two_scopes_one_key() {
    // System has user.name=sys; Global has user.name=glob; Local has nothing.
    let system = vec![entry("user.name", "sys", Scope::System)];
    let global = vec![entry("user.name", "glob", Scope::Global)];
    let out = merge_entries(system, global, Vec::new());
    assert_eq!(out.len(), 2);
    assert_eq!(out[0].key, "user.name");
    assert_eq!(out[0].value, "sys");
    assert_eq!(out[0].scope, Scope::System);
    assert_eq!(out[0].overridden_by, Some(Scope::Global));
    assert_eq!(out[1].key, "user.name");
    assert_eq!(out[1].value, "glob");
    assert_eq!(out[1].scope, Scope::Global);
    assert_eq!(out[1].overridden_by, None);
}

#[test]
fn merged_view_key_in_one_scope() {
    // core.editor=vim exists only in Global.
    let global = vec![entry("core.editor", "vim", Scope::Global)];
    let out = merge_entries(Vec::new(), global, Vec::new());
    assert_eq!(out.len(), 1);
    assert_eq!(out[0].key, "core.editor");
    assert_eq!(out[0].value, "vim");
    assert_eq!(out[0].scope, Scope::Global);
    assert_eq!(out[0].overridden_by, None);
}

#[test]
fn merged_view_effective_entry_is_unique_and_highest() {
    // user.name is set in all three scopes, user.email in System and Local.
    let system = vec![
        entry("user.name", "s", Scope::System),
        entry("user.email", "s@x", Scope::System),
    ];
    let global = vec![entry("user.name", "g", Scope::Global)];
    let local = vec![
        entry("user.name", "l", Scope::Local),
        entry("user.email", "l@x", Scope::Local),
    ];
    let out = merge_entries(system, global, local);
    for key in ["user.name", "user.email"] {
        let effective: Vec<&ConfigEntry> = out
            .iter()
            .filter(|e| e.key == key && e.overridden_by.is_none())
            .collect();
        assert_eq!(effective.len(), 1, "exactly one effective entry for {key}");
        assert_eq!(effective[0].scope, Scope::Local);
    }
    let name_effective = out
        .iter()
        .find(|e| e.key == "user.name" && e.overridden_by.is_none())
        .unwrap();
    assert_eq!(name_effective.value, "l");
}

#[test]
fn merged_view_overrides_point_to_higher_scopes_that_define_the_key() {
    fn rank(s: Scope) -> u32 {
        match s {
            Scope::System => 0,
            Scope::Global => 1,
            Scope::Local => 2,
        }
    }
    let system = vec![
        entry("user.name", "s", Scope::System),
        entry("core.pager", "less", Scope::System),
    ];
    let global = vec![entry("user.name", "g", Scope::Global)];
    let local = vec![entry("user.name", "l", Scope::Local)];
    let scope_lists = [
        vec![("user.name", Scope::System), ("core.pager", Scope::System)],
        vec![("user.name", Scope::Global)],
        vec![("user.name", Scope::Local)],
    ];
    let out = merge_entries(system, global, local);
    let mut overridden = 0;
    for e in &out {
        if let Some(winner) = e.overridden_by {
            overridden += 1;
            assert!(rank(e.scope) < rank(winner));
            let winner_list = &scope_lists[rank(winner) as usize];
            assert!(winner_list.iter().any(|(k, _)| *k == e.key));
        }
    }
    assert_eq!(overridden, 2);
}

#[test]
fn merged_view_of_nothing_is_empty() {
    let out = merge_entries(Vec::new(), Vec::new(), Vec::new());
    assert!(out.is_empty());
}

#[test]
fn merged_view_repeated_key_within_one_scope_records_self_override() {
    // A scope that repeats a key keeps every occurrence: the earlier one is
    // recorded as overridden by that same scope.
    let system = vec![
        entry("remote.origin.fetch", "a", Scope::System),
        entry("remote.origin.fetch", "b", Scope::System),
    ];
    let out = merge_entries(system, Vec::new(), Vec::new());
    assert_eq!(out.len(), 2);
    assert_eq!(out[0].value, "a");
    assert_eq!(out[0].overridden_by, Some(Scope::System));
    assert_eq!(out[1].value, "b");
    assert_eq!(out[1].overridden_by, None);
}

#[test]
fn merged_view_winners_keep_first_appearance_order() {
    let system = vec![
        entry("a.one", "1", Scope::System),
        entry("b.two", "2", Scope::System),
    ];
    let local = vec![entry("a.one", "3", Scope::Local)];
    let out = merge_entries(system, Vec::new(), local);
    assert_eq!(out.len(), 3);
    // History first, then winners in the order their keys first appeared.
    assert_eq!(out[0].value, "1");
    assert_eq!(out[0].overridden_by, Some(Scope::Local));
    assert_eq!(out[1].key, "a.one");
    assert_eq!(out[1].value, "3");
    assert_eq!(out[1].overridden_by, None);
    assert_eq!(out[2].key, "b.two");
    assert_eq!(out[2].overridden_by, None);
}
