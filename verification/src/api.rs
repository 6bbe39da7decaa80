//! The request/response boundary: the operations a caller invokes, with
//! typed errors flattened to plain message strings.

use vstd::prelude::*;
use crate::entry::{ConfigEntry, ConfigError, EntrySpec};
use crate::merge::{merged_spec, tagged};
use crate::scope::{
    global_path_spec, local_default_path_spec, path_for_scope, system_path_spec, Scope,
};
use crate::store;

verus! {

/// One row of the scope catalog: the scope, its display label, and its
/// resolved store location, absent when it cannot be determined.
pub struct ScopeInfo {
    pub scope: Scope,
    pub label: String,
    pub path: Option<String>,
}

/// Reads one scope's entries; see `store::read_scope_entries`. The error,
/// if any, is its message string.
pub fn read_scope(scope: Scope, repo_path: Option<String>) -> (r: Result<
    Vec<ConfigEntry>,
    String,
>)
    ensures
        r is Ok ==> tagged(r.unwrap().deep_view(), scope),
        r is Err ==> exists|e: ConfigError| r.unwrap_err()@ == #[trigger] e.message_spec(),
{
    let root = match &repo_path {
        Some(p) => Some(p.as_str()),
        None => None,
    };
    match store::read_scope_entries(scope, root) {
        Ok(entries) => Ok(entries),
        Err(e) => {
            let ghost cause = e;
            let message = e.message();
            proof {
                assert(message@ == cause.message_spec());
            }
            Err(message)
        },
    }
}

/// Writes the given entries into one scope's store; see
/// `store::write_scope_entries`. The error, if any, is its message string.
pub fn write_scope(scope: Scope, repo_path: Option<String>, entries: Vec<ConfigEntry>) -> (r:
    Result<(), String>)
    ensures
        r is Err ==> exists|e: ConfigError| r.unwrap_err()@ == #[trigger] e.message_spec(),
{
    let root = match &repo_path {
        Some(p) => Some(p.as_str()),
        None => None,
    };
    match store::write_scope_entries(scope, root, entries) {
        Ok(()) => Ok(()),
        Err(e) => {
            let ghost cause = e;
            let message = e.message();
            proof {
                assert(message@ == cause.message_spec());
            }
            Err(message)
        },
    }
}

/// The override-annotated view across all three scopes; see
/// `store::merged_view`. The error, if any, is its message string.
pub fn merged_view() -> (r: Result<Vec<ConfigEntry>, String>)
    ensures
        r is Ok ==> exists|a: Seq<EntrySpec>, b: Seq<EntrySpec>, c: Seq<EntrySpec>|
            tagged(a, Scope::System) && tagged(b, Scope::Global) && tagged(c, Scope::Local)
            && r.unwrap().deep_view() == #[trigger] merged_spec(a + b + c),
        r is Err ==> exists|e: ConfigError| r.unwrap_err()@ == #[trigger] e.message_spec(),
{
    match store::merged_view() {
        Ok(entries) => Ok(entries),
        Err(e) => {
            let ghost cause = e;
            let message = e.message();
            proof {
                assert(message@ == cause.message_spec());
            }
            Err(message)
        },
    }
}

/// Whether `path` is, or lies inside, a directory holding a valid git
/// repository structure. False on any failure — a missing path, a plain
/// directory, denied permission — and never an error.
pub fn is_git_repo(path: String) -> bool {
    store::repository_opens(path.as_str())
}

/// The fixed scope catalog: one row per scope, in the order `Local`,
/// `Global`, `System`, each with its stable label and its resolved store
/// location under the documented rule for that scope.
pub fn list_scopes() -> (r: Vec<ScopeInfo>)
    ensures
        r@.len() == 3,
        r@[0].scope == Scope::Local && r@[1].scope == Scope::Global
            && r@[2].scope == Scope::System,
        forall|i: int| 0 <= i < 3 ==> (#[trigger] r@[i]).label@ == r@[i].scope.label_spec(),
        r@[0].path is Some && r@[0].path.unwrap()@ == local_default_path_spec(),
        r@[1].path is Some ==> exists|home: Seq<char>|
            r@[1].path.unwrap()@ == #[trigger] global_path_spec(home),
        r@[2].path is Some && r@[2].path.unwrap()@ == system_path_spec(),
{
    let scopes = Scope::variants();
    let mut out: Vec<ScopeInfo> = Vec::new();
    let mut rest = scopes;
    while rest.len() > 0
        invariant
            rest@.len() + out@.len() == 3,
            rest@ =~= seq![Scope::Local, Scope::Global, Scope::System].subrange(
                out@.len() as int,
                3,
            ),
            forall|i: int| 0 <= i < out@.len() ==> (#[trigger] out@[i]).scope
                == seq![Scope::Local, Scope::Global, Scope::System][i],
            forall|i: int| 0 <= i < out@.len() ==> (#[trigger] out@[i]).label@
                == out@[i].scope.label_spec(),
            forall|i: int| 0 <= i < out@.len() ==> (#[trigger] out@[i]).scope == Scope::Local
                ==> out@[i].path is Some && out@[i].path.unwrap()@ == local_default_path_spec(),
            forall|i: int| 0 <= i < out@.len() ==> (#[trigger] out@[i]).scope == Scope::Global
                && out@[i].path is Some ==> exists|home: Seq<char>|
                out@[i].path.unwrap()@ == #[trigger] global_path_spec(home),
            forall|i: int| 0 <= i < out@.len() ==> (#[trigger] out@[i]).scope == Scope::System
                ==> out@[i].path is Some && out@[i].path.unwrap()@ == system_path_spec(),
        decreases rest@.len(),
    {
        let scope = rest.remove(0);
        let label_string = scope.label().to_owned();
        let path = path_for_scope(scope);
        out.push(ScopeInfo { scope, label: label_string, path });
    }
    out
}

} // verus!
