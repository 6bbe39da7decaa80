//! The three configuration scopes and the rule that maps each one to the
//! location of its backing store.

use vstd::prelude::*;
use vstd::string::StringExecFns;

verus! {

/// One of the three layered sources of git configuration, ordered by
/// precedence: a Local value overrides a Global one, which overrides a
/// System one.
#[derive(Clone, Copy, Debug, PartialEq, Eq, Structural)]
pub enum Scope {
    Local,
    Global,
    System,
}

/// Precedence of a scope: higher wins during a merge.
pub open spec fn rank(s: Scope) -> int {
    match s {
        Scope::System => 0,
        Scope::Global => 1,
        Scope::Local => 2,
    }
}

impl Scope {
    /// The fixed display string of this scope.
    pub open spec fn label_spec(self) -> Seq<char> {
        match self {
            Scope::Local => "Local"@,
            Scope::Global => "Global"@,
            Scope::System => "System"@,
        }
    }

    pub fn label(&self) -> (r: &'static str)
        ensures
            r@ == self.label_spec(),
    {
        match self {
            Scope::Local => "Local",
            Scope::Global => "Global",
            Scope::System => "System",
        }
    }

    /// The fixed catalog of scopes, in the order shown to callers.
    pub fn variants() -> (r: Vec<Scope>)
        ensures
            r@ == seq![Scope::Local, Scope::Global, Scope::System],
    {
        let mut v: Vec<Scope> = Vec::new();
        v.push(Scope::Local);
        v.push(Scope::Global);
        v.push(Scope::System);
        proof {
            assert(v@ =~= seq![Scope::Local, Scope::Global, Scope::System]);
        }
        v
    }

    /// The store location of this scope when no repository root is supplied.
    pub fn path(&self) -> (r: Option<String>)
        ensures
            *self == Scope::System ==> r is Some && r.unwrap()@ == system_path_spec(),
            *self == Scope::Local ==> r is Some && r.unwrap()@ == local_default_path_spec(),
            *self == Scope::Global && r is Some ==> exists|home: Seq<char>|
                r.unwrap()@ == #[trigger] global_path_spec(home),
    {
        resolve_path(*self, None)
    }
}

/// Store location of the System scope.
pub open spec fn system_path_spec() -> Seq<char> {
    "/etc/gitconfig"@
}

/// Store location of the Global scope, under the user's home directory.
pub open spec fn global_path_spec(home: Seq<char>) -> Seq<char> {
    home + "/.gitconfig"@
}

/// Store location of the Local scope of the repository rooted at `root`.
pub open spec fn local_path_spec(root: Seq<char>) -> Seq<char> {
    root + "/.git/config"@
}

/// Store location of the Local scope when no repository root is supplied:
/// relative to the working directory, which the operating system applies
/// when the file is opened.
pub open spec fn local_default_path_spec() -> Seq<char> {
    ".git/config"@
}

/// Relies on dirs::home_dir: the current user's home directory, as the
/// environment defines it, or nothing when the environment names none.
#[verifier::external_body]
fn home_dir_string() -> (r: Option<String>)
{
    dirs::home_dir().and_then(|p| p.into_os_string().into_string().ok())
}

/// Maps a scope (plus an optional repository-root override for the Local
/// scope) to the location of its backing store. No side effects: nothing is
/// checked for existence or created.
pub fn resolve_path(scope: Scope, repo_root: Option<&str>) -> (r: Option<String>)
    ensures
        scope == Scope::System ==> r is Some && r.unwrap()@ == system_path_spec(),
        scope == Scope::Local && repo_root is Some ==> r is Some && r.unwrap()@
            == local_path_spec(repo_root.unwrap()@),
        scope == Scope::Local && repo_root is None ==> r is Some && r.unwrap()@
            == local_default_path_spec(),
        scope == Scope::Global && r is Some ==> exists|home: Seq<char>|
            r.unwrap()@ == #[trigger] global_path_spec(home),
{
    match scope {
        Scope::System => Some("/etc/gitconfig".to_owned()),
        Scope::Global => match home_dir_string() {
            Some(home) => {
                let ghost home_view: Seq<char> = home@;
                let p = home.concat("/.gitconfig");
                proof {
                    assert(p@ == global_path_spec(home_view));
                }
                Some(p)
            },
            None => None,
        },
        Scope::Local => match repo_root {
            Some(root) => Some(root.to_owned().concat("/.git/config")),
            None => Some(".git/config".to_owned()),
        },
    }
}

/// Same rule as `resolve_path` with no repository-root override.
pub fn path_for_scope(scope: Scope) -> (r: Option<String>)
    ensures
        scope == Scope::System ==> r is Some && r.unwrap()@ == system_path_spec(),
        scope == Scope::Local ==> r is Some && r.unwrap()@ == local_default_path_spec(),
        scope == Scope::Global && r is Some ==> exists|home: Seq<char>|
            r.unwrap()@ == #[trigger] global_path_spec(home),
{
    resolve_path(scope, None)
}

} // verus!
