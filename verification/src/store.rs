//! The config store engine: durable read/write access to one scope's
//! backing file, and the cross-scope merged view.
//!
//! The on-disk format is git's own; opening, enumerating and mutating it is
//! delegated to the git config layer behind the trusted items below. What a
//! file on disk holds cannot be known here, so the contracts state what
//! holds of every outcome, and the merge itself is done by the verified
//! `merge_entries`.

use vstd::prelude::*;
use vstd::string::StringExecFns;
use crate::entry::{ConfigEntry, ConfigError, EntrySpec};
use crate::merge::{merge_entries, merged_spec, tagged};
use crate::scope::{resolve_path, Scope};

verus! {

/// Declares git2::Config, the handle of one opened on-disk config file,
/// so that values of it can be carried through verified code.
#[verifier::external_type_specification]
#[verifier::external_body]
pub struct ExGitConfig(git2::Config);

/// Declares git2::Error, the config layer's error type.
#[verifier::external_type_specification]
#[verifier::external_body]
pub struct ExGitError(git2::Error);

/// Declares std::io::Error, the filesystem error type.
#[verifier::external_type_specification]
#[verifier::external_body]
pub struct ExIoError(std::io::Error);

/// Relies on git2::Config::open: a config instance backed by the single
/// on-disk file at `path`.
#[verifier::external_body]
fn config_open(path: &str) -> (r: Result<git2::Config, git2::Error>) {
    git2::Config::open(std::path::Path::new(path))
}

/// Relies on git2::Config::entries and git2::ConfigEntries::next: every
/// entry of the opened file, in file order, each as its full dotted name
/// and raw value. An entry without a value, or one whose name or value is
/// not well-formed text, is passed over, as the config layer's readers do.
#[verifier::external_body]
fn config_pairs(cfg: &git2::Config) -> (r: Result<Vec<(String, String)>, git2::Error>) {
    let mut out: Vec<(String, String)> = Vec::new();
    let mut it = cfg.entries(None)?;
    while let Some(entry) = it.next() {
        let entry = entry?;
        if entry.has_value() {
            if let (Ok(name), Ok(value)) = (entry.name(), entry.value()) {
                out.push((name.to_owned(), value.to_owned()));
            }
        }
    }
    Ok(out)
}

/// Relies on git2::Config::set_str: sets the named key to the given value
/// in the backing file, overwriting the key's single-value slot.
pub assume_specification[ git2::Config::set_str ](
    cfg: &mut git2::Config,
    name: &str,
    value: &str,
) -> Result<(), git2::Error>;

/// Relies on git2::Error::message: the error's human-readable text.
#[verifier::external_body]
fn git_error_message(e: &git2::Error) -> (r: String) {
    e.message().to_owned()
}

/// Relies on fs_err::create_dir_all: creates the directory and every
/// missing parent; succeeds without change when they already exist.
#[verifier::external_body]
fn fs_create_dir_all(dir: &str) -> (r: Result<(), std::io::Error>) {
    fs_err::create_dir_all(dir)
}

/// Relies on fs_err::OpenOptions::open with write and create: creates the
/// file when it is missing and leaves an existing file's content unchanged;
/// the handle is released on every path.
#[verifier::external_body]
fn fs_create_file(path: &str) -> (r: Result<(), std::io::Error>) {
    fs_err::OpenOptions::new().write(true).create(true).open(path).map(|_| ())
}

/// Relies on the std Display of std::io::Error: the error's text.
#[verifier::external_body]
fn io_error_message(e: &std::io::Error) -> (r: String) {
    e.to_string()
}

/// Relies on git2::Repository::open: succeeds exactly when `path` is, or is
/// inside, a directory holding a valid git repository structure.
#[verifier::external_body]
pub(crate) fn repository_opens(path: &str) -> (r: bool) {
    git2::Repository::open(path).is_ok()
}

/// Index of the last path separator of `s`, or -1 when it has none.
pub open spec fn last_sep_index(s: Seq<char>) -> int
    decreases s.len(),
{
    if s.len() == 0 {
        -1
    } else if s.last() == '/' {
        s.len() - 1
    } else {
        last_sep_index(s.drop_last())
    }
}

/// The directory part of a path: everything before its last separator, or
/// nothing when the path has no directory part to create.
pub open spec fn parent_dir_spec(s: Seq<char>) -> Option<Seq<char>> {
    if last_sep_index(s) > 0 {
        Some(s.subrange(0, last_sep_index(s)))
    } else {
        None
    }
}

/// The directory part of `path`, as `parent_dir_spec` describes it.
pub fn parent_dir(path: &str) -> (r: Option<String>)
    ensures
        r is Some ==> parent_dir_spec(path@) == Some(r.unwrap()@),
        r is None ==> parent_dir_spec(path@) is None,
{
    let n = path.unicode_len();
    let mut i: usize = n;
    while i > 0
        invariant
            i <= n,
            n == path@.len(),
            forall|m: int| i <= m < n ==> path@[m] != '/',
        decreases i,
    {
        if path.get_char(i - 1) == '/' {
            proof {
                lemma_last_sep_found(path@, i - 1 as int);
            }
            if i - 1 > 0 {
                let dir = path.substring_char(0, i - 1).to_owned();
                return Some(dir);
            } else {
                return None;
            }
        }
        i = i - 1;
    }
    proof {
        lemma_last_sep_absent(path@);
    }
    None
}

proof fn lemma_last_sep_found(s: Seq<char>, j: int)
    requires
        0 <= j < s.len(),
        s[j] == '/',
        forall|m: int| j < m < s.len() ==> s[m] != '/',
    ensures
        last_sep_index(s) == j,
    decreases s.len(),
{
    if j < s.len() - 1 {
        lemma_last_sep_found(s.drop_last(), j);
    }
}

proof fn lemma_last_sep_absent(s: Seq<char>)
    requires
        forall|m: int| 0 <= m < s.len() ==> s[m] != '/',
    ensures
        last_sep_index(s) == -1,
    decreases s.len(),
{
    if s.len() > 0 {
        lemma_last_sep_absent(s.drop_last());
    }
}

/// Creates the store file's missing parent directories and then the file
/// itself when it does not exist; an existing file and tree are left as
/// they are. A failure is reported as `Io`.
fn ensure_file(path: &str) -> (r: Result<(), ConfigError>)
    ensures
        r is Err ==> r.unwrap_err() is Io,
{
    match parent_dir(path) {
        Some(dir) => match fs_create_dir_all(dir.as_str()) {
            Ok(()) => (),
            Err(e) => {
                return Err(ConfigError::Io(io_error_message(&e)));
            },
        },
        None => (),
    }
    match fs_create_file(path) {
        Ok(()) => Ok(()),
        Err(e) => Err(ConfigError::Io(io_error_message(&e))),
    }
}

/// Builds a read result: one entry per pair, in order, each carrying the
/// pair's key and raw value, the scope it was read from, and no override
/// mark.
pub fn entries_from_pairs(pairs: Vec<(String, String)>, scope: Scope) -> (r: Vec<ConfigEntry>)
    ensures
        r.deep_view().len() == pairs@.len(),
        forall|i: int| 0 <= i < pairs@.len() ==> #[trigger] r.deep_view()[i] == (EntrySpec {
            key: pairs@[i].0@,
            value: pairs@[i].1@,
            scope,
            overridden_by: None,
        }),
        tagged(r.deep_view(), scope),
{
    let ghost pairs0: Seq<(String, String)> = pairs@;
    let mut rest = pairs;
    let mut entries: Vec<ConfigEntry> = Vec::new();
    while rest.len() > 0
        invariant
            entries@.len() + rest@.len() == pairs0.len(),
            rest@ =~= pairs0.subrange(entries@.len() as int, pairs0.len() as int),
            forall|i: int| 0 <= i < entries@.len() ==> #[trigger] entries.deep_view()[i]
                == (EntrySpec {
                key: pairs0[i].0@,
                value: pairs0[i].1@,
                scope,
                overridden_by: None,
            }),
        decreases rest@.len(),
    {
        let ghost entries0 = entries.deep_view();
        let kv = rest.remove(0);
        proof {
            assert(kv == pairs0[entries@.len() as int]);
        }
        entries.push(ConfigEntry { key: kv.0, value: kv.1, scope, overridden_by: None });
        proof {
            assert forall|i: int| 0 <= i < entries@.len() implies #[trigger] entries.deep_view()[
                i] == (EntrySpec {
                key: pairs0[i].0@,
                value: pairs0[i].1@,
                scope,
                overridden_by: None,
            }) by {
                if i < entries0.len() {
                    assert(entries.deep_view()[i] == entries0[i]);
                }
            }
        }
    }
    entries
}

/// Resolves the scope's store, makes sure it exists, and returns every
/// entry of it in file order: each one carries its key and raw value, the
/// scope it was read from, and no override mark. An unresolvable path or a
/// failure inside the config layer is `Open`; a failure creating the store
/// is `Io`.
pub fn read_scope_entries(scope: Scope, repo_root: Option<&str>) -> (r: Result<
    Vec<ConfigEntry>,
    ConfigError,
>)
    ensures
        r is Ok ==> tagged(r.unwrap().deep_view(), scope),
{
    let path = match resolve_path(scope, repo_root) {
        Some(p) => p,
        None => {
            return Err(ConfigError::Open("the scope's path cannot be resolved".to_owned()));
        },
    };
    match ensure_file(path.as_str()) {
        Ok(()) => (),
        Err(e) => {
            return Err(e);
        },
    }
    let cfg = match config_open(path.as_str()) {
        Ok(c) => c,
        Err(e) => {
            return Err(ConfigError::Open(git_error_message(&e)));
        },
    };
    let pairs = match config_pairs(&cfg) {
        Ok(p) => p,
        Err(e) => {
            return Err(ConfigError::Open(git_error_message(&e)));
        },
    };
    Ok(entries_from_pairs(pairs, scope))
}

/// Resolves and ensures the scope's store, then sets each supplied entry's
/// key to its value, in the order supplied, stopping at the first failure;
/// writes already applied stay. Errors are reported as `read_scope_entries`
/// reports them, a failed write as `Open`.
pub fn write_scope_entries(scope: Scope, repo_root: Option<&str>, entries: Vec<ConfigEntry>)
    -> (r: Result<(), ConfigError>)
    ensures
        r is Err ==> r.unwrap_err() is Open || r.unwrap_err() is Io,
{
    let path = match resolve_path(scope, repo_root) {
        Some(p) => p,
        None => {
            return Err(ConfigError::Open("the scope's path cannot be resolved".to_owned()));
        },
    };
    match ensure_file(path.as_str()) {
        Ok(()) => (),
        Err(e) => {
            return Err(e);
        },
    }
    let mut cfg = match config_open(path.as_str()) {
        Ok(c) => c,
        Err(e) => {
            return Err(ConfigError::Open(git_error_message(&e)));
        },
    };
    let mut rest = entries;
    while rest.len() > 0
        decreases rest@.len(),
    {
        let entry = rest.remove(0);
        match cfg.set_str(entry.key.as_str(), entry.value.as_str()) {
            Ok(()) => (),
            Err(e) => {
                return Err(ConfigError::Open(git_error_message(&e)));
            },
        }
    }
    Ok(())
}

/// Reads the three scopes lowest precedence first — System, Global, Local —
/// and merges them into the override-annotated flat view of `merged_spec`.
/// If any scope fails to read, the whole merge fails with that scope's
/// error; no partial view is returned.
pub fn merged_view() -> (r: Result<Vec<ConfigEntry>, ConfigError>)
    ensures
        r is Ok ==> exists|a: Seq<EntrySpec>, b: Seq<EntrySpec>, c: Seq<EntrySpec>|
            tagged(a, Scope::System) && tagged(b, Scope::Global) && tagged(c, Scope::Local)
            && r.unwrap().deep_view() == #[trigger] merged_spec(a + b + c),
{
    let system = match read_scope_entries(Scope::System, None) {
        Ok(v) => v,
        Err(e) => {
            return Err(e);
        },
    };
    let global = match read_scope_entries(Scope::Global, None) {
        Ok(v) => v,
        Err(e) => {
            return Err(e);
        },
    };
    let local = match read_scope_entries(Scope::Local, None) {
        Ok(v) => v,
        Err(e) => {
            return Err(e);
        },
    };
    let ghost a = system.deep_view();
    let ghost b = global.deep_view();
    let ghost c = local.deep_view();
    let merged = merge_entries(system, global, local);
    proof {
        assert(tagged(a, Scope::System) && tagged(b, Scope::Global) && tagged(c, Scope::Local)
            && merged.deep_view() == merged_spec(a + b + c));
    }
    Ok(merged)
}

} // verus!
