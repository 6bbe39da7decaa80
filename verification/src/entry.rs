//! Configuration entries and the error taxonomy of the store engine.

use vstd::prelude::*;
use vstd::string::StringExecFns;
use crate::scope::Scope;

verus! {

/// Mathematical model of one configuration entry.
pub ghost struct EntrySpec {
    pub key: Seq<char>,
    pub value: Seq<char>,
    pub scope: Scope,
    pub overridden_by: Option<Scope>,
}

/// One key/value pair as stored in one scope.
///
/// `scope` names the scope the entry came from and is never changed after
/// construction. `overridden_by` is set only on merged-view output, naming
/// the scope whose value superseded this entry; it is absent on plain
/// single-scope reads and on effective (winning) entries.
#[derive(Debug)]
pub struct ConfigEntry {
    pub key: String,
    pub value: String,
    pub scope: Scope,
    pub overridden_by: Option<Scope>,
}

impl View for ConfigEntry {
    type V = EntrySpec;

    open spec fn view(&self) -> EntrySpec {
        EntrySpec {
            key: self.key@,
            value: self.value@,
            scope: self.scope,
            overridden_by: self.overridden_by,
        }
    }
}

impl DeepView for ConfigEntry {
    type V = EntrySpec;

    open spec fn deep_view(&self) -> EntrySpec {
        self.view()
    }
}

impl Clone for ConfigEntry {
    fn clone(&self) -> (r: Self)
        ensures
            r@ == self@,
    {
        ConfigEntry {
            key: self.key.clone(),
            value: self.value.clone(),
            scope: self.scope,
            overridden_by: self.overridden_by,
        }
    }
}

/// Why a store operation failed.
///
/// `Open` covers an unresolvable store path and every failure inside the
/// config layer itself (malformed content, a failed read or write);
/// `Io` covers a filesystem failure while the store was being created.
/// Each carries a human-readable message.
#[derive(Debug)]
pub enum ConfigError {
    Open(String),
    Io(String),
}

impl ConfigError {
    /// The message shown at the external boundary for this error.
    pub open spec fn message_spec(self) -> Seq<char> {
        match self {
            ConfigError::Open(m) => "failed to open git config: "@ + m@,
            ConfigError::Io(m) => "io error: "@ + m@,
        }
    }

    pub fn message(&self) -> (r: String)
        ensures
            r@ == self.message_spec(),
    {
        match self {
            ConfigError::Open(m) => "failed to open git config: ".to_owned().concat(m.as_str()),
            ConfigError::Io(m) => "io error: ".to_owned().concat(m.as_str()),
        }
    }
}

} // verus!
