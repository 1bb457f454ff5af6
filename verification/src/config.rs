//! The global defaults store: an on-disk key/value mapping whose values feed
//! variable resolution when neither the command line nor the manifest decides.
//! The core only ever reads it through lookups; loading and saving the file
//! is the surrounding program's business.

use vstd::prelude::*;

use crate::assignment::Assignment;

verus! {

/// Saved default values for common variables (author, author email, and the
/// like), keyed by variable name.
pub struct GlobalConfig {
    /// The stored name-to-value mapping.
    pub defaults: Assignment,
}

impl Default for GlobalConfig {
    /// An empty store: nothing is bound.
    fn default() -> (c: GlobalConfig)
        ensures
            c.defaults.wf(),
            c.defaults@ == Map::<Seq<u8>, Seq<u8>>::empty(),
    {
        GlobalConfig { defaults: Assignment::new() }
    }
}

/// One operation on the global defaults store.
pub enum ConfigAction {
    /// Bind a variable name to a default value.
    SetValue {
        /// Variable name.
        key: Vec<u8>,
        /// Value to store.
        value: Vec<u8>,
    },
    /// Read the value bound to a name.
    GetValue {
        /// Variable name.
        key: Vec<u8>,
    },
    /// Enumerate all saved defaults.
    List,
    /// Drop the binding of a name.
    Unset {
        /// Variable name to drop.
        key: Vec<u8>,
    },
    /// Discard the whole store.
    Reset,
}

/// What applying a [`ConfigAction`] changed: whether the store must be written
/// back, and whether a `Get` or `Unset` found its key.
pub struct ConfigOutcome {
    /// The store changed and should be saved.
    pub store_changed: bool,
    /// The key named by a `Get` or `Unset` was bound.
    pub key_was_bound: bool,
}

/// Apply a `Set` or `Unset` action to the store in memory; `Get`, `List` and
/// `Reset` leave it unchanged (`Reset` discards the on-disk file instead).
pub fn apply_config_action(config: &mut GlobalConfig, action: &ConfigAction) -> (r: ConfigOutcome)
    requires
        old(config).defaults.wf(),
    ensures
        final(config).defaults.wf(),
        match *action {
            ConfigAction::SetValue { key, value } => {
                &&& final(config).defaults@ == old(config).defaults@.insert(key@, value@)
                &&& r.store_changed
            },
            ConfigAction::Unset { key } => {
                &&& final(config).defaults@ == old(config).defaults@.remove(key@)
                &&& r.key_was_bound == old(config).defaults@.contains_key(key@)
                &&& r.store_changed == r.key_was_bound
            },
            ConfigAction::GetValue { key } => {
                &&& final(config).defaults@ == old(config).defaults@
                &&& !r.store_changed
                &&& r.key_was_bound == old(config).defaults@.contains_key(key@)
            },
            _ => final(config).defaults@ == old(config).defaults@ && !r.store_changed,
        },
{
    match action {
        ConfigAction::SetValue { key, value } => {
            let k = crate::bytes::clone_bytes(key);
            let v = crate::bytes::clone_bytes(value);
            config.defaults.insert(k, v);
            ConfigOutcome { store_changed: true, key_was_bound: true }
        },
        ConfigAction::Unset { key } => {
            let was = config.defaults.remove(key);
            ConfigOutcome { store_changed: was, key_was_bound: was }
        },
        ConfigAction::GetValue { key } => {
            let was = config.defaults.contains_key(key);
            ConfigOutcome { store_changed: false, key_was_bound: was }
        },
        _ => ConfigOutcome { store_changed: false, key_was_bound: false },
    }
}

} // verus!
