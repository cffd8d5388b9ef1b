//! Secret values of the cache, in the operating system's keyring.
use vstd::prelude::*;

use crate::storage::{
    keyring_delete_credential, keyring_entry, keyring_get_password, keyring_set_password,
};
use crate::store::StoreError;

verus! {

/// The keyring service under which the cache keeps secret values.
pub fn service_name() -> (r: &'static str)
    ensures
        r@ == "op-offline"@,
{
    "op-offline"
}

/// Makes the operating system's keyring the store of the cache's keyring
/// entries.
pub fn init() -> (r: Result<(), StoreError>)
    ensures
        r matches Err(e) ==> e is KeyringInit,
{
    crate::store::init()
}

/// Access to the cache's secret values in the keyring.
pub struct KeyringStore;

impl KeyringStore {
    fn entry(reference: &str) -> (r: Result<keyring_core::Entry, StoreError>)
        ensures
            r matches Err(e) ==> e is KeyringEntry,
    {
        match keyring_entry(service_name(), reference) {
            Ok(e) => Ok(e),
            Err(e) => Err(StoreError::KeyringEntry(e)),
        }
    }

    /// The value kept for `reference`, `None` if the keyring has none.
    pub fn get(reference: &str) -> (r: Result<Option<String>, StoreError>)
        ensures
            r matches Err(e) ==> e is KeyringEntry || e is Keyring,
    {
        let entry = Self::entry(reference)?;
        match keyring_get_password(&entry) {
            Ok(v) => Ok(v),
            Err(e) => Err(StoreError::Keyring(e)),
        }
    }

    /// Keeps `value` for `reference`.
    pub fn put(reference: &str, value: &str) -> (r: Result<(), StoreError>)
        ensures
            r matches Err(e) ==> e is KeyringEntry || e is KeyringStore,
    {
        let entry = Self::entry(reference)?;
        match keyring_set_password(&entry, value) {
            Ok(()) => Ok(()),
            Err(e) => Err(StoreError::KeyringStore(e)),
        }
    }

    /// Deletes the value of `reference`; `true` if there was one.
    pub fn delete(reference: &str) -> (r: Result<bool, StoreError>)
        ensures
            r matches Err(e) ==> e is KeyringEntry || e is Keyring,
    {
        let entry = Self::entry(reference)?;
        match keyring_delete_credential(&entry) {
            Ok(b) => Ok(b),
            Err(e) => Err(StoreError::Keyring(e)),
        }
    }
}

} // verus!
