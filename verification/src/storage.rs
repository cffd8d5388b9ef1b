//! The outside services that hold the store: an LMDB database (through
//! `heed`) for each reference's metadata, and the operating system's keyring
//! (through `keyring_core`) for the secret values.
//!
//! Both live outside this process: other processes, and the user, change
//! them at any time. So nothing is stated of what a read returns; each item
//! below only passes its arguments and its answer through. Each table
//! operation runs in a transaction of its own, opened on the environment
//! that the table was created in.
use vstd::prelude::*;

verus! {

#[verifier::external_type_specification]
#[verifier::external_body]
#[verifier::reject_recursive_types(T)]
pub struct ExEnv<T>(heed::Env<T>);

#[verifier::external_type_specification]
#[verifier::external_body]
pub struct ExWithTls(heed::WithTls);

#[verifier::external_type_specification]
#[verifier::external_body]
#[verifier::reject_recursive_types(KC)]
#[verifier::reject_recursive_types(DC)]
#[verifier::reject_recursive_types(C)]
#[verifier::reject_recursive_types(CDUP)]
pub struct ExDatabase<KC, DC, C, CDUP>(heed::Database<KC, DC, C, CDUP>);

#[verifier::external_type_specification]
#[verifier::external_body]
pub struct ExStr(heed::types::Str);

#[verifier::external_type_specification]
#[verifier::external_body]
#[verifier::reject_recursive_types(T)]
pub struct ExSerdeBincode<T>(heed::types::SerdeBincode<T>);

#[verifier::external_type_specification]
#[verifier::external_body]
pub struct ExDefaultComparator(heed::DefaultComparator);

#[verifier::external_type_specification]
#[verifier::external_body]
pub struct ExHeedError(heed::Error);

#[verifier::external_type_specification]
#[verifier::external_body]
pub struct ExEntry(keyring_core::Entry);

#[verifier::external_type_specification]
#[verifier::external_body]
pub struct ExKeyringError(keyring_core::Error);

/// `linux_keyutils_keyring_store::Store::new_with_configuration` with no
/// configuration, handed to `keyring_core::set_default_store`: keyring
/// entries made from now on live in the kernel's keyutils. (The store value
/// never leaves this item: its type shares its name with this crate's own
/// `Store`, so it cannot be declared to the verifier.)
#[verifier::external_body]
pub(crate) fn install_keyutils_store() -> (r: Result<(), keyring_core::Error>) {
    let store = linux_keyutils_keyring_store::Store::new_with_configuration(
        &std::collections::HashMap::new(),
    )?;
    keyring_core::set_default_store(store);
    Ok(())
}

/// A metadata table: keys are references, values are the two numbers of a
/// record (when it was stored, and for how many seconds it lives), encoded
/// with bincode.
pub type MetaTable = heed::Database<heed::types::Str, heed::types::SerdeBincode<(u64, u64)>>;

/// An LMDB environment together with the metadata table created in it.
/// Only [`Table::create`] makes one, so every transaction that the items
/// below open on a table's environment belongs to that table (heed panics on
/// a table used with another environment's transaction).
pub struct Table {
    env: heed::Env<heed::WithTls>,
    table: MetaTable,
}

/// The step of a write at which heed failed.
#[derive(Debug, Clone, Copy, PartialEq, Eq)]
pub enum WriteStep {
    /// Opening the write transaction.
    Begin,
    /// The change itself.
    Change,
    /// Committing the transaction.
    Commit,
}

/// `Env::write_txn`, `Env::create_database` (the unnamed database) and
/// `RwTxn::commit`: the environment with its metadata table.
#[verifier::external_body]
fn create_table(env: heed::Env<heed::WithTls>) -> (r: Result<Table, heed::Error>) {
    let mut wtxn = env.write_txn()?;
    let table: MetaTable = env.create_database(&mut wtxn, None)?;
    wtxn.commit()?;
    Ok(Table { env, table })
}

impl Table {
    /// The environment `env` with its metadata table, created if missing.
    pub fn create(env: heed::Env<heed::WithTls>) -> (r: Result<Table, heed::Error>) {
        create_table(env)
    }
}

/// `Env::read_txn` and `Database::get`: the record stored for `key`, if
/// any.
#[verifier::external_body]
pub(crate) fn table_get(t: &Table, key: &str) -> (r: Result<Option<(u64, u64)>, heed::Error>) {
    let rtxn = t.env.read_txn()?;
    t.table.get(&rtxn, key)
}

/// `Env::write_txn`, `Database::put` and `RwTxn::commit`: stores `record`
/// for `key`; a failure names the step that failed.
#[verifier::external_body]
pub(crate) fn table_put(t: &Table, key: &str, record: (u64, u64)) -> (r: Result<
    (),
    (WriteStep, heed::Error),
>) {
    let mut wtxn = t.env.write_txn().map_err(|e| (WriteStep::Begin, e))?;
    t.table.put(&mut wtxn, key, &record).map_err(|e| (WriteStep::Change, e))?;
    wtxn.commit().map_err(|e| (WriteStep::Commit, e))
}

/// `Env::write_txn`, `Database::delete` and `RwTxn::commit`: whether a
/// record for `key` was there to delete.
#[verifier::external_body]
pub(crate) fn table_delete(t: &Table, key: &str) -> (r: Result<bool, heed::Error>) {
    let mut wtxn = t.env.write_txn()?;
    let deleted = t.table.delete(&mut wtxn, key)?;
    wtxn.commit()?;
    Ok(deleted)
}

/// `Env::write_txn`, `Database::clear` and `RwTxn::commit`: deletes every
/// record.
#[verifier::external_body]
pub(crate) fn table_clear(t: &Table) -> (r: Result<(), heed::Error>) {
    let mut wtxn = t.env.write_txn()?;
    t.table.clear(&mut wtxn)?;
    wtxn.commit()
}

/// `Env::read_txn` and `Database::iter`: every item of the table, in key
/// order, each either a record or the error met while reading it.
#[verifier::external_body]
pub(crate) fn table_items(t: &Table) -> (r: Result<
    Vec<Result<(String, (u64, u64)), heed::Error>>,
    heed::Error,
>) {
    let rtxn = t.env.read_txn()?;
    let items = t.table.iter(&rtxn)?.map(|item| item.map(|(k, v)| (k.to_string(), v))).collect();
    Ok(items)
}

/// `keyring_core::Entry::new`: the keyring entry for `service` and `user`.
#[verifier::external_body]
pub(crate) fn keyring_entry(service: &str, user: &str) -> (r: Result<
    keyring_core::Entry,
    keyring_core::Error,
>) {
    keyring_core::Entry::new(service, user)
}

/// `Entry::get_password`: the password, `None` where the keyring answers
/// `NoEntry`.
#[verifier::external_body]
pub(crate) fn keyring_get_password(entry: &keyring_core::Entry) -> (r: Result<
    Option<String>,
    keyring_core::Error,
>) {
    match entry.get_password() {
        Ok(value) => Ok(Some(value)),
        Err(keyring_core::Error::NoEntry) => Ok(None),
        Err(e) => Err(e),
    }
}

/// `Entry::set_password`: stores the password.
#[verifier::external_body]
pub(crate) fn keyring_set_password(entry: &keyring_core::Entry, value: &str) -> (r: Result<
    (),
    keyring_core::Error,
>) {
    entry.set_password(value)
}

/// `Entry::delete_credential`: `true` if a credential was deleted, `false`
/// where the keyring answers `NoEntry`.
#[verifier::external_body]
pub(crate) fn keyring_delete_credential(entry: &keyring_core::Entry) -> (r: Result<
    bool,
    keyring_core::Error,
>) {
    match entry.delete_credential() {
        Ok(()) => Ok(true),
        Err(keyring_core::Error::NoEntry) => Ok(false),
        Err(e) => Err(e),
    }
}

} // verus!
