//! The store: per-reference metadata in an LMDB table, secret values in the
//! operating system's keyring.
use vstd::prelude::*;

use crate::storage::{
    keyring_delete_credential, keyring_entry, keyring_get_password, keyring_set_password,
    table_clear, table_delete, table_get, table_items, table_put, Table, WriteStep,
};
use crate::time::now_secs;

verus! {

/// The keyring service under which secret values are stored.
pub fn service_name() -> (r: &'static str)
    ensures
        r@ == "op-fast"@,
{
    "op-fast"
}

/// When a secret was stored and how long it lives.
#[derive(Debug, Clone, Copy, PartialEq, Eq)]
pub struct Meta {
    /// Seconds since the Unix epoch.
    pub stored_at: u64,
    /// Time to live, in seconds.
    pub ttl_seconds: u64,
}

impl Meta {
    /// Whether the secret has expired at time `now`: more than its time to
    /// live has passed since it was stored.
    pub open spec fn expired_at(self, now: u64) -> bool {
        now > self.stored_at + self.ttl_seconds
    }

    /// The metadata of a secret stored at time `now` that lives
    /// `ttl_seconds`.
    pub open spec fn new_at_spec(ttl_seconds: u64, now: u64) -> Meta {
        Meta { stored_at: now, ttl_seconds }
    }

    /// Metadata for a secret stored at time `now` that lives `ttl_seconds`.
    pub fn new_at(ttl_seconds: u64, now: u64) -> (m: Meta)
        ensures
            m == Meta::new_at_spec(ttl_seconds, now),
    {
        Meta { stored_at: now, ttl_seconds }
    }

    /// Metadata for a secret stored now that lives `ttl_seconds`: that of
    /// [`Meta::new_at`] at the clock's reading.
    pub fn new(ttl_seconds: u64) -> (m: Meta)
        ensures
            m.ttl_seconds == ttl_seconds,
    {
        Meta::new_at(ttl_seconds, now_secs())
    }

    /// Whether the secret has expired at time `now`.
    pub fn is_expired_at(&self, now: u64) -> (r: bool)
        ensures
            r == self.expired_at(now),
    {
        now > self.stored_at && now - self.stored_at > self.ttl_seconds
    }

    /// Whether the secret has expired now.
    pub fn is_expired(&self) -> (r: bool)
        ensures
            exists|now: u64| r == self.expired_at(now),
    {
        self.is_expired_at(now_secs())
    }

    /// The metadata that a table record holds.
    pub fn from_record(record: (u64, u64)) -> (m: Meta)
        ensures
            m.stored_at == record.0 && m.ttl_seconds == record.1,
    {
        Meta { stored_at: record.0, ttl_seconds: record.1 }
    }

    /// The table record that holds this metadata.
    pub fn to_record(&self) -> (r: (u64, u64))
        ensures
            r == (self.stored_at, self.ttl_seconds),
    {
        (self.stored_at, self.ttl_seconds)
    }
}

/// **Stored until the time to live runs out.** Metadata of a secret stored
/// at `t0` that lives `ttl` seconds has not expired at any time from `t0` to
/// `t0 + ttl`, and has expired at every time after that.
pub proof fn lemma_meta_lives_its_ttl(ttl: u64, t0: u64, t1: u64)
    requires
        t0 <= t1,
    ensures
        Meta::new_at_spec(ttl, t0).expired_at(t1) <==> t1 - t0 > ttl,
{
}

/// **Expiry is final.** Metadata that has expired at some time stays
/// expired at every later time.
pub proof fn lemma_meta_expiry_is_final(m: Meta, now: u64, later: u64)
    requires
        m.expired_at(now),
        now <= later,
    ensures
        m.expired_at(later),
{
}

/// Why the store failed.
#[derive(Debug)]
pub enum StoreError {
    /// The metadata table failed.
    Database(heed::Error),
    /// No keyring entry could be made for the reference.
    KeyringEntry(keyring_core::Error),
    /// The keyring refused to store the value.
    KeyringStore(keyring_core::Error),
    /// The keyring failed otherwise.
    Keyring(keyring_core::Error),
    /// The keyring's credential store could not be set up.
    KeyringInit(keyring_core::Error),
}

/// The references whose metadata has expired at time `now`, in order.
pub open spec fn expired_refs(entries: Seq<(Seq<char>, Meta)>, now: u64) -> Seq<Seq<char>> {
    entries.filter(expired_pred(now)).map_values(entry_name())
}

pub open spec fn expired_pred(now: u64) -> spec_fn((Seq<char>, Meta)) -> bool {
    |e: (Seq<char>, Meta)| e.1.expired_at(now)
}

pub open spec fn entry_name() -> spec_fn((Seq<char>, Meta)) -> Seq<char> {
    |e: (Seq<char>, Meta)| e.0
}

pub open spec fn item_readable() -> spec_fn(Result<(String, (u64, u64)), heed::Error>) -> bool {
    |it: Result<(String, (u64, u64)), heed::Error>| it is Ok
}

pub open spec fn item_entry() -> spec_fn(Result<(String, (u64, u64)), heed::Error>) -> (
    Seq<char>,
    Meta,
) {
    |it: Result<(String, (u64, u64)), heed::Error>|
        (it->Ok_0.0@, Meta { stored_at: it->Ok_0.1.0, ttl_seconds: it->Ok_0.1.1 })
}

pub open spec fn entries_view(entries: Seq<(String, Meta)>) -> Seq<(Seq<char>, Meta)> {
    entries.map_values(|e: (String, Meta)| (e.0@, e.1))
}

/// The references among `entries` whose metadata has expired at `now`.
pub fn expired_references(entries: &Vec<(String, Meta)>, now: u64) -> (r: Vec<String>)
    ensures
        r@.map_values(|s: String| s@) == expired_refs(entries_view(entries@), now),
{
    let ghost ev = entries_view(entries@);
    let mut out: Vec<String> = Vec::new();
    let mut i: usize = 0;
    while i < entries.len()
        invariant
            i <= entries.len(),
            ev == entries_view(entries@),
            out@.map_values(|s: String| s@) == expired_refs(ev.take(i as int), now),
        decreases entries.len() - i,
    {
        proof {
            assert(ev.take(i + 1) =~= ev.take(i as int).push(ev[i as int]));
            ev.take(i as int).lemma_filter_push(ev[i as int], expired_pred(now));
            assert(ev[i as int] == (entries@[i as int].0@, entries@[i as int].1));
        }
        if entries[i].1.is_expired_at(now) {
            let ghost before = out@;
            let name = entries[i].0.clone();
            out.push(name);
            proof {
                assert(expired_pred(now)(ev[i as int]));
                assert(ev.take(i + 1).filter(expired_pred(now)) == ev.take(i as int).filter(
                    expired_pred(now),
                ).push(ev[i as int]));
                assert(out@ =~= before.push(name));
                assert(out@.map_values(|s: String| s@) =~= before.map_values(|s: String| s@).push(
                    name@,
                ));
                assert(out@.map_values(|s: String| s@) =~= expired_refs(ev.take(i + 1), now));
            }
        } else {
            proof {
                assert(!expired_pred(now)(ev[i as int]));
                assert(ev.take(i + 1).filter(expired_pred(now)) == ev.take(i as int).filter(
                    expired_pred(now),
                ));
                assert(out@.map_values(|s: String| s@) =~= expired_refs(ev.take(i + 1), now));
            }
        }
        i = i + 1;
    }
    proof {
        assert(ev.take(entries.len() as int) =~= ev);
    }
    out
}

/// The readable items of a table listing, as references and metadata, in
/// order; items that could not be read are left out.
pub fn readable_entries(items: Vec<Result<(String, (u64, u64)), heed::Error>>) -> (r: Vec<
    (String, Meta),
>)
    ensures
        entries_view(r@) == items@.filter(item_readable()).map_values(item_entry()),
{
    let ghost iv = items@;
    let ghost keep = item_readable();
    let ghost f = item_entry();
    let mut out: Vec<(String, Meta)> = Vec::new();
    let mut i: usize = 0;
    while i < items.len()
        invariant
            i <= items.len(),
            iv == items@,
            keep == item_readable(),
            f == item_entry(),
            entries_view(out@) == iv.take(i as int).filter(keep).map_values(f),
        decreases items.len() - i,
    {
        proof {
            assert(iv.take(i + 1) =~= iv.take(i as int).push(iv[i as int]));
            iv.take(i as int).lemma_filter_push(iv[i as int], keep);
        }
        match &items[i] {
            Ok((k, rec)) => {
                let ghost before = out@;
                let e = (k.clone(), Meta::from_record(*rec));
                out.push(e);
                proof {
                    assert(keep(iv[i as int]));
                    assert(iv.take(i + 1).filter(keep) == iv.take(i as int).filter(keep).push(
                        iv[i as int],
                    ));
                    assert(out@ =~= before.push(e));
                    assert(entries_view(out@) =~= entries_view(before).push(f(iv[i as int])));
                    assert(entries_view(out@) =~= iv.take(i + 1).filter(keep).map_values(f));
                }
            },
            Err(_) => {
                proof {
                    assert(!keep(iv[i as int]));
                    assert(iv.take(i + 1).filter(keep) == iv.take(i as int).filter(keep));
                    assert(entries_view(out@) =~= iv.take(i + 1).filter(keep).map_values(f));
                }
            },
        }
        i = i + 1;
    }
    proof {
        assert(iv.take(items.len() as int) =~= iv);
    }
    out
}

/// Whether a read at time `now` goes on to the keyring: metadata is stored
/// and has not expired.
pub open spec fn fresh(meta: Option<Meta>, now: u64) -> bool {
    match meta {
        Some(m) => !m.expired_at(now),
        None => false,
    }
}

/// Whether a read at `now` of an entry with metadata `meta` goes on to the
/// keyring.
pub fn is_fresh(meta: &Option<Meta>, now: u64) -> (r: bool)
    ensures
        r == fresh(*meta, now),
{
    match meta {
        Some(m) => !m.is_expired_at(now),
        None => false,
    }
}

/// What a read answers, given the stored metadata, the time of the read and
/// what was kept in the keyring (asked only when the metadata is [`fresh`]):
/// the keyring's answer for fresh metadata, else nothing.
pub open spec fn stored_answer_spec(
    meta: Option<Meta>,
    now: u64,
    kept: Result<Option<String>, StoreError>,
) -> Result<Option<String>, StoreError> {
    if fresh(meta, now) {
        kept
    } else {
        Ok(None)
    }
}

/// What a read answers ([`stored_answer_spec`]).
pub fn stored_answer(
    meta: &Option<Meta>,
    now: u64,
    kept: Result<Option<String>, StoreError>,
) -> (r: Result<Option<String>, StoreError>)
    ensures
        r == stored_answer_spec(*meta, now, kept),
{
    if is_fresh(meta, now) {
        kept
    } else {
        Ok(None)
    }
}

/// Whether a failed write of a record takes the value back out of the
/// keyring: exactly when the change itself failed (not the opening or the
/// commit of the transaction).
pub fn rollback_needed(step: WriteStep) -> (b: bool)
    ensures
        b == (step == WriteStep::Change),
{
    match step {
        WriteStep::Change => true,
        _ => false,
    }
}

/// Whether a deletion deleted anything: a keyring value or a record.
pub fn deleted_any(in_keyring: bool, in_table: bool) -> (b: bool)
    ensures
        b == (in_keyring || in_table),
{
    in_keyring || in_table
}

/// The metadata that a table record stands for.
pub open spec fn meta_of_record(rec: Option<(u64, u64)>) -> Option<Meta> {
    match rec {
        Some(x) => Some(Meta::new_at_spec(x.1, x.0)),
        None => None,
    }
}

/// Whether the keyring was asked to delete the value of a reference named
/// `name` (its answer is not needed).
pub open spec fn keyring_asked(name: Seq<char>) -> bool {
    exists|s: &str, d: Result<bool, StoreError>|
        s@ == name && #[trigger] call_ensures(Db::keyring_delete, (s,), d)
}

/// Whether `db` deleted a reference named `name`: a call of [`Db::delete`]
/// on it succeeded.
pub open spec fn deleted_by(db: &Db, name: Seq<char>) -> bool {
    exists|s: &str, b: bool|
        s@ == name && #[trigger] call_ensures(Db::delete, (db, s), Ok::<bool, StoreError>(b))
}

/// The store's metadata table, in its environment.
pub struct Db {
    table: Table,
}

impl Db {
    /// A store over a metadata table.
    pub fn from_parts(table: Table) -> (db: Db)
        ensures
            db.held_table() == table,
    {
        Db { table }
    }

    /// The metadata table the store works on.
    pub closed spec fn held_table(self) -> Table {
        self.table
    }

    pub fn keyring_entry(reference: &str) -> (r: Result<keyring_core::Entry, StoreError>)
        ensures
            r matches Err(e) ==> e is KeyringEntry,
    {
        match keyring_entry(service_name(), reference) {
            Ok(e) => Ok(e),
            Err(e) => Err(StoreError::KeyringEntry(e)),
        }
    }

    pub fn keyring_get(reference: &str) -> (r: Result<Option<String>, StoreError>)
        ensures
            r matches Err(e) ==> e is KeyringEntry || e is Keyring,
    {
        let entry = Self::keyring_entry(reference)?;
        match keyring_get_password(&entry) {
            Ok(v) => Ok(v),
            Err(e) => Err(StoreError::Keyring(e)),
        }
    }

    pub fn keyring_put(reference: &str, value: &str) -> (r: Result<(), StoreError>)
        ensures
            r matches Err(e) ==> e is KeyringEntry || e is KeyringStore,
    {
        let entry = Self::keyring_entry(reference)?;
        match keyring_set_password(&entry, value) {
            Ok(()) => Ok(()),
            Err(e) => Err(StoreError::KeyringStore(e)),
        }
    }

    pub fn keyring_delete(reference: &str) -> (r: Result<bool, StoreError>)
        ensures
            r matches Err(e) ==> e is KeyringEntry || e is Keyring,
    {
        let entry = Self::keyring_entry(reference)?;
        match keyring_delete_credential(&entry) {
            Ok(b) => Ok(b),
            Err(e) => Err(StoreError::Keyring(e)),
        }
    }

    /// The metadata stored for `reference`, if any.
    ///
    /// It is the metadata of the record that the table answered for
    /// `reference`, if any.
    pub fn meta(&self, reference: &str) -> (r: Result<Option<Meta>, StoreError>)
        ensures
            r matches Err(e) ==> e is Database,
            r matches Ok(m) ==> exists|rec: Option<(u64, u64)>|
                #[trigger] call_ensures(
                    Db::record,
                    (self, reference),
                    Ok::<Option<(u64, u64)>, StoreError>(rec),
                ) && m == meta_of_record(rec),
    {
        let read = Db::record;
        match read(self, reference) {
            Ok(Some(rec)) => Ok(Some(Meta::from_record(rec))),
            Ok(None) => Ok(None),
            Err(e) => Err(e),
        }
    }

    /// The record that the metadata table holds for `reference`, if any, in
    /// a transaction of its own.
    pub fn record(&self, reference: &str) -> (r: Result<Option<(u64, u64)>, StoreError>)
        ensures
            r matches Err(e) ==> e is Database,
    {
        match table_get(&self.table, reference) {
            Ok(rec) => Ok(rec),
            Err(e) => Err(StoreError::Database(e)),
        }
    }

    /// Deletes the record of `reference` from the metadata table, in a
    /// transaction of its own; whether there was one.
    pub fn erase_record(&self, reference: &str) -> (r: Result<bool, StoreError>)
        ensures
            r matches Err(e) ==> e is Database,
    {
        match table_delete(&self.table, reference) {
            Ok(b) => Ok(b),
            Err(e) => Err(StoreError::Database(e)),
        }
    }

    /// Deletes every record of the metadata table, in a transaction of its
    /// own.
    pub fn erase_all(&self) -> (r: Result<(), StoreError>)
        ensures
            r matches Err(e) ==> e is Database,
    {
        match table_clear(&self.table) {
            Ok(()) => Ok(()),
            Err(e) => Err(StoreError::Database(e)),
        }
    }

    /// The stored value of `reference` at the clock's time: `None` when the
    /// metadata read is not [`fresh`] (none stored, or expired), else the
    /// keyring's answer (`None` where it holds no value).
    pub fn get(&self, reference: &str) -> (r: Result<Option<String>, StoreError>)
        ensures
            r matches Err(e) ==> e is Database || e is KeyringEntry || e is Keyring,
            r matches Ok(v) ==> exists|meta: Option<Meta>, now: u64|
                #![trigger call_ensures(Db::meta, (self, reference), Ok::<Option<Meta>, StoreError>(meta)), call_ensures(now_secs, (), now)]
                call_ensures(Db::meta, (self, reference), Ok::<Option<Meta>, StoreError>(meta))
                && call_ensures(now_secs, (), now) && if fresh(meta, now) {
                    call_ensures(Db::keyring_get, (reference,), Ok::<Option<String>, StoreError>(v))
                } else {
                    v is None
                },
    {
        let read_meta = Db::meta;
        let clock = now_secs;
        let meta = read_meta(self, reference)?;
        let now = clock();
        let kept = if is_fresh(&meta, now) {
            let ask = Db::keyring_get;
            ask(reference)
        } else {
            Ok(None)
        };
        stored_answer(&meta, now, kept)
    }

    /// Stores `value` for `reference`, living `ttl_seconds` from now: the
    /// metadata stored at the clock's time with that time to live goes
    /// through [`Db::put_record`].
    pub fn put(&self, reference: &str, value: &str, ttl_seconds: u64) -> (r: Result<(), StoreError>)
        ensures
            r matches Err(e) ==> e is KeyringEntry || e is KeyringStore || e is Database,
            exists|now: u64|
                #![trigger call_ensures(now_secs, (), now)]
                call_ensures(now_secs, (), now) && call_ensures(
                    Db::put_record,
                    (self, reference, value, &Meta::new_at_spec(ttl_seconds, now)),
                    r,
                ),
    {
        let clock = now_secs;
        let now = clock();
        let meta = Meta::new_at(ttl_seconds, now);
        let write = Db::put_record;
        write(self, reference, value, &meta)
    }

    /// Writes `record` for `reference` into the metadata table, in a
    /// transaction of its own; a failure names the step that failed.
    pub fn write_record(&self, reference: &str, record: (u64, u64)) -> (r: Result<
        (),
        (WriteStep, heed::Error),
    >) {
        table_put(&self.table, reference, record)
    }

    /// Stores `value` for `reference` with metadata `meta`: first the value
    /// in the keyring (only there: the table takes the two numbers of
    /// [`Meta::to_record`] alone), then the record. Where the change of the
    /// record fails, the keyring value is removed again ([`rollback_needed`]).
    ///
    /// So: success means the keyring took `value` and the table took
    /// `(meta.stored_at, meta.ttl_seconds)` for `reference`; a failure is the
    /// keyring's, or the table's, after which the keyring value is deleted
    /// again exactly where the change itself failed.
    pub fn put_record(&self, reference: &str, value: &str, meta: &Meta) -> (r: Result<
        (),
        StoreError,
    >)
        ensures
            r matches Err(e) ==> e is KeyringEntry || e is KeyringStore || e is Database,
            r is Ok ==> call_ensures(Db::keyring_put, (reference, value), Ok::<(), StoreError>(()))
                && call_ensures(
                Db::write_record,
                (self, reference, (meta.stored_at, meta.ttl_seconds)),
                Ok::<(), (WriteStep, heed::Error)>(()),
            ),
            r is Err ==> call_ensures(Db::keyring_put, (reference, value), r) || (call_ensures(
                Db::keyring_put,
                (reference, value),
                Ok::<(), StoreError>(()),
            ) && exists|step: WriteStep, e: heed::Error|
                #![trigger call_ensures(Db::write_record, (self, reference, (meta.stored_at, meta.ttl_seconds)), Err::<(), (WriteStep, heed::Error)>((step, e)))]
                call_ensures(
                    Db::write_record,
                    (self, reference, (meta.stored_at, meta.ttl_seconds)),
                    Err::<(), (WriteStep, heed::Error)>((step, e)),
                ) && r == Err::<(), StoreError>(StoreError::Database(e)) && (step == WriteStep::Change
                    ==> exists|d: Result<bool, StoreError>| #[trigger] call_ensures(Db::keyring_delete, (reference,), d))),
    {
        let keep = Db::keyring_put;
        let kept = keep(reference, value);
        match kept {
            Ok(()) => {},
            Err(e) => return Err(e),
        }
        let write = Db::write_record;
        let record = meta.to_record();
        let written = write(self, reference, record);
        proof {
            assert(record == (meta.stored_at, meta.ttl_seconds));
        }
        match written {
            Ok(()) => {
                proof {
                    assert(kept is Ok);
                    assert(kept->Ok_0 == ());
                    assert(kept == Ok::<(), StoreError>(()));
                    assert(written is Ok);
                    assert(written->Ok_0 == ());
                    assert(written == Ok::<(), (WriteStep, heed::Error)>(()));
                }
                Ok(())
            },
            Err((step, e)) => {
                if rollback_needed(step) {
                    let drop = Db::keyring_delete;
                    let _ = drop(reference);
                }
                Err(StoreError::Database(e))
            },
        }
    }

    /// Deletes the value and the metadata of `reference`; `true` if either
    /// was there.
    ///
    /// On success the keyring value and the record of `reference` were both
    /// deleted, and the answer says whether either was there.
    pub fn delete(&self, reference: &str) -> (r: Result<bool, StoreError>)
        ensures
            r matches Err(e) ==> e is KeyringEntry || e is Keyring || e is Database,
            r matches Ok(b) ==> exists|in_keyring: bool, in_table: bool|
                #![trigger call_ensures(Db::keyring_delete, (reference,), Ok::<bool, StoreError>(in_keyring)), call_ensures(Db::erase_record, (self, reference), Ok::<bool, StoreError>(in_table))]
                call_ensures(Db::keyring_delete, (reference,), Ok::<bool, StoreError>(in_keyring))
                    && call_ensures(Db::erase_record, (self, reference), Ok::<bool, StoreError>(in_table))
                    && b == (in_keyring || in_table),
    {
        let drop_value = Db::keyring_delete;
        let drop_record = Db::erase_record;
        let deleted_keyring = drop_value(reference)?;
        let deleted_meta = drop_record(self, reference)?;
        Ok(deleted_any(deleted_keyring, deleted_meta))
    }

    /// Every item of the metadata table, in key order, each either a record
    /// or the error met while reading it.
    pub fn items(&self) -> (r: Result<Vec<Result<(String, (u64, u64)), heed::Error>>, StoreError>)
        ensures
            r matches Err(e) ==> e is Database,
    {
        match table_items(&self.table) {
            Ok(items) => Ok(items),
            Err(e) => Err(StoreError::Database(e)),
        }
    }

    /// Every reference with its metadata, in key order; records that cannot
    /// be read are left out. A listing is exactly the readable items of the
    /// table's answer, in order.
    pub fn list(&self) -> (r: Result<Vec<(String, Meta)>, StoreError>)
        ensures
            r matches Err(e) ==> e is Database,
            r matches Ok(v) ==> exists|items: Vec<Result<(String, (u64, u64)), heed::Error>>|
                #[trigger] call_ensures(
                    Db::items,
                    (self,),
                    Ok::<Vec<Result<(String, (u64, u64)), heed::Error>>, StoreError>(items),
                ) && entries_view(v@) == items@.filter(item_readable()).map_values(item_entry()),
    {
        let read = Db::items;
        match read(self) {
            Ok(items) => {
                let ghost all = items;
                let entries = readable_entries(items);
                proof {
                    assert(call_ensures(
                        Db::items,
                        (self,),
                        Ok::<Vec<Result<(String, (u64, u64)), heed::Error>>, StoreError>(all),
                    ));
                }
                Ok(entries)
            },
            Err(e) => Err(e),
        }
    }

    /// Deletes the keyring value of every listed reference (ignoring
    /// keyring failures), then all metadata.
    ///
    /// On success: the keyring value of every reference of the listing was
    /// asked to go, and the table was emptied.
    pub fn clear(&self) -> (r: Result<(), StoreError>)
        ensures
            r matches Err(e) ==> e is Database,
            r is Ok ==> call_ensures(Db::erase_all, (self,), Ok::<(), StoreError>(())) && exists|
                entries: Vec<(String, Meta)>,
            |
                #[trigger] call_ensures(Db::list, (self,), Ok::<Vec<(String, Meta)>, StoreError>(entries))
                    && forall|i: int|
                    0 <= i < entries.len() ==> #[trigger] keyring_asked(entries@[i].0@),
    {
        let listing = Db::list;
        let entries = listing(self)?;
        let mut i: usize = 0;
        while i < entries.len()
            invariant
                i <= entries.len(),
                forall|j: int| 0 <= j < i ==> #[trigger] keyring_asked(entries@[j].0@),
            decreases entries.len() - i,
        {
            let name = entries[i].0.as_str();
            let drop_value = Db::keyring_delete;
            let answer = drop_value(name);
            proof {
                assert(call_ensures(Db::keyring_delete, (name,), answer));
                assert(keyring_asked(entries@[i as int].0@));
            }
            i = i + 1;
        }
        let erase = Db::erase_all;
        let erased = erase(self);
        match erased {
            Ok(()) => {
                proof {
                    assert(erased is Ok);
                    assert(erased->Ok_0 == ());
                    assert(erased == Ok::<(), StoreError>(()));
                }
                Ok(())
            },
            Err(e) => Err(e),
        }
    }

    /// Deletes every entry of the listing whose metadata has expired now
    /// ([`Db::collect`] of [`Db::list`] at the clock's time); the number of
    /// entries deleted.
    ///
    /// So on success: the listing was answered by [`Db::list`] and the time
    /// by the clock, and every reference expired at that time (and none
    /// other) was deleted; the count is their number.
    pub fn gc(&self) -> (r: Result<usize, StoreError>)
        ensures
            r matches Err(e) ==> e is Database || e is KeyringEntry || e is Keyring,
            r matches Ok(n) ==> exists|entries: Vec<(String, Meta)>, now: u64|
                #![trigger call_ensures(Db::list, (self,), Ok::<Vec<(String, Meta)>, StoreError>(entries)), call_ensures(now_secs, (), now)]
                call_ensures(Db::list, (self,), Ok::<Vec<(String, Meta)>, StoreError>(entries))
                    && call_ensures(now_secs, (), now) && n == expired_refs(
                    entries_view(entries@),
                    now,
                ).len() && forall|i: int|
                    0 <= i < expired_refs(entries_view(entries@), now).len() ==> #[trigger] deleted_by(
                        self,
                        expired_refs(entries_view(entries@), now)[i],
                    ),
    {
        let listing = Db::list;
        let clock = now_secs;
        let entries = listing(self)?;
        let now = clock();
        let deleted = self.collect(&entries, now)?;
        proof {
            let x = expired_refs(entries_view(entries@), now);
            assert(deleted@.map_values(|s: String| s@) == x);
            assert(deleted@.map_values(|s: String| s@).len() == deleted@.len());
            assert forall|i: int| 0 <= i < x.len() implies #[trigger] deleted_by(self, x[i]) by {
                assert(deleted@.map_values(|s: String| s@)[i] == deleted@[i]@);
            }
        }
        Ok(deleted.len())
    }

    /// Deletes, in order, each reference of `entries` whose metadata has
    /// expired at `now`, and answers those references: exactly
    /// [`expired_references`] of the listing, so every other entry is left
    /// alone. The first failing deletion ends the collection.
    pub fn collect(&self, entries: &Vec<(String, Meta)>, now: u64) -> (r: Result<
        Vec<String>,
        StoreError,
    >)
        ensures
            r matches Ok(v) ==> v@.map_values(|s: String| s@) == expired_refs(
                entries_view(entries@),
                now,
            ) && forall|i: int| 0 <= i < v.len() ==> #[trigger] deleted_by(self, v@[i]@),
            expired_refs(entries_view(entries@), now).len() == 0 ==> r is Ok,
            r matches Err(e) ==> e is Database || e is KeyringEntry || e is Keyring,
    {
        let expired = expired_references(entries, now);
        proof {
            assert(expired@.map_values(|s: String| s@).len() == expired@.len());
        }
        self.delete_each(&expired)?;
        Ok(expired)
    }

    /// Deletes each of `references` ([`Db::delete`]), in order; the first
    /// failure ends it.
    pub fn delete_each(&self, references: &Vec<String>) -> (r: Result<(), StoreError>)
        ensures
            references.len() == 0 ==> r is Ok,
            r is Ok ==> forall|i: int|
                0 <= i < references.len() ==> #[trigger] deleted_by(self, references@[i]@),
            r matches Err(e) ==> e is Database || e is KeyringEntry || e is Keyring,
    {
        let mut i: usize = 0;
        while i < references.len()
            invariant
                i <= references.len(),
                forall|j: int| 0 <= j < i ==> #[trigger] deleted_by(self, references@[j]@),
            decreases references.len() - i,
        {
            let name = references[i].as_str();
            let del = Db::delete;
            let answer = del(self, name);
            match answer {
                Ok(b) => {
                    proof {
                        assert(call_ensures(Db::delete, (self, name), Ok::<bool, StoreError>(b)));
                        assert(deleted_by(self, references@[i as int]@));
                    }
                },
                Err(e) => return Err(e),
            }
            i = i + 1;
        }
        Ok(())
    }
}

} // verus!
