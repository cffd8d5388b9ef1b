//! Cache metadata in an LMDB table.
use vstd::prelude::*;

use crate::storage::{table_clear, table_delete, table_get, table_items, table_put, Table};
use crate::store::db::{entries_view, item_entry, item_readable, readable_entries, Meta};
use crate::store::StoreError;
use crate::time::now_secs;

verus! {

/// When a secret was cached and how long it lives.
#[derive(Debug, Clone, Copy, PartialEq, Eq)]
pub struct CacheEntry {
    /// Seconds since the Unix epoch.
    pub cached_at: u64,
    /// Time to live, in seconds.
    pub ttl_seconds: u64,
}

impl CacheEntry {
    /// Whether the entry has expired at time `now`: more than its time to
    /// live has passed since it was cached.
    pub open spec fn expired_at(self, now: u64) -> bool {
        now > self.cached_at + self.ttl_seconds
    }

    /// The entry of a secret cached at time `now` that lives `ttl_seconds`.
    pub open spec fn new_at_spec(ttl_seconds: u64, now: u64) -> CacheEntry {
        CacheEntry { cached_at: now, ttl_seconds }
    }

    /// An entry cached at time `now` that lives `ttl_seconds`.
    pub fn new_at(ttl_seconds: u64, now: u64) -> (e: CacheEntry)
        ensures
            e == CacheEntry::new_at_spec(ttl_seconds, now),
    {
        CacheEntry { cached_at: now, ttl_seconds }
    }

    /// An entry cached now that lives `ttl_seconds`: that of
    /// [`CacheEntry::new_at`] at the clock's reading.
    pub fn new(ttl_seconds: u64) -> (e: CacheEntry)
        ensures
            e.ttl_seconds == ttl_seconds,
    {
        CacheEntry::new_at(ttl_seconds, now_secs())
    }

    /// Whether the entry has expired at time `now`.
    pub fn is_expired_at(&self, now: u64) -> (r: bool)
        ensures
            r == self.expired_at(now),
    {
        now > self.cached_at && now - self.cached_at > self.ttl_seconds
    }

    /// Whether the entry has expired now.
    pub fn is_expired(&self) -> (r: bool)
        ensures
            exists|now: u64| r == self.expired_at(now),
    {
        self.is_expired_at(now_secs())
    }
}

/// **Cached until the time to live runs out.** An entry cached at `t0`
/// that lives `ttl` seconds has not expired at any time from `t0` to
/// `t0 + ttl`, and has expired at every time after that.
pub proof fn lemma_entry_lives_its_ttl(ttl: u64, t0: u64, t1: u64)
    requires
        t0 <= t1,
    ensures
        CacheEntry::new_at_spec(ttl, t0).expired_at(t1) <==> t1 - t0 > ttl,
{
}

/// **Expiry is final.** An entry that has expired at some time stays expired
/// at every later time.
pub proof fn lemma_entry_expiry_is_final(e: CacheEntry, now: u64, later: u64)
    requires
        e.expired_at(now),
        now <= later,
    ensures
        e.expired_at(later),
{
}

/// Whether a read at time `now` goes on to the keyring: an entry is cached
/// and has not expired.
pub open spec fn entry_fresh(entry: Option<CacheEntry>, now: u64) -> bool {
    match entry {
        Some(e) => !e.expired_at(now),
        None => false,
    }
}

/// Whether a read at `now` of a reference with entry `entry` goes on to the
/// keyring.
pub fn is_entry_fresh(entry: &Option<CacheEntry>, now: u64) -> (r: bool)
    ensures
        r == entry_fresh(*entry, now),
{
    match entry {
        Some(e) => !e.is_expired_at(now),
        None => false,
    }
}

/// What a cache read answers, given the entry, the time of the read and what
/// was kept in the keyring (asked only when the entry is fresh): the
/// keyring's answer for a fresh entry, else nothing.
pub open spec fn cached_answer_spec(
    entry: Option<CacheEntry>,
    now: u64,
    kept: Result<Option<String>, StoreError>,
) -> Result<Option<String>, StoreError> {
    if entry_fresh(entry, now) {
        kept
    } else {
        Ok(None)
    }
}

/// What a cache read answers ([`cached_answer_spec`]).
pub fn cached_answer(
    entry: &Option<CacheEntry>,
    now: u64,
    kept: Result<Option<String>, StoreError>,
) -> (r: Result<Option<String>, StoreError>)
    ensures
        r == cached_answer_spec(*entry, now, kept),
{
    if is_entry_fresh(entry, now) {
        kept
    } else {
        Ok(None)
    }
}

/// The references of `entries` whose entry has expired at `now`, in order.
pub open spec fn expired_entry_refs(entries: Seq<(String, CacheEntry)>, now: u64) -> Seq<
    Seq<char>,
>
    decreases entries.len(),
{
    if entries.len() == 0 {
        Seq::empty()
    } else {
        let rest = expired_entry_refs(entries.drop_last(), now);
        if entries.last().1.expired_at(now) {
            rest.push(entries.last().0@)
        } else {
            rest
        }
    }
}

/// The references among `entries` whose entry has expired at `now`.
pub fn expired_entry_references(entries: &Vec<(String, CacheEntry)>, now: u64) -> (r: Vec<
    String,
>)
    ensures
        r@.map_values(|s: String| s@) == expired_entry_refs(entries@, now),
{
    let mut out: Vec<String> = Vec::new();
    let mut i: usize = 0;
    while i < entries.len()
        invariant
            i <= entries.len(),
            out@.map_values(|s: String| s@) == expired_entry_refs(entries@.take(i as int), now),
        decreases entries.len() - i,
    {
        proof {
            assert(entries@.take(i + 1).drop_last() =~= entries@.take(i as int));
            assert(entries@.take(i + 1).last() == entries@[i as int]);
        }
        if entries[i].1.is_expired_at(now) {
            let ghost before = out@;
            let name = entries[i].0.clone();
            out.push(name);
            proof {
                assert(out@ =~= before.push(name));
                assert(out@.map_values(|s: String| s@) =~= before.map_values(|s: String| s@).push(
                    name@,
                ));
            }
        }
        i = i + 1;
    }
    proof {
        assert(entries@.take(entries.len() as int) =~= entries@);
    }
    out
}

/// The entry that a table record stands for.
pub open spec fn entry_of_record(rec: Option<(u64, u64)>) -> Option<CacheEntry> {
    match rec {
        Some(x) => Some(CacheEntry::new_at_spec(x.1, x.0)),
        None => None,
    }
}

/// A cache listing as references and the metadata of their records.
pub open spec fn cache_entries_view(v: Seq<(String, CacheEntry)>) -> Seq<(Seq<char>, Meta)> {
    v.map_values(|e: (String, CacheEntry)| (e.0@, Meta::new_at_spec(e.1.ttl_seconds, e.1.cached_at)))
}

/// The cache's metadata table, in its environment.
pub struct CacheStore {
    table: Table,
}

impl CacheStore {
    /// A cache store over an opened environment and its table.
    pub fn from_parts(table: Table) -> (s: CacheStore)
        ensures
            s.held_table() == table,
    {
        CacheStore { table }
    }

    /// The table the cache store works on.
    pub closed spec fn held_table(self) -> Table {
        self.table
    }

    /// The record that the table holds for `reference`, if any, in a
    /// transaction of its own.
    pub fn record(&self, reference: &str) -> (r: Result<Option<(u64, u64)>, StoreError>)
        ensures
            r matches Err(e) ==> e is Database,
    {
        match table_get(&self.table, reference) {
            Ok(rec) => Ok(rec),
            Err(e) => Err(StoreError::Database(e)),
        }
    }

    /// Writes `record` for `reference` into the table, in a transaction of
    /// its own.
    pub fn write_record(&self, reference: &str, record: (u64, u64)) -> (r: Result<(), StoreError>)
        ensures
            r matches Err(e) ==> e is Database,
    {
        match table_put(&self.table, reference, record) {
            Ok(()) => Ok(()),
            Err((_, e)) => Err(StoreError::Database(e)),
        }
    }

    /// Every item of the table, in key order, each either a record or the
    /// error met while reading it.
    pub fn items(&self) -> (r: Result<Vec<Result<(String, (u64, u64)), heed::Error>>, StoreError>)
        ensures
            r matches Err(e) ==> e is Database,
    {
        match table_items(&self.table) {
            Ok(items) => Ok(items),
            Err(e) => Err(StoreError::Database(e)),
        }
    }

    /// The entry cached for `reference`, if any: that of the record the
    /// table answered.
    pub fn get(&self, reference: &str) -> (r: Result<Option<CacheEntry>, StoreError>)
        ensures
            r matches Err(e) ==> e is Database,
            r matches Ok(m) ==> exists|rec: Option<(u64, u64)>|
                #[trigger] call_ensures(
                    CacheStore::record,
                    (self, reference),
                    Ok::<Option<(u64, u64)>, StoreError>(rec),
                ) && m == entry_of_record(rec),
    {
        let read = CacheStore::record;
        match read(self, reference) {
            Ok(Some(rec)) => Ok(Some(CacheEntry { cached_at: rec.0, ttl_seconds: rec.1 })),
            Ok(None) => Ok(None),
            Err(e) => Err(e),
        }
    }

    /// Records `entry` for `reference`: the table is handed
    /// `(entry.cached_at, entry.ttl_seconds)`.
    pub fn put(&self, reference: &str, entry: &CacheEntry) -> (r: Result<(), StoreError>)
        ensures
            r matches Err(e) ==> e is Database,
            call_ensures(
                CacheStore::write_record,
                (self, reference, (entry.cached_at, entry.ttl_seconds)),
                r,
            ),
    {
        let write = CacheStore::write_record;
        write(self, reference, (entry.cached_at, entry.ttl_seconds))
    }

    /// Deletes the entry of `reference`; `true` if there was one.
    pub fn delete(&self, reference: &str) -> (r: Result<bool, StoreError>)
        ensures
            r matches Err(e) ==> e is Database,
    {
        match table_delete(&self.table, reference) {
            Ok(deleted) => Ok(deleted),
            Err(e) => Err(StoreError::Database(e)),
        }
    }

    /// Every cached reference with its entry, in key order; records that
    /// cannot be read are left out. A listing is exactly the readable items
    /// of the table's answer, in order.
    pub fn list(&self) -> (r: Result<Vec<(String, CacheEntry)>, StoreError>)
        ensures
            r matches Err(e) ==> e is Database,
            r matches Ok(v) ==> exists|items: Vec<Result<(String, (u64, u64)), heed::Error>>|
                #[trigger] call_ensures(
                    CacheStore::items,
                    (self,),
                    Ok::<Vec<Result<(String, (u64, u64)), heed::Error>>, StoreError>(items),
                ) && cache_entries_view(v@) == items@.filter(item_readable()).map_values(
                    item_entry(),
                ),
    {
        let read = CacheStore::items;
        let items = match read(self) {
            Ok(items) => items,
            Err(e) => return Err(e),
        };
        let ghost all = items;
        let entries = readable_entries(items);
        let ghost ev = entries_view(entries@);
        let mut out: Vec<(String, CacheEntry)> = Vec::new();
        let mut i: usize = 0;
        while i < entries.len()
            invariant
                i <= entries.len(),
                ev == entries_view(entries@),
                cache_entries_view(out@) == ev.take(i as int),
            decreases entries.len() - i,
        {
            let ghost before = out@;
            let e = (
                entries[i].0.clone(),
                CacheEntry { cached_at: entries[i].1.stored_at, ttl_seconds: entries[i].1.ttl_seconds },
            );
            out.push(e);
            proof {
                assert(out@ =~= before.push(e));
                assert(cache_entries_view(out@) =~= cache_entries_view(before).push(
                    (e.0@, Meta::new_at_spec(e.1.ttl_seconds, e.1.cached_at)),
                ));
                assert(ev.take(i + 1) =~= ev.take(i as int).push(ev[i as int]));
                assert(ev[i as int] == (entries@[i as int].0@, entries@[i as int].1));
            }
            i = i + 1;
        }
        proof {
            assert(ev.take(entries.len() as int) =~= ev);
            assert(call_ensures(
                CacheStore::items,
                (self,),
                Ok::<Vec<Result<(String, (u64, u64)), heed::Error>>, StoreError>(all),
            ));
        }
        Ok(out)
    }

    /// Deletes every entry.
    pub fn clear(&self) -> (r: Result<(), StoreError>)
        ensures
            r matches Err(e) ==> e is Database,
    {
        match table_clear(&self.table) {
            Ok(()) => Ok(()),
            Err(e) => Err(StoreError::Database(e)),
        }
    }
}

} // verus!
