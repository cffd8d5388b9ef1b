//! The cache: entries in a [`CacheStore`], secret values in the keyring
//! ([`KeyringStore`]), lifetimes from the configuration.
use vstd::prelude::*;

pub mod keyring;
pub mod store;

pub use keyring::KeyringStore;
pub use store::{CacheEntry, CacheStore};

use crate::cache::store::{
    cached_answer, entry_fresh, expired_entry_references, expired_entry_refs, is_entry_fresh,
};
use crate::config::{ttl_for, Config};
use crate::store::db::deleted_any;
use crate::store::StoreError;
use crate::time::now_secs;

verus! {

/// Sets up the keyring that holds the cache's values.
pub fn init() -> (r: Result<(), StoreError>)
    ensures
        r matches Err(e) ==> e is KeyringInit,
{
    keyring::init()
}

/// The cache of secret values.
pub struct Cache {
    store: CacheStore,
    config: Config,
}

impl Cache {
    /// A cache over `store` with `config`, opened at time `now`: expired
    /// entries are collected first exactly when garbage collection is due at
    /// `now` ([`crate::store::gc_due`]); the second part is then the
    /// collection's outcome.
    pub fn from_parts_at(store: CacheStore, config: Config, now: u64) -> (r: (
        Cache,
        Option<Result<usize, StoreError>>,
    ))
        ensures
            r.0.held_store() == store,
            r.0.held_config() == config,
            r.1 is Some <==> crate::store::gc_due(now),
            r.1 matches Some(Err(e)) ==> e is Database,
            r.1 matches Some(o) ==> call_ensures(Cache::gc, (&r.0,), o),
    {
        let cache = Cache { store, config };
        if crate::store::gc_due_at(now) {
            let collect = Cache::gc;
            let outcome = collect(&cache);
            (cache, Some(outcome))
        } else {
            (cache, None)
        }
    }

    /// A cache over `store` with `config`, opened at the clock's time
    /// ([`Cache::from_parts_at`]); a failure of the collection is reported,
    /// not returned.
    pub fn from_parts(store: CacheStore, config: Config) -> (r: (Cache, Option<StoreError>))
        ensures
            r.0.held_store() == store,
            r.0.held_config() == config,
            r.1 matches Some(e) ==> e is Database,
    {
        let (cache, outcome) = Cache::from_parts_at(store, config, now_secs());
        match outcome {
            Some(Err(e)) => (cache, Some(e)),
            _ => (cache, None),
        }
    }

    /// The cache's entry store.
    pub closed spec fn held_store(self) -> CacheStore {
        self.store
    }

    /// The configuration that gives cached secrets their lifetimes.
    pub closed spec fn held_config(self) -> Config {
        self.config
    }

    /// Deletes the entries of the listing that have expired now
    /// ([`Cache::collect`] of the store's listing at the clock's time); the
    /// number of entries deleted.
    ///
    /// So on success: the listing was answered by [`CacheStore::list`] and
    /// the time by the clock, and every reference expired at that time (and
    /// none other) was deleted from the table; the count is their number.
    pub fn gc(&self) -> (r: Result<usize, StoreError>)
        ensures
            r matches Err(e) ==> e is Database,
            r matches Ok(n) ==> exists|entries: Vec<(String, CacheEntry)>, now: u64|
                #![trigger call_ensures(CacheStore::list, (&self.held_store(),), Ok::<Vec<(String, CacheEntry)>, StoreError>(entries)), call_ensures(now_secs, (), now)]
                call_ensures(
                    CacheStore::list,
                    (&self.held_store(),),
                    Ok::<Vec<(String, CacheEntry)>, StoreError>(entries),
                ) && call_ensures(now_secs, (), now) && n == expired_entry_refs(entries@, now).len()
                    && forall|i: int|
                    0 <= i < expired_entry_refs(entries@, now).len() ==> #[trigger] entry_deleted(
                        &self.held_store(),
                        expired_entry_refs(entries@, now)[i],
                    ),
    {
        let listing = CacheStore::list;
        let clock = now_secs;
        let entries = listing(&self.store)?;
        let now = clock();
        let deleted = self.collect(&entries, now)?;
        proof {
            assert(call_ensures(
                CacheStore::list,
                (&self.held_store(),),
                Ok::<Vec<(String, CacheEntry)>, StoreError>(entries),
            ));
            assert(call_ensures(now_secs, (), now));
            let x = expired_entry_refs(entries@, now);
            assert(deleted@.map_values(|s: String| s@) == x);
            assert(deleted@.map_values(|s: String| s@).len() == deleted@.len());
            assert forall|i: int| 0 <= i < x.len() implies #[trigger] entry_deleted(
                &self.held_store(),
                x[i],
            ) by {
                assert(deleted@.map_values(|s: String| s@)[i] == deleted@[i]@);
            }
        }
        Ok(deleted.len())
    }

    /// Deletes, in order, the entry of each reference of `entries` that has
    /// expired at `now`, trying to delete its keyring value too (keyring
    /// failures are ignored), and answers those references: exactly
    /// [`expired_entry_references`] of the listing, each deleted from the
    /// table, so every other entry is left alone. The first failing deletion
    /// ends the collection.
    pub fn collect(&self, entries: &Vec<(String, CacheEntry)>, now: u64) -> (r: Result<
        Vec<String>,
        StoreError,
    >)
        ensures
            r matches Ok(v) ==> v@.map_values(|s: String| s@) == expired_entry_refs(entries@, now)
                && forall|i: int|
                0 <= i < v.len() ==> #[trigger] entry_deleted(&self.held_store(), v@[i]@),
            expired_entry_refs(entries@, now).len() == 0 ==> r is Ok,
            r matches Err(e) ==> e is Database,
    {
        let expired = expired_entry_references(entries, now);
        proof {
            assert(expired@.map_values(|s: String| s@).len() == expired@.len());
        }
        let mut i: usize = 0;
        while i < expired.len()
            invariant
                i <= expired.len(),
                expired.len() == expired_entry_refs(entries@, now).len(),
                forall|j: int| 0 <= j < i ==> #[trigger] entry_deleted(&self.held_store(), expired@[j]@),
            decreases expired.len() - i,
        {
            let name = expired[i].as_str();
            let drop_entry = CacheStore::delete;
            let answer = drop_entry(&self.store, name);
            match answer {
                Ok(b) => {
                    proof {
                        assert(call_ensures(
                            CacheStore::delete,
                            (&self.held_store(), name),
                            Ok::<bool, StoreError>(b),
                        ));
                        assert(entry_deleted(&self.held_store(), expired@[i as int]@));
                    }
                },
                Err(e) => return Err(e),
            }
            let _ = KeyringStore::delete(name);
            i = i + 1;
        }
        Ok(expired)
    }

    /// The cached, unexpired value of `reference`, if any: the keyring's
    /// answer where the entry read is fresh at the clock's time
    /// ([`cached_answer`]), else nothing.
    ///
    /// So a value answered is the keyring's answer for `reference`, and the
    /// entry the table answered for `reference` had not expired at the
    /// clock's time; an expired entry yields nothing.
    pub fn get(&self, reference: &str) -> (r: Result<Option<String>, StoreError>)
        ensures
            r matches Err(e) ==> e is Database || e is KeyringEntry || e is Keyring,
            r matches Ok(v) ==> exists|entry: Option<CacheEntry>, now: u64|
                #![trigger call_ensures(CacheStore::get, (&self.held_store(), reference), Ok::<Option<CacheEntry>, StoreError>(entry)), call_ensures(now_secs, (), now)]
                call_ensures(
                    CacheStore::get,
                    (&self.held_store(), reference),
                    Ok::<Option<CacheEntry>, StoreError>(entry),
                ) && call_ensures(now_secs, (), now) && if entry_fresh(entry, now) {
                    call_ensures(KeyringStore::get, (reference,), Ok::<Option<String>, StoreError>(v))
                } else {
                    v is None
                },
    {
        let read_entry = CacheStore::get;
        let clock = now_secs;
        let entry = read_entry(&self.store, reference)?;
        let now = clock();
        let kept = if is_entry_fresh(&entry, now) {
            let ask = KeyringStore::get;
            ask(reference)
        } else {
            Ok(None)
        };
        cached_answer(&entry, now, kept)
    }

    /// The time to live that the configuration gives `reference`
    /// ([`Config::resolve_ttl`]).
    pub fn ttl_of(&self, reference: &str) -> (ttl: u64)
        ensures
            ttl == ttl_for(
                self.held_config().ttl_rules@,
                self.held_config().default_ttl,
                reference@,
            ),
    {
        self.config.resolve_ttl(reference)
    }

    /// The entry a secret named `reference` cached at `now` gets: the time
    /// to live of the first configured rule that matches it, else the
    /// default.
    pub open spec fn entry_at(&self, reference: Seq<char>, now: u64) -> CacheEntry {
        CacheEntry::new_at_spec(
            ttl_for(self.held_config().ttl_rules@, self.held_config().default_ttl, reference),
            now,
        )
    }

    /// The entry that a secret for `reference` cached at time `now` gets:
    /// cached then, living the time [`Cache::ttl_of`] gives it.
    pub fn entry_for(&self, reference: &str, now: u64) -> (e: CacheEntry)
        ensures
            e == self.entry_at(reference@, now),
    {
        CacheEntry::new_at(self.ttl_of(reference), now)
    }

    /// Caches `value` for `reference` with the entry [`Cache::entry_for`]
    /// gives it at the clock's time: first the entry, then the keyring
    /// value.
    ///
    /// So on success the table took the configured entry, cached at the
    /// clock's time, and the keyring took `value`.
    pub fn put(&self, reference: &str, value: &str) -> (r: Result<(), StoreError>)
        ensures
            r matches Err(e) ==> e is Database || e is KeyringEntry || e is KeyringStore,
            exists|now: u64|
                #![trigger call_ensures(now_secs, (), now)]
                call_ensures(now_secs, (), now) && ((r is Err && call_ensures(
                    CacheStore::put,
                    (&self.held_store(), reference, &self.entry_at(reference@, now)),
                    r,
                )) || (call_ensures(
                    CacheStore::put,
                    (&self.held_store(), reference, &self.entry_at(reference@, now)),
                    Ok::<(), StoreError>(()),
                ) && call_ensures(KeyringStore::put, (reference, value), r))),
    {
        let clock = now_secs;
        let now = clock();
        let entry = self.entry_for(reference, now);
        let write = CacheStore::put;
        let written = write(&self.store, reference, &entry);
        match written {
            Ok(()) => {
                proof {
                    assert(written is Ok);
                    assert(written->Ok_0 == ());
                    assert(written == Ok::<(), StoreError>(()));
                }
            },
            Err(e) => return Err(e),
        }
        let keep = KeyringStore::put;
        keep(reference, value)
    }

    /// Deletes the entry and the value of `reference`; `true` if either was
    /// there ([`deleted_any`]).
    pub fn delete(&self, reference: &str) -> (r: Result<bool, StoreError>)
        ensures
            r matches Err(e) ==> e is Database || e is KeyringEntry || e is Keyring,
            r matches Ok(b) ==> exists|in_table: bool, in_keyring: bool|
                #![trigger call_ensures(CacheStore::delete, (&self.held_store(), reference), Ok::<bool, StoreError>(in_table)), call_ensures(KeyringStore::delete, (reference,), Ok::<bool, StoreError>(in_keyring))]
                call_ensures(
                    CacheStore::delete,
                    (&self.held_store(), reference),
                    Ok::<bool, StoreError>(in_table),
                ) && call_ensures(KeyringStore::delete, (reference,), Ok::<bool, StoreError>(in_keyring))
                    && b == (in_table || in_keyring),
    {
        let drop_entry = CacheStore::delete;
        let drop_value = KeyringStore::delete;
        let deleted_meta = drop_entry(&self.store, reference)?;
        let deleted_keyring = drop_value(reference)?;
        Ok(deleted_any(deleted_meta, deleted_keyring))
    }

    /// Every cached reference with its entry: the store's listing.
    pub fn list(&self) -> (r: Result<Vec<(String, CacheEntry)>, StoreError>)
        ensures
            r matches Err(e) ==> e is Database,
            call_ensures(CacheStore::list, (&self.held_store(),), r),
    {
        let listing = CacheStore::list;
        listing(&self.store)
    }

    /// Deletes the keyring value of every entry (ignoring keyring
    /// failures), then every entry.
    pub fn clear(&self) -> (r: Result<(), StoreError>)
        ensures
            r matches Err(e) ==> e is Database,
            r is Ok ==> call_ensures(
                CacheStore::clear,
                (&self.held_store(),),
                Ok::<(), StoreError>(()),
            ),
    {
        let entries = self.store.list()?;
        let mut i: usize = 0;
        while i < entries.len()
            invariant
                i <= entries.len(),
            decreases entries.len() - i,
        {
            let _ = KeyringStore::delete(entries[i].0.as_str());
            i = i + 1;
        }
        let erase = CacheStore::clear;
        let erased = erase(&self.store);
        match erased {
            Ok(()) => {
                proof {
                    assert(erased is Ok);
                    assert(erased->Ok_0 == ());
                    assert(erased == Ok::<(), StoreError>(()));
                }
                Ok(())
            },
            Err(e) => Err(e),
        }
    }
}

/// Whether `store` deleted the entry of a reference named `name`: a call of
/// [`CacheStore::delete`] on it succeeded.
pub open spec fn entry_deleted(store: &CacheStore, name: Seq<char>) -> bool {
    exists|s: &str, b: bool|
        s@ == name && #[trigger] call_ensures(CacheStore::delete, (store, s), Ok::<bool, StoreError>(b))
}

} // verus!
