//! What the store's operations do, stated over any call that completed:
//! `call_ensures(op, args, result)` says that `op` answered `result` for
//! `args`. Each law relates that answer to the answers of the table, the
//! keyring and the clock that the operation asked.
use vstd::prelude::*;

use crate::config::ttl_for;
use crate::cache::store::{entry_fresh, expired_entry_refs};
use crate::cache::{entry_deleted, Cache, CacheEntry, CacheStore, KeyringStore};
use crate::storage::WriteStep;
use crate::store::db::{deleted_by, entries_view, expired_refs, fresh, item_entry, item_readable};
use crate::store::{answers_kept, store_answered, store_holds, Db, Lookup, Meta, Store, StoreError};
use crate::time::now_secs;

verus! {

/// **A read answers a value only while it lasts.** A value that
/// [`Db::get`] answers is the keyring's answer for the same reference, and
/// the metadata read for that reference had not expired at the clock's time
/// of the read. So metadata that has expired never yields a value.
pub proof fn law_read_answers_only_fresh_values(db: &Db, reference: &str, value: String)
    requires
        call_ensures(Db::get, (db, reference), Ok::<Option<String>, StoreError>(Some(value))),
    ensures
        exists|meta: Option<Meta>, now: u64|
            #![trigger call_ensures(Db::meta, (db, reference), Ok::<Option<Meta>, StoreError>(meta)), call_ensures(now_secs, (), now)]
            call_ensures(Db::meta, (db, reference), Ok::<Option<Meta>, StoreError>(meta))
                && call_ensures(now_secs, (), now) && fresh(meta, now) && call_ensures(
                Db::keyring_get,
                (reference,),
                Ok::<Option<String>, StoreError>(Some(value)),
            ),
{
}

/// **Expired metadata reads as nothing.** If every metadata that the table
/// can answer for `reference` has expired at every time the clock can read,
/// then [`Db::get`] never answers a value for it.
pub proof fn law_expired_reads_as_nothing(db: &Db, reference: &str, value: String)
    requires
        forall|meta: Option<Meta>, now: u64|
            #![trigger call_ensures(Db::meta, (db, reference), Ok::<Option<Meta>, StoreError>(meta)), call_ensures(now_secs, (), now)]
            call_ensures(Db::meta, (db, reference), Ok::<Option<Meta>, StoreError>(meta))
                && call_ensures(now_secs, (), now) ==> !fresh(meta, now),
    ensures
        !call_ensures(Db::get, (db, reference), Ok::<Option<String>, StoreError>(Some(value))),
{
    if call_ensures(Db::get, (db, reference), Ok::<Option<String>, StoreError>(Some(value))) {
        law_read_answers_only_fresh_values(db, reference, value);
    }
}

/// **Each found secret is the store's answer for its own reference.** Every
/// pair `(name, value)` that [`Store::lookup_all`] finds is a value that
/// [`Store::get`] answered for `name`, and every missing reference is one
/// for which it answered nothing.
pub proof fn law_lookup_pairs_each_reference_with_its_answer(
    store: &Store,
    references: &Vec<String>,
    l: Lookup,
    k: int,
)
    requires
        call_ensures(Store::lookup_all, (store, references), Ok::<Lookup, StoreError>(l)),
    ensures
        0 <= k < l.found.len() ==> store_holds(store, l.found@[k].0@, l.found@[k].1@),
        0 <= k < l.missing.len() ==> store_answered(store, l.missing@[k]@, None),
{
    assert(answers_kept(store, l));
}

/// **A stored secret lives the time its configuration gives it.** When
/// [`Store::put`] succeeds, the keyring took `value` for `reference`, and
/// the table took, for `reference`, the record stored at the clock's time
/// with the time to live of the first configured rule that matches
/// `reference` (else the default).
pub proof fn law_put_writes_the_configured_record(store: &Store, reference: &str, value: &str)
    requires
        call_ensures(Store::put, (store, reference, value), Ok::<(), StoreError>(())),
    ensures
        exists|now: u64|
            #![trigger call_ensures(now_secs, (), now)]
            call_ensures(now_secs, (), now) && call_ensures(
                Db::keyring_put,
                (reference, value),
                Ok::<(), StoreError>(()),
            ) && call_ensures(
                Db::write_record,
                (
                    &store.held_db(),
                    reference,
                    (
                        now,
                        ttl_for(
                            store.held_config().ttl_rules@,
                            store.held_config().default_ttl,
                            reference@,
                        ),
                    ),
                ),
                Ok::<(), (WriteStep, heed::Error)>(()),
            ),
{
    let now = choose|now: u64|
        #![trigger call_ensures(now_secs, (), now)]
        call_ensures(now_secs, (), now) && call_ensures(
            Db::put_record,
            (&store.held_db(), reference, value, &store.record_at(reference@, now)),
            Ok::<(), StoreError>(()),
        );
    let m = store.record_at(reference@, now);
    assert((m.stored_at, m.ttl_seconds) == (
        now,
        ttl_for(store.held_config().ttl_rules@, store.held_config().default_ttl, reference@),
    ));
}

/// **A listing shows every readable record.** What [`Db::list`] answers is
/// exactly the readable items of the table's answer, in order.
pub proof fn law_list_shows_every_readable_record(db: &Db, v: Vec<(String, Meta)>)
    requires
        call_ensures(Db::list, (db,), Ok::<Vec<(String, Meta)>, StoreError>(v)),
    ensures
        exists|items: Vec<Result<(String, (u64, u64)), heed::Error>>|
            #[trigger] call_ensures(
                Db::items,
                (db,),
                Ok::<Vec<Result<(String, (u64, u64)), heed::Error>>, StoreError>(items),
            ) && entries_view(v@) == items@.filter(item_readable()).map_values(item_entry()),
{
}

/// **Collection deletes exactly what has expired.** When [`Db::gc`]
/// answers `n`, the listing it read holds exactly `n` references whose
/// metadata had expired at the clock's time, and each of them was deleted;
/// in particular every listed entry with `stored_at + ttl_seconds < now` was.
pub proof fn law_gc_deletes_every_expired_entry(db: &Db, n: usize)
    requires
        call_ensures(Db::gc, (db,), Ok::<usize, StoreError>(n)),
    ensures
        exists|entries: Vec<(String, Meta)>, now: u64|
            #![trigger call_ensures(Db::list, (db,), Ok::<Vec<(String, Meta)>, StoreError>(entries)), call_ensures(now_secs, (), now)]
            call_ensures(Db::list, (db,), Ok::<Vec<(String, Meta)>, StoreError>(entries))
                && call_ensures(now_secs, (), now) && n == expired_refs(
                entries_view(entries@),
                now,
            ).len() && forall|i: int|
                0 <= i < expired_refs(entries_view(entries@), now).len() ==> #[trigger] deleted_by(
                    db,
                    expired_refs(entries_view(entries@), now)[i],
                ),
{
}

/// **A cached read answers a value only while it lasts.** A value that
/// [`Cache::get`] answers is the keyring's answer for the same reference,
/// and the entry the cache's table answered for it had not expired at the
/// clock's time of the read.
pub proof fn law_cache_read_answers_only_fresh_values(cache: &Cache, reference: &str, value: String)
    requires
        call_ensures(Cache::get, (cache, reference), Ok::<Option<String>, StoreError>(Some(value))),
    ensures
        exists|entry: Option<CacheEntry>, now: u64|
            #![trigger call_ensures(CacheStore::get, (&cache.held_store(), reference), Ok::<Option<CacheEntry>, StoreError>(entry)), call_ensures(now_secs, (), now)]
            call_ensures(
                CacheStore::get,
                (&cache.held_store(), reference),
                Ok::<Option<CacheEntry>, StoreError>(entry),
            ) && call_ensures(now_secs, (), now) && entry_fresh(entry, now) && call_ensures(
                KeyringStore::get,
                (reference,),
                Ok::<Option<String>, StoreError>(Some(value)),
            ),
{
}

/// **Cache collection deletes exactly what has expired.** When
/// [`Cache::gc`] answers `n`, the listing it read holds exactly `n`
/// references whose entry had expired at the clock's time, and the entry of
/// each of them was deleted.
pub proof fn law_cache_gc_deletes_every_expired_entry(cache: &Cache, n: usize)
    requires
        call_ensures(Cache::gc, (cache,), Ok::<usize, StoreError>(n)),
    ensures
        exists|entries: Vec<(String, CacheEntry)>, now: u64|
            #![trigger call_ensures(CacheStore::list, (&cache.held_store(),), Ok::<Vec<(String, CacheEntry)>, StoreError>(entries)), call_ensures(now_secs, (), now)]
            call_ensures(
                CacheStore::list,
                (&cache.held_store(),),
                Ok::<Vec<(String, CacheEntry)>, StoreError>(entries),
            ) && call_ensures(now_secs, (), now) && n == expired_entry_refs(entries@, now).len()
                && forall|i: int|
                0 <= i < expired_entry_refs(entries@, now).len() ==> #[trigger] entry_deleted(
                    &cache.held_store(),
                    expired_entry_refs(entries@, now)[i],
                ),
{
}

/// **A deletion reports whether anything was there.** When [`Db::delete`]
/// answers `b`, both the keyring value and the record were deleted, and `b`
/// says whether either existed.
pub proof fn law_delete_reports_either_part(db: &Db, reference: &str, b: bool)
    requires
        call_ensures(Db::delete, (db, reference), Ok::<bool, StoreError>(b)),
    ensures
        exists|in_keyring: bool, in_table: bool|
            #![trigger call_ensures(Db::keyring_delete, (reference,), Ok::<bool, StoreError>(in_keyring)), call_ensures(Db::erase_record, (db, reference), Ok::<bool, StoreError>(in_table))]
            call_ensures(Db::keyring_delete, (reference,), Ok::<bool, StoreError>(in_keyring))
                && call_ensures(Db::erase_record, (db, reference), Ok::<bool, StoreError>(in_table))
                && b == (in_keyring || in_table),
{
}

} // verus!
