use op_fast::cache::store::{cached_answer, expired_entry_references, is_entry_fresh};
use op_fast::cache::CacheEntry;
use op_fast::storage::WriteStep;
use op_fast::store::db::{
    deleted_any, expired_references, is_fresh, rollback_needed, stored_answer, Meta,
};
use op_fast::store::{gc_due_at, split_lookups};
use op_fast::time::seconds_of;

#[test]
fn expiry_is_strictly_after_the_time_to_live() {
    let meta = Meta { stored_at: 1000, ttl_seconds: 60 };
    assert!(!meta.is_expired_at(999));
    assert!(!meta.is_expired_at(1060));
    assert!(meta.is_expired_at(1061));
    let forever = Meta { stored_at: u64::MAX, ttl_seconds: u64::MAX };
    assert!(!forever.is_expired_at(u64::MAX));
    assert!(!forever.is_expired());
    let entry = CacheEntry { cached_at: 10, ttl_seconds: 0 };
    assert!(!entry.is_expired_at(10));
    assert!(entry.is_expired_at(11));
}

#[test]
fn new_metadata_starts_now() {
    let meta = Meta::new(3600);
    assert_eq!(meta.ttl_seconds, 3600);
    assert!(!meta.is_expired());
    let entry = CacheEntry::new(5);
    assert_eq!(entry.ttl_seconds, 5);
    assert!(entry.cached_at > 1_600_000_000);
}

#[test]
fn garbage_is_the_expired_entries() {
    let entries = vec![
        ("op://a".to_string(), Meta { stored_at: 0, ttl_seconds: 10 }),
        ("op://b".to_string(), Meta { stored_at: 0, ttl_seconds: 100 }),
        ("op://c".to_string(), Meta { stored_at: 50, ttl_seconds: 0 }),
    ];
    assert_eq!(expired_references(&entries, 60), vec!["op://a".to_string(), "op://c".to_string()]);
    assert_eq!(expired_references(&entries, 0), Vec::<String>::new());
}

#[test]
fn garbage_collection_is_due_one_second_in_ten() {
    assert!(gc_due_at(1_700_000_000));
    assert!(!gc_due_at(1_700_000_001));
}

#[test]
fn metadata_records_the_time_it_is_made_at() {
    assert_eq!(Meta::new_at(60, 1000), Meta { stored_at: 1000, ttl_seconds: 60 });
    assert_eq!(CacheEntry::new_at(5, 7), CacheEntry { cached_at: 7, ttl_seconds: 5 });
    assert_eq!(seconds_of(Some(42)), 42);
    assert_eq!(seconds_of(None), 0);
}

#[test]
fn reads_go_to_the_keyring_only_for_fresh_metadata() {
    let meta = Meta { stored_at: 100, ttl_seconds: 10 };
    assert!(is_fresh(&Some(meta), 100));
    assert!(is_fresh(&Some(meta), 110));
    assert!(!is_fresh(&Some(meta), 111));
    assert!(!is_fresh(&None, 100));
}

#[test]
fn lookups_split_by_the_store_answers() {
    let references = vec!["op://a".to_string(), "op://b".to_string(), "op://c".to_string()];
    let answers = vec![Some("1".to_string()), None, Some("3".to_string())];
    let lookup = split_lookups(&references, answers);
    assert_eq!(
        lookup.found,
        vec![("op://a".to_string(), "1".to_string()), ("op://c".to_string(), "3".to_string())]
    );
    assert_eq!(lookup.missing, vec!["op://b".to_string()]);
    let nothing = split_lookups(&Vec::new(), Vec::new());
    assert!(nothing.found.is_empty() && nothing.missing.is_empty());
}

#[test]
fn a_read_answers_the_keyring_only_for_fresh_metadata() {
    let meta = Some(Meta { stored_at: 100, ttl_seconds: 10 });
    let kept: Result<Option<String>, op_fast::store::StoreError> = Ok(Some("v".to_string()));
    assert_eq!(stored_answer(&meta, 105, kept).ok(), Some(Some("v".to_string())));
    let kept: Result<Option<String>, op_fast::store::StoreError> = Ok(Some("v".to_string()));
    assert_eq!(stored_answer(&meta, 111, kept).ok(), Some(None));
    let kept: Result<Option<String>, op_fast::store::StoreError> = Ok(Some("v".to_string()));
    assert_eq!(stored_answer(&None, 100, kept).ok(), Some(None));
    let entry = Some(CacheEntry { cached_at: 100, ttl_seconds: 10 });
    let kept: Result<Option<String>, op_fast::store::StoreError> = Ok(None);
    assert_eq!(cached_answer(&entry, 100, kept).ok(), Some(None));
    let kept: Result<Option<String>, op_fast::store::StoreError> = Ok(Some("w".to_string()));
    assert_eq!(cached_answer(&entry, 110, kept).ok(), Some(Some("w".to_string())));
    assert!(is_entry_fresh(&entry, 110));
    assert!(!is_entry_fresh(&entry, 111));
}

#[test]
fn writes_roll_back_only_a_failed_change_and_deletions_report_either_part() {
    assert!(rollback_needed(WriteStep::Change));
    assert!(!rollback_needed(WriteStep::Begin));
    assert!(!rollback_needed(WriteStep::Commit));
    assert!(deleted_any(true, false));
    assert!(deleted_any(false, true));
    assert!(!deleted_any(false, false));
}

#[test]
fn cache_garbage_is_the_expired_entries() {
    let entries = vec![
        ("op://a".to_string(), CacheEntry { cached_at: 0, ttl_seconds: 10 }),
        ("op://b".to_string(), CacheEntry { cached_at: 0, ttl_seconds: 100 }),
        ("op://c".to_string(), CacheEntry { cached_at: 50, ttl_seconds: 0 }),
    ];
    assert_eq!(expired_entry_references(&entries, 60), vec!["op://a".to_string(), "op://c".to_string()]);
    assert_eq!(expired_entry_references(&entries, 0), Vec::<String>::new());
}
