use op_fast::cache::KeyringStore;

// One test only: the keyring's default store is global to the process.
#[test]
fn keyring_values_round_trip_through_a_mock_store() {
    keyring_core::set_default_store(keyring_core::mock::Store::new().unwrap());
    assert_eq!(KeyringStore::get("op://v/i/f").unwrap(), None);
    KeyringStore::put("op://v/i/f", "hunter2").unwrap();
    assert_eq!(KeyringStore::get("op://v/i/f").unwrap(), Some("hunter2".to_string()));
    assert_eq!(KeyringStore::delete("op://v/i/f").unwrap(), true);
    assert_eq!(KeyringStore::delete("op://v/i/f").unwrap(), false);
    assert_eq!(KeyringStore::get("op://v/i/f").unwrap(), None);
}
