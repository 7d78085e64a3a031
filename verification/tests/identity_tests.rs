use friends_connect::identity::IdentityStore;

#[test]
fn an_empty_store_has_no_id() {
    let store = IdentityStore::hydrate(None);
    assert!(store.get_stored_player_id().is_none());
}

#[test]
fn a_persisted_id_is_returned_verbatim() {
    let store = IdentityStore::hydrate(Some("test-123".to_string()));
    assert_eq!(store.get_stored_player_id().as_deref(), Some("test-123"));
    let mut store = store;
    assert_eq!(store.get_or_create(), "test-123");
}

#[test]
fn a_fresh_id_is_hyphenated_and_durable() {
    let mut store = IdentityStore::hydrate(None);
    let id = store.get_or_create();
    assert_eq!(id.len(), 36);
    let bytes = id.as_bytes();
    for (i, b) in bytes.iter().enumerate() {
        if i == 8 || i == 13 || i == 18 || i == 23 {
            assert_eq!(*b, b'-', "hyphen expected at {}", i);
        } else {
            assert!(
                b.is_ascii_digit() || (b'a'..=b'f').contains(b),
                "hex digit expected at {}",
                i
            );
        }
    }
    // the id is stored and never rotated
    assert_eq!(store.get_stored_player_id().as_deref(), Some(id.as_str()));
    assert_eq!(store.get_or_create(), id);
    assert_eq!(store.persisted().as_deref(), Some(id.as_str()));
}
