use friends_connect::cache::ConnectionCache;
use friends_connect::model::LocalConnectionRecord;

fn record(id: &str, link: &str, name: &str, created_at: i64) -> LocalConnectionRecord {
    LocalConnectionRecord {
        id: id.to_string(),
        link_id: link.to_string(),
        friendly_name: name.to_string(),
        created_at,
    }
}

#[test]
fn upsert_is_idempotent() {
    let mut once = ConnectionCache::new();
    once.upsert(record("c1", "L1", "Alice", 7));
    let mut twice = ConnectionCache::new();
    twice.upsert(record("c1", "L1", "Alice", 7));
    twice.upsert(record("c1", "L1", "Alice", 7));
    let a = once.load();
    let b = twice.load();
    assert_eq!(a.len(), 1);
    assert_eq!(b.len(), 1);
    assert_eq!(a[0].id, b[0].id);
    assert_eq!(a[0].link_id, b[0].link_id);
    assert_eq!(a[0].friendly_name, b[0].friendly_name);
    assert_eq!(a[0].created_at, b[0].created_at);
}

#[test]
fn upsert_replaces_by_id() {
    let mut cache = ConnectionCache::new();
    cache.upsert(record("c1", "L1", "Alice", 7));
    cache.upsert(record("c1", "L2", "Alice", 8));
    let rows = cache.load();
    assert_eq!(rows.len(), 1);
    assert_eq!(rows[0].link_id, "L2");
    assert_eq!(rows[0].created_at, 8);
}

#[test]
fn save_then_load_round_trips_every_field() {
    let mut cache = ConnectionCache::new();
    cache.upsert(record("c1", "L1", "Alice \"the\\brave\"", -42));
    cache.upsert(record("c2", "L2", "Bob", 1700000000000));
    cache.set_friendly_name(&"c1".to_string(), &"Alice \"the\\brave\"".to_string());
    let records_blob = cache.persist_records();
    let names_blob = cache.persist_names();
    let back = ConnectionCache::hydrate(&records_blob, &names_blob);
    let rows = back.load();
    assert_eq!(rows.len(), 2);
    assert_eq!(rows[0].id, "c1");
    assert_eq!(rows[0].link_id, "L1");
    assert_eq!(rows[0].friendly_name, "Alice \"the\\brave\"");
    assert_eq!(rows[0].created_at, -42);
    assert_eq!(rows[1].id, "c2");
    assert_eq!(rows[1].link_id, "L2");
    assert_eq!(rows[1].friendly_name, "Bob");
    assert_eq!(rows[1].created_at, 1700000000000);
    assert_eq!(
        back.get_friendly_name(&"c1".to_string()).as_deref(),
        Some("Alice \"the\\brave\"")
    );
}

#[test]
fn delete_is_terminal() {
    let mut cache = ConnectionCache::new();
    cache.upsert(record("c1", "L1", "Alice", 7));
    cache.upsert(record("c2", "L2", "Bob", 8));
    cache.set_friendly_name(&"c1".to_string(), &"Alice".to_string());
    cache.remove(&"c1".to_string());
    let rows = cache.load();
    assert_eq!(rows.len(), 1);
    assert_eq!(rows[0].id, "c2");
    assert_eq!(cache.get_friendly_name(&"c1".to_string()), None);
    // a second removal is a no-op, not an error
    cache.remove(&"c1".to_string());
    assert_eq!(cache.load().len(), 1);
}

#[test]
fn removing_an_absent_id_is_a_no_op() {
    let mut cache = ConnectionCache::new();
    cache.remove(&"missing".to_string());
    assert_eq!(cache.load().len(), 0);
}

#[test]
fn names_are_independent_of_records() {
    // a name may arrive before the record it labels
    let mut cache = ConnectionCache::new();
    cache.set_friendly_name(&"c9".to_string(), &"Early".to_string());
    assert_eq!(
        cache.get_friendly_name(&"c9".to_string()).as_deref(),
        Some("Early")
    );
    assert_eq!(cache.load().len(), 0);
    cache.set_friendly_name(&"c9".to_string(), &"Renamed".to_string());
    assert_eq!(
        cache.get_friendly_name(&"c9".to_string()).as_deref(),
        Some("Renamed")
    );
}

#[test]
fn a_corrupt_blob_counts_as_empty() {
    let cache = ConnectionCache::hydrate("not json at all", "{broken");
    assert_eq!(cache.load().len(), 0);
    assert_eq!(cache.get_friendly_name(&"c1".to_string()), None);
}

#[test]
fn a_truncated_blob_counts_as_empty() {
    let mut cache = ConnectionCache::new();
    cache.upsert(record("c1", "L1", "Alice", 7));
    let blob = cache.persist_records();
    let truncated = &blob[..blob.len() - 1];
    let back = ConnectionCache::hydrate(truncated, "{}");
    assert_eq!(back.load().len(), 0);
}

#[test]
fn empty_cache_persists_to_empty_collections() {
    let cache = ConnectionCache::new();
    assert_eq!(cache.persist_records(), "[]");
    assert_eq!(cache.persist_names(), "{}");
}

#[test]
fn the_persisted_rendering_is_exact() {
    let mut cache = ConnectionCache::new();
    cache.upsert(record("c1", "L1", "Alice", 7));
    assert_eq!(
        cache.persist_records(),
        "[{\"id\":\"c1\",\"link_id\":\"L1\",\"friendly_name\":\"Alice\",\"created_at\":7}]"
    );
    cache.set_friendly_name(&"c1".to_string(), &"Alice".to_string());
    assert_eq!(cache.persist_names(), "{\"c1\":\"Alice\"}");
}

#[test]
fn escaping_in_the_persisted_rendering_is_exact() {
    let mut cache = ConnectionCache::new();
    cache.upsert(record("c1", "L1", "a\"b\\c", -3));
    assert_eq!(
        cache.persist_records(),
        "[{\"id\":\"c1\",\"link_id\":\"L1\",\"friendly_name\":\"a\\\"b\\\\c\",\"created_at\":-3}]"
    );
}
