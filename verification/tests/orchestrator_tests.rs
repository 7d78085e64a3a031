use friends_connect::cache::ConnectionCache;
use friends_connect::client::PairingError;
use friends_connect::lifecycle::{ConnectionStatus, ExpiredRecovery};
use friends_connect::orchestrator::{recover_expired, reconcile_rows, Action, Phase, Reconciler};
use friends_connect::wire::decode_connection;

const T: i64 = 1700000000000;

fn pending_reply(id: &str, link: &str, player: &str) -> String {
    format!(
        "{{\"id\":\"{}\",\"link_id\":\"{}\",\"players\":[\"{}\"],\"created_at\":{},\"status\":\"Pending\",\"expires_at\":{}}}",
        id, link, player, T, T + 86400
    )
}

#[test]
fn activation_without_a_token_pre_generates_a_link() {
    let (rec, action) = Reconciler::activate("P1".to_string(), None);
    assert_eq!(rec.phase, Phase::PrefetchingLink);
    assert!(matches!(action, Some(Action::Create)));
}

#[test]
fn activation_with_a_token_is_a_join_intent() {
    let (rec, action) = Reconciler::activate("P2".to_string(), Some("L1".to_string()));
    assert_eq!(rec.phase, Phase::JoinIntent);
    assert!(action.is_none());
}

#[test]
fn create_scenario_caches_exactly_one_record() {
    // create with participant P1; the service answers with connection c1/L1
    let (mut rec, action) = Reconciler::activate("P1".to_string(), None);
    assert!(matches!(action, Some(Action::Create)));
    let mut cache = ConnectionCache::new();
    rec.submit("Alice".to_string());
    let conn = decode_connection(&pending_reply("c1", "L1", "P1")).expect("reply decodes");
    assert_eq!(conn.status, ConnectionStatus::Pending);
    rec.on_connection_ok(&mut cache, &conn);
    assert_eq!(rec.phase, Phase::Done);
    let rows = cache.load();
    assert_eq!(rows.len(), 1);
    assert_eq!(rows[0].id, "c1");
    assert_eq!(rows[0].link_id, "L1");
    assert_eq!(rows[0].friendly_name, "Alice");
    assert_eq!(
        cache.get_friendly_name(&"c1".to_string()).as_deref(),
        Some("Alice")
    );
}

#[test]
fn join_scenario_surfaces_active_not_expired() {
    let (mut rec, _) = Reconciler::activate("P2".to_string(), Some("L1".to_string()));
    let action = rec.submit("Counterpart".to_string());
    match action {
        Action::Join(token) => assert_eq!(token, "L1"),
        _ => panic!("a join-intent submit must join"),
    }
    let body = format!(
        "{{\"id\":\"c1\",\"link_id\":\"L1\",\"players\":[\"P1\",\"P2\"],\"created_at\":{},\"status\":\"Active\",\"expires_at\":{}}}",
        T, T + 86400000
    );
    let conn = decode_connection(&body).expect("reply decodes");
    let mut cache = ConnectionCache::new();
    rec.on_connection_ok(&mut cache, &conn);
    let records = cache.load();
    // the derived status is Active, not recomputed as Expired: now < expires_at
    let rows = reconcile_rows(&records, Some(&conn), T + 1000);
    assert_eq!(rows.len(), 1);
    assert_eq!(rows[0].status, ConnectionStatus::Active);
    assert_eq!(rows[0].players, vec!["P1".to_string(), "P2".to_string()]);
}

#[test]
fn an_exhausted_link_regenerates_exactly_once() {
    // join against an already-full link
    let (mut rec, _) = Reconciler::activate("P3".to_string(), Some("L1".to_string()));
    rec.submit("Friend".to_string());
    let action = rec.on_join_failed(PairingError::LinkExhausted);
    assert!(matches!(action, Some(Action::Create)));
    assert_eq!(rec.phase, Phase::SubmittingCreate);
    assert!(rec.regenerated);
    // the replacement create answers with a distinct link
    let conn = decode_connection(&pending_reply("c2", "L2", "P3")).expect("reply decodes");
    assert_ne!(conn.link_id, "L1");
    let mut cache = ConnectionCache::new();
    rec.on_connection_ok(&mut cache, &conn);
    let rows = cache.load();
    assert_eq!(rows.len(), 1);
    assert_eq!(rows[0].link_id, "L2");
    // the friendly name the user had already typed is attributed to it
    assert_eq!(rows[0].friendly_name, "Friend");
}

#[test]
fn a_second_exhaustion_is_surfaced_not_retried() {
    let (mut rec, _) = Reconciler::activate("P3".to_string(), Some("L1".to_string()));
    rec.submit("Friend".to_string());
    assert!(rec.on_join_failed(PairingError::LinkExhausted).is_some());
    // the replacement join fails the same way: no second regeneration
    rec.phase = Phase::SubmittingJoin;
    let action = rec.on_join_failed(PairingError::LinkExhausted);
    assert!(action.is_none());
    assert_eq!(rec.phase, Phase::Errored);
    assert_eq!(rec.last_error, Some(PairingError::LinkExhausted));
}

#[test]
fn a_transport_failure_on_join_is_surfaced() {
    let (mut rec, _) = Reconciler::activate("P3".to_string(), Some("L1".to_string()));
    rec.submit("Friend".to_string());
    let action = rec.on_join_failed(PairingError::Transport(500));
    assert!(action.is_none());
    assert_eq!(rec.phase, Phase::Errored);
    assert_eq!(rec.last_error, Some(PairingError::Transport(500)));
}

#[test]
fn a_prefetched_link_is_displayed_not_cached() {
    let (mut rec, _) = Reconciler::activate("P1".to_string(), None);
    let conn = decode_connection(&pending_reply("c9", "L9", "P1")).expect("reply decodes");
    let mut cache = ConnectionCache::new();
    rec.on_connection_ok(&mut cache, &conn);
    assert_eq!(rec.phase, Phase::LinkReady);
    assert_eq!(rec.display_link.as_deref(), Some("L9"));
    assert_eq!(cache.load().len(), 0);
}

#[test]
fn a_missing_link_on_fetch_regenerates_once() {
    let (mut rec, _) = Reconciler::activate("P1".to_string(), None);
    let action = rec.on_fetch_failed(PairingError::NotFound);
    assert!(matches!(action, Some(Action::Create)));
    assert!(rec.regenerated);
    let again = rec.on_fetch_failed(PairingError::NotFound);
    assert!(again.is_none());
    assert_eq!(rec.phase, Phase::Errored);
}

#[test]
fn cached_records_expire_locally_without_the_server() {
    // records that predate a reload re-derive Expired from their own age
    let mut cache = ConnectionCache::new();
    let mut rec = Reconciler::activate("P1".to_string(), None).0;
    rec.submit("Old".to_string());
    let conn = decode_connection(&pending_reply("c1", "L1", "P1")).expect("reply decodes");
    rec.on_connection_ok(&mut cache, &conn);
    let records = cache.load();
    let fresh = reconcile_rows(&records, None, T + 1000);
    assert_eq!(fresh[0].status, ConnectionStatus::Pending);
    let stale = reconcile_rows(&records, None, T + 86400000);
    assert_eq!(stale[0].status, ConnectionStatus::Expired);
}

#[test]
fn expired_recovery_delete_is_terminal_refresh_reissues() {
    let mut cache = ConnectionCache::new();
    let mut rec = Reconciler::activate("P1".to_string(), None).0;
    rec.submit("Old".to_string());
    let conn = decode_connection(&pending_reply("c1", "L1", "P1")).expect("reply decodes");
    rec.on_connection_ok(&mut cache, &conn);
    let a = recover_expired(&mut cache, &"c1".to_string(), ExpiredRecovery::Refresh);
    assert!(matches!(a, Some(Action::Create)));
    assert_eq!(cache.load().len(), 1);
    let a = recover_expired(&mut cache, &"c1".to_string(), ExpiredRecovery::Delete);
    assert!(a.is_none());
    assert_eq!(cache.load().len(), 0);
    assert_eq!(cache.get_friendly_name(&"c1".to_string()), None);
}
