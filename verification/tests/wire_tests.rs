use friends_connect::lifecycle::ConnectionStatus;
use friends_connect::wire::decode_connection;

#[test]
fn decodes_a_pending_connection() {
    let body = "{\"id\":\"c1\",\"link_id\":\"L1\",\"players\":[\"P1\"],\"created_at\":1700000000000,\"status\":\"Pending\",\"expires_at\":1700086400000}";
    let c = decode_connection(body).expect("the reply should decode");
    assert_eq!(c.id, "c1");
    assert_eq!(c.link_id, "L1");
    assert_eq!(c.players, vec!["P1".to_string()]);
    assert_eq!(c.created_at, 1700000000000);
    assert_eq!(c.status, ConnectionStatus::Pending);
    assert_eq!(c.expires_at, 1700086400000);
}

#[test]
fn decodes_an_active_connection_with_two_players() {
    let body = "{\"id\":\"c1\",\"link_id\":\"L1\",\"players\":[\"P1\",\"P2\"],\"created_at\":5,\"status\":\"Active\",\"expires_at\":99}";
    let c = decode_connection(body).expect("the reply should decode");
    assert_eq!(c.players, vec!["P1".to_string(), "P2".to_string()]);
    assert_eq!(c.status, ConnectionStatus::Active);
}

#[test]
fn decodes_an_empty_player_list() {
    let body =
        "{\"id\":\"c\",\"link_id\":\"L\",\"players\":[],\"created_at\":0,\"status\":\"Expired\",\"expires_at\":-1}";
    let c = decode_connection(body).expect("the reply should decode");
    assert!(c.players.is_empty());
    assert_eq!(c.status, ConnectionStatus::Expired);
    assert_eq!(c.expires_at, -1);
}

#[test]
fn an_unknown_status_is_malformed() {
    let body = "{\"id\":\"c\",\"link_id\":\"L\",\"players\":[],\"created_at\":0,\"status\":\"Paused\",\"expires_at\":1}";
    assert!(decode_connection(body).is_none());
}

#[test]
fn missing_fields_are_malformed() {
    assert!(decode_connection("{}").is_none());
    assert!(decode_connection("").is_none());
    assert!(decode_connection("{\"id\":\"c\"}").is_none());
}

#[test]
fn trailing_garbage_is_malformed() {
    let body = "{\"id\":\"c\",\"link_id\":\"L\",\"players\":[],\"created_at\":0,\"status\":\"Pending\",\"expires_at\":1} ";
    assert!(decode_connection(body).is_none());
}

#[test]
fn a_timestamp_too_large_for_the_model_is_malformed() {
    let body = "{\"id\":\"c\",\"link_id\":\"L\",\"players\":[],\"created_at\":99999999999999999999,\"status\":\"Pending\",\"expires_at\":1}";
    assert!(decode_connection(body).is_none());
}

#[test]
fn escaped_characters_decode_in_ids() {
    let body = "{\"id\":\"c\\\"1\",\"link_id\":\"L\\\\1\",\"players\":[],\"created_at\":0,\"status\":\"Pending\",\"expires_at\":1}";
    let c = decode_connection(body).expect("the reply should decode");
    assert_eq!(c.id, "c\"1");
    assert_eq!(c.link_id, "L\\1");
}
