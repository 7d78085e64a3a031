use friends_connect::client::{
    ack_request, classify_fetch_failure, classify_join_failure, create_request, fetch_request,
    join_request, message_request, notifications_request, should_acknowledge, HttpMethod,
    PairingError,
};

#[test]
fn a_missing_link_is_not_found() {
    assert_eq!(classify_fetch_failure(404), PairingError::NotFound);
}

#[test]
fn other_fetch_failures_are_transport_errors() {
    assert_eq!(classify_fetch_failure(500), PairingError::Transport(500));
    assert_eq!(classify_fetch_failure(403), PairingError::Transport(403));
    assert_eq!(classify_fetch_failure(0), PairingError::Transport(0));
}

#[test]
fn a_full_link_exhausts() {
    assert_eq!(
        classify_join_failure(400, "this connection is already full"),
        PairingError::LinkExhausted
    );
    assert_eq!(
        classify_join_failure(409, "player already connected"),
        PairingError::LinkExhausted
    );
}

#[test]
fn other_join_rejections_are_transport_errors() {
    assert_eq!(
        classify_join_failure(400, "bad request"),
        PairingError::Transport(400)
    );
    // the marker only counts on a client error
    assert_eq!(
        classify_join_failure(500, "already full"),
        PairingError::Transport(500)
    );
    assert_eq!(
        classify_join_failure(200, "already connected"),
        PairingError::Transport(200)
    );
}

#[test]
fn create_posts_the_participant() {
    let r = create_request("P1");
    assert_eq!(r.method, HttpMethod::Post);
    assert_eq!(r.path, "/connections");
    assert_eq!(r.body.as_deref(), Some("{\"player_id\":\"P1\"}"));
}

#[test]
fn join_posts_to_the_link_path() {
    let r = join_request("L1", "P2");
    assert_eq!(r.method, HttpMethod::Post);
    assert_eq!(r.path, "/connections/link/L1/join");
    assert_eq!(r.body.as_deref(), Some("{\"player_id\":\"P2\"}"));
}

#[test]
fn fetch_reads_the_link_path() {
    let r = fetch_request("L1");
    assert_eq!(r.method, HttpMethod::Get);
    assert_eq!(r.path, "/connections/link/L1");
    assert!(r.body.is_none());
}

#[test]
fn notification_paths_name_the_participant() {
    let r = notifications_request("P1");
    assert_eq!(r.method, HttpMethod::Get);
    assert_eq!(r.path, "/players/P1/notifications");
    let a = ack_request("P1");
    assert_eq!(a.method, HttpMethod::Post);
    assert_eq!(a.path, "/players/P1/notifications/ack");
}

#[test]
fn the_request_body_escapes_the_participant() {
    let r = create_request("p\"1\\x");
    assert_eq!(r.body.as_deref(), Some("{\"player_id\":\"p\\\"1\\\\x\"}"));
}

#[test]
fn exactly_nonempty_notification_polls_are_acknowledged() {
    assert!(!should_acknowledge(&Vec::new()));
    assert!(should_acknowledge(&vec!["you are connected".to_string()]));
}

#[test]
fn messages_post_to_the_connection() {
    let r = message_request("c1", "P1", "hi \"there\"");
    assert_eq!(r.method, HttpMethod::Post);
    assert_eq!(r.path, "/connections/c1/messages");
    assert_eq!(
        r.body.as_deref(),
        Some("{\"player_id\":\"P1\",\"content\":\"hi \\\"there\\\"\"}")
    );
}
