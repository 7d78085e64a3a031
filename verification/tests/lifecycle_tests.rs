use friends_connect::lifecycle::{
    default_expiry, derive_status, name_is_blank, shows_expired_dialog, ConnectionStatus,
    PairingFlow, DAY_MS,
};

#[test]
fn expired_at_the_deadline() {
    // the deadline itself already counts as expired
    assert_eq!(
        derive_status(None, 1000, 1000),
        ConnectionStatus::Expired
    );
}

#[test]
fn expired_overrides_stored_status() {
    assert_eq!(
        derive_status(Some(ConnectionStatus::Active), 1000, 1000),
        ConnectionStatus::Expired
    );
    assert_eq!(
        derive_status(Some(ConnectionStatus::Pending), 5, 100),
        ConnectionStatus::Expired
    );
}

#[test]
fn before_the_deadline_the_server_status_stands() {
    assert_eq!(
        derive_status(Some(ConnectionStatus::Active), 1000, 999),
        ConnectionStatus::Active
    );
    assert_eq!(
        derive_status(Some(ConnectionStatus::Pending), 1000, 0),
        ConnectionStatus::Pending
    );
}

#[test]
fn unknown_status_defaults_to_pending() {
    assert_eq!(derive_status(None, 1000, 999), ConnectionStatus::Pending);
}

#[test]
fn expired_is_terminal_even_before_the_deadline() {
    // a stored Expired stays Expired although the deadline is in the future
    assert_eq!(
        derive_status(Some(ConnectionStatus::Expired), i64::MAX, 0),
        ConnectionStatus::Expired
    );
}

#[test]
fn default_expiry_is_one_day() {
    assert_eq!(default_expiry(0), DAY_MS);
    assert_eq!(default_expiry(1700000000000), 1700000000000 + 86400000);
}

#[test]
fn default_expiry_saturates() {
    assert_eq!(default_expiry(i64::MAX), i64::MAX);
    assert_eq!(default_expiry(i64::MAX - 1), i64::MAX);
}

#[test]
fn only_expired_records_offer_recovery_dialog() {
    assert!(shows_expired_dialog(ConnectionStatus::Expired));
    assert!(!shows_expired_dialog(ConnectionStatus::Pending));
    assert!(!shows_expired_dialog(ConnectionStatus::Active));
}

#[test]
fn blank_names_are_blank() {
    assert!(name_is_blank(""));
    assert!(name_is_blank("   "));
    assert!(name_is_blank(" \t\r\n"));
    assert!(!name_is_blank("Alice"));
    assert!(!name_is_blank("  a  "));
}

#[test]
fn blank_submission_is_rejected_locally() {
    let flow = PairingFlow::Idle.start_composing();
    let flow = flow.edit_draft("   ".to_string());
    let (flow, accepted) = flow.submit();
    assert!(accepted.is_none());
    match flow {
        PairingFlow::Composing { draft, show_error } => {
            assert_eq!(draft, "   ");
            assert!(show_error);
        }
        _ => panic!("a blank submit must stay in the form"),
    }
}

#[test]
fn valid_submission_moves_to_submitting() {
    let flow = PairingFlow::Idle.start_composing();
    let flow = flow.edit_draft("Alice".to_string());
    let (flow, accepted) = flow.submit();
    assert_eq!(accepted.as_deref(), Some("Alice"));
    match &flow {
        PairingFlow::Submitting { name } => assert_eq!(name, "Alice"),
        _ => panic!("a valid submit must move to Submitting"),
    }
    let flow = flow.complete();
    assert!(matches!(flow, PairingFlow::Done));
    let flow = flow.reset();
    assert!(matches!(flow, PairingFlow::Idle));
}

#[test]
fn typing_clears_the_validation_error() {
    let flow = PairingFlow::Idle.start_composing();
    let (flow, _) = flow.submit();
    let flow = flow.edit_draft("B".to_string());
    match flow {
        PairingFlow::Composing { draft, show_error } => {
            assert_eq!(draft, "B");
            assert!(!show_error);
        }
        _ => panic!("editing must stay in the form"),
    }
}

#[test]
fn failure_lands_in_failed_with_the_message() {
    let flow = PairingFlow::Idle.start_composing();
    let flow = flow.edit_draft("Alice".to_string());
    let (flow, _) = flow.submit();
    let flow = flow.fail("API error: 500".to_string());
    match flow {
        PairingFlow::Failed { message } => assert_eq!(message, "API error: 500"),
        _ => panic!("a failed submit must land in Failed"),
    }
}
