//! The pairing client's verifiable half: what each remote operation sends —
//! method, path and body — and how a reply's status and body classify into
//! the error taxonomy. Performing the transfer is the caller's job; every
//! decision about the exchange is made here.

use vstd::prelude::*;
use vstd::string::StringExecFns;
use crate::text::{chars_string, escaped, has_sub, push_escaped, push_lit, str_chars};

verus! {

/// Why a remote operation failed.
///
/// `Transport` carries the HTTP status (0 when the request never completed);
/// it is surfaced as a dismissible message and is never fatal. `NotFound` is
/// a missing link on fetch and triggers regeneration. `LinkExhausted` is a
/// rejected join — the link was already used or the participant is already
/// connected — and triggers automatic regeneration of a fresh link.
#[derive(Clone, Copy, Debug, PartialEq, Eq, Structural)]
pub enum PairingError {
    Transport(u16),
    NotFound,
    LinkExhausted,
}

/// HTTP method of a pairing-service request.
#[derive(Clone, Copy, Debug, PartialEq, Eq, Structural)]
pub enum HttpMethod {
    Get,
    Post,
}

/// A pairing-service request, described but not sent: the method, the path
/// under the service's base URL, and the JSON body when one is posted.
pub struct HttpRequest {
    pub method: HttpMethod,
    pub path: String,
    pub body: Option<String>,
}

/// The JSON body naming the requesting participant.
pub open spec fn player_body_chars(player_id: Seq<char>) -> Seq<char> {
    "{\"player_id\":\""@ + escaped(player_id) + "\"}"@
}

/// Render the JSON body naming the requesting participant.
fn player_body(player_id: &str) -> (r: String)
    ensures
        r@ == player_body_chars(player_id@),
{
    let mut out: Vec<char> = Vec::new();
    push_lit(&mut out, "{\"player_id\":\"");
    let pc = str_chars(player_id);
    push_escaped(&mut out, &pc);
    push_lit(&mut out, "\"}");
    proof {
        assert(out@ =~= player_body_chars(player_id@));
    }
    chars_string(&out)
}

/// The request that creates a connection seeded with the given participant.
pub fn create_request(player_id: &str) -> (r: HttpRequest)
    ensures
        r.method == HttpMethod::Post,
        r.path@ == "/connections"@,
        r.body matches Some(b) && b@ == player_body_chars(player_id@),
{
    HttpRequest {
        method: HttpMethod::Post,
        path: String::from_str("/connections"),
        body: Some(player_body(player_id)),
    }
}

/// The request that joins the connection behind a link token.
pub fn join_request(link_id: &str, player_id: &str) -> (r: HttpRequest)
    ensures
        r.method == HttpMethod::Post,
        r.path@ == "/connections/link/"@ + link_id@ + "/join"@,
        r.body matches Some(b) && b@ == player_body_chars(player_id@),
{
    let mut path = String::from_str("/connections/link/");
    path.append(link_id);
    path.append("/join");
    HttpRequest { method: HttpMethod::Post, path, body: Some(player_body(player_id)) }
}

/// The read-only request that fetches the connection behind a link token.
pub fn fetch_request(link_id: &str) -> (r: HttpRequest)
    ensures
        r.method == HttpMethod::Get,
        r.path@ == "/connections/link/"@ + link_id@,
        r.body is None,
{
    let mut path = String::from_str("/connections/link/");
    path.append(link_id);
    HttpRequest { method: HttpMethod::Get, path, body: None }
}

/// The request that polls a participant's notifications.
pub fn notifications_request(player_id: &str) -> (r: HttpRequest)
    ensures
        r.method == HttpMethod::Get,
        r.path@ == "/players/"@ + player_id@ + "/notifications"@,
        r.body is None,
{
    let mut path = String::from_str("/players/");
    path.append(player_id);
    path.append("/notifications");
    HttpRequest { method: HttpMethod::Get, path, body: None }
}

/// The request that acknowledges a participant's notifications.
pub fn ack_request(player_id: &str) -> (r: HttpRequest)
    ensures
        r.method == HttpMethod::Post,
        r.path@ == "/players/"@ + player_id@ + "/notifications/ack"@,
        r.body is None,
{
    let mut path = String::from_str("/players/");
    path.append(player_id);
    path.append("/notifications/ack");
    HttpRequest { method: HttpMethod::Post, path, body: None }
}

/// The JSON body of a message: the sending participant and the content.
pub open spec fn message_body_chars(player_id: Seq<char>, content: Seq<char>) -> Seq<char> {
    "{\"player_id\":\""@ + escaped(player_id) + "\",\"content\":\""@ + escaped(content) + "\"}"@
}

/// The request that sends a message into a connection.
pub fn message_request(connection_id: &str, player_id: &str, content: &str) -> (r: HttpRequest)
    ensures
        r.method == HttpMethod::Post,
        r.path@ == "/connections/"@ + connection_id@ + "/messages"@,
        r.body matches Some(b) && b@ == message_body_chars(player_id@, content@),
{
    let mut path = String::from_str("/connections/");
    path.append(connection_id);
    path.append("/messages");
    let mut out: Vec<char> = Vec::new();
    push_lit(&mut out, "{\"player_id\":\"");
    let pc = str_chars(player_id);
    push_escaped(&mut out, &pc);
    push_lit(&mut out, "\",\"content\":\"");
    let cc = str_chars(content);
    push_escaped(&mut out, &cc);
    push_lit(&mut out, "\"}");
    proof {
        assert(out@ =~= message_body_chars(player_id@, content@));
    }
    HttpRequest { method: HttpMethod::Post, path, body: Some(chars_string(&out)) }
}

/// How a failed fetch-by-token classifies: a missing link is `NotFound`,
/// anything else is transport failure.
pub open spec fn spec_classify_fetch(status: u16) -> PairingError {
    if status == 404 {
        PairingError::NotFound
    } else {
        PairingError::Transport(status)
    }
}

/// Classify a failed fetch-by-token reply by its HTTP status.
pub fn classify_fetch_failure(status: u16) -> (r: PairingError)
    ensures
        r == spec_classify_fetch(status),
{
    if status == 404 {
        PairingError::NotFound
    } else {
        PairingError::Transport(status)
    }
}

/// How a rejected join classifies: a client error whose body says the link
/// is already full, or that the participant is already connected, means the
/// link is exhausted; anything else is transport failure.
pub open spec fn spec_classify_join(status: u16, body: Seq<char>) -> PairingError {
    if 400 <= status < 500 && (has_sub(body, "already full"@) || has_sub(
        body,
        "already connected"@,
    )) {
        PairingError::LinkExhausted
    } else {
        PairingError::Transport(status)
    }
}

/// Classify a rejected join by its HTTP status and response body.
pub fn classify_join_failure(status: u16, body: &str) -> (r: PairingError)
    ensures
        r == spec_classify_join(status, body@),
{
    if 400 <= status && status < 500 {
        let bc = str_chars(body);
        let full = str_chars("already full");
        let connected = str_chars("already connected");
        if crate::text::contains_sub(&bc, &full) || crate::text::contains_sub(&bc, &connected) {
            return PairingError::LinkExhausted;
        }
    }
    PairingError::Transport(status)
}

/// Whether a notification poll must be acknowledged: exactly the non-empty
/// results are, each by one acknowledge call, before they reach the caller.
pub fn should_acknowledge(notifications: &Vec<String>) -> (r: bool)
    ensures
        r == (notifications@.len() > 0),
{
    notifications.len() > 0
}

} // verus!
