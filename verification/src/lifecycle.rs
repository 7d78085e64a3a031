//! Connection status derivation and the pairing-form flow.
//!
//! A connection moves `Pending -> Active -> Expired`, and `Expired` wins over
//! anything the server last said once the deadline has passed.

use vstd::prelude::*;

verus! {

/// Lifecycle status of a connection, as reported by the pairing service or
/// derived locally from its expiry deadline.
#[derive(Clone, Copy, Debug, PartialEq, Eq, Structural)]
pub enum ConnectionStatus {
    Pending,
    Active,
    Expired,
}

/// The status a record presents at time `now_ms`: `Expired` as soon as the
/// deadline is reached, otherwise the last server-reported status, defaulting
/// to `Pending` when the server never confirmed one.
pub open spec fn spec_derive_status(
    last_known: Option<ConnectionStatus>,
    expires_at: int,
    now_ms: int,
) -> ConnectionStatus {
    if now_ms >= expires_at {
        ConnectionStatus::Expired
    } else {
        match last_known {
            Some(s) => s,
            None => ConnectionStatus::Pending,
        }
    }
}

/// Derive the live status of a record whose deadline is `expires_at`
/// (milliseconds since the epoch, like `now_ms`).
pub fn derive_status(
    last_known: Option<ConnectionStatus>,
    expires_at: i64,
    now_ms: i64,
) -> (status: ConnectionStatus)
    ensures
        status == spec_derive_status(last_known, expires_at as int, now_ms as int),
{
    if now_ms >= expires_at {
        ConnectionStatus::Expired
    } else {
        match last_known {
            Some(s) => s,
            None => ConnectionStatus::Pending,
        }
    }
}

/// Once the deadline has passed, the derived status is `Expired` no matter
/// what status was stored or reported before.
pub proof fn lemma_expiry_dominates(
    last_known: Option<ConnectionStatus>,
    expires_at: int,
    now_ms: int,
)
    requires
        now_ms >= expires_at,
    ensures
        spec_derive_status(last_known, expires_at, now_ms) == ConnectionStatus::Expired,
{
}

/// The default lifetime of a connection, in milliseconds: one day.
pub const DAY_MS: i64 = 86400000;

/// The deadline of a record that carries none of its own: one day past its
/// creation, saturating at the largest representable instant.
pub open spec fn spec_default_expiry(created_at: int) -> int {
    if created_at + 86400000 <= i64::MAX {
        created_at + 86400000
    } else {
        i64::MAX as int
    }
}

/// The deadline of a cached record: one day past its creation.
pub fn default_expiry(created_at: i64) -> (r: i64)
    ensures
        r == spec_default_expiry(created_at as int),
{
    match created_at.checked_add(DAY_MS) {
        Some(v) => v,
        None => i64::MAX,
    }
}

/// Status derivation is monotonic in time: a record seen as `Expired` at some
/// instant is still `Expired` at every later instant.
pub proof fn lemma_expired_is_terminal(
    last_known: Option<ConnectionStatus>,
    expires_at: int,
    now1: int,
    now2: int,
)
    requires
        now1 <= now2,
        spec_derive_status(last_known, expires_at, now1) == ConnectionStatus::Expired,
    ensures
        spec_derive_status(last_known, expires_at, now2) == ConnectionStatus::Expired,
{
}

/// The two ways the connection dialog is opened: to add a connection, or to
/// view one that already exists.
#[derive(Clone, Copy, Debug, PartialEq, Eq, Structural)]
pub enum ConnectionModalMode {
    Add,
    View,
}

/// The two recoveries an expired record offers: re-issue a fresh link, or
/// delete the record.
#[derive(Clone, Copy, Debug, PartialEq, Eq, Structural)]
pub enum ExpiredRecovery {
    Refresh,
    Delete,
}

/// Whether clicking a record's status opens the expired-record dialog (with
/// its two recoveries) rather than the ordinary view dialog.
pub fn shows_expired_dialog(status: ConnectionStatus) -> (r: bool)
    ensures
        r == (status == ConnectionStatus::Expired),
{
    match status {
        ConnectionStatus::Expired => true,
        _ => false,
    }
}

/// The whitespace characters the name validation recognises.
pub open spec fn is_space(c: char) -> bool {
    c == ' ' || c == '\t' || c == '\n' || c == '\r' || c == '\u{c}'
}

/// Whether a draft name is blank: empty, or nothing but whitespace.
pub open spec fn is_blank(s: Seq<char>) -> bool {
    forall|i: int| 0 <= i < s.len() ==> is_space(#[trigger] s[i])
}

/// Check whether a draft name is blank. A blank name never reaches the
/// network: submission is rejected locally.
pub fn name_is_blank(name: &str) -> (r: bool)
    ensures
        r == is_blank(name@),
{
    let cs = crate::text::str_chars(name);
    let n = cs.len();
    let mut i: usize = 0;
    while i < n
        invariant
            i <= n,
            n == name@.len(),
            cs@ == name@,
            forall|k: int| 0 <= k < i ==> is_space(#[trigger] name@[k]),
        decreases n - i,
    {
        let c = cs[i];
        if !(c == ' ' || c == '\t' || c == '\n' || c == '\r' || c == '\u{c}') {
            return false;
        }
        i = i + 1;
    }
    true
}

/// The pairing form's sub-flow. It is never persisted: `Idle` until the form
/// opens, `Composing` while the user types (with a validation flag), and
/// `Submitting` once a non-blank name goes out; success lands in `Done` and
/// resets to `Idle`, failure lands in `Failed` with the surfaced message.
pub enum PairingFlow {
    Idle,
    Composing { draft: String, show_error: bool },
    Submitting { name: String },
    Done,
    Failed { message: String },
}

impl PairingFlow {
    /// Open the form: an empty draft and no validation error.
    pub fn start_composing(self) -> (r: Self)
        ensures
            r matches PairingFlow::Composing { draft, show_error } && draft@ == Seq::<
                char,
            >::empty() && !show_error,
    {
        PairingFlow::Composing { draft: String::new(), show_error: false }
    }

    /// Replace the draft; typing clears any validation error.
    pub fn edit_draft(self, draft: String) -> (r: Self)
        ensures
            self matches PairingFlow::Composing { .. } ==> (r matches PairingFlow::Composing {
                draft: d,
                show_error,
            } && d == draft && !show_error),
            !(self matches PairingFlow::Composing { .. }) ==> r == self,
    {
        match self {
            PairingFlow::Composing { .. } => PairingFlow::Composing { draft, show_error: false },
            other => other,
        }
    }

    /// Submit the draft. A blank draft is rejected: the flow stays in
    /// `Composing` with the validation error shown and nothing is sent.
    /// Otherwise the flow moves to `Submitting` and the name is accepted.
    pub fn submit(self) -> (r: (Self, Option<String>))
        ensures
            match self {
                PairingFlow::Composing { draft, .. } => {
                    if is_blank(draft@) {
                        &&& r.0 matches PairingFlow::Composing { draft: d, show_error } && d
                            == draft && show_error
                        &&& r.1 is None
                    } else {
                        &&& r.0 matches PairingFlow::Submitting { name } && name == draft
                        &&& r.1 matches Some(n) && n == draft
                    }
                },
                _ => r.0 == self && r.1 is None,
            },
    {
        match self {
            PairingFlow::Composing { draft, show_error: _ } => {
                if name_is_blank(draft.as_str()) {
                    (PairingFlow::Composing { draft, show_error: true }, None)
                } else {
                    let name = draft.clone();
                    (PairingFlow::Submitting { name: draft }, Some(name))
                }
            },
            other => (other, None),
        }
    }

    /// Submission succeeded: the flow lands in `Done`.
    pub fn complete(self) -> (r: Self)
        ensures
            self matches PairingFlow::Submitting { .. } ==> r == PairingFlow::Done,
            !(self matches PairingFlow::Submitting { .. }) ==> r == self,
    {
        match self {
            PairingFlow::Submitting { .. } => PairingFlow::Done,
            other => other,
        }
    }

    /// Submission failed: the flow lands in `Failed` with the message.
    pub fn fail(self, message: String) -> (r: Self)
        ensures
            self matches PairingFlow::Submitting { .. } ==> (r matches PairingFlow::Failed {
                message: m,
            } && m == message),
            !(self matches PairingFlow::Submitting { .. }) ==> r == self,
    {
        match self {
            PairingFlow::Submitting { .. } => PairingFlow::Failed { message },
            other => other,
        }
    }

    /// After `Done` the draft is gone and the flow returns to `Idle`.
    pub fn reset(self) -> (r: Self)
        ensures
            self matches PairingFlow::Done ==> r == PairingFlow::Idle,
            !(self matches PairingFlow::Done) ==> r == self,
    {
        match self {
            PairingFlow::Done => PairingFlow::Idle,
            other => other,
        }
    }
}

} // verus!
