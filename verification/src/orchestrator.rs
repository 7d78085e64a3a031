//! The reconciliation orchestrator: the decisions of one activation of the
//! pairing flow, as a state machine from events to actions. The caller
//! performs each returned action — one HTTP exchange — and hands the outcome
//! back; every successful connection is written through the cache here, which
//! stays the single source of truth.

use vstd::prelude::*;
use crate::cache::{spec_remove, spec_remove_name, spec_set_name, spec_upsert, ConnectionCache};
use crate::client::PairingError;
use crate::lifecycle::{spec_default_expiry, spec_derive_status, ConnectionStatus, ExpiredRecovery};
use crate::model::{clone_strings, record_of, Connection, ConnectionView, LocalConnectionRecord};
use crate::wire::strs_of;

verus! {

/// Where one activation of the pairing flow stands.
#[derive(Clone, Copy, Debug, PartialEq, Eq, Structural)]
pub enum Phase {
    /// An inbound token was found in the URL: a submit will join, and no
    /// fresh link is generated on its account.
    JoinIntent,
    /// No inbound token: a fresh shareable link was requested right away so
    /// that it is ready the instant it is needed.
    PrefetchingLink,
    /// The pre-generated link is at hand, ready to display and share.
    LinkReady,
    /// A create for a submitted name is outstanding.
    SubmittingCreate,
    /// A join for a submitted name is outstanding.
    SubmittingJoin,
    /// The submitted pairing was written through the cache.
    Done,
    /// A failure was surfaced; no further automatic recovery.
    Errored,
}

/// What the caller must do next: one remote operation.
pub enum Action {
    /// Request a fresh connection for this participant.
    Create,
    /// Join the connection behind the token.
    Join(String),
}

/// The state of one activation: the participant, the inbound token if the
/// URL carried one, the link being displayed, the name the user typed, and
/// whether a replacement link was already issued for a surfaced error.
pub struct Reconciler {
    pub phase: Phase,
    pub player_id: String,
    pub inbound_token: Option<String>,
    pub display_link: Option<String>,
    pub pending_name: Option<String>,
    pub regenerated: bool,
    pub last_error: Option<PairingError>,
}

/// The friendly name a success is attributed to: the one the user typed, or
/// nothing when no submit happened.
pub open spec fn pending_name_view(r: Reconciler) -> Seq<char> {
    match r.pending_name {
        Some(n) => n@,
        None => Seq::<char>::empty(),
    }
}

impl Reconciler {
    /// Start one activation. An inbound token in the URL is a join-intent
    /// and suppresses link generation; without one a fresh link is requested
    /// immediately.
    pub fn activate(player_id: String, inbound_token: Option<String>) -> (r: (
        Reconciler,
        Option<Action>,
    ))
        ensures
            r.0.player_id == player_id,
            r.0.inbound_token == inbound_token,
            !r.0.regenerated,
            r.0.pending_name is None,
            r.0.display_link is None,
            r.0.last_error is None,
            inbound_token is Some ==> r.0.phase == Phase::JoinIntent && r.1 is None,
            inbound_token is None ==> r.0.phase == Phase::PrefetchingLink && r.1 matches Some(
                Action::Create,
            ),
    {
        let phase = match &inbound_token {
            Some(_) => Phase::JoinIntent,
            None => Phase::PrefetchingLink,
        };
        let action = match &inbound_token {
            Some(_) => None,
            None => Some(Action::Create),
        };
        (
            Reconciler {
                phase,
                player_id,
                inbound_token,
                display_link: None,
                pending_name: None,
                regenerated: false,
                last_error: None,
            },
            action,
        )
    }

    /// Submit the validated name the user typed: a join when the activation
    /// carries an inbound token, a create otherwise. The name is kept so the
    /// eventual connection is attributed to it.
    pub fn submit(&mut self, name: String) -> (a: Action)
        ensures
            final(self).pending_name == Some(name),
            final(self).player_id == old(self).player_id,
            final(self).inbound_token == old(self).inbound_token,
            final(self).display_link == old(self).display_link,
            final(self).regenerated == old(self).regenerated,
            final(self).last_error == old(self).last_error,
            match old(self).inbound_token {
                Some(t) => final(self).phase == Phase::SubmittingJoin && (a matches Action::Join(tk)
                    && tk == t),
                None => final(self).phase == Phase::SubmittingCreate && a matches Action::Create,
            },
    {
        self.pending_name = Some(name);
        match &self.inbound_token {
            Some(t) => {
                self.phase = Phase::SubmittingJoin;
                Action::Join(t.clone())
            },
            None => {
                self.phase = Phase::SubmittingCreate;
                Action::Create
            },
        }
    }

    /// A connection came back. While pre-fetching it only supplies the link
    /// to display — nothing is persisted for an unsubmitted form. After a
    /// submit it is written through the cache: its durable record under the
    /// submitted name, and the name filed in the index.
    pub fn on_connection_ok(&mut self, cache: &mut ConnectionCache, conn: &Connection)
        requires
            old(cache).wf(),
        ensures
            final(cache).wf(),
            final(self).player_id == old(self).player_id,
            final(self).inbound_token == old(self).inbound_token,
            final(self).pending_name == old(self).pending_name,
            final(self).regenerated == old(self).regenerated,
            old(self).phase == Phase::PrefetchingLink ==> {
                &&& final(self).phase == Phase::LinkReady
                &&& final(self).display_link matches Some(l) && l@ == conn@.link_id
                &&& final(cache).records_view() == old(cache).records_view()
                &&& final(cache).names_view() == old(cache).names_view()
            },
            (old(self).phase == Phase::SubmittingCreate || old(self).phase
                == Phase::SubmittingJoin) ==> {
                &&& final(self).phase == Phase::Done
                &&& final(cache).records_view() == spec_upsert(
                    old(cache).records_view(),
                    record_of(conn@, pending_name_view(*old(self))),
                )
                &&& final(cache).names_view() == spec_set_name(
                    old(cache).names_view(),
                    conn@.id,
                    pending_name_view(*old(self)),
                )
            },
            !(old(self).phase == Phase::PrefetchingLink || old(self).phase
                == Phase::SubmittingCreate || old(self).phase == Phase::SubmittingJoin) ==> {
                &&& *final(self) == *old(self)
                &&& final(cache).records_view() == old(cache).records_view()
                &&& final(cache).names_view() == old(cache).names_view()
            },
    {
        match self.phase {
            Phase::PrefetchingLink => {
                self.display_link = Some(conn.link_id.clone());
                self.phase = Phase::LinkReady;
            },
            Phase::SubmittingCreate | Phase::SubmittingJoin => {
                let name = match &self.pending_name {
                    Some(n) => n.clone(),
                    None => String::new(),
                };
                let record = LocalConnectionRecord::of_connection(conn, &name);
                cache.upsert(record);
                cache.set_friendly_name(&conn.id, &name);
                self.phase = Phase::Done;
            },
            _ => {},
        }
    }

    /// A join was rejected. An exhausted link — already used, or the
    /// participant already connected — triggers the automatic regeneration of
    /// a fresh link, exactly once per surfaced error, attributed to the name
    /// the user had already typed. Everything else, and a second exhaustion,
    /// is surfaced as the final error.
    pub fn on_join_failed(&mut self, error: PairingError) -> (a: Option<Action>)
        ensures
            final(self).player_id == old(self).player_id,
            final(self).inbound_token == old(self).inbound_token,
            final(self).display_link == old(self).display_link,
            final(self).pending_name == old(self).pending_name,
            old(self).phase == Phase::SubmittingJoin ==> {
                if error == PairingError::LinkExhausted && !old(self).regenerated {
                    &&& a matches Some(Action::Create)
                    &&& final(self).phase == Phase::SubmittingCreate
                    &&& final(self).regenerated
                    &&& final(self).last_error == old(self).last_error
                } else {
                    &&& a is None
                    &&& final(self).phase == Phase::Errored
                    &&& final(self).last_error == Some(error)
                    &&& final(self).regenerated == old(self).regenerated
                }
            },
            old(self).phase != Phase::SubmittingJoin ==> *final(self) == *old(self) && a is None,
    {
        if !matches!(self.phase, Phase::SubmittingJoin) {
            return None;
        }
        match error {
            PairingError::LinkExhausted => {
                if !self.regenerated {
                    self.regenerated = true;
                    self.phase = Phase::SubmittingCreate;
                    Some(Action::Create)
                } else {
                    self.phase = Phase::Errored;
                    self.last_error = Some(error);
                    None
                }
            },
            _ => {
                self.phase = Phase::Errored;
                self.last_error = Some(error);
                None
            },
        }
    }

    /// A create failed: surfaced as the final error, with no automatic retry.
    pub fn on_create_failed(&mut self, error: PairingError)
        ensures
            final(self).player_id == old(self).player_id,
            final(self).inbound_token == old(self).inbound_token,
            final(self).display_link == old(self).display_link,
            final(self).pending_name == old(self).pending_name,
            final(self).regenerated == old(self).regenerated,
            (old(self).phase == Phase::PrefetchingLink || old(self).phase
                == Phase::SubmittingCreate) ==> final(self).phase == Phase::Errored
                && final(self).last_error == Some(error),
            !(old(self).phase == Phase::PrefetchingLink || old(self).phase
                == Phase::SubmittingCreate) ==> *final(self) == *old(self),
    {
        match self.phase {
            Phase::PrefetchingLink | Phase::SubmittingCreate => {
                self.phase = Phase::Errored;
                self.last_error = Some(error);
            },
            _ => {},
        }
    }

    /// A fetch-by-token found no connection behind the link: the link is
    /// expired or invalid, and a fresh one is generated, once per surfaced
    /// error. Any other fetch failure is surfaced.
    pub fn on_fetch_failed(&mut self, error: PairingError) -> (a: Option<Action>)
        ensures
            final(self).player_id == old(self).player_id,
            final(self).inbound_token == old(self).inbound_token,
            final(self).display_link == old(self).display_link,
            final(self).pending_name == old(self).pending_name,
            if error == PairingError::NotFound && !old(self).regenerated {
                &&& a matches Some(Action::Create)
                &&& final(self).phase == Phase::PrefetchingLink
                &&& final(self).regenerated
                &&& final(self).last_error == old(self).last_error
            } else {
                &&& a is None
                &&& final(self).phase == Phase::Errored
                &&& final(self).last_error == Some(error)
                &&& final(self).regenerated == old(self).regenerated
            },
    {
        if matches!(error, PairingError::NotFound) && !self.regenerated {
            self.regenerated = true;
            self.phase = Phase::PrefetchingLink;
            Some(Action::Create)
        } else {
            self.phase = Phase::Errored;
            self.last_error = Some(error);
            None
        }
    }
}

/// Apply the recovery the user chose for an expired record: `Delete` removes
/// the record and its friendly name from the cache, terminally; `Refresh`
/// keeps the record and asks for a fresh link in its place.
pub fn recover_expired(cache: &mut ConnectionCache, id: &String, recovery: ExpiredRecovery) -> (a:
    Option<Action>)
    requires
        old(cache).wf(),
    ensures
        final(cache).wf(),
        recovery == ExpiredRecovery::Delete ==> {
            &&& final(cache).records_view() == spec_remove(old(cache).records_view(), id@)
            &&& final(cache).names_view() == spec_remove_name(old(cache).names_view(), id@)
            &&& a is None
        },
        recovery == ExpiredRecovery::Refresh ==> {
            &&& final(cache).records_view() == old(cache).records_view()
            &&& final(cache).names_view() == old(cache).names_view()
            &&& a matches Some(Action::Create)
        },
{
    match recovery {
        ExpiredRecovery::Delete => {
            cache.remove(id);
            None
        },
        ExpiredRecovery::Refresh => Some(Action::Create),
    }
}

/// One row of the reconciled view: the cached record with the live status
/// and participants of the current render pass. Never persisted.
pub struct LiveConnection {
    pub record: LocalConnectionRecord,
    pub status: ConnectionStatus,
    pub players: Vec<String>,
}

/// What a cached record shows at `now_ms` against an optional freshly
/// fetched connection: a matching fetch layers its status (re-derived
/// against its own deadline) and participants on top for this render pass;
/// otherwise the record stands alone, `Pending` by default until its
/// one-day deadline passes.
pub open spec fn spec_row(
    r: crate::model::RecordView,
    remote: Option<ConnectionView>,
    now_ms: int,
) -> (ConnectionStatus, Seq<Seq<char>>) {
    match remote {
        Some(c) => if c.id == r.id {
            (spec_derive_status(Some(c.status), c.expires_at, now_ms), c.players)
        } else {
            (
                spec_derive_status(None, spec_default_expiry(r.created_at), now_ms),
                Seq::<Seq<char>>::empty(),
            )
        },
        None => (
            spec_derive_status(None, spec_default_expiry(r.created_at), now_ms),
            Seq::<Seq<char>>::empty(),
        ),
    }
}

/// Compute the reconciled view of the cached records at `now_ms`, layering a
/// freshly fetched connection over the record with its id. Expiry is
/// re-derived locally for every row, whatever status was last reported.
pub fn reconcile_rows(
    records: &Vec<LocalConnectionRecord>,
    remote: Option<&Connection>,
    now_ms: i64,
) -> (rows: Vec<LiveConnection>)
    ensures
        rows@.len() == records@.len(),
        forall|k: int|
            0 <= k < rows@.len() ==> {
                let expect = spec_row(
                    records@[k]@,
                    match remote {
                        Some(c) => Some(c@),
                        None => None::<ConnectionView>,
                    },
                    now_ms as int,
                );
                (#[trigger] rows@[k]).record@ == records@[k]@ && rows@[k].status == expect.0
                    && strs_of(rows@[k].players@) == expect.1
            },
{
    let n = records.len();
    let mut rows: Vec<LiveConnection> = Vec::new();
    let mut i: usize = 0;
    while i < n
        invariant
            i <= n,
            n == records@.len(),
            rows@.len() == i,
            forall|k: int|
                0 <= k < i ==> {
                    let expect = spec_row(
                        records@[k]@,
                        match remote {
                            Some(c) => Some(c@),
                            None => None::<ConnectionView>,
                        },
                        now_ms as int,
                    );
                    (#[trigger] rows@[k]).record@ == records@[k]@ && rows@[k].status == expect.0
                        && strs_of(rows@[k].players@) == expect.1
                },
        decreases n - i,
    {
        let record = records[i].clone();
        let row = match remote {
            Some(c) => {
                if crate::text::string_eq(&c.id, &record.id) {
                    let status = crate::lifecycle::derive_status(
                        Some(c.status),
                        c.expires_at,
                        now_ms,
                    );
                    let players = clone_strings(&c.players);
                    proof {
                        assert(strs_of(players@) =~= c@.players);
                    }
                    LiveConnection { record, status, players }
                } else {
                    let deadline = crate::lifecycle::default_expiry(record.created_at);
                    let status = crate::lifecycle::derive_status(None, deadline, now_ms);
                    let players = Vec::<String>::new();
                    proof {
                        assert(strs_of(players@) =~= Seq::<Seq<char>>::empty());
                    }
                    LiveConnection { record, status, players }
                }
            },
            None => {
                let deadline = crate::lifecycle::default_expiry(record.created_at);
                let status = crate::lifecycle::derive_status(None, deadline, now_ms);
                let players = Vec::<String>::new();
                proof {
                    assert(strs_of(players@) =~= Seq::<Seq<char>>::empty());
                }
                LiveConnection { record, status, players }
            },
        };
        rows.push(row);
        i = i + 1;
    }
    rows
}

} // verus!
