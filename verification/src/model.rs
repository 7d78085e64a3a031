//! The data model: the transient `Connection` a pairing-service reply
//! describes, and the narrower `LocalConnectionRecord` the cache persists.

use vstd::prelude::*;
use crate::lifecycle::ConnectionStatus;

verus! {

/// Mathematical view of a `Connection`.
pub ghost struct ConnectionView {
    pub id: Seq<char>,
    pub link_id: Seq<char>,
    pub players: Seq<Seq<char>>,
    pub created_at: int,
    pub status: ConnectionStatus,
    pub expires_at: int,
}

/// A connection as the pairing service reports it: the shareable token, the
/// participants attached so far, and the lifecycle window. Transient: only its
/// projection to a `LocalConnectionRecord` is ever persisted.
pub struct Connection {
    pub id: String,
    pub link_id: String,
    pub players: Vec<String>,
    pub created_at: i64,
    pub status: ConnectionStatus,
    pub expires_at: i64,
}

impl View for Connection {
    type V = ConnectionView;

    open spec fn view(&self) -> ConnectionView {
        ConnectionView {
            id: self.id@,
            link_id: self.link_id@,
            players: self.players.deep_view(),
            created_at: self.created_at as int,
            status: self.status,
            expires_at: self.expires_at as int,
        }
    }
}

/// Copy a vector of strings.
pub fn clone_strings(v: &Vec<String>) -> (r: Vec<String>)
    ensures
        r@ == v@,
{
    let n = v.len();
    let mut r: Vec<String> = Vec::new();
    let mut i: usize = 0;
    while i < n
        invariant
            i <= n,
            n == v@.len(),
            r@.len() == i,
            forall|k: int| 0 <= k < i ==> r@[k] == v@[k],
        decreases n - i,
    {
        r.push(v[i].clone());
        i = i + 1;
    }
    proof {
        assert(r@ =~= v@);
    }
    r
}

impl Clone for Connection {
    fn clone(&self) -> (r: Self)
        ensures
            r@ == self@,
    {
        let players = clone_strings(&self.players);
        Connection {
            id: self.id.clone(),
            link_id: self.link_id.clone(),
            players,
            created_at: self.created_at,
            status: self.status,
            expires_at: self.expires_at,
        }
    }
}

/// Mathematical view of a `LocalConnectionRecord`.
pub ghost struct RecordView {
    pub id: Seq<char>,
    pub link_id: Seq<char>,
    pub friendly_name: Seq<char>,
    pub created_at: int,
}

/// The durable projection of a connection that the cache persists: identity,
/// shareable token, the user's label, and when it was created. Participants
/// and live status are volatile and deliberately not stored.
pub struct LocalConnectionRecord {
    pub id: String,
    pub link_id: String,
    pub friendly_name: String,
    pub created_at: i64,
}

impl View for LocalConnectionRecord {
    type V = RecordView;

    open spec fn view(&self) -> RecordView {
        RecordView {
            id: self.id@,
            link_id: self.link_id@,
            friendly_name: self.friendly_name@,
            created_at: self.created_at as int,
        }
    }
}

impl Clone for LocalConnectionRecord {
    fn clone(&self) -> (r: Self)
        ensures
            r@ == self@,
    {
        LocalConnectionRecord {
            id: self.id.clone(),
            link_id: self.link_id.clone(),
            friendly_name: self.friendly_name.clone(),
            created_at: self.created_at,
        }
    }
}

impl LocalConnectionRecord {
    /// The durable projection of a freshly fetched connection, labelled with
    /// the name the user chose.
    pub fn of_connection(c: &Connection, friendly_name: &String) -> (r: Self)
        ensures
            r@ == record_of(c@, friendly_name@),
    {
        LocalConnectionRecord {
            id: c.id.clone(),
            link_id: c.link_id.clone(),
            friendly_name: friendly_name.clone(),
            created_at: c.created_at,
        }
    }
}

/// The record a connection projects to, once given a friendly name.
pub open spec fn record_of(c: ConnectionView, friendly_name: Seq<char>) -> RecordView {
    RecordView {
        id: c.id,
        link_id: c.link_id,
        friendly_name: friendly_name,
        created_at: c.created_at,
    }
}

} // verus!
