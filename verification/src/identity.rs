//! The identity store: the durable anonymous participant id, created once and
//! never rotated. The id is modelled here; mirroring it into the browser's
//! storage is the caller's job, and a caller that failed to persist simply
//! hydrates the store empty next time, which regenerates.

use vstd::prelude::*;

verus! {

/// Whether a character can appear in a participant id: a lowercase
/// hexadecimal digit.
pub open spec fn is_hex_lower(c: char) -> bool {
    (48 <= c as u32 <= 57) || (97 <= c as u32 <= 102)
}

/// Whether a string is a hyphenated participant id: thirty-six characters,
/// hyphens exactly at positions eight, thirteen, eighteen and twenty-three,
/// lowercase hexadecimal digits everywhere else.
pub open spec fn is_player_id(s: Seq<char>) -> bool {
    &&& s.len() == 36
    &&& s[8] == '-' && s[13] == '-' && s[18] == '-' && s[23] == '-'
    &&& forall|i: int|
        (0 <= i < 36 && i != 8 && i != 13 && i != 18 && i != 23) ==> is_hex_lower(#[trigger] s[i])
}

/// Relies on `uuid::Uuid::new_v4` and the `Display` of `uuid::Uuid`: a fresh
/// random identifier rendered in the hyphenated lowercase form, thirty-six
/// characters with hyphens at fixed positions. Randomness promises nothing
/// more: two calls may or may not differ.
#[verifier::external_body]
fn generate_player_id() -> (r: String)
    ensures
        is_player_id(r@),
{
    uuid::Uuid::new_v4().to_string()
}

/// The durable participant identity, backed by one slot of the local store.
pub struct IdentityStore {
    player_id: Option<String>,
}

impl IdentityStore {
    /// The id the store holds, if any.
    pub closed spec fn stored(&self) -> Option<Seq<char>> {
        match self.player_id {
            Some(s) => Some(s@),
            None => None,
        }
    }

    /// A store hydrated from whatever the local store held: the persisted id,
    /// or nothing.
    pub fn hydrate(persisted: Option<String>) -> (r: Self)
        ensures
            r.stored() == (match persisted {
                Some(s) => Some(s@),
                None => None::<Seq<char>>,
            }),
    {
        IdentityStore { player_id: persisted }
    }

    /// The stored participant id, or `None` when none was ever created.
    pub fn get_stored_player_id(&self) -> (r: Option<String>)
        ensures
            match r {
                Some(s) => self.stored() == Some(s@),
                None => self.stored() is None,
            },
    {
        match &self.player_id {
            Some(s) => Some(s.clone()),
            None => None,
        }
    }

    /// The participant id, creating and storing a fresh one when none exists
    /// yet. An id already stored is returned unchanged, never rotated; a
    /// fresh one is a hyphenated random identifier.
    pub fn get_or_create(&mut self) -> (r: String)
        ensures
            final(self).stored() == Some(r@),
            old(self).stored() matches Some(p) ==> r@ == p,
            old(self).stored() is None ==> is_player_id(r@),
    {
        match &self.player_id {
            Some(s) => s.clone(),
            None => {
                let fresh = generate_player_id();
                self.player_id = Some(fresh.clone());
                fresh
            },
        }
    }

    /// What the caller should write back to the local store.
    pub fn persisted(&self) -> (r: Option<String>)
        ensures
            match r {
                Some(s) => self.stored() == Some(s@),
                None => self.stored() is None,
            },
    {
        self.get_stored_player_id()
    }
}

} // verus!
