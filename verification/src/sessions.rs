//! Which client each session belongs to.

use crate::ids::{ClientId, SessionId};
use std::collections::HashMap;
use vstd::prelude::*;

verus! {

broadcast use vstd::std_specs::hash::group_hash_axioms;

/// The sessions that are open, each with its client.
pub struct Sessions {
    pub by_session: HashMap<u128, ClientId>,
}

impl View for Sessions {
    type V = Map<u128, ClientId>;

    open spec fn view(&self) -> Map<u128, ClientId> {
        self.by_session@
    }
}

/// The client of a session, if the session is open.
pub open spec fn client_in(sessions: Map<u128, ClientId>, session_id: SessionId) -> Option<ClientId> {
    if sessions.contains_key(session_id.0) {
        Some(sessions[session_id.0])
    } else {
        None
    }
}

impl Sessions {
    /// No session is open.
    pub fn new() -> (s: Sessions)
        ensures
            s@ == Map::<u128, ClientId>::empty(),
    {
        Sessions { by_session: HashMap::new() }
    }

    /// Opens a session for a client. A session that was open under the same
    /// id is the new client's from now on.
    pub fn open(&mut self, session_id: SessionId, client_id: ClientId)
        ensures
            final(self)@ == old(self)@.insert(session_id.0, client_id),
    {
        self.by_session.insert(session_id.0, client_id);
    }

    /// Closes a session, and says whose it was.
    pub fn close(&mut self, session_id: SessionId) -> (r: Option<ClientId>)
        ensures
            final(self)@ == old(self)@.remove(session_id.0),
            r == client_in(old(self)@, session_id),
    {
        self.by_session.remove(&session_id.0)
    }

    /// The client of a session, if the session is open.
    pub fn client_of(&self, session_id: SessionId) -> (r: Option<ClientId>)
        ensures
            r == client_in(self@, session_id),
    {
        match self.by_session.get(&session_id.0) {
            Some(c) => Some(*c),
            None => None,
        }
    }
}

/// A session that was opened belongs to its client until it is closed, and
/// to nobody afterwards; other sessions are untouched by either.
pub proof fn lemma_open_then_close(
    sessions: Map<u128, ClientId>,
    session_id: SessionId,
    client_id: ClientId,
    other: SessionId,
)
    requires
        other != session_id,
    ensures
        client_in(sessions.insert(session_id.0, client_id), session_id) == Some(client_id),
        client_in(sessions.insert(session_id.0, client_id).remove(session_id.0), session_id)
            is None,
        client_in(sessions.insert(session_id.0, client_id), other) == client_in(sessions, other),
        client_in(sessions.remove(session_id.0), other) == client_in(sessions, other),
{
}

} // verus!
