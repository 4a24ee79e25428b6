//! What the gateway keeps of a WebSocket session.

use crate::gateway::idle_status::UtcTime;
use crate::ids::{ClientId, GameId, SessionId};
use vstd::prelude::*;

verus! {

/// One WebSocket session.
#[derive(Clone, Copy, Debug, PartialEq, Eq, Hash, Structural)]
pub struct WsSession {
    pub client_id: ClientId,
    pub session_id: SessionId,
    /// The game that the client is in, if any.
    pub current_game: Option<GameId>,
    /// When the client last answered a ping.
    pub last_pong_at: UtcTime,
}

impl WsSession {
    /// The session of a client that has just connected at time `now`.
    pub fn open(client_id: ClientId, session_id: SessionId, now: UtcTime) -> (s: WsSession)
        ensures
            s == (WsSession { client_id, session_id, current_game: None, last_pong_at: now }),
    {
        WsSession { client_id, session_id, current_game: None, last_pong_at: now }
    }
}

} // verus!
