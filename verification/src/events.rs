//! The events that the services publish about games and their players.

use crate::ids::{ClientId, EventId, GameId};
use crate::model::{MoveMade, MoveMadeView, Visibility};
use vstd::prelude::*;

verus! {

/// Two clients were matched; the game can begin.
#[derive(Clone, Copy, Debug, PartialEq, Eq, Hash)]
pub struct GameReady {
    pub game_id: GameId,
    pub event_id: EventId,
    /// The client that waited, then the client that joined.
    pub players: (ClientId, ClientId),
    pub board_size: u16,
}

/// A client waits in a game for an opponent.
#[derive(Clone, Copy, Debug, PartialEq, Eq, Hash, Structural)]
pub struct WaitForOpponent {
    pub game_id: GameId,
    pub client_id: ClientId,
    pub event_id: EventId,
    pub visibility: Visibility,
}

/// A client asked to join a private game that cannot take them.
#[derive(Clone, Copy, Debug, PartialEq, Eq, Hash, Structural)]
pub struct PrivateGameRejected {
    pub game_id: GameId,
    pub client_id: ClientId,
    pub event_id: EventId,
}

/// The colours of a game were settled.
#[derive(Clone, Copy, Debug, PartialEq, Eq, Hash, Structural)]
pub struct ColorsChosen {
    pub game_id: GameId,
    pub black: ClientId,
    pub white: ClientId,
}

/// The last move of a game was taken back.
#[derive(Clone, Debug, PartialEq, Eq)]
pub struct MoveUndone {
    pub game_id: GameId,
    pub undone_move: MoveMade,
}

/// The mathematical content of a [`MoveUndone`].
pub struct MoveUndoneView {
    pub game_id: GameId,
    pub undone_move: MoveMadeView,
}

impl View for MoveUndone {
    type V = MoveUndoneView;

    open spec fn view(&self) -> MoveUndoneView {
        MoveUndoneView { game_id: self.game_id, undone_move: self.undone_move@ }
    }
}

} // verus!
