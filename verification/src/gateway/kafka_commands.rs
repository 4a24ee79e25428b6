//! The commands that the gateway publishes on behalf of its clients.

use crate::ids::{ClientId, GameId, ReqId};
use crate::model::{MakeMoveCommand, Visibility};
use crate::color_chooser::ColorPref;
use vstd::prelude::*;

verus! {

/// A client asks to join the private game of a given id.
#[derive(Clone, Copy, Debug, PartialEq, Eq, Hash, Structural)]
pub struct JoinPrivateGameKafkaCommand {
    pub game_id: GameId,
    pub client_id: ClientId,
}

/// A client asks for a public game.
#[derive(Clone, Copy, Debug, PartialEq, Eq, Hash, Structural)]
pub struct FindPublicGameKafkaCommand {
    pub client_id: ClientId,
}

/// A client says which colour it would like to play.
#[derive(Clone, Copy, Debug, PartialEq, Eq, Hash, Structural)]
pub struct ChooseColorPrefKafkaCommand {
    pub client_id: ClientId,
    pub color_pref: ColorPref,
}

/// The gateway may create private games by hand, but it never creates a
/// public one. The game id is left to the lobby to choose.
#[derive(Clone, Copy, Debug, PartialEq, Eq, Hash, Structural)]
pub struct CreateGameKafkaCommand {
    pub client_id: ClientId,
    pub visibility: Visibility,
}

/// What a sign of life came from.
#[derive(Clone, Copy, Debug, PartialEq, Eq, Hash, Structural)]
pub enum HeartbeatType {
    WebSocketPong,
    UserInterfaceBeep,
}

/// A sign of life of a client.
#[derive(Clone, Copy, Debug, PartialEq, Eq, Hash, Structural)]
pub struct ClientHeartbeat {
    pub client_id: ClientId,
    pub heartbeat_type: HeartbeatType,
}

/// A request for the moves of a game so far.
#[derive(Clone, Copy, Debug, PartialEq, Eq, Hash, Structural)]
pub struct ProvideHistoryCommand {
    pub game_id: GameId,
    pub req_id: ReqId,
}

/// The commands that the gateway writes to the bus.
#[derive(Clone, Copy, Debug, PartialEq, Eq, Hash, Structural)]
pub enum KafkaCommands {
    MakeMove(MakeMoveCommand),
    ProvideHistory(ProvideHistoryCommand),
    JoinPrivateGame(JoinPrivateGameKafkaCommand),
    FindPublicGame(FindPublicGameKafkaCommand),
    CreateGame(CreateGameKafkaCommand),
    ChooseColorPref(ChooseColorPrefKafkaCommand),
    ClientHeartbeat(ClientHeartbeat),
}

} // verus!
