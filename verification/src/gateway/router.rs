//! What the gateway makes of what a client sends, and what a session keeps
//! of what the bus brings.

use crate::color_chooser::ColorPref;
use crate::events::ColorsChosen;
use crate::gateway::idle_status::{RequestIdleStatus, UtcTime};
use crate::gateway::kafka_commands::{
    ChooseColorPrefKafkaCommand, ClientHeartbeat, CreateGameKafkaCommand,
    FindPublicGameKafkaCommand, HeartbeatType, JoinPrivateGameKafkaCommand, KafkaCommands,
};
use crate::gateway::kafka_events::KafkaEvents;
use crate::gateway::websocket::WsSession;
use crate::ids::{GameId, ReqId};
use crate::model::{MakeMoveCommand, MoveCoord, Player, Visibility};
use vstd::prelude::*;

verus! {

/// What a client sends to the gateway.
#[derive(Clone, Copy, Debug, PartialEq, Eq, Hash, Structural)]
pub enum ClientCommands {
    MakeMove { game_id: GameId, req_id: ReqId, coord: MoveCoord },
    JoinPrivateGame { game_id: GameId },
    FindPublicGame,
    CreateGame { visibility: Visibility },
    ChooseColorPref { color_pref: ColorPref },
    Heartbeat { heartbeat_type: HeartbeatType },
    RequestIdleStatus,
}

/// What becomes of a command of a client.
#[derive(Clone, Copy, Debug, PartialEq, Eq, Hash, Structural)]
pub enum Routed {
    /// It goes to the bus.
    Publish(KafkaCommands),
    /// It goes to the idle-status monitor.
    AskMonitor(RequestIdleStatus),
    /// It goes nowhere: the client asked to move in a game in which it has
    /// no colour.
    Refused,
}

/// The colour that the client of `session` plays in the game `game_id`,
/// given the colours that were chosen.
pub open spec fn colour_in(session: WsSession, game_id: GameId, colors: Option<ColorsChosen>) -> Option<
    Player,
> {
    match colors {
        Some(c) => if c.game_id != game_id {
            None
        } else if c.black == session.client_id {
            Some(Player::BLACK)
        } else if c.white == session.client_id {
            Some(Player::WHITE)
        } else {
            None
        },
        None => None,
    }
}

/// What becomes of the command `cmd` that came in on `session`: the command
/// for the bus with the client of the session filled in, or the request to
/// the monitor. A move is made in the colour that was chosen for the client.
pub open spec fn routed(session: WsSession, cmd: ClientCommands, colors: Option<ColorsChosen>) -> Routed {
    let client_id = session.client_id;
    match cmd {
        ClientCommands::MakeMove { game_id, req_id, coord } => match colour_in(
            session,
            game_id,
            colors,
        ) {
            Some(player) => Routed::Publish(
                KafkaCommands::MakeMove(MakeMoveCommand { game_id, req_id, player, coord }),
            ),
            None => Routed::Refused,
        },
        ClientCommands::JoinPrivateGame { game_id } => Routed::Publish(
            KafkaCommands::JoinPrivateGame(JoinPrivateGameKafkaCommand { game_id, client_id }),
        ),
        ClientCommands::FindPublicGame => Routed::Publish(
            KafkaCommands::FindPublicGame(FindPublicGameKafkaCommand { client_id }),
        ),
        ClientCommands::CreateGame { visibility } => Routed::Publish(
            KafkaCommands::CreateGame(CreateGameKafkaCommand { client_id, visibility }),
        ),
        ClientCommands::ChooseColorPref { color_pref } => Routed::Publish(
            KafkaCommands::ChooseColorPref(ChooseColorPrefKafkaCommand { client_id, color_pref }),
        ),
        ClientCommands::Heartbeat { heartbeat_type } => Routed::Publish(
            KafkaCommands::ClientHeartbeat(ClientHeartbeat { client_id, heartbeat_type }),
        ),
        ClientCommands::RequestIdleStatus => Routed::AskMonitor(RequestIdleStatus(client_id)),
    }
}

/// Decides what becomes of a command of a client, see [`routed`].
pub fn on_client_command(session: &WsSession, cmd: &ClientCommands, colors: Option<ColorsChosen>) -> (r:
    Routed)
    ensures
        r == routed(*session, *cmd, colors),
{
    let client_id = session.client_id;
    match *cmd {
        ClientCommands::MakeMove { game_id, req_id, coord } => {
            let player: Option<Player> = match colors {
                Some(c) => if c.game_id != game_id {
                    None
                } else if c.black == client_id {
                    Some(Player::BLACK)
                } else if c.white == client_id {
                    Some(Player::WHITE)
                } else {
                    None
                },
                None => None,
            };
            match player {
                Some(player) => Routed::Publish(
                    KafkaCommands::MakeMove(MakeMoveCommand { game_id, req_id, player, coord }),
                ),
                None => Routed::Refused,
            }
        },
        ClientCommands::JoinPrivateGame { game_id } => Routed::Publish(
            KafkaCommands::JoinPrivateGame(JoinPrivateGameKafkaCommand { game_id, client_id }),
        ),
        ClientCommands::FindPublicGame => Routed::Publish(
            KafkaCommands::FindPublicGame(FindPublicGameKafkaCommand { client_id }),
        ),
        ClientCommands::CreateGame { visibility } => Routed::Publish(
            KafkaCommands::CreateGame(CreateGameKafkaCommand { client_id, visibility }),
        ),
        ClientCommands::ChooseColorPref { color_pref } => Routed::Publish(
            KafkaCommands::ChooseColorPref(ChooseColorPrefKafkaCommand { client_id, color_pref }),
        ),
        ClientCommands::Heartbeat { heartbeat_type } => Routed::Publish(
            KafkaCommands::ClientHeartbeat(ClientHeartbeat { client_id, heartbeat_type }),
        ),
        ClientCommands::RequestIdleStatus => Routed::AskMonitor(RequestIdleStatus(client_id)),
    }
}

/// The game that an event puts the client `session` in, if it does: the
/// game in which the client waits, or the game that was made ready for it.
pub open spec fn joins_game(session: WsSession, ev: KafkaEvents) -> Option<GameId> {
    match ev {
        KafkaEvents::GameReady(g) => if g.players.0 == session.client_id || g.players.1
            == session.client_id {
            Some(g.game_id)
        } else {
            None
        },
        KafkaEvents::WaitForOpponent(w) => if w.client_id == session.client_id {
            Some(w.game_id)
        } else {
            None
        },
        _ => None,
    }
}

/// The session after an event from the bus.
pub open spec fn session_after(session: WsSession, ev: KafkaEvents) -> WsSession {
    match joins_game(session, ev) {
        Some(game_id) => WsSession { current_game: Some(game_id), ..session },
        None => session,
    }
}

/// Takes note of an event from the bus in a session, see
/// [`session_after`].
pub fn on_event(session: &WsSession, ev: &KafkaEvents) -> (s: WsSession)
    ensures
        s == session_after(*session, *ev),
{
    let joined: Option<GameId> = match ev {
        KafkaEvents::GameReady(g) => if g.players.0 == session.client_id || g.players.1
            == session.client_id {
            Some(g.game_id)
        } else {
            None
        },
        KafkaEvents::WaitForOpponent(w) => if w.client_id == session.client_id {
            Some(w.game_id)
        } else {
            None
        },
        _ => None,
    };
    match joined {
        Some(game_id) => WsSession {
            client_id: session.client_id,
            session_id: session.session_id,
            current_game: Some(game_id),
            last_pong_at: session.last_pong_at,
        },
        None => *session,
    }
}

/// The session after its client answered a ping at time `now`.
pub fn on_pong(session: &WsSession, now: UtcTime) -> (s: WsSession)
    ensures
        s == (WsSession { last_pong_at: now, ..*session }),
{
    WsSession {
        client_id: session.client_id,
        session_id: session.session_id,
        current_game: session.current_game,
        last_pong_at: now,
    }
}

/// The session has been silent for longer than `timeout_secs` at time
/// `now`: its last answer to a ping lies more than that many whole seconds
/// back.
pub open spec fn silent(session: WsSession, now: UtcTime, timeout_secs: u32) -> bool {
    now.secs - session.last_pong_at.secs > timeout_secs
}

/// Whether the session is to expire for being idle.
pub fn is_idle(session: &WsSession, now: UtcTime, timeout_secs: u32) -> (r: bool)
    ensures
        r == silent(*session, now, timeout_secs),
{
    let last: i64 = session.last_pong_at.secs;
    if now.secs < last {
        false
    } else if last >= 0 || now.secs < 0 {
        now.secs - last > timeout_secs as i64
    } else {
        // `last` is negative and `now` is not: the difference may exceed
        // an `i64`, so compare without forming it.
        now.secs > timeout_secs as i64 + last
    }
}

} // verus!
