//! The events that the gateway takes from the bus and hands to its sessions.

use crate::events::{ColorsChosen, GameReady, PrivateGameRejected, WaitForOpponent};
use crate::gateway::topics::{same_text, Topic};
use crate::gateway::websocket::WsSession;
use crate::ids::{ClientId, EventId, GameId, ReqId};
use crate::model::MoveMade;
use vstd::prelude::*;

verus! {

/// The moves of a game so far, in answer to a request.
#[derive(Clone, Debug, PartialEq, Eq)]
pub struct HistoryProvidedEvent {
    pub game_id: GameId,
    pub reply_to: ReqId,
    pub event_id: EventId,
    pub moves: Vec<MoveMade>,
}

/// An event from the bus, as the gateway reads it.
#[derive(Clone, Debug, PartialEq, Eq)]
pub enum KafkaEvents {
    MoveMade(MoveMade),
    HistoryProvided(HistoryProvidedEvent),
    PrivateGameRejected(PrivateGameRejected),
    GameReady(GameReady),
    WaitForOpponent(WaitForOpponent),
    ColorsChosen(ColorsChosen),
}

/// The kinds of event that the gateway reads.
#[derive(Clone, Copy, Debug, PartialEq, Eq, Hash, Structural)]
pub enum EventKind {
    MoveMade,
    HistoryProvided,
    PrivateGameRejected,
    GameReady,
    WaitForOpponent,
    ColorsChosen,
}

impl EventKind {
    /// The topic on which events of this kind arrive.
    pub open spec fn topic(self) -> Topic {
        match self {
            EventKind::MoveMade => Topic::MoveMadeEv,
            EventKind::HistoryProvided => Topic::HistoryProvidedEv,
            EventKind::PrivateGameRejected => Topic::PrivateGameRejectedEv,
            EventKind::GameReady => Topic::GameReadyEv,
            EventKind::WaitForOpponent => Topic::WaitForOpponentEv,
            EventKind::ColorsChosen => Topic::ColorsChosenEv,
        }
    }
}

/// The kind of event that a message on the topic named `name` holds, or
/// `None` where the gateway does not read that topic.
pub open spec fn kind_of(name: Seq<char>) -> Option<EventKind> {
    if name == Topic::MoveMadeEv.text() {
        Some(EventKind::MoveMade)
    } else if name == Topic::HistoryProvidedEv.text() {
        Some(EventKind::HistoryProvided)
    } else if name == Topic::PrivateGameRejectedEv.text() {
        Some(EventKind::PrivateGameRejected)
    } else if name == Topic::GameReadyEv.text() {
        Some(EventKind::GameReady)
    } else if name == Topic::WaitForOpponentEv.text() {
        Some(EventKind::WaitForOpponent)
    } else if name == Topic::ColorsChosenEv.text() {
        Some(EventKind::ColorsChosen)
    } else {
        None
    }
}

/// The kind of event to decode from a message on `topic`. The topic is
/// matched by name so that the payload need not say what it is.
pub fn event_kind(topic: &str) -> (kind: Option<EventKind>)
    ensures
        kind == kind_of(topic@),
{
    if same_text(topic, Topic::MoveMadeEv.name()) {
        Some(EventKind::MoveMade)
    } else if same_text(topic, Topic::HistoryProvidedEv.name()) {
        Some(EventKind::HistoryProvided)
    } else if same_text(topic, Topic::PrivateGameRejectedEv.name()) {
        Some(EventKind::PrivateGameRejected)
    } else if same_text(topic, Topic::GameReadyEv.name()) {
        Some(EventKind::GameReady)
    } else if same_text(topic, Topic::WaitForOpponentEv.name()) {
        Some(EventKind::WaitForOpponent)
    } else if same_text(topic, Topic::ColorsChosenEv.name()) {
        Some(EventKind::ColorsChosen)
    } else {
        None
    }
}

/// The topics that the gateway subscribes to.
pub fn consume_topics() -> (topics: Vec<Topic>)
    ensures
        topics@ == seq![
            Topic::MoveMadeEv,
            Topic::HistoryProvidedEv,
            Topic::PrivateGameRejectedEv,
            Topic::GameReadyEv,
            Topic::WaitForOpponentEv,
            Topic::ColorsChosenEv,
        ],
{
    let mut topics: Vec<Topic> = Vec::new();
    topics.push(Topic::MoveMadeEv);
    topics.push(Topic::HistoryProvidedEv);
    topics.push(Topic::PrivateGameRejectedEv);
    topics.push(Topic::GameReadyEv);
    topics.push(Topic::WaitForOpponentEv);
    topics.push(Topic::ColorsChosenEv);
    assert(topics@ =~= seq![
        Topic::MoveMadeEv,
        Topic::HistoryProvidedEv,
        Topic::PrivateGameRejectedEv,
        Topic::GameReadyEv,
        Topic::WaitForOpponentEv,
        Topic::ColorsChosenEv,
    ]);
    topics
}

/// The mathematical content of the routing of an event: the game it is
/// about, and the clients it names.
pub open spec fn concerns(ev: KafkaEvents, client_id: ClientId, game: Option<GameId>) -> bool {
    match ev {
        KafkaEvents::MoveMade(m) => game == Some(m.game_id),
        KafkaEvents::HistoryProvided(h) => game == Some(h.game_id),
        KafkaEvents::ColorsChosen(c) => c.black == client_id || c.white == client_id,
        KafkaEvents::GameReady(g) => g.players.0 == client_id || g.players.1 == client_id,
        KafkaEvents::WaitForOpponent(w) => w.client_id == client_id,
        KafkaEvents::PrivateGameRejected(r) => r.client_id == client_id,
    }
}

/// Whether `session` is to be told of `ev`: events about moves go to the
/// sessions in that game, events about a client to the sessions of that
/// client.
pub fn is_interested(session: &WsSession, ev: &KafkaEvents) -> (r: bool)
    ensures
        r == concerns(*ev, session.client_id, session.current_game),
{
    match ev {
        KafkaEvents::MoveMade(m) => in_game(session, m.game_id),
        KafkaEvents::HistoryProvided(h) => in_game(session, h.game_id),
        KafkaEvents::ColorsChosen(c) => c.black == session.client_id || c.white
            == session.client_id,
        KafkaEvents::GameReady(g) => g.players.0 == session.client_id || g.players.1
            == session.client_id,
        KafkaEvents::WaitForOpponent(w) => w.client_id == session.client_id,
        KafkaEvents::PrivateGameRejected(r) => r.client_id == session.client_id,
    }
}

fn in_game(session: &WsSession, game_id: GameId) -> (r: bool)
    ensures
        r == (session.current_game == Some(game_id)),
{
    match session.current_game {
        Some(g) => g == game_id,
        None => false,
    }
}

} // verus!
