//! The layout of the keyed store: the keys of each kind of record, and how
//! long a record lives.
//!
//! Every key has the form `{namespace}:{entity}` or
//! `{namespace}:{entity}:{id}`. Records about a game expire a day after they
//! were last read or written.

use crate::botlink::{enc_botness, BotAttached, Botness};
use crate::codec::{dec_state, decode, enc_state, encode};
use crate::model::DeserError;
use crate::game_state::GameState;
use crate::ids::{hyphenated, id_text, GameId, SessionId};
use vstd::prelude::*;
use vstd::string::*;

verus! {

/// How many seconds a record about a game lives after it was last touched.
pub const EXPIRY_SECS: usize = 86400;

/// The namespace where none is configured.
pub const DEFAULT_NAMESPACE: &'static str = "BUGOUT";

/// The prefix that keeps the keys of one deployment apart from all others.
#[derive(Clone, Debug, PartialEq, Eq)]
pub struct RedisKeyNamespace(pub String);

/// The kinds of record in the store.
#[derive(Clone, Copy, Debug, PartialEq, Eq, Hash, Structural)]
pub enum Entity {
    GameStates,
    BotAttached,
    Session,
    EntryIds,
    WaitingPublic,
    WaitingPrivate,
    UndoHistory,
}

impl Entity {
    /// The name of the kind as it stands in a key.
    pub open spec fn text(self) -> Seq<char> {
        match self {
            Entity::GameStates => "game-states"@,
            Entity::BotAttached => "bot-attached"@,
            Entity::Session => "session"@,
            Entity::EntryIds => "entry-ids"@,
            Entity::WaitingPublic => "waiting-public"@,
            Entity::WaitingPrivate => "waiting-private"@,
            Entity::UndoHistory => "undo-history"@,
        }
    }

    /// The name of the kind as it stands in a key.
    pub fn name(self) -> (s: &'static str)
        ensures
            s@ == self.text(),
    {
        match self {
            Entity::GameStates => "game-states",
            Entity::BotAttached => "bot-attached",
            Entity::Session => "session",
            Entity::EntryIds => "entry-ids",
            Entity::WaitingPublic => "waiting-public",
            Entity::WaitingPrivate => "waiting-private",
            Entity::UndoHistory => "undo-history",
        }
    }
}

/// The key of the one record of a kind.
pub open spec fn plain_key(namespace: Seq<char>, entity: Entity) -> Seq<char> {
    namespace + seq![':'] + entity.text()
}

/// The key of the record of a kind that belongs to `id`.
pub open spec fn id_key(namespace: Seq<char>, entity: Entity, id: u128) -> Seq<char> {
    namespace + seq![':'] + entity.text() + seq![':'] + hyphenated(id)
}

fn make_plain_key(namespace: &RedisKeyNamespace, entity: Entity) -> (key: String)
    ensures
        key@ == plain_key(namespace.0@, entity),
{
    proof {
        reveal_strlit(":");
    }
    let key = namespace.0.clone().concat(":").concat(entity.name());
    assert(key@ =~= plain_key(namespace.0@, entity));
    key
}

fn make_id_key(namespace: &RedisKeyNamespace, entity: Entity, id: u128) -> (key: String)
    ensures
        key@ == id_key(namespace.0@, entity, id),
{
    proof {
        reveal_strlit(":");
    }
    let key = make_plain_key(namespace, entity).concat(":").concat(id_text(id).as_str());
    assert(key@ =~= id_key(namespace.0@, entity, id));
    key
}

/// The key under which the state of a game is kept.
pub fn game_states_key(namespace: &RedisKeyNamespace, game_id: &GameId) -> (key: String)
    ensures
        key@ == id_key(namespace.0@, Entity::GameStates, game_id.0),
{
    make_id_key(namespace, Entity::GameStates, game_id.0)
}

/// The key under which the bots of a game are kept.
pub fn bot_attached_key(namespace: &RedisKeyNamespace, game_id: &GameId) -> (key: String)
    ensures
        key@ == id_key(namespace.0@, Entity::BotAttached, game_id.0),
{
    make_id_key(namespace, Entity::BotAttached, game_id.0)
}

/// The key under which the attributes of a session are kept.
pub fn session_key(namespace: &RedisKeyNamespace, session_id: &SessionId) -> (key: String)
    ensures
        key@ == id_key(namespace.0@, Entity::Session, session_id.0),
{
    make_id_key(namespace, Entity::Session, session_id.0)
}

/// The key under which a service keeps the entry ids that it has read up
/// to.
pub fn entry_ids_key(namespace: &RedisKeyNamespace) -> (key: String)
    ensures
        key@ == plain_key(namespace.0@, Entity::EntryIds),
{
    make_plain_key(namespace, Entity::EntryIds)
}

/// The key under which the pool of those who wait for a public game is
/// kept.
pub fn waiting_public_key(namespace: &RedisKeyNamespace) -> (key: String)
    ensures
        key@ == plain_key(namespace.0@, Entity::WaitingPublic),
{
    make_plain_key(namespace, Entity::WaitingPublic)
}

/// The key under which the one who waits in a private game is kept.
pub fn waiting_private_key(namespace: &RedisKeyNamespace, game_id: &GameId) -> (key: String)
    ensures
        key@ == id_key(namespace.0@, Entity::WaitingPrivate, game_id.0),
{
    make_id_key(namespace, Entity::WaitingPrivate, game_id.0)
}

/// The key under which the last moves of a game are kept.
pub fn undo_history_key(namespace: &RedisKeyNamespace, game_id: &GameId) -> (key: String)
    ensures
        key@ == id_key(namespace.0@, Entity::UndoHistory, game_id.0),
{
    make_id_key(namespace, Entity::UndoHistory, game_id.0)
}

/// A write to the keyed store: the value to keep under a key, and for how
/// many seconds to keep it.
#[derive(Clone, Debug, PartialEq, Eq)]
pub struct KeyedWrite {
    pub key: String,
    pub value: Vec<u8>,
    pub expiry_secs: usize,
}

/// The game states in the keyed store.
#[derive(Clone, Debug)]
pub struct GameStatesRepo {
    pub namespace: RedisKeyNamespace,
}

impl GameStatesRepo {
    /// The key under which the state of `game_id` is kept.
    pub fn key(&self, game_id: &GameId) -> (key: String)
        ensures
            key@ == id_key(self.namespace.0@, Entity::GameStates, game_id.0),
    {
        game_states_key(&self.namespace, game_id)
    }

    /// The state that was found under the key of a game.
    pub fn read(&self, stored: &[u8]) -> (r: Result<GameState, DeserError>)
        ensures
            match r {
                Ok(s) => s.wf() && dec_state(stored@) == Some(s@),
                Err(_) => dec_state(stored@) is None,
            },
    {
        decode(stored)
    }

    /// What to write to keep `game_state` as the state of `game_id`.
    pub fn put(&self, game_id: &GameId, game_state: &GameState) -> (w: KeyedWrite)
        requires
            game_state.wf(),
        ensures
            w.key@ == id_key(self.namespace.0@, Entity::GameStates, game_id.0),
            w.value@ == enc_state(game_state@),
            w.expiry_secs == EXPIRY_SECS,
    {
        KeyedWrite { key: self.key(game_id), value: encode(game_state), expiry_secs: EXPIRY_SECS }
    }
}

/// What the undo service writes when it sees the state of a game in the
/// changelog: the state, under the key of the game.
pub fn consume_log(game_id: &GameId, game_state: &GameState, repo: &GameStatesRepo) -> (w: KeyedWrite)
    requires
        game_state.wf(),
    ensures
        w.key@ == id_key(repo.namespace.0@, Entity::GameStates, game_id.0),
        w.value@ == enc_state(game_state@),
        w.expiry_secs == EXPIRY_SECS,
{
    repo.put(game_id, game_state)
}

/// What the undo service writes when it hears that a bot was attached: the
/// record of the bots of the game with that bot in it, under the key of the
/// game.
pub fn consume_bot_attached(
    ba: &BotAttached,
    current: &Botness,
    namespace: &RedisKeyNamespace,
) -> (w: KeyedWrite)
    ensures
        w.key@ == id_key(namespace.0@, Entity::BotAttached, ba.game_id.0),
        w.value@ == enc_botness(current.with_bot(ba.player)),
        w.expiry_secs == EXPIRY_SECS,
{
    KeyedWrite {
        key: bot_attached_key(namespace, &ba.game_id),
        value: current.attach(ba.player).serialize(),
        expiry_secs: EXPIRY_SECS,
    }
}

} // verus!
