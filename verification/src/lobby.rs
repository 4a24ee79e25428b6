//! The game lobby: finds an opponent for whoever asks for a game.
//!
//! Public games share one first-in, first-out waiting pool. An open private
//! game is kept under its id until someone who knows the id joins it. Nobody
//! is ever matched against themselves.

use crate::events::{GameReady, PrivateGameRejected, WaitForOpponent};
use crate::ids::{ClientId, EventId, GameId};
use crate::model::Visibility;
use std::collections::HashMap;
use std::collections::VecDeque;
use vstd::prelude::*;

verus! {

broadcast use vstd::std_specs::hash::group_hash_axioms;

/// A client who waits in a game for an opponent.
#[derive(Clone, Copy, Debug, PartialEq, Eq, Hash, Structural)]
pub struct Waiting {
    pub game_id: GameId,
    pub client_id: ClientId,
}

/// What the lobby publishes in answer to a command.
#[derive(Clone, Copy, Debug, PartialEq, Eq, Hash)]
pub enum LobbyEvent {
    GameReady(GameReady),
    WaitForOpponent(WaitForOpponent),
    PrivateGameRejected(PrivateGameRejected),
}

/// The lobby.
pub struct Lobby {
    /// The side length of the boards of the games that the lobby makes
    /// ready.
    pub board_size: u16,
    /// Those who wait for a public game, the one who has waited longest
    /// first.
    pub public_pool: VecDeque<Waiting>,
    /// The open private games: who waits in the game of each id.
    pub private_games: HashMap<u128, ClientId>,
}

/// The mathematical content of a [`Lobby`].
pub struct LobbyView {
    pub board_size: u16,
    pub public_pool: Seq<Waiting>,
    pub private_games: Map<u128, ClientId>,
}

impl View for Lobby {
    type V = LobbyView;

    open spec fn view(&self) -> LobbyView {
        LobbyView {
            board_size: self.board_size,
            public_pool: self.public_pool@,
            private_games: self.private_games@,
        }
    }
}

/// `i` is where the first waiter other than `client_id` stands in `pool`.
pub open spec fn is_first_opponent(pool: Seq<Waiting>, client_id: ClientId, i: int) -> bool {
    &&& 0 <= i < pool.len()
    &&& pool[i].client_id != client_id
    &&& forall|j: int| 0 <= j < i ==> (#[trigger] pool[j]).client_id == client_id
}

/// `client_id` has an opponent waiting in `pool`.
pub open spec fn has_opponent(pool: Seq<Waiting>, client_id: ClientId) -> bool {
    exists|i: int| is_first_opponent(pool, client_id, i)
}

/// Where the first waiter other than `client_id` stands in `pool`.
pub open spec fn first_opponent(pool: Seq<Waiting>, client_id: ClientId) -> int {
    choose|i: int| is_first_opponent(pool, client_id, i)
}

impl LobbyView {
    /// The lobby after `client_id` asked for a public game, and what it
    /// publishes.
    ///
    /// The first waiter who is someone else is taken out of the pool and
    /// paired with the client. Where there is none, the client waits: in the
    /// game in which they wait already, or else in the game `fresh_game` at
    /// the end of the pool.
    pub open spec fn find_public_game(
        self,
        client_id: ClientId,
        fresh_game: GameId,
        event_id: EventId,
    ) -> (LobbyView, LobbyEvent) {
        if has_opponent(self.public_pool, client_id) {
            let i = first_opponent(self.public_pool, client_id);
            let found = self.public_pool[i];
            (
                LobbyView { public_pool: self.public_pool.remove(i), ..self },
                LobbyEvent::GameReady(
                    GameReady {
                        game_id: found.game_id,
                        event_id,
                        players: (found.client_id, client_id),
                        board_size: self.board_size,
                    },
                ),
            )
        } else if self.public_pool.len() > 0 {
            (
                self,
                LobbyEvent::WaitForOpponent(
                    WaitForOpponent {
                        game_id: self.public_pool[0].game_id,
                        client_id,
                        event_id,
                        visibility: Visibility::Public,
                    },
                ),
            )
        } else {
            (
                LobbyView {
                    public_pool: self.public_pool.push(Waiting { game_id: fresh_game, client_id }),
                    ..self
                },
                LobbyEvent::WaitForOpponent(
                    WaitForOpponent {
                        game_id: fresh_game,
                        client_id,
                        event_id,
                        visibility: Visibility::Public,
                    },
                ),
            )
        }
    }

    /// The lobby after `client_id` opened a private game, and what it
    /// publishes: the client waits in the game `fresh_game`.
    pub open spec fn create_private_game(
        self,
        client_id: ClientId,
        fresh_game: GameId,
        event_id: EventId,
    ) -> (LobbyView, LobbyEvent) {
        (
            LobbyView { private_games: self.private_games.insert(fresh_game.0, client_id), ..self },
            LobbyEvent::WaitForOpponent(
                WaitForOpponent {
                    game_id: fresh_game,
                    client_id,
                    event_id,
                    visibility: Visibility::Private,
                },
            ),
        )
    }

    /// The lobby after `client_id` asked to join the private game `game_id`,
    /// and what it publishes.
    ///
    /// Where someone else waits in that game the two are paired and the game
    /// is no longer open. Where the game is unknown, or the client is the
    /// one who waits in it, the request is rejected and nothing changes.
    pub open spec fn join_private_game(
        self,
        client_id: ClientId,
        game_id: GameId,
        event_id: EventId,
    ) -> (LobbyView, LobbyEvent) {
        if self.private_games.contains_key(game_id.0) && self.private_games[game_id.0]
            != client_id {
            (
                LobbyView { private_games: self.private_games.remove(game_id.0), ..self },
                LobbyEvent::GameReady(
                    GameReady {
                        game_id,
                        event_id,
                        players: (self.private_games[game_id.0], client_id),
                        board_size: self.board_size,
                    },
                ),
            )
        } else {
            (
                self,
                LobbyEvent::PrivateGameRejected(PrivateGameRejected { game_id, client_id, event_id }),
            )
        }
    }
}

/// Whoever the lobby pairs, it is two different clients.
pub proof fn lemma_never_paired_with_self(
    lobby: LobbyView,
    client_id: ClientId,
    game_id: GameId,
    event_id: EventId,
)
    ensures
        lobby.find_public_game(client_id, game_id, event_id).1 matches LobbyEvent::GameReady(g)
            ==> g.players.0 != g.players.1 && g.players.1 == client_id,
        lobby.join_private_game(client_id, game_id, event_id).1 matches LobbyEvent::GameReady(g)
            ==> g.players.0 != g.players.1 && g.players.1 == client_id,
{
    if has_opponent(lobby.public_pool, client_id) {
        let i = first_opponent(lobby.public_pool, client_id);
        assert(is_first_opponent(lobby.public_pool, client_id, i));
    }
}

impl Lobby {
    /// A lobby in which nobody waits.
    pub fn new(board_size: u16) -> (lobby: Lobby)
        ensures
            lobby@ == (LobbyView {
                board_size,
                public_pool: Seq::empty(),
                private_games: Map::empty(),
            }),
    {
        Lobby { board_size, public_pool: VecDeque::new(), private_games: HashMap::new() }
    }

    /// Where the first waiter other than `client_id` stands in the pool.
    fn find_opponent(&self, client_id: ClientId) -> (r: Option<usize>)
        ensures
            match r {
                Some(i) => has_opponent(self.public_pool@, client_id) && i == first_opponent(
                    self.public_pool@,
                    client_id,
                ) && i < self.public_pool.len(),
                None => !has_opponent(self.public_pool@, client_id),
            },
    {
        let mut i: usize = 0;
        while i < self.public_pool.len()
            invariant
                i <= self.public_pool.len(),
                forall|j: int| 0 <= j < i ==> (#[trigger] self.public_pool@[j]).client_id == client_id,
            decreases self.public_pool.len() - i,
        {
            if self.public_pool[i].client_id != client_id {
                proof {
                    assert(is_first_opponent(self.public_pool@, client_id, i as int));
                    let k = first_opponent(self.public_pool@, client_id);
                    assert(is_first_opponent(self.public_pool@, client_id, k));
                    assert(k == i);
                }
                return Some(i);
            }
            i += 1;
        }
        proof {
            if has_opponent(self.public_pool@, client_id) {
                let k = first_opponent(self.public_pool@, client_id);
                assert(is_first_opponent(self.public_pool@, client_id, k));
            }
        }
        None
    }

    /// `client_id` asks for a public game. `fresh_game` is the id of the
    /// game in which they wait if they have to, `event_id` the id of what is
    /// published.
    pub fn find_public_game(&mut self, client_id: ClientId, fresh_game: GameId, event_id: EventId) -> (ev:
        LobbyEvent)
        ensures
            (final(self)@, ev) == old(self)@.find_public_game(client_id, fresh_game, event_id),
    {
        match self.find_opponent(client_id) {
            Some(i) => {
                let found: Waiting = self.public_pool[i];
                self.public_pool.remove(i);
                LobbyEvent::GameReady(
                    GameReady {
                        game_id: found.game_id,
                        event_id,
                        players: (found.client_id, client_id),
                        board_size: self.board_size,
                    },
                )
            },
            None => {
                if self.public_pool.len() > 0 {
                    LobbyEvent::WaitForOpponent(
                        WaitForOpponent {
                            game_id: self.public_pool[0].game_id,
                            client_id,
                            event_id,
                            visibility: Visibility::Public,
                        },
                    )
                } else {
                    self.public_pool.push_back(Waiting { game_id: fresh_game, client_id });
                    LobbyEvent::WaitForOpponent(
                        WaitForOpponent {
                            game_id: fresh_game,
                            client_id,
                            event_id,
                            visibility: Visibility::Public,
                        },
                    )
                }
            },
        }
    }

    /// `client_id` opens a game. A private game is kept open under the id
    /// `fresh_game`; a public one is a search for a public game.
    pub fn create_game(
        &mut self,
        client_id: ClientId,
        visibility: Visibility,
        fresh_game: GameId,
        event_id: EventId,
    ) -> (ev: LobbyEvent)
        ensures
            (final(self)@, ev) == match visibility {
                Visibility::Private => old(self)@.create_private_game(
                    client_id,
                    fresh_game,
                    event_id,
                ),
                Visibility::Public => old(self)@.find_public_game(client_id, fresh_game, event_id),
            },
    {
        match visibility {
            Visibility::Public => self.find_public_game(client_id, fresh_game, event_id),
            Visibility::Private => {
                self.private_games.insert(fresh_game.0, client_id);
                LobbyEvent::WaitForOpponent(
                    WaitForOpponent {
                        game_id: fresh_game,
                        client_id,
                        event_id,
                        visibility: Visibility::Private,
                    },
                )
            },
        }
    }

    /// `client_id` asks to join the private game `game_id`.
    pub fn join_private_game(&mut self, client_id: ClientId, game_id: GameId, event_id: EventId) -> (ev:
        LobbyEvent)
        ensures
            (final(self)@, ev) == old(self)@.join_private_game(client_id, game_id, event_id),
    {
        let waiter: Option<ClientId> = match self.private_games.get(&game_id.0) {
            Some(w) => Some(*w),
            None => None,
        };
        match waiter {
            Some(w) => {
                if w != client_id {
                    self.private_games.remove(&game_id.0);
                    return LobbyEvent::GameReady(
                        GameReady {
                            game_id,
                            event_id,
                            players: (w, client_id),
                            board_size: self.board_size,
                        },
                    );
                }
            },
            None => {},
        }
        LobbyEvent::PrivateGameRejected(PrivateGameRejected { game_id, client_id, event_id })
    }
}

} // verus!
