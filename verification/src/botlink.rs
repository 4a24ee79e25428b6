//! Botlink: keeps track of which colours of a game a bot plays, and knows
//! when it is a bot's turn.

use crate::codec::{
    dec_id, dec_player, enc_id, enc_player, lemma_dec_id, lemma_dec_player, suffix,
};
use crate::model::{DeserError, MakeMoveCommand, MoveCoord, MoveMade, Player};
use crate::ids::{GameId, ReqId};
use crate::wire::{get_int, put_int};
use vstd::prelude::*;

verus! {

/// A request that a bot play one colour of a game.
#[derive(Clone, Copy, Debug, PartialEq, Eq, Hash, Structural)]
pub struct AttachBot {
    pub game_id: GameId,
    pub player: Player,
}

/// The news that a bot now plays one colour of a game.
#[derive(Clone, Copy, Debug, PartialEq, Eq, Hash, Structural)]
pub struct BotAttached {
    pub game_id: GameId,
    pub player: Player,
}

/// The encoding of a game id with a colour: the id in sixteen bytes, most
/// significant first, then 0 for black or 1 for white.
pub open spec fn enc_attach(game_id: GameId, player: Player) -> Seq<u8> {
    enc_id(game_id.0) + enc_player(player)
}

/// The game id and colour that `b` is the encoding of.
pub open spec fn dec_attach(b: Seq<u8>) -> Option<(GameId, Player)> {
    match dec_id(b) {
        Some((id, r)) => match dec_player(r) {
            Some((player, after)) => if after.len() == 0 {
                Some((GameId(id), player))
            } else {
                None
            },
            None => None,
        },
        None => None,
    }
}

/// Decoding the encoding of a game id with a colour gives both back.
pub proof fn lemma_attach_round_trip(game_id: GameId, player: Player)
    ensures
        dec_attach(enc_attach(game_id, player)) == Some((game_id, player)),
{
    lemma_dec_id(game_id.0, enc_player(player));
    lemma_dec_player(player, Seq::empty());
    assert(enc_player(player) + Seq::<u8>::empty() =~= enc_player(player));
}

/// The encoding of a game id with a colour, see [`enc_attach`].
pub fn write_attach(game_id: GameId, player: Player) -> (bytes: Vec<u8>)
    ensures
        bytes@ == enc_attach(game_id, player),
{
    let mut out: Vec<u8> = Vec::new();
    put_int(&mut out, game_id.0, 16);
    match player {
        Player::BLACK => out.push(0),
        Player::WHITE => out.push(1),
    }
    assert(out@ =~= enc_attach(game_id, player));
    out
}

/// Reads a game id with a colour from its encoding, see [`dec_attach`].
pub fn read_attach(bytes: &[u8]) -> (r: Option<(GameId, Player)>)
    ensures
        r == dec_attach(bytes@),
{
    assert(suffix(bytes@, 0) =~= bytes@);
    let id: u128 = match get_int(bytes, 0, 16) {
        Some(id) => id,
        None => {
            return None;
        },
    };
    if bytes.len() != 17 {
        proof {
            let r = suffix(bytes@, 16);
            if r.len() >= 1 {
                assert(suffix(r, 1).len() > 0);
            }
        }
        return None;
    }
    let tag: u8 = bytes[16];
    assert(suffix(bytes@, 16)[0] == tag);
    assert(suffix(suffix(bytes@, 16), 1).len() == 0);
    if tag == 0 {
        Some((GameId(id), Player::BLACK))
    } else if tag == 1 {
        Some((GameId(id), Player::WHITE))
    } else {
        None
    }
}

impl AttachBot {
    /// Reads a request from its encoding, see [`dec_attach`].
    pub fn from(bytes: &[u8]) -> (r: Result<Self, DeserError>)
        ensures
            match r {
                Ok(a) => dec_attach(bytes@) == Some((a.game_id, a.player)),
                Err(_) => dec_attach(bytes@) is None,
            },
    {
        match read_attach(bytes) {
            Some((game_id, player)) => Ok(AttachBot { game_id, player }),
            None => Err(DeserError),
        }
    }

    /// The encoding of this request, see [`enc_attach`].
    pub fn serialize(&self) -> (r: Result<Vec<u8>, DeserError>)
        ensures
            r matches Ok(bytes) && bytes@ == enc_attach(self.game_id, self.player),
    {
        Ok(write_attach(self.game_id, self.player))
    }
}

impl BotAttached {
    /// Reads the news from its encoding, see [`dec_attach`].
    pub fn from(bytes: &[u8]) -> (r: Result<Self, DeserError>)
        ensures
            match r {
                Ok(a) => dec_attach(bytes@) == Some((a.game_id, a.player)),
                Err(_) => dec_attach(bytes@) is None,
            },
    {
        match read_attach(bytes) {
            Some((game_id, player)) => Ok(BotAttached { game_id, player }),
            None => Err(DeserError),
        }
    }

    /// The encoding of this news, see [`enc_attach`].
    pub fn serialize(&self) -> (r: Result<Vec<u8>, DeserError>)
        ensures
            r matches Ok(bytes) && bytes@ == enc_attach(self.game_id, self.player),
    {
        Ok(write_attach(self.game_id, self.player))
    }
}

/// Which colours of a game a bot plays.
#[derive(Clone, Copy, Debug, PartialEq, Eq, Hash, Structural)]
pub struct Botness {
    pub black_is_bot: bool,
    pub white_is_bot: bool,
}

impl Botness {
    /// A bot plays `player`.
    pub open spec fn plays(self, player: Player) -> bool {
        match player {
            Player::BLACK => self.black_is_bot,
            Player::WHITE => self.white_is_bot,
        }
    }

    /// This record with a bot playing `player`.
    pub open spec fn with_bot(self, player: Player) -> Botness {
        match player {
            Player::BLACK => Botness { black_is_bot: true, white_is_bot: self.white_is_bot },
            Player::WHITE => Botness { black_is_bot: self.black_is_bot, white_is_bot: true },
        }
    }

    /// No bot plays.
    pub fn none() -> (b: Botness)
        ensures
            b == (Botness { black_is_bot: false, white_is_bot: false }),
    {
        Botness { black_is_bot: false, white_is_bot: false }
    }

    /// Whether a bot plays `player`.
    pub fn is_bot(&self, player: Player) -> (r: bool)
        ensures
            r == self.plays(player),
    {
        match player {
            Player::BLACK => self.black_is_bot,
            Player::WHITE => self.white_is_bot,
        }
    }

    /// This record with a bot playing `player`.
    pub fn attach(&self, player: Player) -> (b: Botness)
        ensures
            b == self.with_bot(player),
    {
        match player {
            Player::BLACK => Botness { black_is_bot: true, white_is_bot: self.white_is_bot },
            Player::WHITE => Botness { black_is_bot: self.black_is_bot, white_is_bot: true },
        }
    }
}

/// Attaches a bot as asked: gives the record to store for the game and the
/// news to publish once it is stored.
pub fn on_attach_bot(current: &Botness, cmd: &AttachBot) -> (r: (Botness, BotAttached))
    ensures
        r.0 == current.with_bot(cmd.player),
        r.1 == (BotAttached { game_id: cmd.game_id, player: cmd.player }),
{
    (current.attach(cmd.player), BotAttached { game_id: cmd.game_id, player: cmd.player })
}

/// The colour for which a bot has to move after `made`, if any: the
/// opponent of the player who moved, where a bot plays that colour.
pub open spec fn bot_up(botness: Botness, made_by: Player) -> Option<Player> {
    if botness.plays(made_by.other()) {
        Some(made_by.other())
    } else {
        None
    }
}

/// The colour for which a bot has to move after `made`, if any.
pub fn bot_to_move(botness: &Botness, made: &MoveMade) -> (r: Option<Player>)
    ensures
        r == bot_up(*botness, made.player),
{
    let up: Player = made.player.opponent();
    if botness.is_bot(up) {
        Some(up)
    } else {
        None
    }
}

/// The command that plays what the move generator came up with.
pub fn bot_command(game_id: GameId, player: Player, coord: MoveCoord, req_id: ReqId) -> (cmd:
    MakeMoveCommand)
    ensures
        cmd == (MakeMoveCommand { game_id, req_id, player, coord }),
{
    MakeMoveCommand { game_id, req_id, player, coord }
}

/// The encoding of a record of bots: one byte for black and one for white,
/// 1 where a bot plays the colour and 0 where none does.
pub open spec fn enc_botness(b: Botness) -> Seq<u8> {
    seq![if b.black_is_bot { 1u8 } else { 0u8 }, if b.white_is_bot { 1u8 } else { 0u8 }]
}

/// The record of bots that `b` is the encoding of.
pub open spec fn dec_botness(b: Seq<u8>) -> Option<Botness> {
    if b.len() == 2 && b[0] <= 1 && b[1] <= 1 {
        Some(Botness { black_is_bot: b[0] == 1, white_is_bot: b[1] == 1 })
    } else {
        None
    }
}

/// Decoding the encoding of a record of bots gives the record back.
pub proof fn lemma_botness_round_trip(b: Botness)
    ensures
        dec_botness(enc_botness(b)) == Some(b),
{
}

impl Botness {
    /// The encoding of this record, see [`enc_botness`].
    pub fn serialize(&self) -> (bytes: Vec<u8>)
        ensures
            bytes@ == enc_botness(*self),
    {
        let mut out: Vec<u8> = Vec::new();
        out.push(if self.black_is_bot { 1 } else { 0 });
        out.push(if self.white_is_bot { 1 } else { 0 });
        assert(out@ =~= enc_botness(*self));
        out
    }

    /// Reads a record from its encoding, see [`dec_botness`].
    pub fn from(bytes: &[u8]) -> (r: Result<Botness, DeserError>)
        ensures
            match r {
                Ok(b) => dec_botness(bytes@) == Some(b),
                Err(_) => dec_botness(bytes@) is None,
            },
    {
        if bytes.len() == 2 && bytes[0] <= 1 && bytes[1] <= 1 {
            Ok(Botness { black_is_bot: bytes[0] == 1, white_is_bot: bytes[1] == 1 })
        } else {
            Err(DeserError)
        }
    }
}

} // verus!
