//! The plain values of the game: players, points, moves.

use crate::ids::{EventId, GameId, ReqId};
use vstd::prelude::*;

verus! {

/// Text or bytes could not be read as the value they should hold.
#[derive(Clone, Copy, Debug, PartialEq, Eq, Hash, Structural)]
pub struct DeserError;

/// The two sides of a game. BLACK moves first.
#[derive(Clone, Copy, Debug, PartialEq, Eq, Hash, Structural)]
pub enum Player {
    BLACK,
    WHITE,
}

impl Player {
    /// The opposing side.
    pub open spec fn other(self) -> Player {
        match self {
            Player::BLACK => Player::WHITE,
            Player::WHITE => Player::BLACK,
        }
    }

    /// The opposing side.
    pub fn opponent(self) -> (p: Player)
        ensures
            p == self.other(),
    {
        match self {
            Player::BLACK => Player::WHITE,
            Player::WHITE => Player::BLACK,
        }
    }
}

/// Whether a game is open to anyone or only to those who know its id.
#[derive(Clone, Copy, Debug, PartialEq, Eq, Hash, Structural)]
pub enum Visibility {
    Public,
    Private,
}

/// A point of the board: column `x`, row `y`, both counted from zero.
#[derive(Clone, Copy, Debug, PartialEq, Eq, Hash, Structural)]
pub struct Coord {
    pub x: u16,
    pub y: u16,
}

impl Coord {
    /// The rank of a point in the order in which a board lists its stones:
    /// by column, then by row.
    pub open spec fn key(self) -> int {
        self.x * 0x1_0000 + self.y
    }

    /// The point in column `x` and row `y`.
    pub fn of(x: u16, y: u16) -> (c: Coord)
        ensures
            c == (Coord { x, y }),
    {
        Coord { x, y }
    }

    /// The rank of this point, see [`Coord::key`].
    pub fn rank(self) -> (k: u32)
        ensures
            k == self.key(),
    {
        (self.x as u32) * 0x1_0000 + (self.y as u32)
    }
}

/// Two points are adjacent when they differ by one step along one axis.
pub open spec fn adjacent(a: Coord, b: Coord) -> bool {
    ||| a.x == b.x && (a.y + 1 == b.y || b.y + 1 == a.y)
    ||| a.y == b.y && (a.x + 1 == b.x || b.x + 1 == a.x)
}

/// Different points have different ranks.
pub proof fn lemma_key_injective(a: Coord, b: Coord)
    ensures
        a.key() == b.key() <==> a == b,
{
}

/// A stone on the board.
#[derive(Clone, Copy, Debug, PartialEq, Eq, Hash, Structural)]
pub struct Stone {
    pub coord: Coord,
    pub player: Player,
}

/// How many stones each side has taken off the board.
#[derive(Clone, Copy, Debug, PartialEq, Eq, Hash, Structural)]
pub struct Captures {
    pub black: u32,
    pub white: u32,
}

/// What a player does on their turn.
#[derive(Clone, Copy, Debug, PartialEq, Eq, Hash, Structural)]
pub enum MoveCoord {
    /// Place a stone.
    At(Coord),
    /// Let the turn go by.
    Pass,
    /// Give the game up.
    Resign,
}

/// A request to make a move.
#[derive(Clone, Copy, Debug, PartialEq, Eq, Hash, Structural)]
pub struct MakeMoveCommand {
    pub game_id: GameId,
    pub req_id: ReqId,
    pub player: Player,
    pub coord: MoveCoord,
}

/// A move that was accepted, with the stones it took.
#[derive(Clone, Debug, PartialEq, Eq)]
pub struct MoveMade {
    pub game_id: GameId,
    pub reply_to: ReqId,
    pub player: Player,
    pub coord: MoveCoord,
    pub captured: Vec<Coord>,
    pub event_id: EventId,
}

/// The mathematical content of a [`MoveMade`].
pub struct MoveMadeView {
    pub game_id: GameId,
    pub reply_to: ReqId,
    pub player: Player,
    pub coord: MoveCoord,
    pub captured: Seq<Coord>,
    pub event_id: EventId,
}

impl View for MoveMade {
    type V = MoveMadeView;

    open spec fn view(&self) -> MoveMadeView {
        MoveMadeView {
            game_id: self.game_id,
            reply_to: self.reply_to,
            player: self.player,
            coord: self.coord,
            captured: self.captured@,
            event_id: self.event_id,
        }
    }
}

/// A copy of a list of points.
pub fn copy_coords(src: &Vec<Coord>) -> (dst: Vec<Coord>)
    ensures
        dst@ == src@,
{
    let mut dst: Vec<Coord> = Vec::new();
    let mut i: usize = 0;
    while i < src.len()
        invariant
            i <= src.len(),
            dst@ == src@.subrange(0, i as int),
        decreases src.len() - i,
    {
        dst.push(src[i]);
        assert(dst@ == src@.subrange(0, i + 1));
        i += 1;
    }
    assert(src@.subrange(0, src.len() as int) == src@);
    dst
}

impl MoveMade {
    /// A copy of this move.
    pub fn duplicate(&self) -> (m: MoveMade)
        ensures
            m@ == self@,
    {
        MoveMade {
            game_id: self.game_id,
            reply_to: self.reply_to,
            player: self.player,
            coord: self.coord,
            captured: copy_coords(&self.captured),
            event_id: self.event_id,
        }
    }
}

} // verus!
