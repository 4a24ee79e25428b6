//! The state of one game: the board, the moves so far, and whose turn it is.

use crate::board::{Board, BoardView};
use crate::model::{Captures, Coord, MoveCoord, MoveMade, MoveMadeView, Player};
use vstd::prelude::*;

verus! {

/// The side length of a board where none is asked for.
pub const DEFAULT_BOARD_SIZE: u16 = 19;

/// Where a game stands: whose move is awaited, or that it has ended.
#[derive(Clone, Copy, Debug, PartialEq, Eq, Hash, Structural)]
pub enum GamePhase {
    Awaiting(Player),
    Terminal,
}

/// The mathematical content of a [`GameState`].
pub struct GameStateView {
    pub board: BoardView,
    pub moves: Seq<MoveMadeView>,
    pub turn: nat,
    pub player_up: Player,
    pub captures: Captures,
}

/// The state of one game.
#[derive(Clone, Debug, PartialEq, Eq)]
pub struct GameState {
    pub board: Board,
    /// The accepted moves, oldest first.
    pub moves: Vec<MoveMade>,
    /// The number of the move that is awaited, counted from 1.
    pub turn: u32,
    /// Whose move is awaited.
    pub player_up: Player,
    pub captures: Captures,
}

/// The views of a list of moves.
pub open spec fn moves_view(moves: Seq<MoveMade>) -> Seq<MoveMadeView> {
    Seq::new(moves.len(), |i: int| moves[i]@)
}

impl View for GameState {
    type V = GameStateView;

    open spec fn view(&self) -> GameStateView {
        GameStateView {
            board: self.board@,
            moves: moves_view(self.moves@),
            turn: self.turn as nat,
            player_up: self.player_up,
            captures: self.captures,
        }
    }
}

/// Who moves on a given turn: BLACK on the odd ones, WHITE on the even ones.
pub open spec fn player_for_turn(turn: nat) -> Player {
    if turn % 2 == 1 {
        Player::BLACK
    } else {
        Player::WHITE
    }
}

/// How many stones the moves of `p` have taken.
pub open spec fn taken_by(moves: Seq<MoveMadeView>, p: Player) -> nat
    decreases moves.len(),
{
    if moves.len() == 0 {
        0
    } else {
        let rest = taken_by(moves.drop_last(), p);
        if moves.last().player == p {
            rest + moves.last().captured.len()
        } else {
            rest
        }
    }
}

/// `c` is a point of a board of side `size`.
pub open spec fn on_board(c: Coord, size: nat) -> bool {
    c.x < size && c.y < size
}

/// Every point that a move names is a point of a board of side `size`.
pub open spec fn move_in_bounds(m: MoveMadeView, size: nat) -> bool {
    &&& m.coord matches MoveCoord::At(c) ==> on_board(c, size)
    &&& forall|k: int| 0 <= k < m.captured.len() ==> on_board(#[trigger] m.captured[k], size)
}

impl GameStateView {
    /// The data invariant of a game state.
    pub open spec fn wf(self) -> bool {
        &&& self.board.wf()
        &&& self.board.size <= 0xffff
        &&& self.turn == self.moves.len() + 1
        &&& self.player_up == player_for_turn(self.turn)
        &&& self.captures.black == taken_by(self.moves, Player::BLACK)
        &&& self.captures.white == taken_by(self.moves, Player::WHITE)
        &&& forall|i: int| 0 <= i < self.moves.len() ==> move_in_bounds(#[trigger] self.moves[i], self.board.size)
    }

    /// The game has ended: by resignation, or by two passes in a row.
    pub open spec fn is_over(self) -> bool {
        let n = self.moves.len() as int;
        ||| n >= 1 && self.moves[n - 1].coord is Resign
        ||| n >= 2 && self.moves[n - 1].coord is Pass && self.moves[n - 2].coord is Pass
    }

    /// Where the game stands.
    pub open spec fn phase(self) -> GamePhase {
        if self.is_over() {
            GamePhase::Terminal
        } else {
            GamePhase::Awaiting(self.player_up)
        }
    }

    /// The position before the last move: the stone it placed taken off
    /// again, the stones it captured put back.
    pub open spec fn previous_board(self) -> BoardView {
        if self.moves.len() == 0 {
            self.board
        } else {
            let last = self.moves.last();
            match last.coord {
                MoveCoord::At(c) => self.board.remove(set![c]).place_all(
                    last.captured,
                    last.player.other(),
                ),
                _ => self.board,
            }
        }
    }

    /// The state of a game before its first move.
    pub open spec fn initial(size: nat) -> GameStateView {
        GameStateView {
            board: BoardView::empty(size),
            moves: Seq::empty(),
            turn: 1,
            player_up: Player::BLACK,
            captures: Captures { black: 0, white: 0 },
        }
    }
}

/// In every well-formed game state the turn is one more than the number of
/// moves made, and BLACK is up on the odd turns, WHITE on the even ones.
pub proof fn lemma_turn_and_player(s: GameStateView)
    requires
        s.wf(),
    ensures
        s.moves.len() + 1 == s.turn,
        s.turn % 2 == 1 ==> s.player_up == Player::BLACK,
        s.turn % 2 == 0 ==> s.player_up == Player::WHITE,
{
}

/// How many stones all moves together have taken.
pub open spec fn total_taken(moves: Seq<MoveMadeView>) -> nat
    decreases moves.len(),
{
    if moves.len() == 0 {
        0
    } else {
        total_taken(moves.drop_last()) + moves.last().captured.len()
    }
}

/// Every stone that was taken was taken by one of the two players.
pub proof fn lemma_taken_by_either(moves: Seq<MoveMadeView>)
    ensures
        taken_by(moves, Player::BLACK) + taken_by(moves, Player::WHITE) == total_taken(moves),
    decreases moves.len(),
{
    if moves.len() > 0 {
        lemma_taken_by_either(moves.drop_last());
    }
}

/// In every well-formed game state the two capture counts add up to the
/// number of stones that all moves together have taken.
pub proof fn lemma_captures_total(s: GameStateView)
    requires
        s.wf(),
    ensures
        s.captures.black + s.captures.white == total_taken(s.moves),
{
    lemma_taken_by_either(s.moves);
}

/// The stones taken by the first moves are among those taken by all.
pub proof fn lemma_taken_by_prefix(moves: Seq<MoveMadeView>, k: int, p: Player)
    requires
        0 <= k <= moves.len(),
    ensures
        taken_by(moves.subrange(0, k), p) <= taken_by(moves, p),
    decreases moves.len() - k,
{
    if k < moves.len() {
        lemma_taken_by_prefix(moves, k + 1, p);
        assert(moves.subrange(0, k + 1).drop_last() =~= moves.subrange(0, k));
    } else {
        assert(moves.subrange(0, k) =~= moves);
    }
}

/// No move takes more stones than its player has taken in all.
pub proof fn lemma_taken_by_covers(moves: Seq<MoveMadeView>, i: int)
    requires
        0 <= i < moves.len(),
    ensures
        moves[i].captured.len() <= taken_by(moves, moves[i].player),
{
    lemma_taken_by_prefix(moves, i + 1, moves[i].player);
    assert(moves.subrange(0, i + 1).last() == moves[i]);
}

/// Whether every point that `m` names is a point of a board of side `size`.
fn move_fits(m: &MoveMade, size: u16) -> (r: bool)
    ensures
        r == move_in_bounds(m@, size as nat),
{
    match m.coord {
        MoveCoord::At(c) => {
            if !(c.x < size && c.y < size) {
                return false;
            }
        },
        _ => {},
    }
    let mut k: usize = 0;
    while k < m.captured.len()
        invariant
            k <= m.captured.len(),
            forall|x: int| 0 <= x < k ==> on_board(#[trigger] m.captured[x], size as nat),
        decreases m.captured.len() - k,
    {
        let c: Coord = m.captured[k];
        if !(c.x < size && c.y < size) {
            assert(!on_board(m@.captured[k as int], size as nat));
            return false;
        }
        k += 1;
    }
    true
}

impl GameState {
    /// The data invariant: the board is in order and the view is well formed.
    pub open spec fn wf(&self) -> bool {
        self.board.wf() && self@.wf()
    }

    /// The state of a game before its first move.
    pub fn new(board_size: u16) -> (s: GameState)
        ensures
            s.wf(),
            s@ == GameStateView::initial(board_size as nat),
    {
        let s = GameState {
            board: Board::new(board_size),
            moves: Vec::new(),
            turn: 1,
            player_up: Player::BLACK,
            captures: Captures { black: 0, white: 0 },
        };
        assert(s@.moves =~= Seq::empty());
        s
    }

    /// Whether the game has ended.
    pub fn is_over(&self) -> (r: bool)
        ensures
            r == self@.is_over(),
    {
        let n: usize = self.moves.len();
        if n >= 1 {
            match self.moves[n - 1].coord {
                MoveCoord::Resign => {
                    return true;
                },
                MoveCoord::Pass => {
                    if n >= 2 {
                        match self.moves[n - 2].coord {
                            MoveCoord::Pass => {
                                return true;
                            },
                            _ => {},
                        }
                    }
                },
                _ => {},
            }
        }
        false
    }

    /// Where the game stands.
    pub fn phase(&self) -> (r: GamePhase)
        ensures
            r == self@.phase(),
    {
        if self.is_over() {
            GamePhase::Terminal
        } else {
            GamePhase::Awaiting(self.player_up)
        }
    }

    /// The position before the last move.
    pub fn previous_board(&self) -> (b: Board)
        requires
            self.wf(),
        ensures
            b.wf(),
            b@ == self@.previous_board(),
    {
        let n: usize = self.moves.len();
        if n == 0 {
            return self.board.duplicate();
        }
        let last = &self.moves[n - 1];
        assert(self@.moves.last() == last@);
        assert(move_in_bounds(self@.moves[n - 1], self.board@.size));
        match last.coord {
            MoveCoord::At(c) => {
                let cleared = self.board.without_point(c);
                cleared.with_stones(&last.captured, last.player.opponent())
            },
            _ => self.board.duplicate(),
        }
    }

    /// Whether the data invariant holds.
    pub fn is_well_formed(&self) -> (r: bool)
        ensures
            r == self.wf(),
    {
        if !self.board.is_well_formed() {
            return false;
        }
        if self.turn == 0 || self.moves.len() != (self.turn - 1) as usize {
            return false;
        }
        let up: Player = if self.turn % 2 == 1 {
            Player::BLACK
        } else {
            Player::WHITE
        };
        if up != self.player_up {
            return false;
        }
        let ghost mv = self@.moves;
        let mut black: u64 = 0;
        let mut white: u64 = 0;
        let mut i: usize = 0;
        proof {
            self.board.lemma_view_wf();
        }
        while i < self.moves.len()
            invariant
                i <= self.moves.len(),
                mv == moves_view(self.moves@),
                black == taken_by(mv.subrange(0, i as int), Player::BLACK),
                white == taken_by(mv.subrange(0, i as int), Player::WHITE),
                black <= u32::MAX,
                white <= u32::MAX,
                forall|k: int| 0 <= k < i ==> move_in_bounds(#[trigger] mv[k], self.board.size as nat),
            decreases self.moves.len() - i,
        {
            let m = &self.moves[i];
            if !move_fits(m, self.board.size) {
                assert(!move_in_bounds(mv[i as int], self.board.size as nat));
                return false;
            }
            let taken: usize = m.captured.len();
            proof {
                assert(mv.subrange(0, i + 1).drop_last() =~= mv.subrange(0, i as int));
                assert(mv.subrange(0, i + 1).last() == m@);
                lemma_taken_by_prefix(mv, i + 1, Player::BLACK);
                lemma_taken_by_prefix(mv, i + 1, Player::WHITE);
            }
            match m.player {
                Player::BLACK => {
                    if taken > (u32::MAX as u64 - black) as usize {
                        return false;
                    }
                    black = black + taken as u64;
                },
                Player::WHITE => {
                    if taken > (u32::MAX as u64 - white) as usize {
                        return false;
                    }
                    white = white + taken as u64;
                },
            }
            i += 1;
        }
        assert(mv.subrange(0, self.moves.len() as int) =~= mv);
        black == self.captures.black as u64 && white == self.captures.white as u64
    }

    /// A copy of this state.
    pub fn duplicate(&self) -> (s: GameState)
        ensures
            s@ == self@,
            self.wf() ==> s.wf(),
    {
        let mut moves: Vec<MoveMade> = Vec::new();
        let mut i: usize = 0;
        while i < self.moves.len()
            invariant
                i <= self.moves.len(),
                moves.len() == i,
                forall|k: int| 0 <= k < i ==> moves[k]@ == self.moves[k]@,
            decreases self.moves.len() - i,
        {
            moves.push(self.moves[i].duplicate());
            i += 1;
        }
        let s = GameState {
            board: self.board.duplicate(),
            moves,
            turn: self.turn,
            player_up: self.player_up,
            captures: self.captures,
        };
        assert(s@.moves =~= self@.moves);
        s
    }
}

} // verus!
