//! The changelog: builds the state of a game from the moves that the judge
//! accepted.
//!
//! It trusts the judge: a move is checked only as far as the data invariant of
//! the state needs it. A move whose event id is already among the moves of
//! the state is not applied a second time.

use crate::board::{Board, BoardView};
use crate::events::{GameReady, MoveUndone};
use crate::game_state::{
    move_in_bounds, moves_view, on_board, taken_by, GameState, GameStateView,
};
use crate::groups::{connected, lemma_connected_colour};
use crate::ids::EventId;
use crate::judge::{captured_set, is_ko, records, rejection, resolve, smothers};
use crate::model::{Captures, Coord, MakeMoveCommand, MoveCoord, MoveMade, MoveMadeView, Player};
use vstd::prelude::*;

verus! {

/// Why a move cannot be applied to a state.
#[derive(Clone, Copy, Debug, PartialEq, Eq, Hash, Structural)]
pub enum ApplyError {
    /// The move names a point that is not on the board.
    OutOfBounds,
    /// The move places a stone on a point that holds one.
    Occupied,
    /// The move claims to take a stone that is not an opposing stone on the
    /// board, or the same stone twice, or takes stones without placing one.
    BadCapture,
    /// The turn or a capture count would no longer fit its counter.
    Overflow,
}

/// A move with this event id is among the moves of the state.
pub open spec fn known(v: GameStateView, event_id: EventId) -> bool {
    exists|i: int| 0 <= i < v.moves.len() && (#[trigger] v.moves[i]).event_id == event_id
}

/// The stones that `m` takes are distinct opposing stones on `b1`, the
/// board with the stone of `m` placed.
pub open spec fn captures_ok(b1: BoardView, m: MoveMadeView) -> bool {
    &&& m.captured.no_duplicates()
    &&& forall|k: int|
        0 <= k < m.captured.len() ==> b1.at(#[trigger] m.captured[k]) == Some(m.player.other())
}

/// The capture count of `p` after `m`.
pub open spec fn count_after(v: GameStateView, m: MoveMadeView, p: Player) -> nat {
    let before = if p == Player::BLACK {
        v.captures.black
    } else {
        v.captures.white
    };
    if m.player == p {
        before as nat + m.captured.len()
    } else {
        before as nat
    }
}

/// What keeps `m` from being applied to `v`, if anything does.
pub open spec fn defect(v: GameStateView, m: MoveMadeView) -> Option<ApplyError> {
    let shape = match m.coord {
        MoveCoord::At(c) => if !v.board.in_bounds(c) {
            Some(ApplyError::OutOfBounds)
        } else if v.board.at(c) is Some {
            Some(ApplyError::Occupied)
        } else if !captures_ok(v.board.place(c, m.player), m) {
            Some(ApplyError::BadCapture)
        } else {
            None
        },
        _ => if m.captured.len() > 0 {
            Some(ApplyError::BadCapture)
        } else {
            None
        },
    };
    if shape is Some {
        shape
    } else if v.turn + 1 > u32::MAX || count_after(v, m, m.player) > u32::MAX {
        Some(ApplyError::Overflow)
    } else {
        None
    }
}

/// The board after `m`.
pub open spec fn board_after(b: BoardView, m: MoveMadeView) -> BoardView {
    match m.coord {
        MoveCoord::At(c) => b.place(c, m.player).remove(m.captured.to_set()),
        _ => b,
    }
}

/// The state after `m`: the board changed, the move appended, the turn
/// passed on, the stones taken counted.
pub open spec fn advance(v: GameStateView, m: MoveMadeView) -> GameStateView {
    GameStateView {
        board: board_after(v.board, m),
        moves: v.moves.push(m),
        turn: v.turn + 1,
        player_up: v.player_up.other(),
        captures: Captures {
            black: count_after(v, m, Player::BLACK) as u32,
            white: count_after(v, m, Player::WHITE) as u32,
        },
    }
}

/// `m` changes `v`: it is new to the state and nothing keeps it from being
/// applied.
pub open spec fn applies(v: GameStateView, m: MoveMadeView) -> bool {
    !known(v, m.event_id) && defect(v, m) is None
}

/// The state that the changelog holds after it has seen `m` in state `v`.
pub open spec fn apply_spec(v: GameStateView, m: MoveMadeView) -> GameStateView {
    if applies(v, m) {
        advance(v, m)
    } else {
        v
    }
}

/// One more move adds the stones it takes to the count of its player.
pub proof fn lemma_taken_by_push(moves: Seq<MoveMadeView>, m: MoveMadeView, p: Player)
    ensures
        taken_by(moves.push(m), p) == taken_by(moves, p) + if m.player == p {
            m.captured.len()
        } else {
            0
        },
{
    assert(moves.push(m).drop_last() =~= moves);
}

/// A move onto the board leaves all stones on the board.
pub proof fn lemma_board_after_wf(b: BoardView, m: MoveMadeView)
    requires
        b.wf(),
        m.coord matches MoveCoord::At(c) ==> b.in_bounds(c),
    ensures
        board_after(b, m).wf(),
        board_after(b, m).size == b.size,
        m.coord matches MoveCoord::At(c) ==> b.place(c, m.player).wf(),
{
    match m.coord {
        MoveCoord::At(c) => {
            let b1 = b.place(c, m.player);
            assert forall|d: Coord| b1.stones.contains_key(d) implies b1.in_bounds(d) by {
                if d != c {
                    assert(b.stones.contains_key(d));
                }
            }
            let b2 = b1.remove(m.captured.to_set());
            assert forall|d: Coord| b2.stones.contains_key(d) implies b2.in_bounds(d) by {
                assert(b1.stones.contains_key(d));
            }
        },
        _ => {},
    }
}

/// Applying a move keeps the data invariant: the turn stays one ahead of the
/// number of moves, the player alternates, the capture counts stay sums.
pub proof fn lemma_apply_keeps_invariant(v: GameStateView, m: MoveMadeView)
    requires
        v.wf(),
    ensures
        apply_spec(v, m).wf(),
{
    if applies(v, m) {
        let w = advance(v, m);
        lemma_taken_by_push(v.moves, m, Player::BLACK);
        lemma_taken_by_push(v.moves, m, Player::WHITE);
        lemma_board_after_wf(v.board, m);
        assert forall|i: int| 0 <= i < w.moves.len() implies move_in_bounds(
            #[trigger] w.moves[i],
            w.board.size,
        ) by {
            if i < v.moves.len() {
                assert(move_in_bounds(v.moves[i], v.board.size));
            } else {
                match m.coord {
                    MoveCoord::At(c) => {
                        let b1 = v.board.place(c, m.player);
                        assert forall|k: int| 0 <= k < m.captured.len() implies on_board(
                            #[trigger] m.captured[k],
                            w.board.size,
                        ) by {
                            assert(b1.at(m.captured[k]) is Some);
                            assert(b1.stones.contains_key(m.captured[k]));
                            assert(b1.in_bounds(m.captured[k]));
                        }
                    },
                    _ => {},
                }
            }
        }
    }
}

/// Seeing the same accepted move twice leaves the state as seeing it once.
pub proof fn lemma_apply_idempotent(v: GameStateView, m: MoveMadeView)
    ensures
        apply_spec(apply_spec(v, m), m) == apply_spec(v, m),
{
    if applies(v, m) {
        let w = advance(v, m);
        assert(w.moves[v.moves.len() as int].event_id == m.event_id);
        assert(known(w, m.event_id));
    }
}

/// Placing stones of `p` on the points of `cs` occupies exactly those points
/// more, and changes no other stone.
pub proof fn lemma_place_all(b: BoardView, cs: Seq<Coord>, p: Player)
    ensures
        b.place_all(cs, p).size == b.size,
        forall|c: Coord|
            #[trigger] b.place_all(cs, p).stones.contains_key(c) <==> b.stones.contains_key(c)
                || cs.contains(c),
        forall|c: Coord|
            cs.contains(c) ==> #[trigger] b.place_all(cs, p).stones[c] == p,
        forall|c: Coord|
            !cs.contains(c) ==> #[trigger] b.place_all(cs, p).stones[c] == b.stones[c],
    decreases cs.len(),
{
    if cs.len() > 0 {
        let front = cs.drop_last();
        lemma_place_all(b, front, p);
        assert forall|c: Coord| cs.contains(c) <==> front.contains(c) || c == cs.last() by {
            if front.contains(c) {
                let k = choose|k: int| 0 <= k < front.len() && front[k] == c;
                assert(cs[k] == c);
            }
            if cs.contains(c) {
                let k = choose|k: int| 0 <= k < cs.len() && cs[k] == c;
                if k < cs.len() - 1 {
                    assert(front[k] == c);
                }
            }
            if c == cs.last() {
                assert(cs[cs.len() - 1] == c);
            }
        }
    }
}

/// A move that the judge accepts has nothing that keeps the changelog from
/// applying it, unless a counter is full.
pub proof fn lemma_accepted_is_sound(
    v: GameStateView,
    cmd: MakeMoveCommand,
    event_id: EventId,
    m: MoveMadeView,
)
    requires
        v.wf(),
        rejection(v, cmd) is None,
        records(v, cmd, event_id, m),
    ensures
        defect(v, m) is None || defect(v, m) == Some(ApplyError::Overflow),
{
    match cmd.coord {
        MoveCoord::At(c) => {
            let b1 = v.board.place(c, m.player);
            crate::judge::lemma_increasing_distinct(m.captured);
            assert forall|k: int| 0 <= k < m.captured.len() implies b1.at(
                #[trigger] m.captured[k],
            ) == Some(m.player.other()) by {
                let x = m.captured[k];
                assert(m.captured.to_set().contains(x));
                let nb = choose|nb: Coord| #[trigger]
                    smothers(b1, c, m.player, nb) && connected(b1, nb, x);
                lemma_connected_colour(b1, nb, x);
            }
        },
        _ => {
            if m.captured.len() > 0 {
                assert(m.captured.to_set().contains(m.captured[0]));
            }
        },
    }
}

/// After a stone was placed, the position before the last move is the
/// position that the move was applied to.
pub proof fn lemma_previous_board_restores(v: GameStateView, m: MoveMadeView)
    requires
        v.wf(),
        applies(v, m),
    ensures
        advance(v, m).previous_board() == v.board,
{
    let w = advance(v, m);
    assert(w.moves.last() == m);
    match m.coord {
        MoveCoord::At(c) => {
            let opp = m.player.other();
            let b1 = v.board.place(c, m.player);
            let cleared = w.board.remove(set![c]);
            let back = cleared.place_all(m.captured, opp);
            lemma_place_all(cleared, m.captured, opp);
            assert forall|x: Coord| m.captured.contains(x) implies v.board.stones.contains_key(x)
                && v.board.stones[x] == opp && x != c by {
                let k = choose|k: int| 0 <= k < m.captured.len() && m.captured[k] == x;
                assert(b1.at(m.captured[k]) == Some(opp));
            }
            assert forall|x: Coord| back.stones.contains_key(x) <==> v.board.stones.contains_key(
                x,
            ) by {
                if v.board.stones.contains_key(x) && !m.captured.contains(x) {
                    assert(!m.captured.to_set().contains(x));
                    assert(cleared.stones.contains_key(x));
                }
            }
            assert(back.stones =~= v.board.stones);
        },
        _ => {},
    }
}

/// Simple ko. Take a well-formed state, a move that the judge accepts in it
/// and that changes it, and a second move that the judge accepts in the
/// state that results and that changes that in turn. Unless neither of the
/// two moves places a stone, the position after the second move differs from
/// the position before the first.
pub proof fn lemma_no_immediate_repetition(
    s0: GameStateView,
    cmd1: MakeMoveCommand,
    m1: MoveMadeView,
    cmd2: MakeMoveCommand,
    m2: MoveMadeView,
)
    requires
        s0.wf(),
        rejection(s0, cmd1) is None,
        records(s0, cmd1, m1.event_id, m1),
        applies(s0, m1),
        rejection(apply_spec(s0, m1), cmd2) is None,
        records(apply_spec(s0, m1), cmd2, m2.event_id, m2),
        applies(apply_spec(s0, m1), m2),
        cmd1.coord is At || cmd2.coord is At,
    ensures
        apply_spec(apply_spec(s0, m1), m2).board != s0.board,
{
    let s1 = advance(s0, m1);
    let s2 = advance(s1, m2);
    assert(s1.moves.last() == m1);
    lemma_apply_keeps_invariant(s0, m1);
    match cmd2.coord {
        MoveCoord::At(q) => {
            let b1 = s1.board.place(q, m2.player);
            let taken = captured_set(b1, q, m2.player);
            assert(s2.board == resolve(s1.board, q, m2.player));
            assert(s2.board.stones.contains_key(q)) by {
                if taken.contains(q) {
                    let nb = choose|nb: Coord| #[trigger]
                        smothers(b1, q, m2.player, nb) && connected(b1, nb, q);
                    lemma_connected_colour(b1, nb, q);
                }
            }
            match cmd1.coord {
                MoveCoord::At(p) => {
                    if s2.board == s0.board {
                        lemma_previous_board_restores(s0, m1);
                        assert(s1.board.stones.contains_key(p)) by {
                            let a1 = s0.board.place(p, m1.player);
                            if m1.captured.to_set().contains(p) {
                                let k = choose|k: int|
                                    0 <= k < m1.captured.len() && m1.captured[k] == p;
                                assert(a1.at(m1.captured[k]) == Some(m1.player.other()));
                            }
                        }
                        assert(taken.contains(p));
                        assert forall|y: Coord| taken.contains(y) implies y == p by {
                            let nb = choose|nb: Coord| #[trigger]
                                smothers(b1, q, m2.player, nb) && connected(b1, nb, y);
                            lemma_connected_colour(b1, nb, y);
                            assert(b1.stones.contains_key(y));
                            assert(!s2.board.stones.contains_key(y));
                            if y != p {
                                assert(s1.board.stones.contains_key(y));
                                assert(s0.board.stones.contains_key(y));
                            }
                        }
                        assert(taken =~= set![p]);
                        assert(is_ko(s1, q, m2.player));
                    }
                },
                _ => {
                    assert(!s0.board.stones.contains_key(q));
                },
            }
        },
        _ => {
            let p = cmd1.coord->At_0;
            let a1 = s0.board.place(p, m1.player);
            assert(s1.board.stones.contains_key(p)) by {
                if m1.captured.to_set().contains(p) {
                    let k = choose|k: int| 0 <= k < m1.captured.len() && m1.captured[k] == p;
                    assert(a1.at(m1.captured[k]) == Some(m1.player.other()));
                }
            }
            assert(!s0.board.stones.contains_key(p));
        },
    }
}

/// Whether a move with this event id is among `moves`.
fn has_event(moves: &Vec<MoveMade>, event_id: EventId) -> (r: bool)
    ensures
        r == exists|i: int| 0 <= i < moves.len() && (#[trigger] moves[i]).event_id == event_id,
{
    let mut i: usize = 0;
    while i < moves.len()
        invariant
            i <= moves.len(),
            forall|k: int| 0 <= k < i ==> (#[trigger] moves[k]).event_id != event_id,
        decreases moves.len() - i,
    {
        if moves[i].event_id == event_id {
            return true;
        }
        i += 1;
    }
    false
}

/// Takes the stones that `m` lists off `b1`, if they are distinct opposing
/// stones.
fn take_captured(b1: &Board, m: &MoveMade) -> (r: Option<Board>)
    requires
        b1.wf(),
    ensures
        match r {
            Some(b) => captures_ok(b1@, m@) && b.wf() && b@ == b1@.remove(m@.captured.to_set()),
            None => !captures_ok(b1@, m@),
        },
{
    let opp: Player = m.player.opponent();
    let mut b = b1.duplicate();
    let mut k: usize = 0;
    assert(b@.stones =~= b1@.stones.remove_keys(m.captured@.subrange(0, 0).to_set()));
    while k < m.captured.len()
        invariant
            k <= m.captured.len(),
            b1.wf(),
            b.wf(),
            opp == m.player.other(),
            b@ == b1@.remove(m.captured@.subrange(0, k as int).to_set()),
            m.captured@.subrange(0, k as int).no_duplicates(),
            forall|x: int| 0 <= x < k ==> b1@.at(#[trigger] m.captured[x]) == Some(opp),
        decreases m.captured.len() - k,
    {
        let c: Coord = m.captured[k];
        let ghost s0 = m.captured@.subrange(0, k as int);
        let ghost s1 = m.captured@.subrange(0, k + 1);
        match b.get(c) {
            Some(p) => {
                if p != opp {
                    assert(b1@.at(m@.captured[k as int]) != Some(opp));
                    return None;
                }
            },
            None => {
                proof {
                    if b1@.at(c) == Some(opp) {
                        assert(s0.to_set().contains(c));
                        let x = choose|x: int| 0 <= x < s0.len() && s0[x] == c;
                        assert(m@.captured[x] == m@.captured[k as int]);
                    }
                }
                return None;
            },
        }
        b = b.without_point(c);
        proof {
            assert(s1.drop_last() =~= s0);
            assert forall|d: Coord| s1.to_set().contains(d) <==> (s0.to_set().contains(d) || d
                == c) by {
                if s0.contains(d) {
                    let x = choose|x: int| 0 <= x < s0.len() && s0[x] == d;
                    assert(s1[x] == d);
                }
                if s1.contains(d) {
                    let x = choose|x: int| 0 <= x < s1.len() && s1[x] == d;
                    if x < k {
                        assert(s0[x] == d);
                    }
                }
                if d == c {
                    assert(s1[k as int] == d);
                }
            }
            assert(b@.stones =~= b1@.stones.remove_keys(s1.to_set()));
            assert(!s0.contains(c));
            assert forall|x: int, y: int| 0 <= x < s1.len() && 0 <= y < s1.len() && x != y implies s1[x]
                != s1[y] by {
                if x < k && y < k {
                    assert(s0[x] != s0[y]);
                } else if x < k {
                    assert(s0[x] == s1[x]);
                } else {
                    assert(s0[y] == s1[y]);
                }
            }
        }
        k += 1;
    }
    assert(m.captured@.subrange(0, m.captured.len() as int) == m.captured@);
    Some(b)
}

/// Applies the accepted move `m` to `state`.
///
/// Returns the new state; the same state again where a move with the event
/// id of `m` was applied before; or the reason why `m` cannot be applied.
pub fn apply(state: &GameState, m: &MoveMade) -> (r: Result<GameState, ApplyError>)
    requires
        state.wf(),
    ensures
        match r {
            Ok(s) => {
                &&& known(state@, m.event_id) || defect(state@, m@) is None
                &&& s.wf()
                &&& s@ == apply_spec(state@, m@)
            },
            Err(e) => !known(state@, m.event_id) && defect(state@, m@) == Some(e),
        },
{
    proof {
        lemma_apply_keeps_invariant(state@, m@);
    }
    if has_event(&state.moves, m.event_id) {
        assert(known(state@, m.event_id)) by {
            let i = choose|i: int|
                0 <= i < state.moves.len() && (#[trigger] state.moves[i]).event_id == m.event_id;
            assert(state@.moves[i].event_id == m.event_id);
        }
        return Ok(state.duplicate());
    }
    assert(!known(state@, m.event_id)) by {
        if known(state@, m.event_id) {
            let i = choose|i: int|
                0 <= i < state@.moves.len() && (#[trigger] state@.moves[i]).event_id == m.event_id;
            assert(state.moves[i].event_id == m.event_id);
        }
    }
    let board: Board = match m.coord {
        MoveCoord::At(c) => {
            if !state.board.in_bounds(c) {
                return Err(ApplyError::OutOfBounds);
            }
            if state.board.get(c).is_some() {
                return Err(ApplyError::Occupied);
            }
            let b1 = state.board.with_stone(c, m.player);
            match take_captured(&b1, m) {
                None => {
                    return Err(ApplyError::BadCapture);
                },
                Some(b) => b,
            }
        },
        _ => {
            if m.captured.len() > 0 {
                return Err(ApplyError::BadCapture);
            }
            state.board.duplicate()
        },
    };
    if state.turn == u32::MAX {
        return Err(ApplyError::Overflow);
    }
    let taken: usize = m.captured.len();
    let mine: u32 = match m.player {
        Player::BLACK => state.captures.black,
        Player::WHITE => state.captures.white,
    };
    if taken > (u32::MAX - mine) as usize {
        return Err(ApplyError::Overflow);
    }
    let total: u32 = mine + taken as u32;
    let captures = match m.player {
        Player::BLACK => Captures { black: total, white: state.captures.white },
        Player::WHITE => Captures { black: state.captures.black, white: total },
    };
    let mut moves = state.duplicate().moves;
    moves.push(m.duplicate());
    let s = GameState {
        board,
        moves,
        turn: state.turn + 1,
        player_up: state.player_up.opponent(),
        captures,
    };
    assert(s@.moves =~= state@.moves.push(m@));
    assert(s@ == advance(state@, m@));
    Ok(s)
}

/// Where and why a replay stopped.
#[derive(Clone, Copy, Debug, PartialEq, Eq, Hash, Structural)]
pub struct ReplayError {
    /// The index of the move that could not be applied.
    pub at: usize,
    pub cause: ApplyError,
}

/// The state that results from applying `moves` in order to an empty board
/// of side `size`, or the index of the first move that cannot be applied,
/// with the reason.
pub open spec fn replay_spec(size: nat, moves: Seq<MoveMadeView>) -> Result<
    GameStateView,
    (int, ApplyError),
>
    decreases moves.len(),
{
    if moves.len() == 0 {
        Ok(GameStateView::initial(size))
    } else {
        match replay_spec(size, moves.drop_last()) {
            Err(e) => Err(e),
            Ok(v) => if known(v, moves.last().event_id) {
                Ok(v)
            } else {
                match defect(v, moves.last()) {
                    Some(e) => Err((moves.len() - 1, e)),
                    None => Ok(advance(v, moves.last())),
                }
            },
        }
    }
}

/// The state of a game that has just been made ready.
pub fn on_game_ready(ready: &GameReady) -> (s: GameState)
    ensures
        s.wf(),
        s@ == GameStateView::initial(ready.board_size as nat),
{
    GameState::new(ready.board_size)
}

/// Builds the state of a game from nothing by applying `moves` in order.
pub fn replay(board_size: u16, moves: &Vec<MoveMade>) -> (r: Result<GameState, ReplayError>)
    ensures
        match r {
            Ok(s) => s.wf() && replay_spec(board_size as nat, moves_view(moves@)) == Ok::<
                GameStateView,
                (int, ApplyError),
            >(s@),
            Err(e) => replay_spec(board_size as nat, moves_view(moves@)) == Err::<
                GameStateView,
                (int, ApplyError),
            >((e.at as int, e.cause)),
        },
{
    let ghost mv = moves_view(moves@);
    let mut s = GameState::new(board_size);
    let mut i: usize = 0;
    while i < moves.len()
        invariant
            i <= moves.len(),
            mv == moves_view(moves@),
            s.wf(),
            replay_spec(board_size as nat, mv.subrange(0, i as int)) == Ok::<
                GameStateView,
                (int, ApplyError),
            >(s@),
        decreases moves.len() - i,
    {
        proof {
            assert(mv.subrange(0, i + 1).drop_last() =~= mv.subrange(0, i as int));
            assert(mv.subrange(0, i + 1).last() == moves[i as int]@);
        }
        match apply(&s, &moves[i]) {
            Ok(next) => {
                s = next;
            },
            Err(cause) => {
                proof {
                    lemma_replay_stops(board_size as nat, mv, i + 1);
                }
                return Err(ReplayError { at: i, cause });
            },
        }
        i += 1;
    }
    assert(mv.subrange(0, moves.len() as int) == mv);
    Ok(s)
}

/// Once a replay has stopped at a move, more moves after it change nothing.
pub proof fn lemma_replay_stops(size: nat, moves: Seq<MoveMadeView>, n: int)
    requires
        0 <= n <= moves.len(),
        replay_spec(size, moves.subrange(0, n)) is Err,
    ensures
        replay_spec(size, moves) == replay_spec(size, moves.subrange(0, n)),
    decreases moves.len() - n,
{
    if n < moves.len() {
        assert(moves.subrange(0, n + 1).drop_last() =~= moves.subrange(0, n));
        lemma_replay_stops(size, moves, n + 1);
    } else {
        assert(moves.subrange(0, n) =~= moves);
    }
}

/// The state after the move with the event id `event_id` was undone: where
/// that is the last move of the state, the state that results from
/// replaying all moves before it on an empty board; else the state as it is.
pub open spec fn undo_spec(v: GameStateView, event_id: EventId) -> Result<
    GameStateView,
    (int, ApplyError),
> {
    if v.moves.len() > 0 && v.moves.last().event_id == event_id {
        replay_spec(v.board.size, v.moves.drop_last())
    } else {
        Ok(v)
    }
}

/// Takes back the last move of `state` after it was undone, see
/// [`undo_spec`].
pub fn on_move_undone(state: &GameState, undone: &MoveUndone) -> (r: Result<GameState, ReplayError>)
    ensures
        match r {
            Ok(s) => undo_spec(state@, undone.undone_move.event_id) == Ok::<
                GameStateView,
                (int, ApplyError),
            >(s@) && (state.wf() ==> s.wf()),
            Err(e) => undo_spec(state@, undone.undone_move.event_id) == Err::<
                GameStateView,
                (int, ApplyError),
            >((e.at as int, e.cause)),
        },
{
    let n: usize = state.moves.len();
    if n == 0 || state.moves[n - 1].event_id != undone.undone_move.event_id {
        assert(n > 0 ==> state@.moves.last() == state.moves[n - 1]@);
        return Ok(state.duplicate());
    }
    assert(state@.moves.last() == state.moves[n - 1]@);
    let mut earlier: Vec<MoveMade> = Vec::new();
    let mut i: usize = 0;
    while i < n - 1
        invariant
            i <= n - 1,
            n == state.moves.len(),
            earlier.len() == i,
            forall|k: int| 0 <= k < i ==> earlier[k]@ == state.moves[k]@,
        decreases n - 1 - i,
    {
        earlier.push(state.moves[i].duplicate());
        i += 1;
    }
    assert(moves_view(earlier@) =~= state@.moves.drop_last());
    replay(state.board.size, &earlier)
}

/// What the changelog takes from the bus.
#[derive(Clone, Debug, PartialEq, Eq)]
pub enum ChangelogInput {
    /// A game was made ready.
    Ready(GameReady),
    /// The judge accepted a move.
    Accepted(MoveMade),
}

/// Why the changelog cannot go on.
#[derive(Clone, Copy, Debug, PartialEq, Eq, Hash, Structural)]
pub enum ChangelogError {
    /// A move was accepted in a game of which no state is kept: the game
    /// was never made ready, or the entries came out of order.
    MissingState,
    /// The accepted move cannot be applied to the state that is kept.
    Unsound(ApplyError),
}

/// What one entry makes of the state of a game.
#[derive(Clone, Debug, PartialEq, Eq)]
pub struct Materialized {
    /// The state to keep.
    pub state: GameState,
    /// The move to publish as made, where the entry was a move that
    /// changed the state.
    pub made: Option<MoveMade>,
}

/// The state to keep after the game was made ready: the state that is kept
/// already where there is one, else the state before the first move.
pub open spec fn ready_spec(stored: Option<GameStateView>, size: nat) -> GameStateView {
    match stored {
        Some(v) => v,
        None => GameStateView::initial(size),
    }
}

/// One step of the changelog: takes an entry from the bus and the state
/// that is kept of its game, and gives the state to keep and the move to
/// publish.
///
/// A game that is made ready starts from an empty board, unless a state of
/// it is kept already. An accepted move is applied to the state that is
/// kept, and is published as made where it changed the state; without a
/// state to apply it to the changelog cannot go on.
pub fn materialize(stored: Option<&GameState>, input: &ChangelogInput) -> (r: Result<
    Materialized,
    ChangelogError,
>)
    requires
        stored matches Some(s) ==> s.wf(),
    ensures
        match (input, r) {
            (ChangelogInput::Ready(g), Ok(m)) => {
                &&& m.state.wf()
                &&& m.state@ == ready_spec(
                    match stored {
                        Some(s) => Some(s@),
                        None => None,
                    },
                    g.board_size as nat,
                )
                &&& m.made is None
            },
            (ChangelogInput::Ready(_), Err(_)) => false,
            (ChangelogInput::Accepted(a), Ok(m)) => {
                &&& stored matches Some(s)
                &&& (known(s@, a.event_id) || defect(s@, a@) is None)
                &&& m.state.wf()
                &&& m.state@ == apply_spec(s@, a@)
                &&& match m.made {
                    Some(made) => applies(s@, a@) && made@ == a@,
                    None => !applies(s@, a@),
                }
            },
            (ChangelogInput::Accepted(a), Err(e)) => match stored {
                None => e == ChangelogError::MissingState,
                Some(s) => {
                    &&& !known(s@, a.event_id)
                    &&& defect(s@, a@) matches Some(cause)
                    &&& e == ChangelogError::Unsound(cause)
                },
            },
        },
{
    match input {
        ChangelogInput::Ready(g) => {
            let state = match stored {
                Some(s) => s.duplicate(),
                None => on_game_ready(g),
            };
            Ok(Materialized { state, made: None })
        },
        ChangelogInput::Accepted(a) => {
            let s = match stored {
                Some(s) => s,
                None => {
                    return Err(ChangelogError::MissingState);
                },
            };
            let fresh: bool = !has_event(&s.moves, a.event_id);
            proof {
                if known(s@, a.event_id) {
                    let i = choose|i: int|
                        0 <= i < s@.moves.len() && (#[trigger] s@.moves[i]).event_id == a.event_id;
                    assert(s.moves[i].event_id == a.event_id);
                }
                if !fresh {
                    let i = choose|i: int|
                        0 <= i < s.moves.len() && (#[trigger] s.moves[i]).event_id == a.event_id;
                    assert(s@.moves[i].event_id == a.event_id);
                }
            }
            match apply(s, a) {
                Ok(state) => Ok(
                    Materialized {
                        state,
                        made: if fresh {
                            Some(a.duplicate())
                        } else {
                            None
                        },
                    },
                ),
                Err(cause) => Err(ChangelogError::Unsound(cause)),
            }
        },
    }
}

} // verus!
