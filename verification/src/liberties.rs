//! No accepted move leaves a stone without a liberty.

use crate::board::BoardView;
use crate::groups::{
    breathes, chain, connected, has_liberty, joins, lemma_connected_colour,
    lemma_connected_extend, lemma_connected_self,
};
use crate::changelog::{applies, apply_spec};
use crate::game_state::GameStateView;
use crate::judge::{captured_set, is_suicide, records, rejection, resolve, smothers};
use crate::model::{adjacent, Coord, MakeMoveCommand, MoveCoord, MoveMadeView, Player};
use vstd::prelude::*;

verus! {

/// Every stone on the board belongs to a group with a liberty.
pub open spec fn all_alive(b: BoardView) -> bool {
    forall|d: Coord| b.at(d) is Some ==> #[trigger] has_liberty(b, d)
}

/// Being in one group goes both ways.
pub proof fn lemma_connected_symmetric(b: BoardView, a: Coord, d: Coord)
    requires
        connected(b, a, d),
    ensures
        connected(b, d, a),
{
    let path = choose|path: Seq<Coord>| #[trigger] joins(b, path, a, d);
    let n = path.len() as int;
    let back = Seq::new(path.len(), |i: int| path[n - 1 - i]);
    lemma_connected_colour(b, a, d);
    let p = b.at(a)->0;
    assert forall|i: int| 0 <= i < back.len() implies b.at(#[trigger] back[i]) == Some(p) by {
        assert(back[i] == path[n - 1 - i]);
    }
    assert forall|i: int| 0 <= i < back.len() - 1 implies adjacent(
        #[trigger] back[i],
        back[i + 1],
    ) by {
        assert(back[i] == path[n - 1 - i]);
        assert(back[i + 1] == path[n - 2 - i]);
        assert(adjacent(path[n - 2 - i], path[n - 2 - i + 1]));
    }
    assert(joins(b, back, d, a));
}

/// Whatever is in one group with a stone of a group is in that group.
pub proof fn lemma_connected_transitive(b: BoardView, a: Coord, d: Coord, e: Coord)
    requires
        connected(b, a, d),
        connected(b, d, e),
    ensures
        connected(b, a, e),
{
    let first = choose|path: Seq<Coord>| #[trigger] joins(b, path, a, d);
    let second = choose|path: Seq<Coord>| #[trigger] joins(b, path, d, e);
    lemma_connected_colour(b, a, d);
    let p = b.at(a)->0;
    let whole = first + second.drop_first();
    let n = first.len() as int;
    assert forall|i: int| 0 <= i < whole.len() implies b.at(#[trigger] whole[i]) == Some(p) by {
        if i < n {
            assert(whole[i] == first[i]);
        } else {
            assert(whole[i] == second[i - n + 1]);
        }
    }
    assert forall|i: int| 0 <= i < whole.len() - 1 implies adjacent(
        #[trigger] whole[i],
        whole[i + 1],
    ) by {
        if i < n - 1 {
            assert(whole[i] == first[i] && whole[i + 1] == first[i + 1]);
        } else if i == n - 1 {
            assert(whole[i] == first[n - 1]);
            assert(whole[i + 1] == second[1]);
            assert(adjacent(second[0int], second[0int + 1]));
        } else {
            assert(whole[i] == second[i - n + 1]);
            assert(whole[i + 1] == second[i - n + 1 + 1]);
        }
    }
    assert(whole[0] == first[0]);
    if second.len() == 1 {
        assert(whole =~= first);
    } else {
        assert(whole[whole.len() - 1] == second[second.len() - 1]);
    }
    assert(joins(b, whole, a, e));
}

/// Every stone on a walk from a stone is in one group with it.
pub proof fn lemma_walk_stays_in_group(b: BoardView, path: Seq<Coord>, a: Coord, d: Coord, i: int)
    requires
        joins(b, path, a, d),
        0 <= i < path.len(),
    ensures
        connected(b, a, path[i]),
{
    let part = path.subrange(0, i + 1);
    assert forall|k: int| 0 <= k < part.len() - 1 implies adjacent(#[trigger] part[k], part[k + 1]) by {
        assert(part[k] == path[k] && part[k + 1] == path[k + 1]);
    }
    assert forall|k: int| 0 <= k < part.len() implies b.at(#[trigger] part[k]) == b.at(a) by {
        assert(part[k] == path[k]);
    }
    assert(joins(b, part, a, path[i]));
}

/// A walk on one board is a walk on another board on which its stones
/// stand as well.
pub proof fn lemma_walk_carries_over(
    b: BoardView,
    other: BoardView,
    path: Seq<Coord>,
    a: Coord,
    d: Coord,
)
    requires
        joins(b, path, a, d),
        forall|i: int| 0 <= i < path.len() ==> other.at(#[trigger] path[i]) == b.at(a),
    ensures
        connected(other, a, d),
{
    assert(other.at(path[0]) == b.at(a));
    assert(joins(other, path, a, d));
}

/// The stones of one group have a liberty together or not at all.
pub proof fn lemma_liberty_is_shared(b: BoardView, a: Coord, d: Coord)
    requires
        connected(b, a, d),
    ensures
        has_liberty(b, a) == has_liberty(b, d),
{
    lemma_connected_symmetric(b, a, d);
    if has_liberty(b, a) {
        let (x, e) = choose|x: Coord, e: Coord| connected(b, a, x) && #[trigger] breathes(b, x, e);
        lemma_connected_transitive(b, d, a, x);
        assert(connected(b, d, x) && breathes(b, x, e));
    }
    if has_liberty(b, d) {
        let (x, e) = choose|x: Coord, e: Coord| connected(b, d, x) && #[trigger] breathes(b, x, e);
        lemma_connected_transitive(b, a, d, x);
        assert(connected(b, a, x) && breathes(b, x, e));
    }
}

/// The stones that a move takes are whole groups.
proof fn lemma_captured_is_closed(b1: BoardView, c: Coord, mover: Player, x: Coord, y: Coord)
    requires
        connected(b1, x, y),
    ensures
        captured_set(b1, c, mover).contains(x) == captured_set(b1, c, mover).contains(y),
{
    lemma_connected_symmetric(b1, x, y);
    if captured_set(b1, c, mover).contains(x) {
        let nb = choose|nb: Coord| #[trigger] smothers(b1, c, mover, nb) && connected(b1, nb, x);
        lemma_connected_transitive(b1, nb, x, y);
    }
    if captured_set(b1, c, mover).contains(y) {
        let nb = choose|nb: Coord| #[trigger] smothers(b1, c, mover, nb) && connected(b1, nb, y);
        lemma_connected_transitive(b1, nb, y, x);
    }
}

/// A stone of the mover that is on the board after the move has a liberty.
proof fn lemma_own_stone_alive(b: BoardView, c: Coord, mover: Player, d: Coord)
    requires
        all_alive(b),
        b.at(c) is None,
        !is_suicide(b, c, mover),
        resolve(b, c, mover).at(d) == Some(mover),
    ensures
        has_liberty(resolve(b, c, mover), d),
{
    let b1 = b.place(c, mover);
    let taken = captured_set(b1, c, mover);
    let b2 = resolve(b, c, mover);
    assert(b2.at(c) == Some(mover)) by {
        if taken.contains(c) {
            let nb = choose|nb: Coord| #[trigger] smothers(b1, c, mover, nb) && connected(b1, nb, c);
            lemma_connected_colour(b1, nb, c);
        }
    }
    if connected(b2, c, d) {
        lemma_liberty_is_shared(b2, c, d);
    } else {
        lemma_connected_self(b2, c);
        assert(d != c);
        assert(b.at(d) == Some(mover));
        assert(has_liberty(b, d));
        let (x, e) = choose|x: Coord, e: Coord| connected(b, d, x) && #[trigger] breathes(b, x, e);
        let path = choose|path: Seq<Coord>| #[trigger] joins(b, path, d, x);
        assert forall|i: int| 0 <= i < path.len() implies b2.at(#[trigger] path[i]) == b.at(d) by {
            let y = path[i];
            assert(b.at(y) == Some(mover));
            assert(y != c);
            if taken.contains(y) {
                let nb = choose|nb: Coord| #[trigger]
                    smothers(b1, c, mover, nb) && connected(b1, nb, y);
                lemma_connected_colour(b1, nb, y);
            }
        }
        lemma_walk_carries_over(b, b2, path, d, x);
        if e == c {
            lemma_connected_extend(b2, d, x, c);
            lemma_connected_symmetric(b2, d, c);
        }
        assert(b1.at(e) is None);
        assert(breathes(b2, x, e));
    }
}

/// A stone of the opponent that is on the board after the move has a
/// liberty.
proof fn lemma_other_stone_alive(b: BoardView, c: Coord, mover: Player, d: Coord)
    requires
        all_alive(b),
        b.at(c) is None,
        resolve(b, c, mover).at(d) == Some(mover.other()),
    ensures
        has_liberty(resolve(b, c, mover), d),
{
    let opp = mover.other();
    let b1 = b.place(c, mover);
    let taken = captured_set(b1, c, mover);
    let b2 = resolve(b, c, mover);
    assert(!taken.contains(d));
    assert(b1.at(d) == Some(opp));
    assert(d != c);
    assert(b.at(d) == Some(opp));
    assert(has_liberty(b1, d)) by {
        assert(has_liberty(b, d));
        let (x, e) = choose|x: Coord, e: Coord| connected(b, d, x) && #[trigger] breathes(b, x, e);
        let path = choose|path: Seq<Coord>| #[trigger] joins(b, path, d, x);
        assert forall|i: int| 0 <= i < path.len() implies b1.at(#[trigger] path[i]) == b.at(d) by {
            assert(b.at(path[i]) == Some(opp));
            assert(path[i] != c);
        }
        lemma_walk_carries_over(b, b1, path, d, x);
        if e == c {
            lemma_connected_colour(b1, d, x);
            if !has_liberty(b1, x) {
                assert(smothers(b1, c, mover, x));
                lemma_connected_self(b1, x);
                lemma_captured_is_closed(b1, c, mover, d, x);
                assert(taken.contains(x));
            }
            lemma_liberty_is_shared(b1, d, x);
        } else {
            assert(breathes(b1, x, e));
        }
    }
    let (x, e) = choose|x: Coord, e: Coord| connected(b1, d, x) && #[trigger] breathes(b1, x, e);
    let path = choose|path: Seq<Coord>| #[trigger] joins(b1, path, d, x);
    assert forall|i: int| 0 <= i < path.len() implies b2.at(#[trigger] path[i]) == b1.at(d) by {
        lemma_walk_stays_in_group(b1, path, d, x, i);
        lemma_captured_is_closed(b1, c, mover, d, path[i]);
        assert(b1.at(path[i]) == Some(opp));
    }
    lemma_walk_carries_over(b1, b2, path, d, x);
    assert(breathes(b2, x, e));
}

/// Where every stone on the board has a liberty, every stone on the board
/// has a liberty again after a stone was placed on an empty point and the
/// move was not a suicide.
pub proof fn lemma_move_leaves_no_dead_stone(b: BoardView, c: Coord, mover: Player)
    requires
        all_alive(b),
        b.at(c) is None,
        !is_suicide(b, c, mover),
    ensures
        all_alive(resolve(b, c, mover)),
{
    let b2 = resolve(b, c, mover);
    assert forall|d: Coord| b2.at(d) is Some implies #[trigger] has_liberty(b2, d) by {
        if b2.at(d) == Some(mover) {
            lemma_own_stone_alive(b, c, mover, d);
        } else {
            assert(b2.at(d) == Some(mover.other()));
            lemma_other_stone_alive(b, c, mover, d);
        }
    }
}

/// On an empty board no stone lacks a liberty.
pub proof fn lemma_empty_board_alive(size: nat)
    ensures
        all_alive(BoardView::empty(size)),
{
}

/// Where every stone on the board of a game has a liberty, every stone has
/// a liberty again after the changelog has seen a move that the judge
/// accepted in that state.
pub proof fn lemma_accepted_move_keeps_stones_alive(
    v: GameStateView,
    cmd: MakeMoveCommand,
    m: MoveMadeView,
)
    requires
        v.wf(),
        all_alive(v.board),
        rejection(v, cmd) is None,
        records(v, cmd, m.event_id, m),
    ensures
        all_alive(apply_spec(v, m).board),
{
    if applies(v, m) {
        match cmd.coord {
            MoveCoord::At(c) => {
                lemma_move_leaves_no_dead_stone(v.board, c, cmd.player);
                assert(apply_spec(v, m).board == resolve(v.board, c, cmd.player));
            },
            _ => {},
        }
    }
}

} // verus!
