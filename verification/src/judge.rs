//! The judge: decides whether a requested move is legal, and which stones it
//! takes.

use crate::board::{index_of, lemma_map_index, Board, BoardView};
use crate::game_state::{GameState, GameStateView};
use crate::groups::{
    connected, explore, has_liberty, lemma_connected_colour, lemma_steps_are_neighbours, listed,
    neighbour, step,
};
use crate::ids::{EventId, GameId, ReqId};
use crate::model::{
    adjacent, Coord, MakeMoveCommand, MoveCoord, MoveMade, MoveMadeView, Player, Stone,
};
use vstd::prelude::*;

verus! {

/// Why a move was refused.
#[derive(Clone, Copy, Debug, PartialEq, Eq, Hash, Structural)]
pub enum RejectReason {
    NotYourTurn,
    Occupied,
    Suicide,
    Ko,
    OutOfBounds,
    GameOver,
}

/// The refusal of a requested move.
#[derive(Clone, Copy, Debug, PartialEq, Eq, Hash, Structural)]
pub struct MoveRejected {
    pub game_id: GameId,
    pub reply_to: ReqId,
    pub reason: RejectReason,
}

/// What the judge says of a requested move.
#[derive(Clone, Debug, PartialEq, Eq)]
pub enum Judgement {
    Accepted(MoveMade),
    Rejected(MoveRejected),
}

/// With a stone of `mover` on `c`, the opposing stone on the neighbouring
/// point `nb` belongs to a group without liberties.
pub open spec fn smothers(b1: BoardView, c: Coord, mover: Player, nb: Coord) -> bool {
    adjacent(c, nb) && b1.at(nb) == Some(mover.other()) && !has_liberty(b1, nb)
}

/// The stones that a stone of `mover` on `c` takes: the opposing groups next
/// to `c` that have no liberty on `b1`, the board with that stone placed.
pub open spec fn captured_set(b1: BoardView, c: Coord, mover: Player) -> Set<Coord> {
    Set::new(|d: Coord| exists|nb: Coord| #[trigger] smothers(b1, c, mover, nb) && connected(b1, nb, d))
}

/// The position after `mover` plays on `c`: the stone placed, the stones it
/// takes removed.
pub open spec fn resolve(b: BoardView, c: Coord, mover: Player) -> BoardView {
    let b1 = b.place(c, mover);
    b1.remove(captured_set(b1, c, mover))
}

/// The stone would stand without a liberty once the move has resolved.
pub open spec fn is_suicide(b: BoardView, c: Coord, mover: Player) -> bool {
    !has_liberty(resolve(b, c, mover), c)
}

/// The move takes exactly one stone and brings back the position that stood
/// before the last move.
pub open spec fn is_ko(v: GameStateView, c: Coord, mover: Player) -> bool {
    &&& captured_set(v.board.place(c, mover), c, mover).len() == 1
    &&& resolve(v.board, c, mover) == v.previous_board()
}

/// Why the judge refuses `cmd` in state `v`, or `None` where it accepts.
pub open spec fn rejection(v: GameStateView, cmd: MakeMoveCommand) -> Option<RejectReason> {
    if v.is_over() {
        Some(RejectReason::GameOver)
    } else {
        match cmd.coord {
            MoveCoord::Pass => None,
            MoveCoord::Resign => None,
            MoveCoord::At(c) => if cmd.player != v.player_up {
                Some(RejectReason::NotYourTurn)
            } else if v.board.at(c) is Some {
                Some(RejectReason::Occupied)
            } else if !v.board.in_bounds(c) {
                Some(RejectReason::OutOfBounds)
            } else if is_suicide(v.board, c, cmd.player) {
                Some(RejectReason::Suicide)
            } else if is_ko(v, c, cmd.player) {
                Some(RejectReason::Ko)
            } else {
                None
            },
        }
    }
}

/// The points are listed in strictly increasing order.
pub open spec fn increasing(cs: Seq<Coord>) -> bool {
    forall|i: int, j: int| 0 <= i < j < cs.len() ==> cs[i].key() < cs[j].key()
}

/// The stones that `cmd` takes in state `v`, as a set.
pub open spec fn taken(v: GameStateView, cmd: MakeMoveCommand) -> Set<Coord> {
    match cmd.coord {
        MoveCoord::At(c) => captured_set(v.board.place(c, cmd.player), c, cmd.player),
        _ => Set::empty(),
    }
}

/// `m` is the record of `cmd` accepted in state `v` under the event id
/// `event_id`: it repeats the command and lists the stones taken in order.
pub open spec fn records(
    v: GameStateView,
    cmd: MakeMoveCommand,
    event_id: EventId,
    m: MoveMadeView,
) -> bool {
    &&& m.game_id == cmd.game_id
    &&& m.reply_to == cmd.req_id
    &&& m.player == cmd.player
    &&& m.coord == cmd.coord
    &&& m.event_id == event_id
    &&& increasing(m.captured)
    &&& m.captured.to_set() == taken(v, cmd)
}

/// The neighbour of `c` in direction `t` smothers the stone on `d`.
pub open spec fn doomed_via(b1: BoardView, c: Coord, mover: Player, t: int, d: Coord) -> bool {
    step(c, t, b1.size) matches Some(nb) && b1.at(nb) == Some(mover.other()) && !has_liberty(b1, nb)
        && connected(b1, nb, d)
}

proof fn lemma_doomed_is_captured(b1: BoardView, c: Coord, mover: Player, d: Coord)
    requires
        b1.wf(),
        b1.in_bounds(c),
        b1.size <= 0xffff,
    ensures
        captured_set(b1, c, mover).contains(d) <==> exists|t: int|
            0 <= t < 4 && #[trigger] doomed_via(b1, c, mover, t, d),
{
    if captured_set(b1, c, mover).contains(d) {
        let nb = choose|nb: Coord| #[trigger] smothers(b1, c, mover, nb) && connected(b1, nb, d);
        assert(b1.stones.contains_key(nb));
        assert(b1.in_bounds(nb));
        lemma_steps_are_neighbours(c, nb, b1.size);
        let t = choose|t: int| 0 <= t < 4 && #[trigger] step(c, t, b1.size) == Some(nb);
        assert(doomed_via(b1, c, mover, t, d));
    }
    if exists|t: int| 0 <= t < 4 && #[trigger] doomed_via(b1, c, mover, t, d) {
        let t = choose|t: int| 0 <= t < 4 && #[trigger] doomed_via(b1, c, mover, t, d);
        let nb = step(c, t, b1.size)->0;
        lemma_steps_are_neighbours(c, nb, b1.size);
        assert(smothers(b1, c, mover, nb));
    }
}

/// Marks every stone listed in `members`.
fn mark(dead: &mut Vec<bool>, members: &Vec<usize>)
    requires
        forall|k: int| 0 <= k < members.len() ==> members[k] < old(dead).len(),
    ensures
        final(dead).len() == old(dead).len(),
        forall|i: int|
            0 <= i < old(dead).len() ==> (#[trigger] final(dead)[i] <==> (old(dead)[i] || listed(
                members@,
                i,
            ))),
{
    let ghost before = dead@;
    let mut k: usize = 0;
    assert forall|i: int| 0 <= i < dead.len() implies !listed(members@.subrange(0, 0), i) by {}
    while k < members.len()
        invariant
            k <= members.len(),
            dead.len() == before.len(),
            forall|x: int| 0 <= x < members.len() ==> members[x] < dead.len(),
            forall|i: int|
                0 <= i < dead.len() ==> (#[trigger] dead[i] <==> (before[i] || listed(
                    members@.subrange(0, k as int),
                    i,
                ))),
        decreases members.len() - k,
    {
        let ghost prev = dead@;
        dead.set(members[k], true);
        proof {
            let s0 = members@.subrange(0, k as int);
            let s1 = members@.subrange(0, k + 1);
            assert(dead@ == prev.update(members[k as int] as int, true));
            assert forall|i: int| 0 <= i < dead.len() implies (dead[i] <==> (before[i] || listed(
                s1,
                i,
            ))) by {
                assert(prev[i] <==> (before[i] || listed(s0, i)));
                if listed(s0, i) {
                    let x = choose|x: int| 0 <= x < s0.len() && s0[x] == i;
                    assert(s1[x] == i);
                }
                if listed(s1, i) {
                    let x = choose|x: int| 0 <= x < s1.len() && s1[x] == i;
                    if x < k {
                        assert(s0[x] == i);
                    }
                }
                if i == members[k as int] {
                    assert(s1[k as int] == i);
                }
            }
        }
        k += 1;
    }
    assert(members@.subrange(0, members.len() as int) == members@);
}

/// The point `d` holds one of the first `i` stones listed, and that stone
/// is marked.
pub open spec fn marked_point(st: Seq<Stone>, dead: Seq<bool>, i: int, d: Coord) -> bool {
    exists|j: int| 0 <= j < i && j < st.len() && dead[j] && st[j].coord == d
}

/// Finds the stones that the stone just placed on `c` takes, and lists their
/// points in the order of the board.
fn find_captured(b1: &Board, c: Coord, mover: Player) -> (captured: Vec<Coord>)
    requires
        b1.wf(),
        b1@.in_bounds(c),
    ensures
        increasing(captured@),
        captured@.to_set() == captured_set(b1@, c, mover),
{
    let n: usize = b1.stones.len();
    let opp: Player = mover.opponent();
    let ghost bv = b1@;
    let ghost st = b1.stones@;
    let mut dead: Vec<bool> = Vec::new();
    let mut i: usize = 0;
    while i < n
        invariant
            i <= n,
            dead.len() == i,
            forall|j: int| 0 <= j < i ==> !dead[j],
        decreases n - i,
    {
        dead.push(false);
        i += 1;
    }
    proof {
        b1.lemma_view_wf();
    }
    let mut dir: u8 = 0;
    while dir < 4
        invariant
            b1.wf(),
            bv == b1@,
            bv.wf(),
            st == b1.stones@,
            n == st.len(),
            bv.in_bounds(c),
            opp == mover.other(),
            dir <= 4,
            dead.len() == n,
            forall|i: int|
                0 <= i < n ==> (dead[i] <==> exists|t: int|
                    0 <= t < dir && #[trigger] doomed_via(bv, c, mover, t, st[i].coord)),
        decreases 4 - dir,
    {
        let ghost before = dead@;
        let ghost mut reached: Seq<usize> = Seq::empty();
        let ghost mut hit: bool = false;
        match neighbour(c, dir, b1.size) {
            None => {},
            Some(nb) => {
                match b1.find(nb) {
                    None => {},
                    Some(j) => {
                        if b1.stones[j].player == opp {
                            let g = explore(b1, j);
                            if !g.free {
                                mark(&mut dead, &g.members);
                                proof {
                                    reached = g.members@;
                                    hit = true;
                                }
                            }
                        }
                    },
                }
            },
        }
        proof {
            assert forall|i: int| 0 <= i < n implies (dead[i] <==> exists|t: int|
                0 <= t < dir + 1 && #[trigger] doomed_via(bv, c, mover, t, st[i].coord)) by {
                let now = doomed_via(bv, c, mover, dir as int, st[i].coord);
                if hit {
                    assert(listed(reached, i) <==> now);
                } else {
                    assert(!now);
                }
                if before[i] {
                    let t = choose|t: int|
                        0 <= t < dir && #[trigger] doomed_via(bv, c, mover, t, st[i].coord);
                    assert(doomed_via(bv, c, mover, t, st[i].coord));
                }
                if exists|t: int|
                    0 <= t < dir + 1 && #[trigger] doomed_via(bv, c, mover, t, st[i].coord) {
                    let t = choose|t: int|
                        0 <= t < dir + 1 && #[trigger] doomed_via(bv, c, mover, t, st[i].coord);
                    if t < dir {
                        assert(before[i]);
                    }
                }
            }
        }
        dir += 1;
    }
    let mut captured: Vec<Coord> = Vec::new();
    let mut i: usize = 0;
    while i < n
        invariant
            b1.wf(),
            st == b1.stones@,
            n == st.len(),
            i <= n,
            dead.len() == n,
            increasing(captured@),
            forall|k: int|
                0 <= k < captured.len() ==> marked_point(st, dead@, i as int, #[trigger] captured[k]),
            forall|j: int| 0 <= j < i && dead[j] ==> captured@.contains(#[trigger] st[j].coord),
        decreases n - i,
    {
        if dead[i] {
            let ghost prev = captured@;
            captured.push(b1.stones[i].coord);
            proof {
                assert forall|x: int, y: int| 0 <= x < y < captured.len() implies captured[x].key()
                    < captured[y].key() by {
                    if y == prev.len() {
                        assert(marked_point(st, dead@, i as int, prev[x]));
                        let j = choose|j: int|
                            0 <= j < i && j < st.len() && dead[j] && st[j].coord == prev[x];
                        assert(st[j].coord.key() < st[i as int].coord.key());
                    }
                }
                assert forall|k: int| 0 <= k < captured.len() implies marked_point(
                    st,
                    dead@,
                    i + 1,
                    #[trigger] captured[k],
                ) by {
                    if k < prev.len() {
                        assert(marked_point(st, dead@, i as int, prev[k]));
                        let j = choose|j: int|
                            0 <= j < i && j < st.len() && dead[j] && st[j].coord == prev[k];
                        assert(0 <= j < i + 1 && dead[j] && st[j].coord == captured[k]);
                    } else {
                        assert(dead[i as int] && st[i as int].coord == captured[k]);
                    }
                }
                assert forall|j: int| 0 <= j < i + 1 && dead[j] implies captured@.contains(
                    #[trigger] st[j].coord,
                ) by {
                    if j < i {
                        let k = choose|k: int| 0 <= k < prev.len() && prev[k] == st[j].coord;
                        assert(captured[k] == st[j].coord);
                    } else {
                        assert(captured[prev.len() as int] == st[j].coord);
                    }
                }
            }
        } else {
            proof {
                assert forall|k: int| 0 <= k < captured.len() implies marked_point(
                    st,
                    dead@,
                    i + 1,
                    #[trigger] captured[k],
                ) by {
                    assert(marked_point(st, dead@, i as int, captured[k]));
                    let j = choose|j: int|
                        0 <= j < i && j < st.len() && dead[j] && st[j].coord == captured[k];
                    assert(0 <= j < i + 1 && dead[j] && st[j].coord == captured[k]);
                }
            }
        }
        i += 1;
    }
    proof {
        assert forall|d: Coord| captured@.to_set().contains(d) <==> captured_set(
            bv,
            c,
            mover,
        ).contains(d) by {
            lemma_doomed_is_captured(bv, c, mover, d);
            if captured@.contains(d) {
                let k = choose|k: int| 0 <= k < captured.len() && captured[k] == d;
                assert(marked_point(st, dead@, n as int, captured[k]));
                let j = choose|j: int|
                    0 <= j < n && j < st.len() && dead[j] && st[j].coord == captured[k];
                assert(exists|t: int| 0 <= t < 4 && #[trigger] doomed_via(bv, c, mover, t, st[j].coord));
            }
            if captured_set(bv, c, mover).contains(d) {
                let t = choose|t: int| 0 <= t < 4 && #[trigger] doomed_via(bv, c, mover, t, d);
                let nb = step(c, t, bv.size)->0;
                lemma_connected_colour(bv, nb, d);
                let j = index_of(st, d);
                assert(0 <= j < n && st[j].coord == d);
                assert(doomed_via(bv, c, mover, t, st[j].coord));
                assert(dead[j]);
            }
        }
        assert(captured@.to_set() =~= captured_set(bv, c, mover));
    }
    captured
}

/// A list in strictly increasing order names no point twice.
pub proof fn lemma_increasing_distinct(cs: Seq<Coord>)
    requires
        increasing(cs),
    ensures
        cs.no_duplicates(),
        cs.to_set().len() == cs.len(),
{
    assert forall|i: int, j: int| 0 <= i < cs.len() && 0 <= j < cs.len() && i != j implies cs[i]
        != cs[j] by {
        if i < j {
            assert(cs[i].key() < cs[j].key());
        } else {
            assert(cs[j].key() < cs[i].key());
        }
    }
    cs.unique_seq_to_set();
}

fn refuse(cmd: &MakeMoveCommand, reason: RejectReason) -> (r: Judgement)
    ensures
        r == Judgement::Rejected(
            MoveRejected { game_id: cmd.game_id, reply_to: cmd.req_id, reason },
        ),
{
    Judgement::Rejected(MoveRejected { game_id: cmd.game_id, reply_to: cmd.req_id, reason })
}

/// Judges the move `cmd` in the game state `state`. An accepted move is
/// recorded under `event_id`.
pub fn judge(state: &GameState, cmd: &MakeMoveCommand, event_id: EventId) -> (r: Judgement)
    requires
        state.wf(),
    ensures
        match r {
            Judgement::Rejected(rej) => {
                &&& rejection(state@, *cmd) == Some(rej.reason)
                &&& rej.game_id == cmd.game_id
                &&& rej.reply_to == cmd.req_id
            },
            Judgement::Accepted(m) => {
                &&& rejection(state@, *cmd) is None
                &&& records(state@, *cmd, event_id, m@)
            },
        },
{
    if state.is_over() {
        return refuse(cmd, RejectReason::GameOver);
    }
    let c: Coord = match cmd.coord {
        MoveCoord::At(c) => c,
        _ => {
            let m = MoveMade {
                game_id: cmd.game_id,
                reply_to: cmd.req_id,
                player: cmd.player,
                coord: cmd.coord,
                captured: Vec::new(),
                event_id,
            };
            assert(m@.captured.to_set() =~= Set::empty());
            return Judgement::Accepted(m);
        },
    };
    let mover: Player = cmd.player;
    if mover != state.player_up {
        return refuse(cmd, RejectReason::NotYourTurn);
    }
    if state.board.get(c).is_some() {
        return refuse(cmd, RejectReason::Occupied);
    }
    if !state.board.in_bounds(c) {
        return refuse(cmd, RejectReason::OutOfBounds);
    }
    let b1 = state.board.with_stone(c, mover);
    let captured = find_captured(&b1, c, mover);
    let b2 = b1.without_points(&captured);
    assert(b2@ == resolve(state@.board, c, mover));
    let alive: bool = match b2.find(c) {
        Some(j) => explore(&b2, j).free,
        None => {
            proof {
                assert(b1@.at(c) == Some(mover));
                if captured_set(b1@, c, mover).contains(c) {
                    let nb = choose|nb: Coord| #[trigger]
                        smothers(b1@, c, mover, nb) && connected(b1@, nb, c);
                    lemma_connected_colour(b1@, nb, c);
                }
                assert(b2@.stones.contains_key(c));
            }
            false
        },
    };
    if !alive {
        return refuse(cmd, RejectReason::Suicide);
    }
    proof {
        lemma_increasing_distinct(captured@);
    }
    if captured.len() == 1 {
        let prev = state.previous_board();
        if b2.same_position(&prev) {
            return refuse(cmd, RejectReason::Ko);
        }
    }
    Judgement::Accepted(
        MoveMade {
            game_id: cmd.game_id,
            reply_to: cmd.req_id,
            player: cmd.player,
            coord: cmd.coord,
            captured,
            event_id,
        },
    )
}

} // verus!
