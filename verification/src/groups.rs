//! Groups of stones and their liberties.
//!
//! Two stones are connected when a path of adjacent stones of their colour
//! leads from one to the other. A group is everything connected to a stone;
//! its liberties are the empty points next to any of its stones.

use crate::board::{index_of, lemma_map_index, sorted, stones_map, Board, BoardView};
use crate::model::{adjacent, Coord, Player, Stone};
use vstd::prelude::*;

verus! {

/// `path` is a non-empty walk over stones of `p`, each step between adjacent
/// points.
pub open spec fn chain(b: BoardView, p: Player, path: Seq<Coord>) -> bool {
    &&& path.len() > 0
    &&& forall|i: int| 0 <= i < path.len() ==> b.at(#[trigger] path[i]) == Some(p)
    &&& forall|i: int| 0 <= i < path.len() - 1 ==> adjacent(#[trigger] path[i], path[i + 1])
}

/// `path` is a walk within one group that leads from `a` to `d`.
pub open spec fn joins(b: BoardView, path: Seq<Coord>, a: Coord, d: Coord) -> bool {
    &&& b.at(a) is Some
    &&& chain(b, b.at(a)->0, path)
    &&& path[0] == a
    &&& path.last() == d
}

/// The stones on `a` and `d` belong to one group.
pub open spec fn connected(b: BoardView, a: Coord, d: Coord) -> bool {
    exists|path: Seq<Coord>| #[trigger] joins(b, path, a, d)
}

/// The group of the stone on `a`.
pub open spec fn group(b: BoardView, a: Coord) -> Set<Coord> {
    Set::new(|d: Coord| connected(b, a, d))
}

/// `e` is an empty point of the board next to the stone on `d`.
pub open spec fn breathes(b: BoardView, d: Coord, e: Coord) -> bool {
    adjacent(d, e) && b.in_bounds(e) && b.at(e) is None
}

/// The liberties of the group of the stone on `a`.
pub open spec fn liberties(b: BoardView, a: Coord) -> Set<Coord> {
    Set::new(|e: Coord| exists|d: Coord| connected(b, a, d) && #[trigger] breathes(b, d, e))
}

/// The group of the stone on `a` has at least one liberty.
pub open spec fn has_liberty(b: BoardView, a: Coord) -> bool {
    exists|d: Coord, e: Coord| connected(b, a, d) && #[trigger] breathes(b, d, e)
}

/// A group has a liberty exactly when its set of liberties holds a point.
pub proof fn lemma_has_liberty_iff(b: BoardView, a: Coord)
    ensures
        has_liberty(b, a) <==> exists|e: Coord| liberties(b, a).contains(e),
{
    if has_liberty(b, a) {
        let (d, e) = choose|d: Coord, e: Coord| connected(b, a, d) && #[trigger] breathes(b, d, e);
        assert(liberties(b, a).contains(e));
    }
    if exists|e: Coord| liberties(b, a).contains(e) {
        let e = choose|e: Coord| liberties(b, a).contains(e);
        let d = choose|d: Coord| connected(b, a, d) && #[trigger] breathes(b, d, e);
        assert(connected(b, a, d) && breathes(b, d, e));
    }
}

/// Every stone is connected to itself.
pub proof fn lemma_connected_self(b: BoardView, a: Coord)
    requires
        b.at(a) is Some,
    ensures
        connected(b, a, a),
{
    assert(joins(b, seq![a], a, a));
}

/// A stone of the same colour next to a group belongs to it.
pub proof fn lemma_connected_extend(b: BoardView, a: Coord, d: Coord, e: Coord)
    requires
        connected(b, a, d),
        adjacent(d, e),
        b.at(e) == b.at(a),
    ensures
        connected(b, a, e),
{
    let path = choose|path: Seq<Coord>| #[trigger] joins(b, path, a, d);
    let longer = path.push(e);
    assert forall|i: int| 0 <= i < longer.len() - 1 implies adjacent(
        #[trigger] longer[i],
        longer[i + 1],
    ) by {
        if i < path.len() - 1 {
            assert(longer[i] == path[i]);
            assert(longer[i + 1] == path[i + 1]);
        }
    }
    assert(joins(b, longer, a, e));
}

/// Everything in a group has the colour of the stone that names it.
pub proof fn lemma_connected_colour(b: BoardView, a: Coord, d: Coord)
    requires
        connected(b, a, d),
    ensures
        b.at(a) is Some,
        b.at(d) == b.at(a),
{
    let path = choose|path: Seq<Coord>| #[trigger] joins(b, path, a, d);
    assert(b.at(path[path.len() - 1]) == b.at(a));
}

/// A set of points that holds the start of a walk, and with each stone its
/// neighbours of the same colour, holds the whole walk.
pub proof fn lemma_closed_holds_chain(
    b: BoardView,
    p: Player,
    path: Seq<Coord>,
    inside: Set<Coord>,
    i: int,
)
    requires
        chain(b, p, path),
        inside.contains(path[0]),
        forall|d: Coord, e: Coord|
            #[trigger] inside.contains(d) && #[trigger] adjacent(d, e) && b.at(e) == Some(p)
                ==> inside.contains(e),
        0 <= i < path.len(),
    ensures
        inside.contains(path[i]),
    decreases i,
{
    if i > 0 {
        lemma_closed_holds_chain(b, p, path, inside, i - 1);
        assert(adjacent(path[i - 1], path[i]));
    }
}

/// The point one step from `c` in direction `dir` (0 to 3: left, right, up,
/// down), if it is on a board of side `size`.
pub open spec fn step(c: Coord, dir: int, size: nat) -> Option<Coord> {
    if dir == 0 && c.x > 0 {
        Some(Coord { x: (c.x - 1) as u16, y: c.y })
    } else if dir == 1 && c.x + 1 < size {
        Some(Coord { x: (c.x + 1) as u16, y: c.y })
    } else if dir == 2 && c.y > 0 {
        Some(Coord { x: c.x, y: (c.y - 1) as u16 })
    } else if dir == 3 && c.y + 1 < size {
        Some(Coord { x: c.x, y: (c.y + 1) as u16 })
    } else {
        None
    }
}

/// The four steps from a point of the board reach exactly its neighbours on
/// the board.
pub proof fn lemma_steps_are_neighbours(c: Coord, e: Coord, size: nat)
    requires
        c.x < size,
        c.y < size,
        size <= 0xffff,
    ensures
        (adjacent(c, e) && e.x < size && e.y < size) <==> (exists|dir: int|
            0 <= dir < 4 && #[trigger] step(c, dir, size) == Some(e)),
{
    if adjacent(c, e) && e.x < size && e.y < size {
        if c.y == e.y && e.x + 1 == c.x {
            assert(step(c, 0, size) == Some(e));
        } else if c.y == e.y && c.x + 1 == e.x {
            assert(step(c, 1, size) == Some(e));
        } else if c.x == e.x && e.y + 1 == c.y {
            assert(step(c, 2, size) == Some(e));
        } else {
            assert(step(c, 3, size) == Some(e));
        }
    }
}

/// The point one step from `c` in direction `dir`, see [`step`].
pub fn neighbour(c: Coord, dir: u8, size: u16) -> (r: Option<Coord>)
    requires
        c.x < size,
        c.y < size,
    ensures
        r == step(c, dir as int, size as nat),
{
    if dir == 0 && c.x > 0 {
        Some(Coord { x: c.x - 1, y: c.y })
    } else if dir == 1 && c.x < size - 1 {
        Some(Coord { x: c.x + 1, y: c.y })
    } else if dir == 2 && c.y > 0 {
        Some(Coord { x: c.x, y: c.y - 1 })
    } else if dir == 3 && c.y < size - 1 {
        Some(Coord { x: c.x, y: c.y + 1 })
    } else {
        None
    }
}

/// Distinct numbers below `n` are at most `n` in count.
pub proof fn lemma_distinct_bounded(s: Seq<usize>, n: nat)
    requires
        s.no_duplicates(),
        forall|k: int| 0 <= k < s.len() ==> s[k] < n,
    ensures
        s.len() <= n,
    decreases n,
{
    if n == 0 {
        if s.len() > 0 {
            assert(s[0] < n);
        }
    } else {
        let top = (n - 1) as usize;
        if exists|k: int| 0 <= k < s.len() && s[k] == top {
            let k = choose|k: int| 0 <= k < s.len() && s[k] == top;
            let t = s.remove(k);
            assert forall|i: int, j: int| 0 <= i < t.len() && 0 <= j < t.len() && i != j implies t[i]
                != t[j] by {
                let i0 = if i < k { i } else { i + 1 };
                let j0 = if j < k { j } else { j + 1 };
                assert(t[i] == s[i0] && t[j] == s[j0]);
            }
            assert forall|i: int| 0 <= i < t.len() implies t[i] < n - 1 by {
                let i0 = if i < k { i } else { i + 1 };
                assert(t[i] == s[i0]);
                assert(s[i0] != s[k]);
            }
            lemma_distinct_bounded(t, (n - 1) as nat);
        } else {
            assert forall|i: int| 0 <= i < s.len() implies s[i] < n - 1 by {
                assert(s[i] != top);
            }
            lemma_distinct_bounded(s, (n - 1) as nat);
        }
    }
}

/// `j` is one of the numbers listed in `members`.
pub open spec fn listed(members: Seq<usize>, j: int) -> bool {
    exists|k: int| 0 <= k < members.len() && members[k] == j
}

/// The marks of a flood fill agree with the list of stones it has reached:
/// `seen[j]` holds exactly when `j` is listed in `members`, and no stone is
/// listed twice.
pub open spec fn marks_ok(seen: Seq<bool>, members: Seq<usize>, n: nat) -> bool {
    &&& seen.len() == n
    &&& members.no_duplicates()
    &&& forall|k: int| 0 <= k < members.len() ==> members[k] < n
    &&& forall|j: int| 0 <= j < n ==> (seen[j] <==> listed(members, j))
}

/// Every stone of `p` next to `d` is marked.
pub open spec fn closed_at(st: Seq<Stone>, p: Player, seen: Seq<bool>, d: Coord) -> bool {
    forall|j: int|
        0 <= j < st.len() && adjacent(d, #[trigger] st[j].coord) && st[j].player == p ==> seen[j]
}

/// No point next to `d` is an empty point of the board.
pub open spec fn airless(b: BoardView, d: Coord) -> bool {
    forall|e: Coord| !#[trigger] breathes(b, d, e)
}

proof fn lemma_marks_push(seen: Seq<bool>, members: Seq<usize>, n: nat, j: usize)
    requires
        marks_ok(seen, members, n),
        j < n,
        !seen[j as int],
    ensures
        marks_ok(seen.update(j as int, true), members.push(j), n),
        members.len() < n,
{
    let ms = members.push(j);
    let sn = seen.update(j as int, true);
    assert forall|x: int, y: int| 0 <= x < ms.len() && 0 <= y < ms.len() && x != y implies ms[x]
        != ms[y] by {
        if x == members.len() {
            assert(listed(members, ms[y] as int));
        } else if y == members.len() {
            assert(listed(members, ms[x] as int));
        }
    }
    assert forall|x: int| 0 <= x < n implies (sn[x] <==> listed(ms, x)) by {
        if x == j {
            assert(ms[ms.len() - 1] == j);
        } else {
            if seen[x] {
                let k = choose|k: int| 0 <= k < members.len() && members[k] == x;
                assert(ms[k] == x);
            }
            if listed(ms, x) {
                let k = choose|k: int| 0 <= k < ms.len() && ms[k] == x;
                assert(members[k] == x);
            }
        }
    }
    lemma_distinct_bounded(ms, n);
}

/// A group found on a board: where its stones are listed, and whether it has
/// a liberty.
pub struct Group {
    pub members: Vec<usize>,
    pub free: bool,
}

/// Looks at the four neighbours of the stone on `d`: lists those stones of
/// `p` among them that were not reached before, and reports whether one of
/// the neighbouring points is empty.
fn spread(b: &Board, p: Player, d: Coord, seen: &mut Vec<bool>, members: &mut Vec<usize>) -> (open:
    bool)
    requires
        b.wf(),
        d.x < b.size,
        d.y < b.size,
        marks_ok(old(seen)@, old(members)@, b.stones.len() as nat),
    ensures
        marks_ok(final(seen)@, final(members)@, b.stones.len() as nat),
        final(members).len() >= old(members).len(),
        final(members)@.subrange(0, old(members).len() as int) == old(members)@,
        forall|k: int|
            old(members).len() <= k < final(members).len() ==> b.stones[final(members)[k] as int].player
                == p && adjacent(d, #[trigger] b.stones[final(members)[k] as int].coord),
        closed_at(b.stones@, p, final(seen)@, d),
        open == !airless(b@, d),
{
    let ghost st = b.stones@;
    let ghost n = st.len();
    let ghost before = members@;
    let mut open: bool = false;
    let mut dir: u8 = 0;
    proof {
        b.lemma_view_wf();
    }
    while dir < 4
        invariant
            b.wf(),
            b@.wf(),
            st == b.stones@,
            n == st.len(),
            d.x < b.size,
            d.y < b.size,
            dir <= 4,
            marks_ok(seen@, members@, n),
            members.len() >= before.len(),
            members@.subrange(0, before.len() as int) == before,
            forall|k: int|
                before.len() <= k < members.len() ==> st[members[k] as int].player == p && adjacent(
                    d,
                    #[trigger] st[members[k] as int].coord,
                ),
            forall|t: int, j: int|
                0 <= t < dir && 0 <= j < n && #[trigger] step(d, t, b.size as nat) == Some(
                    #[trigger] st[j].coord,
                ) && st[j].player == p ==> seen[j],
            open ==> !airless(b@, d),
            !open ==> forall|t: int|
                0 <= t < dir ==> (#[trigger] step(d, t, b.size as nat) matches Some(e) ==> b@.at(e)
                    is Some),
        decreases 4 - dir,
    {
        match neighbour(d, dir, b.size) {
            None => {},
            Some(e) => {
                proof {
                    lemma_steps_are_neighbours(d, e, b.size as nat);
                }
                match b.find(e) {
                    None => {
                        assert(breathes(b@, d, e));
                        open = true;
                    },
                    Some(j) => {
                        if b.stones[j].player == p && !seen[j] {
                            proof {
                                lemma_marks_push(seen@, members@, n, j);
                            }
                            let ghost ms = members@;
                            seen.set(j, true);
                            members.push(j);
                            assert(members@.subrange(0, before.len() as int) =~= ms.subrange(
                                0,
                                before.len() as int,
                            ));
                        }
                        assert forall|j2: int|
                            0 <= j2 < n && step(d, dir as int, b.size as nat) == Some(
                                #[trigger] st[j2].coord,
                            ) && st[j2].player == p implies seen[j2] by {
                            lemma_map_index(st, j2);
                            lemma_map_index(st, j as int);
                        }
                    },
                }
            },
        }
        dir += 1;
    }
    proof {
        assert forall|j: int|
            0 <= j < n && adjacent(d, #[trigger] st[j].coord) && st[j].player == p implies seen[j] by {
            lemma_steps_are_neighbours(d, st[j].coord, b.size as nat);
            let t = choose|t: int|
                0 <= t < 4 && #[trigger] step(d, t, b.size as nat) == Some(st[j].coord);
            assert(step(d, t, b.size as nat) == Some(st[j].coord));
        }
        if !open {
            assert forall|e: Coord| !#[trigger] breathes(b@, d, e) by {
                if breathes(b@, d, e) {
                    lemma_steps_are_neighbours(d, e, b.size as nat);
                    let t = choose|t: int|
                        0 <= t < 4 && #[trigger] step(d, t, b.size as nat) == Some(e);
                    assert(step(d, t, b.size as nat) == Some(e));
                }
            }
        }
    }
    open
}

/// What a flood fill from the stone on `a` holds while it runs: everything
/// listed belongs to the group of `a`, and the first `next` stones listed
/// have had their neighbours looked at.
pub open spec fn filling(
    b: BoardView,
    st: Seq<Stone>,
    a: Coord,
    p: Player,
    seen: Seq<bool>,
    members: Seq<usize>,
    next: int,
    free: bool,
) -> bool {
    &&& forall|k: int|
        0 <= k < members.len() ==> (#[trigger] st[members[k] as int]).player == p && connected(
            b,
            a,
            st[members[k] as int].coord,
        )
    &&& forall|k: int| 0 <= k < next ==> closed_at(st, p, seen, (#[trigger] st[members[k] as int]).coord)
    &&& free ==> has_liberty(b, a)
    &&& !free ==> forall|k: int| 0 <= k < next ==> airless(b, (#[trigger] st[members[k] as int]).coord)
}

proof fn lemma_filling_step(
    b: BoardView,
    st: Seq<Stone>,
    a: Coord,
    p: Player,
    seen0: Seq<bool>,
    ms0: Seq<usize>,
    seen: Seq<bool>,
    ms: Seq<usize>,
    next: int,
    free: bool,
    open: bool,
)
    requires
        sorted(st),
        b.stones == stones_map(st),
        b.at(a) == Some(p),
        marks_ok(seen0, ms0, st.len()),
        marks_ok(seen, ms, st.len()),
        0 <= next < ms0.len() <= ms.len(),
        filling(b, st, a, p, seen0, ms0, next, free),
        ms.subrange(0, ms0.len() as int) == ms0,
        forall|k: int|
            ms0.len() <= k < ms.len() ==> st[ms[k] as int].player == p && adjacent(
                st[ms0[next] as int].coord,
                #[trigger] st[ms[k] as int].coord,
            ),
        closed_at(st, p, seen, st[ms0[next] as int].coord),
        open == !airless(b, st[ms0[next] as int].coord),
    ensures
        filling(b, st, a, p, seen, ms, next + 1, free || open),
{
    let d = st[ms0[next] as int].coord;
    assert forall|k: int| 0 <= k < ms0.len() implies ms[k] == ms0[k] by {
        assert(ms.subrange(0, ms0.len() as int)[k] == ms0[k]);
    }
    assert forall|j: int| 0 <= j < st.len() && seen0[j] implies seen[j] by {
        let k = choose|k: int| 0 <= k < ms0.len() && ms0[k] == j;
        assert(ms[k] == j);
    }
    assert(connected(b, a, d));
    assert forall|k: int| 0 <= k < ms.len() implies (#[trigger] st[ms[k] as int]).player == p
        && connected(b, a, st[ms[k] as int].coord) by {
        if k >= ms0.len() {
            lemma_map_index(st, ms[k] as int);
            lemma_connected_extend(b, a, d, st[ms[k] as int].coord);
        } else {
            assert(connected(b, a, st[ms0[k] as int].coord));
        }
    }
    assert forall|k: int| 0 <= k < next + 1 implies closed_at(
        st,
        p,
        seen,
        (#[trigger] st[ms[k] as int]).coord,
    ) by {
        if k < next {
            assert(closed_at(st, p, seen0, st[ms0[k] as int].coord));
        }
    }
    if open {
        let e = choose|e: Coord| #[trigger] breathes(b, d, e);
        assert(connected(b, a, d) && breathes(b, d, e));
    }
    if !(free || open) {
        assert forall|k: int| 0 <= k < next + 1 implies airless(
            b,
            (#[trigger] st[ms[k] as int]).coord,
        ) by {
            if k < next {
                assert(airless(b, st[ms0[k] as int].coord));
            }
        }
    }
}

proof fn lemma_filling_done(
    b: BoardView,
    st: Seq<Stone>,
    a: Coord,
    p: Player,
    seen: Seq<bool>,
    ms: Seq<usize>,
    free: bool,
)
    requires
        sorted(st),
        b.stones == stones_map(st),
        b.at(a) == Some(p),
        marks_ok(seen, ms, st.len()),
        listed(ms, index_of(st, a)),
        filling(b, st, a, p, seen, ms, ms.len() as int, free),
    ensures
        forall|i: int|
            0 <= i < st.len() ==> (listed(ms, i) <==> connected(b, a, #[trigger] st[i].coord)),
        free == has_liberty(b, a),
{
    let n = st.len();
    let inside = Set::new(|c: Coord| exists|j: int| 0 <= j < n && seen[j] && st[j].coord == c);
    assert(inside.contains(a)) by {
        let j = index_of(st, a);
        assert(0 <= j < n && st[j].coord == a);
    }
    assert forall|d: Coord, e: Coord|
        #[trigger] inside.contains(d) && #[trigger] adjacent(d, e) && b.at(e) == Some(
            p,
        ) implies inside.contains(e) by {
        let j = choose|j: int| 0 <= j < n && seen[j] && st[j].coord == d;
        let k = choose|k: int| 0 <= k < ms.len() && ms[k] == j;
        let j2 = index_of(st, e);
        assert(0 <= j2 < n && st[j2].coord == e);
        lemma_map_index(st, j2);
        assert(closed_at(st, p, seen, st[ms[k] as int].coord));
        assert(seen[j2]);
    }
    assert forall|i: int| 0 <= i < n implies (listed(ms, i) <==> connected(
        b,
        a,
        #[trigger] st[i].coord,
    )) by {
        if listed(ms, i) {
            let k = choose|k: int| 0 <= k < ms.len() && ms[k] == i;
            assert(connected(b, a, st[ms[k] as int].coord));
        }
        if connected(b, a, st[i].coord) {
            let path = choose|path: Seq<Coord>| #[trigger] joins(b, path, a, st[i].coord);
            lemma_closed_holds_chain(b, p, path, inside, path.len() - 1);
            let j = choose|j: int| 0 <= j < n && seen[j] && st[j].coord == st[i].coord;
            lemma_map_index(st, j);
            lemma_map_index(st, i);
        }
    }
    if !free && has_liberty(b, a) {
        let (d, e) = choose|d: Coord, e: Coord| connected(b, a, d) && #[trigger] breathes(b, d, e);
        lemma_connected_colour(b, a, d);
        let j = index_of(st, d);
        assert(0 <= j < n && st[j].coord == d);
        assert(listed(ms, j));
        let k = choose|k: int| 0 <= k < ms.len() && ms[k] == j;
        assert(airless(b, st[ms[k] as int].coord));
    }
}

/// Finds the group of the stone listed at `start` by flood fill.
pub fn explore(b: &Board, start: usize) -> (g: Group)
    requires
        b.wf(),
        start < b.stones.len(),
    ensures
        g.members@.no_duplicates(),
        forall|k: int| 0 <= k < g.members.len() ==> g.members[k] < b.stones.len(),
        forall|i: int|
            0 <= i < b.stones.len() ==> (listed(g.members@, i) <==> connected(
                b@,
                b.stones[start as int].coord,
                #[trigger] b.stones[i].coord,
            )),
        g.free == has_liberty(b@, b.stones[start as int].coord),
{
    let n: usize = b.stones.len();
    let p: Player = b.stones[start].player;
    let ghost bv = b@;
    let ghost st = b.stones@;
    let ghost a = b.stones[start as int].coord;
    let mut seen: Vec<bool> = Vec::new();
    let mut i: usize = 0;
    while i < n
        invariant
            i <= n,
            seen.len() == i,
            forall|j: int| 0 <= j < i ==> !seen[j],
        decreases n - i,
    {
        seen.push(false);
        i += 1;
    }
    let mut members: Vec<usize> = Vec::new();
    proof {
        lemma_map_index(st, start as int);
        lemma_connected_self(bv, a);
        assert(marks_ok(seen@, members@, n as nat));
        lemma_marks_push(seen@, members@, n as nat, start);
    }
    members.push(start);
    seen.set(start, true);
    let mut free: bool = false;
    let mut next: usize = 0;
    while next < members.len()
        invariant
            b.wf(),
            bv == b@,
            st == b.stones@,
            n == st.len(),
            start < n,
            a == st[start as int].coord,
            bv.at(a) == Some(p),
            next <= members.len(),
            marks_ok(seen@, members@, n as nat),
            members.len() >= 1,
            members[0] == start,
            filling(bv, st, a, p, seen@, members@, next as int, free),
        decreases n - next,
    {
        proof {
            lemma_distinct_bounded(members@, n as nat);
        }
        let m: usize = members[next];
        let d: Coord = b.stones[m].coord;
        let ghost ms0 = members@;
        let ghost seen0 = seen@;
        let open = spread(b, p, d, &mut seen, &mut members);
        proof {
            lemma_filling_step(bv, st, a, p, seen0, ms0, seen@, members@, next as int, free, open);
            assert(members@.subrange(0, ms0.len() as int)[0] == ms0[0]);
        }
        if open {
            free = true;
        }
        next += 1;
    }
    proof {
        assert(listed(members@, index_of(st, a))) by {
            assert(members@[0] == start);
        }
        lemma_filling_done(bv, st, a, p, seen@, members@, free);
    }
    Group { members, free }
}

/// Whether `e` is among `list`.
fn has_point(list: &Vec<Coord>, e: Coord) -> (r: bool)
    ensures
        r == list@.contains(e),
{
    let mut i: usize = 0;
    while i < list.len()
        invariant
            i <= list.len(),
            forall|k: int| 0 <= k < i ==> list[k] != e,
        decreases list.len() - i,
    {
        if list[i].x == e.x && list[i].y == e.y {
            return true;
        }
        i += 1;
    }
    false
}

/// Adds the empty points next to the stone on `d` to `out`, each once.
fn breathe(b: &Board, d: Coord, out: &mut Vec<Coord>)
    requires
        b.wf(),
        d.x < b.size,
        d.y < b.size,
        old(out)@.no_duplicates(),
    ensures
        final(out)@.no_duplicates(),
        final(out).len() >= old(out).len(),
        final(out)@.subrange(0, old(out).len() as int) == old(out)@,
        forall|k: int|
            old(out).len() <= k < final(out).len() ==> breathes(b@, d, #[trigger] final(out)[k]),
        forall|e: Coord| #[trigger] breathes(b@, d, e) ==> final(out)@.contains(e),
{
    let ghost before = out@;
    let mut dir: u8 = 0;
    proof {
        b.lemma_view_wf();
    }
    while dir < 4
        invariant
            b.wf(),
            d.x < b.size,
            d.y < b.size,
            dir <= 4,
            out@.no_duplicates(),
            out.len() >= before.len(),
            out@.subrange(0, before.len() as int) == before,
            forall|k: int| before.len() <= k < out.len() ==> breathes(b@, d, #[trigger] out[k]),
            forall|t: int|
                0 <= t < dir ==> (#[trigger] step(d, t, b.size as nat) matches Some(e) ==> b@.at(e)
                    is Some || out@.contains(e)),
        decreases 4 - dir,
    {
        let ghost so_far = out@;
        match neighbour(d, dir, b.size) {
            None => {},
            Some(e) => {
                proof {
                    lemma_steps_are_neighbours(d, e, b.size as nat);
                }
                if b.find(e).is_none() && !has_point(out, e) {
                    out.push(e);
                    proof {
                        assert(out@.subrange(0, before.len() as int) =~= so_far.subrange(
                            0,
                            before.len() as int,
                        ));
                        assert(out[so_far.len() as int] == e);
                    }
                }
            },
        }
        proof {
            assert forall|t: int| 0 <= t < dir + 1 implies (#[trigger] step(
                d,
                t,
                b.size as nat,
            ) matches Some(e) ==> b@.at(e) is Some || out@.contains(e)) by {
                if step(d, t, b.size as nat) is Some {
                    let e = step(d, t, b.size as nat)->0;
                    if so_far.contains(e) {
                        let k = choose|k: int| 0 <= k < so_far.len() && so_far[k] == e;
                        assert(out[k] == e);
                    }
                }
            }
        }
        dir += 1;
    }
    proof {
        assert forall|e: Coord| #[trigger] breathes(b@, d, e) implies out@.contains(e) by {
            lemma_steps_are_neighbours(d, e, b.size as nat);
            let t = choose|t: int| 0 <= t < 4 && #[trigger] step(d, t, b.size as nat) == Some(e);
            assert(step(d, t, b.size as nat) == Some(e));
        }
    }
}

/// The points of the group of the stone on `c`, each once, or `None` where
/// no stone stands on `c`.
pub fn group_of(b: &Board, c: Coord) -> (r: Option<Vec<Coord>>)
    requires
        b.wf(),
    ensures
        match r {
            Some(g) => b@.at(c) is Some && g@.no_duplicates() && g@.to_set() == group(b@, c),
            None => b@.at(c) is None,
        },
{
    let start: usize = match b.find(c) {
        Some(i) => i,
        None => {
            return None;
        },
    };
    let found = explore(b, start);
    let ghost st = b.stones@;
    let ghost ms = found.members@;
    let mut g: Vec<Coord> = Vec::new();
    let mut k: usize = 0;
    while k < found.members.len()
        invariant
            k <= found.members.len(),
            st == b.stones@,
            ms == found.members@,
            forall|x: int| 0 <= x < ms.len() ==> ms[x] < st.len(),
            g.len() == k,
            forall|x: int| 0 <= x < k ==> g[x] == st[ms[x] as int].coord,
        decreases found.members.len() - k,
    {
        g.push(b.stones[found.members[k]].coord);
        k += 1;
    }
    proof {
        assert forall|x: int, y: int| 0 <= x < g.len() && 0 <= y < g.len() && x != y implies g[x]
            != g[y] by {
            lemma_map_index(st, ms[x] as int);
            lemma_map_index(st, ms[y] as int);
        }
        assert forall|d: Coord| g@.to_set().contains(d) <==> group(b@, c).contains(d) by {
            if g@.contains(d) {
                let x = choose|x: int| 0 <= x < g.len() && g[x] == d;
                assert(listed(ms, ms[x] as int));
                assert(connected(b@, c, st[ms[x] as int].coord));
            }
            if connected(b@, c, d) {
                lemma_connected_colour(b@, c, d);
                let j = index_of(st, d);
                assert(0 <= j < st.len() && st[j].coord == d);
                assert(listed(ms, j));
                let x = choose|x: int| 0 <= x < ms.len() && ms[x] == j;
                assert(g[x] == d);
            }
        }
        assert(g@.to_set() =~= group(b@, c));
    }
    Some(g)
}

/// The liberties of the group of the stone on `c`, each once, or `None`
/// where no stone stands on `c`.
pub fn liberties_of(b: &Board, c: Coord) -> (r: Option<Vec<Coord>>)
    requires
        b.wf(),
    ensures
        match r {
            Some(l) => b@.at(c) is Some && l@.no_duplicates() && l@.to_set() == liberties(b@, c),
            None => b@.at(c) is None,
        },
{
    let start: usize = match b.find(c) {
        Some(i) => i,
        None => {
            return None;
        },
    };
    let found = explore(b, start);
    let ghost st = b.stones@;
    let ghost ms = found.members@;
    let mut l: Vec<Coord> = Vec::new();
    let mut k: usize = 0;
    while k < found.members.len()
        invariant
            k <= found.members.len(),
            b.wf(),
            st == b.stones@,
            ms == found.members@,
            st[start as int].coord == c,
            forall|x: int| 0 <= x < ms.len() ==> ms[x] < st.len(),
            forall|i: int|
                0 <= i < st.len() ==> (listed(ms, i) <==> connected(b@, c, #[trigger] st[i].coord)),
            l@.no_duplicates(),
            forall|x: int| 0 <= x < l.len() ==> liberties(b@, c).contains(#[trigger] l[x]),
            forall|x: int, e: Coord|
                0 <= x < k && #[trigger] breathes(b@, st[#[trigger] ms[x] as int].coord, e)
                    ==> l@.contains(e),
        decreases found.members.len() - k,
    {
        let ghost before = l@;
        let d: Coord = b.stones[found.members[k]].coord;
        breathe(b, d, &mut l);
        proof {
            assert(listed(ms, ms[k as int] as int));
            assert(connected(b@, c, d));
            assert forall|x: int| 0 <= x < l.len() implies liberties(b@, c).contains(
                #[trigger] l[x],
            ) by {
                if x < before.len() {
                    assert(l@.subrange(0, before.len() as int)[x] == before[x]);
                } else {
                    assert(breathes(b@, d, l[x]));
                }
            }
            assert forall|x: int, e: Coord|
                0 <= x < k + 1 && #[trigger] breathes(
                    b@,
                    st[#[trigger] ms[x] as int].coord,
                    e,
                ) implies l@.contains(e) by {
                if x < k {
                    let y = choose|y: int| 0 <= y < before.len() && before[y] == e;
                    assert(l@.subrange(0, before.len() as int)[y] == before[y]);
                }
            }
        }
        k += 1;
    }
    proof {
        assert forall|e: Coord| l@.to_set().contains(e) <==> liberties(b@, c).contains(e) by {
            if liberties(b@, c).contains(e) {
                let d = choose|d: Coord| connected(b@, c, d) && #[trigger] breathes(b@, d, e);
                lemma_connected_colour(b@, c, d);
                let j = index_of(st, d);
                assert(0 <= j < st.len() && st[j].coord == d);
                assert(listed(ms, j));
                let x = choose|x: int| 0 <= x < ms.len() && ms[x] == j;
                assert(breathes(b@, st[ms[x] as int].coord, e));
            }
        }
        assert(l@.to_set() =~= liberties(b@, c));
    }
    Some(l)
}

} // verus!
