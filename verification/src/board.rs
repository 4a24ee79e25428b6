//! The board: a sparse mapping from points to the stones that stand on them.
//!
//! A board keeps its stones in a vector ordered by [`Coord::key`], so a board
//! with N stones takes O(N) space and two boards hold the same position
//! exactly when their vectors are equal.

use crate::model::{lemma_key_injective, Coord, Player, Stone};
use vstd::prelude::*;

verus! {

/// The position on a board: its side length and the stone on each occupied
/// point.
pub struct BoardView {
    pub size: nat,
    pub stones: Map<Coord, Player>,
}

impl BoardView {
    /// `c` is a point of the board.
    pub open spec fn in_bounds(self, c: Coord) -> bool {
        c.x < self.size && c.y < self.size
    }

    /// The stone at `c`, if there is one.
    pub open spec fn at(self, c: Coord) -> Option<Player> {
        if self.stones.contains_key(c) {
            Some(self.stones[c])
        } else {
            None
        }
    }

    /// The position with a stone of `p` put on `c`.
    pub open spec fn place(self, c: Coord, p: Player) -> BoardView {
        BoardView { size: self.size, stones: self.stones.insert(c, p) }
    }

    /// The position with every stone on a point of `gone` taken off.
    pub open spec fn remove(self, gone: Set<Coord>) -> BoardView {
        BoardView { size: self.size, stones: self.stones.remove_keys(gone) }
    }

    /// The position with a stone of `p` put on each point of `cs` in turn.
    pub open spec fn place_all(self, cs: Seq<Coord>, p: Player) -> BoardView
        decreases cs.len(),
    {
        if cs.len() == 0 {
            self
        } else {
            self.place_all(cs.drop_last(), p).place(cs.last(), p)
        }
    }

    /// Every stone stands on a point of the board.
    pub open spec fn wf(self) -> bool {
        forall|c: Coord| #[trigger] self.stones.contains_key(c) ==> self.in_bounds(c)
    }

    /// The position without a stone.
    pub open spec fn empty(size: nat) -> BoardView {
        BoardView { size, stones: Map::empty() }
    }
}

/// The stones are listed in strictly increasing order of their points.
pub open spec fn sorted(s: Seq<Stone>) -> bool {
    forall|i: int, j: int| 0 <= i < j < s.len() ==> s[i].coord.key() < s[j].coord.key()
}

/// Where in `s` the stone on `c` is listed.
pub open spec fn index_of(s: Seq<Stone>, c: Coord) -> int {
    choose|i: int| 0 <= i < s.len() && s[i].coord == c
}

/// The mapping that a list of stones stands for.
pub open spec fn stones_map(s: Seq<Stone>) -> Map<Coord, Player> {
    Map::new(
        |c: Coord| exists|i: int| 0 <= i < s.len() && s[i].coord == c,
        |c: Coord| s[index_of(s, c)].player,
    )
}

/// Each stone of a sorted list stands in the mapping of the list, under its
/// point and nowhere else.
pub proof fn lemma_map_index(s: Seq<Stone>, i: int)
    requires
        sorted(s),
        0 <= i < s.len(),
    ensures
        stones_map(s).contains_key(s[i].coord),
        stones_map(s)[s[i].coord] == s[i].player,
        index_of(s, s[i].coord) == i,
{
    let c = s[i].coord;
    let j = index_of(s, c);
    assert(0 <= j < s.len() && s[j].coord == c);
    if j != i {
        if j < i {
            assert(s[j].coord.key() < s[i].coord.key());
        } else {
            assert(s[i].coord.key() < s[j].coord.key());
        }
    }
}

/// A sorted list stands for `m` when it lists exactly the stones of `m`.
pub proof fn lemma_map_from_elements(s: Seq<Stone>, m: Map<Coord, Player>)
    requires
        sorted(s),
        forall|i: int|
            0 <= i < s.len() ==> m.contains_key(#[trigger] s[i].coord) && m[s[i].coord]
                == s[i].player,
        forall|c: Coord|
            m.contains_key(c) ==> exists|i: int| 0 <= i < s.len() && #[trigger] s[i].coord == c,
    ensures
        stones_map(s) == m,
{
    assert forall|c: Coord| stones_map(s).contains_key(c) implies m.contains_key(c) by {
        let i = index_of(s, c);
        assert(s[i].coord == c);
    }
    assert forall|c: Coord| stones_map(s).contains_key(c) implies stones_map(s)[c] == m[c] by {
        let i = index_of(s, c);
        assert(s[i].coord == c);
        lemma_map_index(s, i);
    }
    assert(stones_map(s) =~= m);
}

/// Without its first stone a sorted list stands for the mapping without the
/// point of that stone.
pub proof fn lemma_map_drop_first(s: Seq<Stone>)
    requires
        sorted(s),
        s.len() > 0,
    ensures
        sorted(s.drop_first()),
        stones_map(s.drop_first()) == stones_map(s).remove(s[0].coord),
{
    let t = s.drop_first();
    let m = stones_map(s).remove(s[0].coord);
    assert forall|i: int, j: int| 0 <= i < j < t.len() implies t[i].coord.key()
        < t[j].coord.key() by {
        assert(t[i] == s[i + 1] && t[j] == s[j + 1]);
    }
    assert forall|i: int| 0 <= i < t.len() implies m.contains_key(#[trigger] t[i].coord)
        && m[t[i].coord] == t[i].player by {
        assert(t[i] == s[i + 1]);
        lemma_map_index(s, i + 1);
        assert(s[0].coord.key() < s[i + 1].coord.key());
    }
    assert forall|c: Coord| m.contains_key(c) implies exists|i: int|
        0 <= i < t.len() && #[trigger] t[i].coord == c by {
        let k = index_of(s, c);
        assert(0 <= k < s.len() && s[k].coord == c);
        assert(k != 0);
        assert(t[k - 1].coord == c);
    }
    lemma_map_from_elements(t, m);
}

/// Two sorted lists that stand for the same mapping are the same list.
pub proof fn lemma_sorted_unique(a: Seq<Stone>, b: Seq<Stone>)
    requires
        sorted(a),
        sorted(b),
        stones_map(a) == stones_map(b),
    ensures
        a == b,
    decreases a.len(),
{
    if a.len() == 0 {
        if b.len() > 0 {
            lemma_map_index(b, 0);
            assert(stones_map(a).contains_key(b[0].coord));
        }
        assert(a =~= b);
    } else {
        lemma_map_index(a, 0);
        assert(stones_map(b).contains_key(a[0].coord));
        let j = index_of(b, a[0].coord);
        assert(0 <= j < b.len() && b[j].coord == a[0].coord);
        lemma_map_index(b, 0);
        assert(stones_map(a).contains_key(b[0].coord));
        let k = index_of(a, b[0].coord);
        assert(0 <= k < a.len() && a[k].coord == b[0].coord);
        if j > 0 {
            assert(b[0].coord.key() < b[j].coord.key());
        }
        if k > 0 {
            assert(a[0].coord.key() < a[k].coord.key());
        }
        lemma_key_injective(a[0].coord, b[0].coord);
        assert(a[0].coord == b[0].coord);
        assert(a[0] == b[0]);
        lemma_map_drop_first(a);
        lemma_map_drop_first(b);
        lemma_sorted_unique(a.drop_first(), b.drop_first());
        assert(a =~= seq![a[0]] + a.drop_first());
        assert(b =~= seq![b[0]] + b.drop_first());
    }
}

/// A board of a given side length with the stones that stand on it.
#[derive(Clone, Debug, PartialEq, Eq)]
pub struct Board {
    pub size: u16,
    pub stones: Vec<Stone>,
}

impl View for Board {
    type V = BoardView;

    open spec fn view(&self) -> BoardView {
        BoardView { size: self.size as nat, stones: stones_map(self.stones@) }
    }
}

impl Board {
    /// The stones are in order and all stand on the board.
    pub open spec fn wf(&self) -> bool {
        &&& sorted(self.stones@)
        &&& forall|i: int|
            0 <= i < self.stones.len() ==> (#[trigger] self.stones[i]).coord.x < self.size
                && self.stones[i].coord.y < self.size
    }

    /// The position of a well-formed board has all its stones on the board.
    pub proof fn lemma_view_wf(&self)
        requires
            self.wf(),
        ensures
            self@.wf(),
    {
        assert forall|c: Coord| self@.stones.contains_key(c) implies self@.in_bounds(c) by {
            let i = index_of(self.stones@, c);
            assert(self.stones[i].coord == c);
        }
    }

    /// An empty board.
    pub fn new(size: u16) -> (b: Board)
        ensures
            b.wf(),
            b@ == BoardView::empty(size as nat),
    {
        let b = Board { size, stones: Vec::new() };
        assert(b@.stones =~= Map::empty());
        b
    }

    /// Whether `c` is a point of this board.
    pub fn in_bounds(&self, c: Coord) -> (r: bool)
        ensures
            r == self@.in_bounds(c),
    {
        c.x < self.size && c.y < self.size
    }

    /// Where the stone on `c` is listed, if there is one.
    pub fn find(&self, c: Coord) -> (r: Option<usize>)
        requires
            self.wf(),
        ensures
            match r {
                Some(i) => i < self.stones.len() && self.stones[i as int].coord == c
                    && self@.at(c) == Some(self.stones[i as int].player),
                None => self@.at(c) is None && forall|j: int|
                    0 <= j < self.stones.len() ==> self.stones[j].coord != c,
            },
    {
        let mut i: usize = 0;
        while i < self.stones.len()
            invariant
                i <= self.stones.len(),
                self.wf(),
                forall|j: int| 0 <= j < i ==> self.stones[j].coord != c,
            decreases self.stones.len() - i,
        {
            let s = self.stones[i];
            if s.coord.x == c.x && s.coord.y == c.y {
                proof {
                    lemma_map_index(self.stones@, i as int);
                }
                return Some(i);
            }
            i += 1;
        }
        None
    }

    /// The stone on `c`, if there is one.
    pub fn get(&self, c: Coord) -> (r: Option<Player>)
        requires
            self.wf(),
        ensures
            r == self@.at(c),
    {
        match self.find(c) {
            Some(i) => Some(self.stones[i].player),
            None => None,
        }
    }

    /// A copy of this board.
    pub fn duplicate(&self) -> (b: Board)
        ensures
            b.size == self.size,
            b.stones@ == self.stones@,
            b@ == self@,
            self.wf() ==> b.wf(),
    {
        let mut stones: Vec<Stone> = Vec::new();
        let mut i: usize = 0;
        while i < self.stones.len()
            invariant
                i <= self.stones.len(),
                stones@ == self.stones@.subrange(0, i as int),
            decreases self.stones.len() - i,
        {
            stones.push(self.stones[i]);
            assert(stones@ == self.stones@.subrange(0, i + 1));
            i += 1;
        }
        assert(self.stones@.subrange(0, self.stones.len() as int) == self.stones@);
        Board { size: self.size, stones }
    }

    /// This board with a stone of `p` put on the empty point `c`.
    fn inserted(&self, c: Coord, p: Player) -> (b: Board)
        requires
            self.wf(),
            self@.in_bounds(c),
            self@.at(c) is None,
        ensures
            b.wf(),
            b@ == self@.place(c, p),
    {
        let mut stones: Vec<Stone> = Vec::new();
        let stone = Stone { coord: c, player: p };
        let rank: u32 = c.rank();
        let mut i: usize = 0;
        while i < self.stones.len() && self.stones[i].coord.rank() < rank
            invariant
                i <= self.stones.len(),
                stones@ == self.stones@.subrange(0, i as int),
                forall|j: int| 0 <= j < i ==> self.stones[j].coord.key() < c.key(),
                rank == c.key(),
            decreases self.stones.len() - i,
        {
            stones.push(self.stones[i]);
            assert(stones@ == self.stones@.subrange(0, i + 1));
            i += 1;
        }
        let ghost pos = i as int;
        proof {
            assert(self@.stones.contains_key(c) == false);
            assert forall|j: int| pos <= j < self.stones.len() implies c.key()
                < self.stones[j].coord.key() by {
                assert(self.stones[pos].coord.key() >= c.key());
                if self.stones[pos].coord.key() == c.key() {
                    lemma_key_injective(self.stones[pos].coord, c);
                    lemma_map_index(self.stones@, pos);
                }
                if pos < j {
                    assert(self.stones[pos].coord.key() < self.stones[j].coord.key());
                }
            }
        }
        stones.push(stone);
        while i < self.stones.len()
            invariant
                0 <= pos <= i <= self.stones.len(),
                stones@ == self.stones@.subrange(0, pos).push(stone) + self.stones@.subrange(
                    pos,
                    i as int,
                ),
            decreases self.stones.len() - i,
        {
            stones.push(self.stones[i]);
            assert(stones@ == self.stones@.subrange(0, pos).push(stone) + self.stones@.subrange(
                pos,
                i + 1,
            ));
            i += 1;
        }
        let b = Board { size: self.size, stones };
        proof {
            let old = self.stones@;
            let new = b.stones@;
            assert(new.len() == old.len() + 1);
            assert(forall|j: int| 0 <= j < pos ==> new[j] == old[j]);
            assert(new[pos] == stone);
            assert(forall|j: int| pos < j < new.len() ==> new[j] == old[j - 1]);
            assert(sorted(new)) by {
                assert forall|x: int, y: int| 0 <= x < y < new.len() implies new[x].coord.key()
                    < new[y].coord.key() by {
                    if x < pos && y > pos {
                        assert(old[x].coord.key() < c.key());
                        assert(c.key() < old[y - 1].coord.key());
                    }
                }
            }
            let m = self@.stones.insert(c, p);
            assert forall|j: int| 0 <= j < new.len() implies m.contains_key(
                #[trigger] new[j].coord,
            ) && m[new[j].coord] == new[j].player by {
                if j < pos {
                    lemma_map_index(old, j);
                } else if j > pos {
                    lemma_map_index(old, j - 1);
                }
            }
            assert forall|d: Coord| m.contains_key(d) implies exists|j: int|
                0 <= j < new.len() && #[trigger] new[j].coord == d by {
                if d == c {
                    assert(new[pos].coord == d);
                } else {
                    let k = index_of(old, d);
                    assert(0 <= k < old.len() && old[k].coord == d);
                    if k < pos {
                        assert(new[k].coord == d);
                    } else {
                        assert(new[k + 1].coord == d);
                    }
                }
            }
            lemma_map_from_elements(new, m);
        }
        b
    }

    /// This board with the stone listed at `i` replaced by one of `p`.
    fn recoloured(&self, i: usize, p: Player) -> (b: Board)
        requires
            self.wf(),
            i < self.stones.len(),
        ensures
            b.wf(),
            b@ == self@.place(self.stones[i as int].coord, p),
    {
        let c: Coord = self.stones[i].coord;
        let mut stones = self.duplicate().stones;
        stones.set(i, Stone { coord: c, player: p });
        let b = Board { size: self.size, stones };
        proof {
            let old = self.stones@;
            let new = b.stones@;
            assert(forall|j: int| 0 <= j < new.len() ==> new[j].coord == old[j].coord);
            let m = self@.stones.insert(c, p);
            assert forall|j: int| 0 <= j < new.len() implies m.contains_key(
                #[trigger] new[j].coord,
            ) && m[new[j].coord] == new[j].player by {
                lemma_map_index(old, j);
                if j != i {
                    if j < i {
                        assert(old[j].coord.key() < old[i as int].coord.key());
                    } else {
                        assert(old[i as int].coord.key() < old[j].coord.key());
                    }
                }
            }
            assert forall|d: Coord| m.contains_key(d) implies exists|j: int|
                0 <= j < new.len() && #[trigger] new[j].coord == d by {
                if d == c {
                    assert(new[i as int].coord == d);
                } else {
                    let k = index_of(old, d);
                    assert(0 <= k < old.len() && old[k].coord == d);
                    assert(new[k].coord == d);
                }
            }
            lemma_map_from_elements(new, m);
        }
        b
    }

    /// This board with a stone of `p` on `c`, in place of any stone that
    /// stood there.
    pub fn with_stone(&self, c: Coord, p: Player) -> (b: Board)
        requires
            self.wf(),
            self@.in_bounds(c),
        ensures
            b.wf(),
            b@ == self@.place(c, p),
    {
        match self.find(c) {
            Some(i) => self.recoloured(i, p),
            None => self.inserted(c, p),
        }
    }

    /// This board with the point `c` made empty.
    pub fn without_point(&self, c: Coord) -> (b: Board)
        requires
            self.wf(),
        ensures
            b.wf(),
            b@ == self@.remove(set![c]),
    {
        match self.find(c) {
            None => {
                let b = self.duplicate();
                assert(b@.stones =~= self@.stones.remove_keys(set![c]));
                b
            },
            Some(i) => {
                let mut stones = self.duplicate().stones;
                stones.remove(i);
                let b = Board { size: self.size, stones };
                proof {
                    let old = self.stones@;
                    let new = b.stones@;
                    assert(forall|j: int| 0 <= j < i ==> new[j] == old[j]);
                    assert(forall|j: int| i <= j < new.len() ==> new[j] == old[j + 1]);
                    assert(sorted(new)) by {
                        assert forall|x: int, y: int| 0 <= x < y < new.len() implies new[x].coord.key()
                            < new[y].coord.key() by {
                            let x0 = if x < i { x } else { x + 1 };
                            let y0 = if y < i { y } else { y + 1 };
                            assert(old[x0].coord.key() < old[y0].coord.key());
                        }
                    }
                    let m = self@.stones.remove_keys(set![c]);
                    assert forall|j: int| 0 <= j < new.len() implies m.contains_key(
                        #[trigger] new[j].coord,
                    ) && m[new[j].coord] == new[j].player by {
                        let j0 = if j < i { j } else { j + 1 };
                        lemma_map_index(old, j0);
                        if j0 < i {
                            assert(old[j0].coord.key() < old[i as int].coord.key());
                        } else {
                            assert(old[i as int].coord.key() < old[j0].coord.key());
                        }
                    }
                    assert forall|d: Coord| m.contains_key(d) implies exists|j: int|
                        0 <= j < new.len() && #[trigger] new[j].coord == d by {
                        let k = index_of(old, d);
                        assert(0 <= k < old.len() && old[k].coord == d);
                        if k < i {
                            assert(new[k].coord == d);
                        } else {
                            assert(new[k - 1].coord == d);
                        }
                    }
                    lemma_map_from_elements(new, m);
                }
                b
            },
        }
    }

    /// This board with every point of `cs` made empty.
    pub fn without_points(&self, cs: &Vec<Coord>) -> (b: Board)
        requires
            self.wf(),
        ensures
            b.wf(),
            b@ == self@.remove(cs@.to_set()),
    {
        let mut b = self.duplicate();
        let mut i: usize = 0;
        assert(b@.stones =~= self@.stones.remove_keys(cs@.subrange(0, 0).to_set()));
        while i < cs.len()
            invariant
                i <= cs.len(),
                b.wf(),
                b@ == self@.remove(cs@.subrange(0, i as int).to_set()),
            decreases cs.len() - i,
        {
            b = b.without_point(cs[i]);
            proof {
                let s0 = cs@.subrange(0, i as int);
                let s1 = cs@.subrange(0, i + 1);
                assert(s1.drop_last() =~= s0);
                assert forall|d: Coord| s1.to_set().contains(d) <==> (s0.to_set().contains(d) || d
                    == cs[i as int]) by {
                    if s0.contains(d) {
                        let k = choose|k: int| 0 <= k < s0.len() && s0[k] == d;
                        assert(s1[k] == d);
                    }
                    if s1.contains(d) {
                        let k = choose|k: int| 0 <= k < s1.len() && s1[k] == d;
                        if k < i {
                            assert(s0[k] == d);
                        }
                    }
                    if d == cs[i as int] {
                        assert(s1[i as int] == d);
                    }
                }
                assert(b@.stones =~= self@.stones.remove_keys(s1.to_set()));
            }
            i += 1;
        }
        assert(cs@.subrange(0, cs.len() as int) == cs@);
        b
    }

    /// This board with a stone of `p` put on each point of `cs` in turn.
    pub fn with_stones(&self, cs: &Vec<Coord>, p: Player) -> (b: Board)
        requires
            self.wf(),
            forall|i: int| 0 <= i < cs.len() ==> self@.in_bounds(cs[i]),
        ensures
            b.wf(),
            b@ == self@.place_all(cs@, p),
    {
        let mut b = self.duplicate();
        let mut i: usize = 0;
        while i < cs.len()
            invariant
                i <= cs.len(),
                b.wf(),
                b.size == self.size,
                forall|k: int| 0 <= k < cs.len() ==> self@.in_bounds(cs[k]),
                b@ == self@.place_all(cs@.subrange(0, i as int), p),
            decreases cs.len() - i,
        {
            b = b.with_stone(cs[i], p);
            proof {
                assert(cs@.subrange(0, i + 1).drop_last() =~= cs@.subrange(0, i as int));
            }
            i += 1;
        }
        assert(cs@.subrange(0, cs.len() as int) == cs@);
        b
    }

    /// Whether two boards hold the same position.
    pub fn same_position(&self, other: &Board) -> (r: bool)
        requires
            self.wf(),
            other.wf(),
        ensures
            r == (self@ == other@),
    {
        if self.size != other.size || self.stones.len() != other.stones.len() {
            proof {
                if self@ == other@ {
                    lemma_sorted_unique(self.stones@, other.stones@);
                }
            }
            return false;
        }
        let mut i: usize = 0;
        while i < self.stones.len()
            invariant
                i <= self.stones.len(),
                self.stones.len() == other.stones.len(),
                self.size == other.size,
                self.wf(),
                other.wf(),
                forall|j: int| 0 <= j < i ==> self.stones[j] == other.stones[j],
            decreases self.stones.len() - i,
        {
            let a = self.stones[i];
            let b = other.stones[i];
            if a != b {
                proof {
                    if self@ == other@ {
                        lemma_sorted_unique(self.stones@, other.stones@);
                    }
                }
                return false;
            }
            i += 1;
        }
        assert(self.stones@ =~= other.stones@);
        true
    }

    /// Whether the stones are in order and all stand on the board.
    pub fn is_well_formed(&self) -> (r: bool)
        ensures
            r == self.wf(),
    {
        let mut i: usize = 0;
        while i < self.stones.len()
            invariant
                i <= self.stones.len(),
                forall|j: int|
                    0 <= j < i ==> (#[trigger] self.stones[j]).coord.x < self.size
                        && self.stones[j].coord.y < self.size,
                forall|j: int|
                    0 < j < i ==> (#[trigger] self.stones[j - 1]).coord.key()
                        < self.stones[j].coord.key(),
            decreases self.stones.len() - i,
        {
            let s = self.stones[i];
            if !(s.coord.x < self.size && s.coord.y < self.size) {
                return false;
            }
            if i > 0 && !(self.stones[i - 1].coord.rank() < s.coord.rank()) {
                assert(!sorted(self.stones@)) by {
                    assert(!(self.stones[i - 1].coord.key() < self.stones[i as int].coord.key()));
                }
                return false;
            }
            i += 1;
        }
        proof {
            lemma_adjacent_sorted(self.stones@);
        }
        true
    }
}

/// A list whose neighbours are in order is in order throughout.
pub proof fn lemma_adjacent_sorted(s: Seq<Stone>)
    requires
        forall|j: int| 0 < j < s.len() ==> (#[trigger] s[j - 1]).coord.key() < s[j].coord.key(),
    ensures
        sorted(s),
{
    assert forall|i: int, j: int| 0 <= i < j < s.len() implies s[i].coord.key()
        < s[j].coord.key() by {
        lemma_adjacent_step(s, i, j);
    }
}

proof fn lemma_adjacent_step(s: Seq<Stone>, i: int, j: int)
    requires
        forall|k: int| 0 < k < s.len() ==> (#[trigger] s[k - 1]).coord.key() < s[k].coord.key(),
        0 <= i < j < s.len(),
    ensures
        s[i].coord.key() < s[j].coord.key(),
    decreases j - i,
{
    assert(s[j - 1].coord.key() < s[j].coord.key());
    if i < j - 1 {
        lemma_adjacent_step(s, i, j - 1);
    }
}

} // verus!
