//! The canonical binary encoding of a game state.
//!
//! All numbers are written most significant byte first. A state is written
//! as its board (the side length in two bytes, the number of stones in four,
//! then each stone as column, row and colour in the order of the board), its
//! moves (their number in four bytes, then each move), the turn in four
//! bytes, the player who is up in one, and the two capture counts in four
//! bytes each. A move is written as the game id and the request id in
//! sixteen bytes each, the player, the kind of move (0 with the point, 1 for
//! a pass, 2 for a resignation), the number of stones taken in four bytes
//! with their points, and the event id in sixteen bytes. A colour is 0 for
//! black and 1 for white.
//!
//! Equal states have equal encodings, and a decoder accepts exactly the
//! encodings of well-formed states.

use crate::board::{lemma_sorted_unique, sorted, stones_map, Board, BoardView};
use crate::model::{Captures, Coord, DeserError, MoveCoord, MoveMade, MoveMadeView, Player, Stone};
use crate::game_state::{lemma_taken_by_covers, moves_view, GameState, GameStateView};
use crate::ids::{EventId, GameId, ReqId};
use crate::wire::{
    be_bytes, dec_int, dec_list, enc_list, get_int, lemma_dec_int, lemma_dec_list, lemma_enc_int,
    lemma_enc_list, lemma_pow256_values, pow256, put_int,
};
use vstd::prelude::*;

verus! {

/// The bytes of `b` from `p` on.
pub open spec fn suffix(b: Seq<u8>, p: int) -> Seq<u8> {
    b.subrange(p, b.len() as int)
}

/// The encoding of a colour.
pub open spec fn enc_player(p: Player) -> Seq<u8> {
    match p {
        Player::BLACK => seq![0u8],
        Player::WHITE => seq![1u8],
    }
}

/// The colour that stands at the start of `b`, with the bytes after it.
pub open spec fn dec_player(b: Seq<u8>) -> Option<(Player, Seq<u8>)> {
    if b.len() >= 1 && b[0] == 0 {
        Some((Player::BLACK, suffix(b, 1)))
    } else if b.len() >= 1 && b[0] == 1 {
        Some((Player::WHITE, suffix(b, 1)))
    } else {
        None
    }
}

/// The encoding of a point: column, then row, in two bytes each.
pub open spec fn enc_coord(c: Coord) -> Seq<u8> {
    be_bytes(c.x as nat, 2) + be_bytes(c.y as nat, 2)
}

/// The point that stands at the start of `b`, with the bytes after it.
pub open spec fn dec_coord(b: Seq<u8>) -> Option<(Coord, Seq<u8>)> {
    match dec_int(b, 2) {
        Some((x, r)) => match dec_int(r, 2) {
            Some((y, after)) => Some((Coord { x: x as u16, y: y as u16 }, after)),
            None => None,
        },
        None => None,
    }
}

/// The encoding of an identifier: its sixteen bytes.
pub open spec fn enc_id(id: u128) -> Seq<u8> {
    be_bytes(id as nat, 16)
}

/// The identifier that stands at the start of `b`, with the bytes after it.
pub open spec fn dec_id(b: Seq<u8>) -> Option<(u128, Seq<u8>)> {
    match dec_int(b, 16) {
        Some((id, after)) => Some((id as u128, after)),
        None => None,
    }
}

/// The encoding of what a player does: the kind in one byte, and the point
/// where a stone is placed.
pub open spec fn enc_move_coord(mc: MoveCoord) -> Seq<u8> {
    match mc {
        MoveCoord::At(c) => seq![0u8] + enc_coord(c),
        MoveCoord::Pass => seq![1u8],
        MoveCoord::Resign => seq![2u8],
    }
}

/// What a player does as it stands at the start of `b`, with the bytes
/// after it.
pub open spec fn dec_move_coord(b: Seq<u8>) -> Option<(MoveCoord, Seq<u8>)> {
    if b.len() >= 1 && b[0] == 0 {
        match dec_coord(suffix(b, 1)) {
            Some((c, after)) => Some((MoveCoord::At(c), after)),
            None => None,
        }
    } else if b.len() >= 1 && b[0] == 1 {
        Some((MoveCoord::Pass, suffix(b, 1)))
    } else if b.len() >= 1 && b[0] == 2 {
        Some((MoveCoord::Resign, suffix(b, 1)))
    } else {
        None
    }
}

/// [`enc_coord`] as a value.
pub open spec fn coord_enc() -> spec_fn(Coord) -> Seq<u8> {
    |c: Coord| enc_coord(c)
}

/// [`dec_coord`] as a value.
pub open spec fn coord_dec() -> spec_fn(Seq<u8>) -> Option<(Coord, Seq<u8>)> {
    |b: Seq<u8>| dec_coord(b)
}

/// The encoding of a list of points: their number in four bytes, then the
/// points.
pub open spec fn enc_coords(cs: Seq<Coord>) -> Seq<u8> {
    be_bytes(cs.len(), 4) + enc_list(cs, coord_enc())
}

/// The list of points that stands at the start of `b`, with the bytes after
/// it.
pub open spec fn dec_coords(b: Seq<u8>) -> Option<(Seq<Coord>, Seq<u8>)> {
    match dec_int(b, 4) {
        Some((n, r)) => dec_list(r, n, coord_dec()),
        None => None,
    }
}

/// The encoding of a move.
pub open spec fn enc_move(m: MoveMadeView) -> Seq<u8> {
    enc_id(m.game_id.0) + enc_id(m.reply_to.0) + enc_player(m.player) + enc_move_coord(m.coord)
        + enc_coords(m.captured) + enc_id(m.event_id.0)
}

/// The move that stands at the start of `b`, with the bytes after it.
pub open spec fn dec_move(b: Seq<u8>) -> Option<(MoveMadeView, Seq<u8>)> {
    match dec_id(b) {
        Some((game, r1)) => match dec_id(r1) {
            Some((reply, r2)) => match dec_player(r2) {
                Some((player, r3)) => match dec_move_coord(r3) {
                    Some((coord, r4)) => match dec_coords(r4) {
                        Some((captured, r5)) => match dec_id(r5) {
                            Some((event, after)) => Some(
                                (
                                    MoveMadeView {
                                        game_id: GameId(game),
                                        reply_to: ReqId(reply),
                                        player,
                                        coord,
                                        captured,
                                        event_id: EventId(event),
                                    },
                                    after,
                                ),
                            ),
                            None => None,
                        },
                        None => None,
                    },
                    None => None,
                },
                None => None,
            },
            None => None,
        },
        None => None,
    }
}

/// [`enc_move`] as a value.
pub open spec fn move_enc() -> spec_fn(MoveMadeView) -> Seq<u8> {
    |m: MoveMadeView| enc_move(m)
}

/// [`dec_move`] as a value.
pub open spec fn move_dec() -> spec_fn(Seq<u8>) -> Option<(MoveMadeView, Seq<u8>)> {
    |b: Seq<u8>| dec_move(b)
}

/// The encoding of a list of moves: their number in four bytes, then the
/// moves.
pub open spec fn enc_moves(ms: Seq<MoveMadeView>) -> Seq<u8> {
    be_bytes(ms.len(), 4) + enc_list(ms, move_enc())
}

/// The list of moves that stands at the start of `b`, with the bytes after
/// it.
pub open spec fn dec_moves(b: Seq<u8>) -> Option<(Seq<MoveMadeView>, Seq<u8>)> {
    match dec_int(b, 4) {
        Some((n, r)) => dec_list(r, n, move_dec()),
        None => None,
    }
}

/// The encoding of a stone: its point, then its colour.
pub open spec fn enc_stone(s: Stone) -> Seq<u8> {
    enc_coord(s.coord) + enc_player(s.player)
}

/// The stone that stands at the start of `b`, with the bytes after it.
pub open spec fn dec_stone(b: Seq<u8>) -> Option<(Stone, Seq<u8>)> {
    match dec_coord(b) {
        Some((coord, r)) => match dec_player(r) {
            Some((player, after)) => Some((Stone { coord, player }, after)),
            None => None,
        },
        None => None,
    }
}

/// [`enc_stone`] as a value.
pub open spec fn stone_enc() -> spec_fn(Stone) -> Seq<u8> {
    |s: Stone| enc_stone(s)
}

/// [`dec_stone`] as a value.
pub open spec fn stone_dec() -> spec_fn(Seq<u8>) -> Option<(Stone, Seq<u8>)> {
    |b: Seq<u8>| dec_stone(b)
}

/// The encoding of a list of stones: their number in four bytes, then the
/// stones.
pub open spec fn enc_stones(st: Seq<Stone>) -> Seq<u8> {
    be_bytes(st.len(), 4) + enc_list(st, stone_enc())
}

/// The list of stones that stands at the start of `b`, with the bytes after
/// it.
pub open spec fn dec_stones(b: Seq<u8>) -> Option<(Seq<Stone>, Seq<u8>)> {
    match dec_int(b, 4) {
        Some((n, r)) => dec_list(r, n, stone_dec()),
        None => None,
    }
}

/// The stones of a position in the order of the board.
pub open spec fn canonical_stones(m: Map<Coord, Player>) -> Seq<Stone> {
    choose|s: Seq<Stone>| sorted(s) && stones_map(s) == m
}

/// The stones of a board are the stones of its position in order.
pub proof fn lemma_canonical_stones(s: Seq<Stone>)
    requires
        sorted(s),
    ensures
        canonical_stones(stones_map(s)) == s,
{
    let t = canonical_stones(stones_map(s));
    assert(sorted(t) && stones_map(t) == stones_map(s));
    lemma_sorted_unique(t, s);
}

/// What follows the board in the encoding of a state.
pub open spec fn enc_rest(v: GameStateView) -> Seq<u8> {
    enc_moves(v.moves) + be_bytes(v.turn, 4) + enc_player(v.player_up) + be_bytes(
        v.captures.black as nat,
        4,
    ) + be_bytes(v.captures.white as nat, 4)
}

/// The encoding of a state.
pub open spec fn enc_state(v: GameStateView) -> Seq<u8> {
    be_bytes(v.board.size, 2) + enc_stones(canonical_stones(v.board.stones)) + enc_rest(v)
}

/// The stones are in order and stand on a board of side `size`.
pub open spec fn stones_ok(st: Seq<Stone>, size: nat) -> bool {
    &&& sorted(st)
    &&& forall|i: int| 0 <= i < st.len() ==> (#[trigger] st[i]).coord.x < size && st[i].coord.y < size
}

/// The state that `b` is the encoding of, or `None` where it is not the
/// encoding of a well-formed state.
pub open spec fn dec_state(b: Seq<u8>) -> Option<GameStateView> {
    match dec_int(b, 2) {
        Some((size, r1)) => match dec_stones(r1) {
            Some((stones, r2)) => match dec_moves(r2) {
                Some((moves, r3)) => match dec_int(r3, 4) {
                    Some((turn, r4)) => match dec_player(r4) {
                        Some((player_up, r5)) => match dec_int(r5, 4) {
                            Some((black, r6)) => match dec_int(r6, 4) {
                                Some((white, r7)) => {
                                    let v = GameStateView {
                                        board: BoardView { size, stones: stones_map(stones) },
                                        moves,
                                        turn,
                                        player_up,
                                        captures: Captures {
                                            black: black as u32,
                                            white: white as u32,
                                        },
                                    };
                                    if r7.len() == 0 && stones_ok(stones, size) && v.wf() {
                                        Some(v)
                                    } else {
                                        None
                                    }
                                },
                                None => None,
                            },
                            None => None,
                        },
                        None => None,
                    },
                    None => None,
                },
                None => None,
            },
            None => None,
        },
        None => None,
    }
}

/// A colour is read back from its encoding, whatever follows.
pub proof fn lemma_dec_player(p: Player, rest: Seq<u8>)
    ensures
        dec_player(enc_player(p) + rest) == Some((p, rest)),
{
    assert(suffix(enc_player(p) + rest, 1) =~= rest);
}

/// A point is read back from its encoding, whatever follows.
pub proof fn lemma_dec_coord(c: Coord, rest: Seq<u8>)
    ensures
        dec_coord(enc_coord(c) + rest) == Some((c, rest)),
{
    lemma_pow256_values();
    lemma_dec_int(c.x as nat, 2, be_bytes(c.y as nat, 2) + rest);
    lemma_dec_int(c.y as nat, 2, rest);
    assert(enc_coord(c) + rest =~= be_bytes(c.x as nat, 2) + (be_bytes(c.y as nat, 2) + rest));
}

/// An identifier is read back from its encoding, whatever follows.
pub proof fn lemma_dec_id(id: u128, rest: Seq<u8>)
    ensures
        dec_id(enc_id(id) + rest) == Some((id, rest)),
{
    lemma_pow256_values();
    lemma_dec_int(id as nat, 16, rest);
}

/// What a player does is read back from its encoding, whatever follows.
pub proof fn lemma_dec_move_coord(mc: MoveCoord, rest: Seq<u8>)
    ensures
        dec_move_coord(enc_move_coord(mc) + rest) == Some((mc, rest)),
{
    let b = enc_move_coord(mc) + rest;
    match mc {
        MoveCoord::At(c) => {
            lemma_dec_coord(c, rest);
            assert(suffix(b, 1) =~= enc_coord(c) + rest);
        },
        _ => {
            assert(suffix(b, 1) =~= rest);
        },
    }
}

/// A list of points whose number fits four bytes is read back from its
/// encoding, whatever follows.
pub proof fn lemma_dec_coords(cs: Seq<Coord>, rest: Seq<u8>)
    requires
        cs.len() < pow256(4),
    ensures
        dec_coords(enc_coords(cs) + rest) == Some((cs, rest)),
{
    assert forall|i: int, r: Seq<u8>| 0 <= i < cs.len() implies #[trigger] coord_dec()(
        coord_enc()(cs[i]) + r,
    ) == Some((cs[i], r)) by {
        lemma_dec_coord(cs[i], r);
    }
    lemma_dec_list(cs, rest, coord_enc(), coord_dec());
    lemma_dec_int(cs.len(), 4, enc_list(cs, coord_enc()) + rest);
    assert(enc_coords(cs) + rest =~= be_bytes(cs.len(), 4) + (enc_list(cs, coord_enc()) + rest));
}

/// A move that takes fewer than 2^32 stones is read back from its encoding,
/// whatever follows.
pub proof fn lemma_dec_move(m: MoveMadeView, rest: Seq<u8>)
    requires
        m.captured.len() < pow256(4),
    ensures
        dec_move(enc_move(m) + rest) == Some((m, rest)),
{
    let e6 = enc_id(m.event_id.0) + rest;
    let e5 = enc_coords(m.captured) + e6;
    let e4 = enc_move_coord(m.coord) + e5;
    let e3 = enc_player(m.player) + e4;
    let e2 = enc_id(m.reply_to.0) + e3;
    assert(enc_move(m) + rest =~= enc_id(m.game_id.0) + e2);
    lemma_dec_id(m.game_id.0, e2);
    lemma_dec_id(m.reply_to.0, e3);
    lemma_dec_player(m.player, e4);
    lemma_dec_move_coord(m.coord, e5);
    lemma_dec_coords(m.captured, e6);
    lemma_dec_id(m.event_id.0, rest);
}

/// A list of fewer than 2^32 moves, each of which takes fewer than 2^32
/// stones, is read back from its encoding, whatever follows.
pub proof fn lemma_dec_moves(ms: Seq<MoveMadeView>, rest: Seq<u8>)
    requires
        ms.len() < pow256(4),
        forall|i: int| 0 <= i < ms.len() ==> (#[trigger] ms[i]).captured.len() < pow256(4),
    ensures
        dec_moves(enc_moves(ms) + rest) == Some((ms, rest)),
{
    assert forall|i: int, r: Seq<u8>| 0 <= i < ms.len() implies #[trigger] move_dec()(
        move_enc()(ms[i]) + r,
    ) == Some((ms[i], r)) by {
        lemma_dec_move(ms[i], r);
    }
    lemma_dec_list(ms, rest, move_enc(), move_dec());
    lemma_dec_int(ms.len(), 4, enc_list(ms, move_enc()) + rest);
    assert(enc_moves(ms) + rest =~= be_bytes(ms.len(), 4) + (enc_list(ms, move_enc()) + rest));
}

/// A stone is read back from its encoding, whatever follows.
pub proof fn lemma_dec_stone(s: Stone, rest: Seq<u8>)
    ensures
        dec_stone(enc_stone(s) + rest) == Some((s, rest)),
{
    lemma_dec_coord(s.coord, enc_player(s.player) + rest);
    lemma_dec_player(s.player, rest);
    assert(enc_stone(s) + rest =~= enc_coord(s.coord) + (enc_player(s.player) + rest));
}

/// A list of fewer than 2^32 stones is read back from its encoding,
/// whatever follows.
pub proof fn lemma_dec_stones(st: Seq<Stone>, rest: Seq<u8>)
    requires
        st.len() < pow256(4),
    ensures
        dec_stones(enc_stones(st) + rest) == Some((st, rest)),
{
    assert forall|i: int, r: Seq<u8>| 0 <= i < st.len() implies #[trigger] stone_dec()(
        stone_enc()(st[i]) + r,
    ) == Some((st[i], r)) by {
        lemma_dec_stone(st[i], r);
    }
    lemma_dec_list(st, rest, stone_enc(), stone_dec());
    lemma_dec_int(st.len(), 4, enc_list(st, stone_enc()) + rest);
    assert(enc_stones(st) + rest =~= be_bytes(st.len(), 4) + (enc_list(st, stone_enc()) + rest));
}

/// The stones of a board are fewer than there are points with two-byte
/// coordinates.
pub proof fn lemma_stones_count(st: Seq<Stone>, i: int)
    requires
        sorted(st),
        0 <= i < st.len(),
    ensures
        st[i].coord.key() >= i,
    decreases i,
{
    if i > 0 {
        lemma_stones_count(st, i - 1);
        assert(st[i - 1].coord.key() < st[i].coord.key());
    }
}

/// Round trip: decoding the encoding of a well-formed game state gives that
/// state back.
pub proof fn lemma_round_trip(s: GameState)
    requires
        s.wf(),
    ensures
        dec_state(enc_state(s@)) == Some(s@),
{
    let v = s@;
    let st = s.board.stones@;
    lemma_pow256_values();
    lemma_canonical_stones(st);
    if st.len() > 0 {
        lemma_stones_count(st, st.len() - 1);
        assert(st[st.len() - 1].coord.x < s.board.size);
    }
    assert forall|i: int| 0 <= i < v.moves.len() implies (#[trigger] v.moves[i]).captured.len()
        < pow256(4) by {
        lemma_taken_by_covers(v.moves, i);
    }
    let e7 = be_bytes(v.captures.white as nat, 4);
    let e6 = be_bytes(v.captures.black as nat, 4) + e7;
    let e5 = enc_player(v.player_up) + e6;
    let e4 = be_bytes(v.turn, 4) + e5;
    let e3 = enc_moves(v.moves) + e4;
    let e2 = enc_stones(st) + e3;
    assert(enc_rest(v) =~= e3);
    assert(enc_state(v) =~= be_bytes(v.board.size, 2) + e2);
    lemma_dec_int(v.board.size, 2, e2);
    lemma_dec_stones(st, e3);
    lemma_dec_moves(v.moves, e4);
    lemma_dec_int(v.turn, 4, e5);
    lemma_dec_player(v.player_up, e6);
    lemma_dec_int(v.captures.black as nat, 4, e7);
    lemma_dec_int(v.captures.white as nat, 4, Seq::empty());
    assert(e7 =~= e7 + Seq::<u8>::empty());
}

/// Once the items run out, no longer list stands there either.
pub proof fn lemma_dec_list_fails<T>(
    b: Seq<u8>,
    k: nat,
    n: nat,
    dec: spec_fn(Seq<u8>) -> Option<(T, Seq<u8>)>,
)
    requires
        k <= n,
        dec_list(b, k, dec) is None,
    ensures
        dec_list(b, n, dec) is None,
    decreases n,
{
    if k < n {
        lemma_dec_list_fails(b, k, (n - 1) as nat, dec);
    }
}

fn write_player(out: &mut Vec<u8>, p: Player)
    ensures
        final(out)@ == old(out)@ + enc_player(p),
{
    match p {
        Player::BLACK => out.push(0),
        Player::WHITE => out.push(1),
    }
    assert(out@ =~= old(out)@ + enc_player(p));
}

fn write_coord(out: &mut Vec<u8>, c: Coord)
    ensures
        final(out)@ == old(out)@ + enc_coord(c),
{
    put_int(out, c.x as u128, 2);
    put_int(out, c.y as u128, 2);
    assert(out@ =~= old(out)@ + enc_coord(c));
}

fn write_id(out: &mut Vec<u8>, id: u128)
    ensures
        final(out)@ == old(out)@ + enc_id(id),
{
    put_int(out, id, 16);
}

fn write_move_coord(out: &mut Vec<u8>, mc: MoveCoord)
    ensures
        final(out)@ == old(out)@ + enc_move_coord(mc),
{
    match mc {
        MoveCoord::At(c) => {
            out.push(0);
            write_coord(out, c);
        },
        MoveCoord::Pass => out.push(1),
        MoveCoord::Resign => out.push(2),
    }
    assert(out@ =~= old(out)@ + enc_move_coord(mc));
}

fn write_coords(out: &mut Vec<u8>, cs: &Vec<Coord>)
    ensures
        final(out)@ == old(out)@ + enc_coords(cs@),
{
    put_int(out, cs.len() as u128, 4);
    let ghost head = out@;
    let mut i: usize = 0;
    assert(out@ =~= head + enc_list(cs@.subrange(0, 0), coord_enc()));
    while i < cs.len()
        invariant
            i <= cs.len(),
            out@ == head + enc_list(cs@.subrange(0, i as int), coord_enc()),
        decreases cs.len() - i,
    {
        write_coord(out, cs[i]);
        proof {
            let next = cs@.subrange(0, i + 1);
            assert(next.drop_last() =~= cs@.subrange(0, i as int));
            assert(next.last() == cs[i as int]);
            assert(out@ =~= head + enc_list(next, coord_enc()));
        }
        i += 1;
    }
    assert(cs@.subrange(0, cs.len() as int) =~= cs@);
    assert(out@ =~= old(out)@ + enc_coords(cs@));
}

fn write_move(out: &mut Vec<u8>, m: &MoveMade)
    ensures
        final(out)@ == old(out)@ + enc_move(m@),
{
    write_id(out, m.game_id.0);
    write_id(out, m.reply_to.0);
    write_player(out, m.player);
    write_move_coord(out, m.coord);
    write_coords(out, &m.captured);
    write_id(out, m.event_id.0);
    assert(out@ =~= old(out)@ + enc_move(m@));
}

fn write_moves(out: &mut Vec<u8>, ms: &Vec<MoveMade>)
    ensures
        final(out)@ == old(out)@ + enc_moves(moves_view(ms@)),
{
    let ghost mv = moves_view(ms@);
    put_int(out, ms.len() as u128, 4);
    let ghost head = out@;
    let mut i: usize = 0;
    assert(out@ =~= head + enc_list(mv.subrange(0, 0), move_enc()));
    while i < ms.len()
        invariant
            i <= ms.len(),
            mv == moves_view(ms@),
            out@ == head + enc_list(mv.subrange(0, i as int), move_enc()),
        decreases ms.len() - i,
    {
        write_move(out, &ms[i]);
        proof {
            let next = mv.subrange(0, i + 1);
            assert(next.drop_last() =~= mv.subrange(0, i as int));
            assert(next.last() == ms[i as int]@);
            assert(out@ =~= head + enc_list(next, move_enc()));
        }
        i += 1;
    }
    assert(mv.subrange(0, ms.len() as int) =~= mv);
    assert(out@ =~= old(out)@ + enc_moves(mv));
}

fn write_stones(out: &mut Vec<u8>, st: &Vec<Stone>)
    ensures
        final(out)@ == old(out)@ + enc_stones(st@),
{
    put_int(out, st.len() as u128, 4);
    let ghost head = out@;
    let mut i: usize = 0;
    assert(out@ =~= head + enc_list(st@.subrange(0, 0), stone_enc()));
    while i < st.len()
        invariant
            i <= st.len(),
            out@ == head + enc_list(st@.subrange(0, i as int), stone_enc()),
        decreases st.len() - i,
    {
        let ghost before = out@;
        write_coord(out, st[i].coord);
        write_player(out, st[i].player);
        proof {
            let next = st@.subrange(0, i + 1);
            assert(next.drop_last() =~= st@.subrange(0, i as int));
            assert(next.last() == st[i as int]);
            assert(out@ =~= before + enc_stone(st[i as int]));
            assert(out@ =~= head + enc_list(next, stone_enc()));
        }
        i += 1;
    }
    assert(st@.subrange(0, st.len() as int) =~= st@);
    assert(out@ =~= old(out)@ + enc_stones(st@));
}

/// The encoding of a game state.
pub fn encode(state: &GameState) -> (bytes: Vec<u8>)
    requires
        state.wf(),
    ensures
        bytes@ == enc_state(state@),
{
    let mut out: Vec<u8> = Vec::new();
    proof {
        lemma_canonical_stones(state.board.stones@);
    }
    put_int(&mut out, state.board.size as u128, 2);
    write_stones(&mut out, &state.board.stones);
    write_moves(&mut out, &state.moves);
    put_int(&mut out, state.turn as u128, 4);
    write_player(&mut out, state.player_up);
    put_int(&mut out, state.captures.black as u128, 4);
    put_int(&mut out, state.captures.white as u128, 4);
    assert(out@ =~= enc_state(state@));
    out
}

fn read_player(bytes: &[u8], pos: usize) -> (r: Option<(Player, usize)>)
    requires
        pos <= bytes.len(),
    ensures
        match r {
            Some((p, next)) => pos <= next <= bytes.len() && dec_player(suffix(bytes@, pos as int))
                == Some((p, suffix(bytes@, next as int))),
            None => dec_player(suffix(bytes@, pos as int)) is None,
        },
{
    if pos == bytes.len() {
        return None;
    }
    let tag: u8 = bytes[pos];
    proof {
        assert(suffix(bytes@, pos as int)[0] == tag);
        assert(suffix(suffix(bytes@, pos as int), 1) =~= suffix(bytes@, pos + 1));
    }
    if tag == 0 {
        Some((Player::BLACK, pos + 1))
    } else if tag == 1 {
        Some((Player::WHITE, pos + 1))
    } else {
        None
    }
}

fn read_coord(bytes: &[u8], pos: usize) -> (r: Option<(Coord, usize)>)
    requires
        pos <= bytes.len(),
    ensures
        match r {
            Some((c, next)) => pos <= next <= bytes.len() && dec_coord(suffix(bytes@, pos as int))
                == Some((c, suffix(bytes@, next as int))),
            None => dec_coord(suffix(bytes@, pos as int)) is None,
        },
{
    proof {
        lemma_pow256_values();
    }
    let x: u128 = match get_int(bytes, pos, 2) {
        Some(x) => x,
        None => {
            return None;
        },
    };
    let y: u128 = match get_int(bytes, pos + 2, 2) {
        Some(y) => y,
        None => {
            return None;
        },
    };
    Some((Coord { x: x as u16, y: y as u16 }, pos + 4))
}

fn read_id(bytes: &[u8], pos: usize) -> (r: Option<(u128, usize)>)
    requires
        pos <= bytes.len(),
    ensures
        match r {
            Some((id, next)) => pos <= next <= bytes.len() && dec_id(suffix(bytes@, pos as int))
                == Some((id, suffix(bytes@, next as int))),
            None => dec_id(suffix(bytes@, pos as int)) is None,
        },
{
    match get_int(bytes, pos, 16) {
        Some(id) => Some((id, pos + 16)),
        None => None,
    }
}

fn read_move_coord(bytes: &[u8], pos: usize) -> (r: Option<(MoveCoord, usize)>)
    requires
        pos <= bytes.len(),
    ensures
        match r {
            Some((mc, next)) => pos <= next <= bytes.len() && dec_move_coord(
                suffix(bytes@, pos as int),
            ) == Some((mc, suffix(bytes@, next as int))),
            None => dec_move_coord(suffix(bytes@, pos as int)) is None,
        },
{
    if pos == bytes.len() {
        return None;
    }
    let tag: u8 = bytes[pos];
    proof {
        assert(suffix(bytes@, pos as int)[0] == tag);
        assert(suffix(suffix(bytes@, pos as int), 1) =~= suffix(bytes@, pos + 1));
    }
    if tag == 0 {
        match read_coord(bytes, pos + 1) {
            Some((c, next)) => Some((MoveCoord::At(c), next)),
            None => None,
        }
    } else if tag == 1 {
        Some((MoveCoord::Pass, pos + 1))
    } else if tag == 2 {
        Some((MoveCoord::Resign, pos + 1))
    } else {
        None
    }
}

fn read_coords(bytes: &[u8], pos: usize) -> (r: Option<(Vec<Coord>, usize)>)
    requires
        pos <= bytes.len(),
    ensures
        match r {
            Some((cs, next)) => pos <= next <= bytes.len() && dec_coords(suffix(bytes@, pos as int))
                == Some((cs@, suffix(bytes@, next as int))),
            None => dec_coords(suffix(bytes@, pos as int)) is None,
        },
{
    let n: u128 = match get_int(bytes, pos, 4) {
        Some(n) => n,
        None => {
            return None;
        },
    };
    let start: usize = pos + 4;
    let ghost body = suffix(bytes@, start as int);
    let mut cs: Vec<Coord> = Vec::new();
    let mut at: usize = start;
    let mut i: u128 = 0;
    while i < n
        invariant
            i <= n,
            start <= at <= bytes.len(),
            body == suffix(bytes@, start as int),
            dec_int(suffix(bytes@, pos as int), 4) == Some((n as nat, body)),
            dec_list(body, i as nat, coord_dec()) == Some((cs@, suffix(bytes@, at as int))),
        decreases n - i,
    {
        match read_coord(bytes, at) {
            Some((c, next)) => {
                cs.push(c);
                at = next;
            },
            None => {
                proof {
                    lemma_dec_list_fails(body, (i + 1) as nat, n as nat, coord_dec());
                }
                return None;
            },
        }
        i += 1;
    }
    Some((cs, at))
}

fn read_move(bytes: &[u8], pos: usize) -> (r: Option<(MoveMade, usize)>)
    requires
        pos <= bytes.len(),
    ensures
        match r {
            Some((m, next)) => pos <= next <= bytes.len() && dec_move(suffix(bytes@, pos as int))
                == Some((m@, suffix(bytes@, next as int))),
            None => dec_move(suffix(bytes@, pos as int)) is None,
        },
{
    let (game, at1) = match read_id(bytes, pos) {
        Some(x) => x,
        None => {
            return None;
        },
    };
    let (reply, at2) = match read_id(bytes, at1) {
        Some(x) => x,
        None => {
            return None;
        },
    };
    let (player, at3) = match read_player(bytes, at2) {
        Some(x) => x,
        None => {
            return None;
        },
    };
    let (coord, at4) = match read_move_coord(bytes, at3) {
        Some(x) => x,
        None => {
            return None;
        },
    };
    let (captured, at5) = match read_coords(bytes, at4) {
        Some(x) => x,
        None => {
            return None;
        },
    };
    let (event, at6) = match read_id(bytes, at5) {
        Some(x) => x,
        None => {
            return None;
        },
    };
    Some(
        (
            MoveMade {
                game_id: GameId(game),
                reply_to: ReqId(reply),
                player,
                coord,
                captured,
                event_id: EventId(event),
            },
            at6,
        ),
    )
}

fn read_moves(bytes: &[u8], pos: usize) -> (r: Option<(Vec<MoveMade>, usize)>)
    requires
        pos <= bytes.len(),
    ensures
        match r {
            Some((ms, next)) => pos <= next <= bytes.len() && dec_moves(suffix(bytes@, pos as int))
                == Some((moves_view(ms@), suffix(bytes@, next as int))),
            None => dec_moves(suffix(bytes@, pos as int)) is None,
        },
{
    let n: u128 = match get_int(bytes, pos, 4) {
        Some(n) => n,
        None => {
            return None;
        },
    };
    let start: usize = pos + 4;
    let ghost body = suffix(bytes@, start as int);
    let mut ms: Vec<MoveMade> = Vec::new();
    let mut at: usize = start;
    let mut i: u128 = 0;
    assert(moves_view(ms@) =~= Seq::empty());
    while i < n
        invariant
            i <= n,
            start <= at <= bytes.len(),
            body == suffix(bytes@, start as int),
            dec_int(suffix(bytes@, pos as int), 4) == Some((n as nat, body)),
            dec_list(body, i as nat, move_dec()) == Some(
                (moves_view(ms@), suffix(bytes@, at as int)),
            ),
        decreases n - i,
    {
        match read_move(bytes, at) {
            Some((m, next)) => {
                let ghost before = moves_view(ms@);
                let ghost mview = m@;
                ms.push(m);
                at = next;
                assert(moves_view(ms@) =~= before.push(mview));
            },
            None => {
                proof {
                    lemma_dec_list_fails(body, (i + 1) as nat, n as nat, move_dec());
                }
                return None;
            },
        }
        i += 1;
    }
    Some((ms, at))
}

fn read_stones(bytes: &[u8], pos: usize) -> (r: Option<(Vec<Stone>, usize)>)
    requires
        pos <= bytes.len(),
    ensures
        match r {
            Some((st, next)) => pos <= next <= bytes.len() && dec_stones(suffix(bytes@, pos as int))
                == Some((st@, suffix(bytes@, next as int))),
            None => dec_stones(suffix(bytes@, pos as int)) is None,
        },
{
    let n: u128 = match get_int(bytes, pos, 4) {
        Some(n) => n,
        None => {
            return None;
        },
    };
    let start: usize = pos + 4;
    let ghost body = suffix(bytes@, start as int);
    let mut st: Vec<Stone> = Vec::new();
    let mut at: usize = start;
    let mut i: u128 = 0;
    while i < n
        invariant
            i <= n,
            start <= at <= bytes.len(),
            body == suffix(bytes@, start as int),
            dec_int(suffix(bytes@, pos as int), 4) == Some((n as nat, body)),
            dec_list(body, i as nat, stone_dec()) == Some((st@, suffix(bytes@, at as int))),
        decreases n - i,
    {
        let read = match read_coord(bytes, at) {
            Some((coord, at1)) => match read_player(bytes, at1) {
                Some((player, at2)) => Some((Stone { coord, player }, at2)),
                None => None,
            },
            None => None,
        };
        match read {
            Some((s, next)) => {
                st.push(s);
                at = next;
            },
            None => {
                proof {
                    lemma_dec_list_fails(body, (i + 1) as nat, n as nat, stone_dec());
                }
                return None;
            },
        }
        i += 1;
    }
    Some((st, at))
}

/// Reads a game state from its encoding. Bytes that are not the encoding of
/// a well-formed state are refused.
pub fn decode(bytes: &[u8]) -> (r: Result<GameState, DeserError>)
    ensures
        match r {
            Ok(s) => s.wf() && dec_state(bytes@) == Some(s@),
            Err(_) => dec_state(bytes@) is None,
        },
{
    proof {
        lemma_pow256_values();
        assert(suffix(bytes@, 0) =~= bytes@);
    }
    let size: u128 = match get_int(bytes, 0, 2) {
        Some(x) => x,
        None => {
            return Err(DeserError);
        },
    };
    let (stones, at2) = match read_stones(bytes, 2) {
        Some(x) => x,
        None => {
            return Err(DeserError);
        },
    };
    let (moves, at3) = match read_moves(bytes, at2) {
        Some(x) => x,
        None => {
            return Err(DeserError);
        },
    };
    let turn: u128 = match get_int(bytes, at3, 4) {
        Some(x) => x,
        None => {
            return Err(DeserError);
        },
    };
    let (player_up, at5) = match read_player(bytes, at3 + 4) {
        Some(x) => x,
        None => {
            return Err(DeserError);
        },
    };
    let black: u128 = match get_int(bytes, at5, 4) {
        Some(x) => x,
        None => {
            return Err(DeserError);
        },
    };
    let white: u128 = match get_int(bytes, at5 + 4, 4) {
        Some(x) => x,
        None => {
            return Err(DeserError);
        },
    };
    if at5 + 8 != bytes.len() {
        return Err(DeserError);
    }
    let state = GameState {
        board: Board { size: size as u16, stones },
        moves,
        turn: turn as u32,
        player_up,
        captures: Captures { black: black as u32, white: white as u32 },
    };
    if state.is_well_formed() {
        Ok(state)
    } else {
        Err(DeserError)
    }
}

/// The move that `b` is the encoding of, or `None` where it is not the
/// encoding of a move.
pub open spec fn dec_whole_move(b: Seq<u8>) -> Option<MoveMadeView> {
    match dec_move(b) {
        Some((m, after)) => if after.len() == 0 {
            Some(m)
        } else {
            None
        },
        None => None,
    }
}

/// Decoding the encoding of a move that takes fewer than 2^32 stones gives
/// the move back.
pub proof fn lemma_move_round_trip(m: MoveMadeView)
    requires
        m.captured.len() < pow256(4),
    ensures
        dec_whole_move(enc_move(m)) == Some(m),
{
    lemma_dec_move(m, Seq::empty());
    assert(enc_move(m) + Seq::<u8>::empty() =~= enc_move(m));
}

impl MoveMade {
    /// The encoding of this move.
    pub fn serialize(&self) -> (bytes: Vec<u8>)
        ensures
            bytes@ == enc_move(self@),
    {
        let mut out: Vec<u8> = Vec::new();
        write_move(&mut out, self);
        assert(out@ =~= enc_move(self@));
        out
    }

    /// Reads a move from its encoding.
    pub fn from(bytes: &[u8]) -> (r: Result<MoveMade, DeserError>)
        ensures
            match r {
                Ok(m) => dec_whole_move(bytes@) == Some(m@),
                Err(_) => dec_whole_move(bytes@) is None,
            },
    {
        assert(suffix(bytes@, 0) =~= bytes@);
        match read_move(bytes, 0) {
            Some((m, next)) => if next == bytes.len() {
                Ok(m)
            } else {
                Err(DeserError)
            },
            None => Err(DeserError),
        }
    }
}

/// Bytes from which a colour was read start with its encoding.
pub proof fn lemma_enc_player(b: Seq<u8>)
    requires
        dec_player(b) is Some,
    ensures
        b == enc_player(dec_player(b).unwrap().0) + dec_player(b).unwrap().1,
{
    assert(b =~= seq![b[0]] + suffix(b, 1));
}

/// Bytes from which a point was read start with its encoding.
pub proof fn lemma_enc_coord(b: Seq<u8>)
    requires
        dec_coord(b) is Some,
    ensures
        b == enc_coord(dec_coord(b).unwrap().0) + dec_coord(b).unwrap().1,
{
    lemma_pow256_values();
    lemma_enc_int(b, 2);
    let r = dec_int(b, 2).unwrap().1;
    lemma_enc_int(r, 2);
    let c = dec_coord(b).unwrap().0;
    assert(b =~= enc_coord(c) + dec_coord(b).unwrap().1);
}

/// Bytes from which an identifier was read start with its encoding.
pub proof fn lemma_enc_id(b: Seq<u8>)
    requires
        dec_id(b) is Some,
    ensures
        b == enc_id(dec_id(b).unwrap().0) + dec_id(b).unwrap().1,
{
    lemma_pow256_values();
    lemma_enc_int(b, 16);
}

/// Bytes from which a kind of move was read start with its encoding.
pub proof fn lemma_enc_move_coord(b: Seq<u8>)
    requires
        dec_move_coord(b) is Some,
    ensures
        b == enc_move_coord(dec_move_coord(b).unwrap().0) + dec_move_coord(b).unwrap().1,
{
    assert(b =~= seq![b[0]] + suffix(b, 1));
    if b[0] == 0 {
        lemma_enc_coord(suffix(b, 1));
        let c = dec_coord(suffix(b, 1)).unwrap().0;
        assert(b =~= (seq![0u8] + enc_coord(c)) + dec_coord(suffix(b, 1)).unwrap().1);
    }
}

/// Bytes from which a list of points was read start with its encoding.
pub proof fn lemma_enc_coords(b: Seq<u8>)
    requires
        dec_coords(b) is Some,
    ensures
        b == enc_coords(dec_coords(b).unwrap().0) + dec_coords(b).unwrap().1,
{
    lemma_enc_int(b, 4);
    let n = dec_int(b, 4).unwrap().0;
    let r = dec_int(b, 4).unwrap().1;
    assert forall|c: Seq<u8>| #[trigger] coord_dec()(c) is Some implies c == coord_enc()(
        coord_dec()(c).unwrap().0,
    ) + coord_dec()(c).unwrap().1 by {
        lemma_enc_coord(c);
    }
    lemma_enc_list(r, n, coord_enc(), coord_dec());
    let cs = dec_coords(b).unwrap().0;
    assert(b =~= (be_bytes(cs.len(), 4) + enc_list(cs, coord_enc())) + dec_coords(b).unwrap().1);
}

/// Bytes from which a move was read start with its encoding.
pub proof fn lemma_enc_move(b: Seq<u8>)
    requires
        dec_move(b) is Some,
    ensures
        b == enc_move(dec_move(b).unwrap().0) + dec_move(b).unwrap().1,
{
    lemma_enc_id(b);
    let r1 = dec_id(b).unwrap().1;
    lemma_enc_id(r1);
    let r2 = dec_id(r1).unwrap().1;
    lemma_enc_player(r2);
    let r3 = dec_player(r2).unwrap().1;
    lemma_enc_move_coord(r3);
    let r4 = dec_move_coord(r3).unwrap().1;
    lemma_enc_coords(r4);
    let r5 = dec_coords(r4).unwrap().1;
    lemma_enc_id(r5);
    let m = dec_move(b).unwrap().0;
    assert(b =~= enc_move(m) + dec_move(b).unwrap().1);
}

/// Bytes from which a list of moves was read start with its encoding.
pub proof fn lemma_enc_moves(b: Seq<u8>)
    requires
        dec_moves(b) is Some,
    ensures
        b == enc_moves(dec_moves(b).unwrap().0) + dec_moves(b).unwrap().1,
{
    lemma_enc_int(b, 4);
    let n = dec_int(b, 4).unwrap().0;
    let r = dec_int(b, 4).unwrap().1;
    assert forall|c: Seq<u8>| #[trigger] move_dec()(c) is Some implies c == move_enc()(
        move_dec()(c).unwrap().0,
    ) + move_dec()(c).unwrap().1 by {
        lemma_enc_move(c);
    }
    lemma_enc_list(r, n, move_enc(), move_dec());
    let ms = dec_moves(b).unwrap().0;
    assert(b =~= (be_bytes(ms.len(), 4) + enc_list(ms, move_enc())) + dec_moves(b).unwrap().1);
}

/// Bytes from which a stone was read start with its encoding.
pub proof fn lemma_enc_stone(b: Seq<u8>)
    requires
        dec_stone(b) is Some,
    ensures
        b == enc_stone(dec_stone(b).unwrap().0) + dec_stone(b).unwrap().1,
{
    lemma_enc_coord(b);
    let r = dec_coord(b).unwrap().1;
    lemma_enc_player(r);
    let s = dec_stone(b).unwrap().0;
    assert(b =~= enc_stone(s) + dec_stone(b).unwrap().1);
}

/// Bytes from which a list of stones was read start with its encoding.
pub proof fn lemma_enc_stones(b: Seq<u8>)
    requires
        dec_stones(b) is Some,
    ensures
        b == enc_stones(dec_stones(b).unwrap().0) + dec_stones(b).unwrap().1,
{
    lemma_enc_int(b, 4);
    let n = dec_int(b, 4).unwrap().0;
    let r = dec_int(b, 4).unwrap().1;
    assert forall|c: Seq<u8>| #[trigger] stone_dec()(c) is Some implies c == stone_enc()(
        stone_dec()(c).unwrap().0,
    ) + stone_dec()(c).unwrap().1 by {
        lemma_enc_stone(c);
    }
    lemma_enc_list(r, n, stone_enc(), stone_dec());
    let st = dec_stones(b).unwrap().0;
    assert(b =~= (be_bytes(st.len(), 4) + enc_list(st, stone_enc())) + dec_stones(b).unwrap().1);
}

/// The encoding is canonical: bytes that decode to a state are the encoding
/// of that state, so no two byte strings decode to the same state.
pub proof fn lemma_decoded_from_its_encoding(b: Seq<u8>)
    requires
        dec_state(b) is Some,
    ensures
        enc_state(dec_state(b)->0) == b,
{
    let v = dec_state(b)->0;
    lemma_pow256_values();
    lemma_enc_int(b, 2);
    let r1 = dec_int(b, 2).unwrap().1;
    lemma_enc_stones(r1);
    let stones = dec_stones(r1).unwrap().0;
    let r2 = dec_stones(r1).unwrap().1;
    lemma_enc_moves(r2);
    let r3 = dec_moves(r2).unwrap().1;
    lemma_enc_int(r3, 4);
    let r4 = dec_int(r3, 4).unwrap().1;
    lemma_enc_player(r4);
    let r5 = dec_player(r4).unwrap().1;
    lemma_enc_int(r5, 4);
    let r6 = dec_int(r5, 4).unwrap().1;
    lemma_enc_int(r6, 4);
    let r7 = dec_int(r6, 4).unwrap().1;
    lemma_canonical_stones(stones);
    assert(r7 =~= Seq::<u8>::empty());
    assert(enc_state(v) =~= b);
}

} // verus!
