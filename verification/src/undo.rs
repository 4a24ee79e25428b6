//! Undo: keeps the last moves of a game and decides whether the last one may
//! be taken back.

use crate::botlink::{dec_attach, enc_attach, read_attach, write_attach, BotAttached, Botness};
use crate::model::{DeserError, MoveMade, MoveMadeView, Player};
use crate::codec::{dec_state, decode};
use crate::events::{MoveUndone, MoveUndoneView};
use crate::game_state::{moves_view, GamePhase, GameState, GameStateView};
use crate::gateway::topics::same_text;
use crate::ids::GameId;
use crate::xread::{Field, FieldView};
use vstd::prelude::*;
use vstd::string::*;

verus! {

/// How many moves a history keeps.
pub const HISTORY_CAPACITY: usize = 64;

/// A request to take back the last move of a game.
#[derive(Clone, Copy, Debug, PartialEq, Eq, Hash, Structural)]
pub struct UndoMove {
    pub game_id: GameId,
    pub player: Player,
}

impl UndoMove {
    /// Reads a request from its encoding: the game id in sixteen bytes, then
    /// the colour of the player who asks.
    pub fn from(bytes: &[u8]) -> (r: Result<Self, DeserError>)
        ensures
            match r {
                Ok(u) => dec_attach(bytes@) == Some((u.game_id, u.player)),
                Err(_) => dec_attach(bytes@) is None,
            },
    {
        match read_attach(bytes) {
            Some((game_id, player)) => Ok(UndoMove { game_id, player }),
            None => Err(DeserError),
        }
    }

    /// The encoding of this request.
    pub fn serialize(&self) -> (bytes: Vec<u8>)
        ensures
            bytes@ == enc_attach(self.game_id, self.player),
    {
        write_attach(self.game_id, self.player)
    }
}

/// The last accepted moves of a game, oldest first, at most
/// [`HISTORY_CAPACITY`] of them.
#[derive(Clone, Debug, PartialEq, Eq)]
pub struct History {
    pub moves: Vec<MoveMade>,
}

impl View for History {
    type V = Seq<MoveMadeView>;

    open spec fn view(&self) -> Seq<MoveMadeView> {
        moves_view(self.moves@)
    }
}

/// The history after `m` was accepted: `m` is the newest move, and the
/// oldest one is dropped where the history was full.
pub open spec fn pushed(h: Seq<MoveMadeView>, m: MoveMadeView) -> Seq<MoveMadeView> {
    if h.len() < HISTORY_CAPACITY {
        h.push(m)
    } else {
        h.drop_first().push(m)
    }
}

/// The last [`HISTORY_CAPACITY`] moves of `moves`, or all of them where
/// they are fewer.
pub open spec fn last_moves(moves: Seq<MoveMadeView>) -> Seq<MoveMadeView> {
    if moves.len() > HISTORY_CAPACITY {
        moves.subrange(moves.len() - HISTORY_CAPACITY, moves.len() as int)
    } else {
        moves
    }
}

/// The requested undo is permitted: the game awaits the move of the other
/// player, the last move known is the requester's, and no bot plays the
/// requester's colour.
pub open spec fn permitted(
    phase: GamePhase,
    h: Seq<MoveMadeView>,
    botness: Botness,
    req: UndoMove,
) -> bool {
    &&& phase == GamePhase::Awaiting(req.player.other())
    &&& h.len() > 0
    &&& h.last().player == req.player
    &&& !botness.plays(req.player)
}

impl History {
    /// The history holds no more moves than it may.
    pub open spec fn wf(&self) -> bool {
        self.moves.len() <= HISTORY_CAPACITY
    }

    /// An empty history.
    pub fn new() -> (h: History)
        ensures
            h.wf(),
            h@ == Seq::<MoveMadeView>::empty(),
    {
        let h = History { moves: Vec::new() };
        assert(h@ =~= Seq::empty());
        h
    }

    /// The history of a game whose moves so far are `moves`: the last
    /// [`HISTORY_CAPACITY`] of them.
    pub fn of_moves(moves: &Vec<MoveMade>) -> (h: History)
        ensures
            h.wf(),
            h@ == last_moves(moves_view(moves@)),
    {
        let n: usize = moves.len();
        let start: usize = if n > HISTORY_CAPACITY {
            n - HISTORY_CAPACITY
        } else {
            0
        };
        let ghost mv = moves_view(moves@);
        let mut kept: Vec<MoveMade> = Vec::new();
        let mut i: usize = start;
        assert(moves_view(kept@) =~= mv.subrange(start as int, start as int));
        while i < n
            invariant
                start <= i <= n,
                n == moves.len(),
                mv == moves_view(moves@),
                kept.len() == i - start,
                moves_view(kept@) == mv.subrange(start as int, i as int),
            decreases n - i,
        {
            let ghost before = moves_view(kept@);
            kept.push(moves[i].duplicate());
            assert(moves_view(kept@) =~= before.push(moves[i as int]@));
            assert(before.push(mv[i as int]) =~= mv.subrange(start as int, i + 1));
            i += 1;
        }
        History { moves: kept }
    }

    /// Records an accepted move.
    pub fn push(&mut self, m: MoveMade)
        requires
            old(self).wf(),
        ensures
            final(self).wf(),
            final(self)@ == pushed(old(self)@, m@),
    {
        let ghost before = self@;
        if self.moves.len() >= HISTORY_CAPACITY {
            self.moves.remove(0);
            assert(self@ =~= before.drop_first());
        }
        let ghost mid = self@;
        self.moves.push(m);
        assert(self@ =~= mid.push(m@));
    }

    /// Decides on a request to undo: gives what to publish where the undo
    /// is permitted, and `None` where it is not.
    pub fn consider(&self, phase: GamePhase, botness: &Botness, req: &UndoMove) -> (r: Option<
        MoveUndone,
    >)
        ensures
            match r {
                Some(undone) => permitted(phase, self@, *botness, *req) && undone@ == (
                    MoveUndoneView { game_id: req.game_id, undone_move: self@.last() }
                ),
                None => !permitted(phase, self@, *botness, *req),
            },
    {
        let awaited: bool = match phase {
            GamePhase::Awaiting(p) => p == req.player.opponent(),
            GamePhase::Terminal => false,
        };
        if !awaited {
            return None;
        }
        let n: usize = self.moves.len();
        if n == 0 {
            return None;
        }
        let last = &self.moves[n - 1];
        assert(self@.last() == last@);
        if last.player != req.player {
            return None;
        }
        if botness.is_bot(req.player) {
            return None;
        }
        Some(MoveUndone { game_id: req.game_id, undone_move: last.duplicate() })
    }

    /// Forgets the newest move, after it was undone.
    pub fn pop(&mut self)
        requires
            old(self).wf(),
        ensures
            final(self).wf(),
            final(self)@ == if old(self)@.len() > 0 {
                old(self)@.drop_last()
            } else {
                old(self)@
            },
    {
        let ghost before = self@;
        let n: usize = self.moves.len();
        if n > 0 {
            self.moves.remove(n - 1);
            assert(self@ =~= before.drop_last());
        }
    }
}

/// A history never holds more than its capacity, and always ends with the
/// move that was recorded last.
pub proof fn lemma_history_bounded(h: Seq<MoveMadeView>, m: MoveMadeView)
    requires
        h.len() <= HISTORY_CAPACITY,
    ensures
        pushed(h, m).len() <= HISTORY_CAPACITY,
        pushed(h, m).len() >= 1,
        pushed(h, m).last() == m,
{
}

/// How long a read of the bus waits for entries, in milliseconds.
pub const BLOCK_MS: usize = 5000;

/// The consumer group of the undo service.
pub const GROUP_NAME: &'static str = "undo";

/// The name of the one consumer in that group.
pub const CONSUMER_NAME: &'static str = "singleton";

/// The name of the field that holds the payload of an entry.
pub const DATA_ID: &'static str = "data";

/// What the undo service takes from the bus.
#[derive(Clone, Debug, PartialEq, Eq)]
pub enum StreamInput {
    /// The state of a game, from the changelog.
    LOG(GameState),
    /// A bot now plays in a game.
    BA(BotAttached),
    /// A request to take back a move.
    UM(UndoMove),
}

/// The mathematical content of a [`StreamInput`].
pub enum StreamInputView {
    LOG(GameStateView),
    BA(BotAttached),
    UM(UndoMove),
}

impl View for StreamInput {
    type V = StreamInputView;

    open spec fn view(&self) -> StreamInputView {
        match self {
            StreamInput::LOG(s) => StreamInputView::LOG(s@),
            StreamInput::BA(b) => StreamInputView::BA(*b),
            StreamInput::UM(u) => StreamInputView::UM(*u),
        }
    }
}

/// What `str::trim` makes of a text: the text without the white space at
/// its two ends.
pub uninterp spec fn trimmed(text: Seq<char>) -> Seq<char>;

/// What `str::to_lowercase` makes of a text: its lower-case form.
pub uninterp spec fn lowercased(text: Seq<char>) -> Seq<char>;

/// Calls `str::trim`, which hands back the part of the text between the
/// leading and the trailing white space, as Unicode defines white space.
#[verifier::external_body]
fn trim(text: &str) -> (r: &str)
    ensures
        r@ == trimmed(text@),
{
    text.trim()
}

/// Calls `str::to_lowercase`, which hands back the lower-case form of the
/// text, as Unicode defines it.
#[verifier::external_body]
fn to_lowercase(text: &str) -> (r: String)
    ensures
        r@ == lowercased(text@),
{
    text.to_lowercase()
}

/// Whether a field name, trimmed and in lower case, names the payload.
pub fn names_data(normalised: &str) -> (r: bool)
    ensures
        r == (normalised@ == DATA_ID@),
{
    same_text(normalised, DATA_ID)
}

/// Whether the field named `key` holds the payload of an entry: it does
/// where the name, without white space around it and in lower case, is
/// [`DATA_ID`].
pub fn is_data_key(key: &str) -> (r: bool)
    ensures
        r == (lowercased(trimmed(key@)) == DATA_ID@),
{
    let lowered = to_lowercase(trim(key));
    names_data(lowered.as_str())
}

/// What the field of an entry of the changelog gives the undo service: the
/// game state in it, where the field holds the payload and the payload is
/// the encoding of a state.
pub open spec fn logged(f: FieldView) -> Option<StreamInputView> {
    if lowercased(trimmed(f.name)) == DATA_ID@ {
        match dec_state(f.value) {
            Some(v) => Some(StreamInputView::LOG(v)),
            None => None,
        }
    } else {
        None
    }
}

/// What the fields of an entry of the changelog give, each under the name
/// of its field, in the order of the fields.
pub open spec fn logged_all(fields: Seq<FieldView>) -> Seq<(Seq<char>, StreamInputView)>
    decreases fields.len(),
{
    if fields.len() == 0 {
        Seq::empty()
    } else {
        let so_far = logged_all(fields.drop_last());
        match logged(fields.last()) {
            Some(input) => so_far.push((fields.last().name, input)),
            None => so_far,
        }
    }
}

/// The views of what was taken from an entry.
pub open spec fn inputs_view(inputs: Seq<(String, StreamInput)>) -> Seq<
    (Seq<char>, StreamInputView),
> {
    Seq::new(inputs.len(), |i: int| (inputs[i].0@, inputs[i].1@))
}

/// Takes the game states out of an entry of the changelog, see
/// [`logged_all`].
pub fn game_states_handler(message: &Vec<Field>) -> (inputs: Vec<(String, StreamInput)>)
    ensures
        inputs_view(inputs@) == logged_all(Seq::new(message@.len(), |i: int| message@[i]@)),
{
    let ghost fields = Seq::new(message@.len(), |i: int| message@[i]@);
    let mut inputs: Vec<(String, StreamInput)> = Vec::new();
    let mut i: usize = 0;
    assert(inputs_view(inputs@) =~= logged_all(fields.subrange(0, 0)));
    while i < message.len()
        invariant
            i <= message.len(),
            fields == Seq::new(message@.len(), |i: int| message@[i]@),
            inputs_view(inputs@) == logged_all(fields.subrange(0, i as int)),
        decreases message.len() - i,
    {
        let field = &message[i];
        proof {
            assert(fields.subrange(0, i + 1).drop_last() =~= fields.subrange(0, i as int));
            assert(fields.subrange(0, i + 1).last() == field@);
        }
        if is_data_key(field.name.as_str()) {
            match decode(field.value.as_slice()) {
                Ok(state) => {
                    let ghost before = inputs_view(inputs@);
                    let ghost sv = state@;
                    inputs.push((field.name.clone(), StreamInput::LOG(state)));
                    assert(inputs_view(inputs@) =~= before.push(
                        (field.name@, StreamInputView::LOG(sv)),
                    ));
                },
                Err(_) => {},
            }
        }
        i += 1;
    }
    assert(fields.subrange(0, message.len() as int) =~= fields);
    inputs
}

} // verus!
