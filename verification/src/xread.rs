//! What the judge reads from the bus: commands to make a move and the states
//! of games, merged into one sequence in the order of their entry ids.
//!
//! An entry of a stream is an id and a list of named fields. A command
//! stands in the text fields `game_id`, `req_id` and `player` (`BLACK` or
//! `WHITE`), with `coord_x` and `coord_y` for the point of a stone; without
//! a point the command is a pass, or a resignation where the field `resign`
//! holds `true`. A game state stands in the text field `game_id` and the
//! binary field `data`. Entries that cannot be read are left out.

use crate::codec::{dec_state, decode};
use crate::entry_id::{before, parse_entry_id, parse_u64, parse_u64_spec, XReadEntryId};
use crate::model::{Coord, DeserError, MakeMoveCommand, MoveCoord, Player};
use crate::game_state::{GameState, GameStateView};
use crate::gateway::topics::same_text;
use crate::ids::{parse_id, uuid_parse_result, GameId, ReqId};
use vstd::prelude::*;
use vstd::string::*;
use vstd::utf8::{decode_utf8, valid_utf8};

verus! {

broadcast use vstd::utf8::encode_utf8_decode_utf8;

/// How long a read of the bus waits for entries, in milliseconds.
pub const BLOCK_MSEC: u32 = 5000;

/// A named field of a stream entry.
#[derive(Clone, Debug, PartialEq, Eq)]
pub struct Field {
    pub name: String,
    pub value: Vec<u8>,
}

/// The mathematical content of a [`Field`].
pub struct FieldView {
    pub name: Seq<char>,
    pub value: Seq<u8>,
}

impl View for Field {
    type V = FieldView;

    open spec fn view(&self) -> FieldView {
        FieldView { name: self.name@, value: self.value@ }
    }
}

/// An entry of a stream: its id as text, and its fields.
#[derive(Clone, Debug, PartialEq, Eq)]
pub struct StreamEntry {
    pub id: String,
    pub fields: Vec<Field>,
}

/// The mathematical content of a [`StreamEntry`].
pub struct StreamEntryView {
    pub id: Seq<char>,
    pub fields: Seq<FieldView>,
}

impl View for StreamEntry {
    type V = StreamEntryView;

    open spec fn view(&self) -> StreamEntryView {
        StreamEntryView {
            id: self.id@,
            fields: Seq::new(self.fields@.len(), |i: int| self.fields@[i]@),
        }
    }
}

/// The entries that one read brought from one topic.
#[derive(Clone, Debug, PartialEq, Eq)]
pub struct TopicEntries {
    pub topic: String,
    pub entries: Vec<StreamEntry>,
}

/// The mathematical content of a [`TopicEntries`].
pub struct TopicEntriesView {
    pub topic: Seq<char>,
    pub entries: Seq<StreamEntryView>,
}

impl View for TopicEntries {
    type V = TopicEntriesView;

    open spec fn view(&self) -> TopicEntriesView {
        TopicEntriesView {
            topic: self.topic@,
            entries: Seq::new(self.entries@.len(), |i: int| self.entries@[i]@),
        }
    }
}

/// What an entry holds.
#[derive(Clone, Debug, PartialEq, Eq)]
pub enum StreamData {
    /// A command to make a move.
    MM(MakeMoveCommand),
    /// The state of a game.
    GS(GameId, GameState),
}

/// The mathematical content of a [`StreamData`].
pub enum StreamDataView {
    MM(MakeMoveCommand),
    GS(GameId, GameStateView),
}

impl View for StreamData {
    type V = StreamDataView;

    open spec fn view(&self) -> StreamDataView {
        match self {
            StreamData::MM(c) => StreamDataView::MM(*c),
            StreamData::GS(g, s) => StreamDataView::GS(*g, s@),
        }
    }
}

/// The two kinds of topic that the judge reads.
#[derive(Clone, Copy, Debug, PartialEq, Eq, Hash, Structural)]
pub enum TopicKind {
    MakeMove,
    GameStates,
}

/// The names of the two topics that the judge reads.
#[derive(Clone, Debug, PartialEq, Eq)]
pub struct StreamTopics {
    pub make_move_cmd: String,
    pub game_states_changelog: String,
}

/// The entry ids up to which each topic has been read.
#[derive(Clone, Copy, Debug, PartialEq, Eq, Hash, Structural)]
pub struct AllEntryIds {
    pub make_moves_eid: XReadEntryId,
    pub game_states_eid: XReadEntryId,
}

/// The text that `value` holds, where it is valid UTF-8.
pub open spec fn text_of(value: Seq<u8>) -> Option<Seq<char>> {
    if valid_utf8(value) {
        Some(decode_utf8(value))
    } else {
        None
    }
}

/// `i` is where the first field named `name` stands.
pub open spec fn is_first_named(fields: Seq<FieldView>, name: Seq<char>, i: int) -> bool {
    &&& 0 <= i < fields.len()
    &&& fields[i].name == name
    &&& forall|j: int| 0 <= j < i ==> (#[trigger] fields[j]).name != name
}

/// The value of the first field named `name`.
pub open spec fn lookup(fields: Seq<FieldView>, name: Seq<char>) -> Option<Seq<u8>> {
    if exists|i: int| is_first_named(fields, name, i) {
        Some(fields[choose|i: int| is_first_named(fields, name, i)].value)
    } else {
        None
    }
}

/// The text of the first field named `name`.
pub open spec fn text_field(fields: Seq<FieldView>, name: Seq<char>) -> Option<Seq<char>> {
    match lookup(fields, name) {
        Some(v) => text_of(v),
        None => None,
    }
}

/// The identifier in the field named `name`, as the parser reads it.
pub open spec fn id_field(fields: Seq<FieldView>, name: Seq<char>) -> Option<u128> {
    match text_field(fields, name) {
        Some(t) => uuid_parse_result(t),
        None => None,
    }
}

/// The player that a text names.
pub open spec fn player_of(t: Seq<char>) -> Option<Player> {
    if t == "BLACK"@ {
        Some(Player::BLACK)
    } else if t == "WHITE"@ {
        Some(Player::WHITE)
    } else {
        None
    }
}

/// The coordinate that a text holds.
pub open spec fn u16_of(t: Seq<char>) -> Option<u16> {
    match parse_u64_spec(t) {
        Some(v) => if v <= 0xffff {
            Some(v as u16)
        } else {
            None
        },
        None => None,
    }
}

/// The player that the field named `name` names.
pub open spec fn player_field(fields: Seq<FieldView>, name: Seq<char>) -> Option<Player> {
    match text_field(fields, name) {
        Some(t) => player_of(t),
        None => None,
    }
}

/// The coordinate that the field named `name` holds.
pub open spec fn u16_field(fields: Seq<FieldView>, name: Seq<char>) -> Option<u16> {
    match text_field(fields, name) {
        Some(t) => u16_of(t),
        None => None,
    }
}

/// The command that its parts make up: all of game id, request id and
/// player are needed; the move is a stone where both coordinates are there,
/// else a resignation where that is asked for, else a pass.
pub open spec fn command_of(
    game: Option<u128>,
    req: Option<u128>,
    player: Option<Player>,
    x: Option<u16>,
    y: Option<u16>,
    resign: bool,
) -> Option<MakeMoveCommand> {
    if game is Some && req is Some && player is Some {
        Some(
            MakeMoveCommand {
                game_id: GameId(game->0),
                req_id: ReqId(req->0),
                player: player->0,
                coord: if x is Some && y is Some {
                    MoveCoord::At(Coord { x: x->0, y: y->0 })
                } else if resign {
                    MoveCoord::Resign
                } else {
                    MoveCoord::Pass
                },
            },
        )
    } else {
        None
    }
}

/// The command that stands in fields.
pub open spec fn make_move_of(fields: Seq<FieldView>) -> Option<MakeMoveCommand> {
    command_of(
        id_field(fields, "game_id"@),
        id_field(fields, "req_id"@),
        player_field(fields, "player"@),
        u16_field(fields, "coord_x"@),
        u16_field(fields, "coord_y"@),
        text_field(fields, "resign"@) == Some("true"@),
    )
}

/// The game state that stands in fields, with the id of its game.
pub open spec fn game_state_of(fields: Seq<FieldView>) -> Option<(GameId, GameStateView)> {
    state_of(id_field(fields, "game_id"@), lookup(fields, "data"@))
}

/// What an entry of a topic of kind `kind` holds, with its id.
pub open spec fn entry_data(kind: TopicKind, e: StreamEntryView) -> Option<
    (XReadEntryId, StreamDataView),
> {
    match parse_entry_id(e.id) {
        Some(id) => match kind {
            TopicKind::MakeMove => match make_move_of(e.fields) {
                Some(c) => Some((id, StreamDataView::MM(c))),
                None => None,
            },
            TopicKind::GameStates => match game_state_of(e.fields) {
                Some((g, v)) => Some((id, StreamDataView::GS(g, v))),
                None => None,
            },
        },
        None => None,
    }
}

/// Calls `std::str::from_utf8`, which hands back the same bytes as a string
/// slice where they are valid UTF-8, and an error where they are not.
#[verifier::external_body]
fn utf8_text(bytes: &[u8]) -> (r: Option<&str>)
    ensures
        r is Some <==> valid_utf8(bytes@),
        r matches Some(s) ==> s.spec_bytes() == bytes@,
{
    match std::str::from_utf8(bytes) {
        Ok(s) => Some(s),
        Err(_) => None,
    }
}

/// The text that a field value holds.
pub fn value_text(value: &Vec<u8>) -> (r: Option<&str>)
    ensures
        match r {
            Some(s) => text_of(value@) == Some(s@),
            None => text_of(value@) is None,
        },
{
    utf8_text(value.as_slice())
}

/// The value of the first field named `name`.
pub fn find_field<'a>(fields: &'a Vec<Field>, name: &str) -> (r: Option<&'a Vec<u8>>)
    ensures
        match r {
            Some(v) => lookup(Seq::new(fields@.len(), |i: int| fields@[i]@), name@) == Some(v@),
            None => lookup(Seq::new(fields@.len(), |i: int| fields@[i]@), name@) is None,
        },
{
    let ghost fv = Seq::new(fields@.len(), |i: int| fields@[i]@);
    let mut i: usize = 0;
    while i < fields.len()
        invariant
            i <= fields.len(),
            fv == Seq::new(fields@.len(), |i: int| fields@[i]@),
            forall|j: int| 0 <= j < i ==> (#[trigger] fv[j]).name != name@,
        decreases fields.len() - i,
    {
        if same_text(fields[i].name.as_str(), name) {
            proof {
                assert(is_first_named(fv, name@, i as int));
                let k = choose|k: int| is_first_named(fv, name@, k);
                assert(k == i);
            }
            return Some(&fields[i].value);
        }
        i += 1;
    }
    proof {
        if exists|k: int| is_first_named(fv, name@, k) {
            let k = choose|k: int| is_first_named(fv, name@, k);
            assert(fv[k].name == name@);
        }
    }
    None
}

/// The text of the first field named `name`.
pub fn find_text<'a>(fields: &'a Vec<Field>, name: &str) -> (r: Option<&'a str>)
    ensures
        match r {
            Some(s) => text_field(Seq::new(fields@.len(), |i: int| fields@[i]@), name@) == Some(
                s@,
            ),
            None => text_field(Seq::new(fields@.len(), |i: int| fields@[i]@), name@) is None,
        },
{
    match find_field(fields, name) {
        Some(v) => value_text(v),
        None => None,
    }
}

/// The player that a text names.
pub fn parse_player(t: &str) -> (r: Option<Player>)
    ensures
        r == player_of(t@),
{
    if same_text(t, "BLACK") {
        Some(Player::BLACK)
    } else if same_text(t, "WHITE") {
        Some(Player::WHITE)
    } else {
        None
    }
}

/// The coordinate that a text holds.
pub fn parse_u16(t: &str) -> (r: Option<u16>)
    ensures
        r == u16_of(t@),
{
    let n: usize = t.unicode_len();
    assert(t@.subrange(0, n as int) =~= t@);
    match parse_u64(t, 0, n) {
        Some(v) => if v <= 0xffff {
            Some(v as u16)
        } else {
            None
        },
        None => None,
    }
}

/// Puts a command together from its parts, see [`command_of`].
pub fn command_from_parts(
    game: Option<u128>,
    req: Option<u128>,
    player: Option<Player>,
    x: Option<u16>,
    y: Option<u16>,
    resign: bool,
) -> (r: Option<MakeMoveCommand>)
    ensures
        r == command_of(game, req, player, x, y, resign),
{
    match (game, req, player) {
        (Some(g), Some(q), Some(p)) => {
            let coord: MoveCoord = match (x, y) {
                (Some(x), Some(y)) => MoveCoord::At(Coord { x, y }),
                _ => if resign {
                    MoveCoord::Resign
                } else {
                    MoveCoord::Pass
                },
            };
            Some(MakeMoveCommand { game_id: GameId(g), req_id: ReqId(q), player: p, coord })
        },
        _ => None,
    }
}

fn find_id(fields: &Vec<Field>, name: &str) -> (r: Option<u128>)
    ensures
        r == id_field(Seq::new(fields@.len(), |i: int| fields@[i]@), name@),
{
    match find_text(fields, name) {
        Some(t) => parse_id(t),
        None => None,
    }
}

impl MakeMoveCommand {
    /// Reads a command from the fields of a stream entry, see
    /// [`make_move_of`].
    pub fn from(fields: &Vec<Field>) -> (r: Result<MakeMoveCommand, DeserError>)
        ensures
            match r {
                Ok(c) => make_move_of(Seq::new(fields@.len(), |i: int| fields@[i]@)) == Some(c),
                Err(_) => make_move_of(Seq::new(fields@.len(), |i: int| fields@[i]@)) is None,
            },
    {
        let game = find_id(fields, "game_id");
        let req = find_id(fields, "req_id");
        let player = match find_text(fields, "player") {
            Some(t) => parse_player(t),
            None => None,
        };
        let x = match find_text(fields, "coord_x") {
            Some(t) => parse_u16(t),
            None => None,
        };
        let y = match find_text(fields, "coord_y") {
            Some(t) => parse_u16(t),
            None => None,
        };
        let resign: bool = match find_text(fields, "resign") {
            Some(t) => same_text(t, "true"),
            None => false,
        };
        match command_from_parts(game, req, player, x, y, resign) {
            Some(c) => Ok(c),
            None => Err(DeserError),
        }
    }
}

/// The game state that its parts make up: the id of the game and the
/// payload are both needed, and the payload has to be the encoding of a
/// well-formed state.
pub open spec fn state_of(game: Option<u128>, data: Option<Seq<u8>>) -> Option<
    (GameId, GameStateView),
> {
    match (game, data) {
        (Some(g), Some(d)) => match dec_state(d) {
            Some(v) => Some((GameId(g), v)),
            None => None,
        },
        _ => None,
    }
}

/// Puts a game state together from its parts, see [`state_of`].
pub fn state_from_parts(game: Option<u128>, data: Option<&Vec<u8>>) -> (r: Option<
    (GameId, GameState),
>)
    ensures
        match r {
            Some((g, s)) => s.wf() && state_of(
                game,
                match data {
                    Some(d) => Some(d@),
                    None => None,
                },
            ) == Some((g, s@)),
            None => state_of(
                game,
                match data {
                    Some(d) => Some(d@),
                    None => None,
                },
            ) is None,
        },
{
    match (game, data) {
        (Some(g), Some(d)) => match decode(d.as_slice()) {
            Ok(s) => Some((GameId(g), s)),
            Err(_) => None,
        },
        _ => None,
    }
}

/// Reads what an entry of a topic of kind `kind` holds, see [`entry_data`].
pub fn read_entry(kind: TopicKind, entry: &StreamEntry) -> (r: Option<(XReadEntryId, StreamData)>)
    ensures
        match r {
            Some((id, data)) => entry_data(kind, entry@) == Some((id, data@)),
            None => entry_data(kind, entry@) is None,
        },
{
    let id: XReadEntryId = match XReadEntryId::from_str(entry.id.as_str()) {
        Ok(id) => id,
        Err(_) => {
            return None;
        },
    };
    match kind {
        TopicKind::MakeMove => match MakeMoveCommand::from(&entry.fields) {
            Ok(c) => Some((id, StreamData::MM(c))),
            Err(_) => None,
        },
        TopicKind::GameStates => {
            let game = find_id(&entry.fields, "game_id");
            let data = find_field(&entry.fields, "data");
            match state_from_parts(game, data) {
                Some((g, s)) => Some((id, StreamData::GS(g, s))),
                None => None,
            }
        },
    }
}

/// One entry that was read: its id and what it holds.
pub type Item = (XReadEntryId, StreamDataView);

/// The views of a list of entries that were read.
pub open spec fn items_view(items: Seq<(XReadEntryId, StreamData)>) -> Seq<Item> {
    Seq::new(items.len(), |i: int| (items[i].0, items[i].1@))
}

/// The kind of topic that an entry came from.
pub open spec fn kind_of(item: Item) -> TopicKind {
    match item.1 {
        StreamDataView::MM(_) => TopicKind::MakeMove,
        StreamDataView::GS(_, _) => TopicKind::GameStates,
    }
}

/// Two entries stand for the same entry of the same stream.
pub open spec fn same_entry(a: Item, b: Item) -> bool {
    a.0 == b.0 && kind_of(a) == kind_of(b)
}

/// No two entries have the same id and the same kind of topic.
pub open spec fn distinct_entries(items: Seq<Item>) -> bool {
    forall|i: int, j: int|
        0 <= i < items.len() && 0 <= j < items.len() && i != j ==> !same_entry(
            #[trigger] items[i],
            #[trigger] items[j],
        )
}

/// An entry of the stream and id of `item` is among `items`.
pub open spec fn holds_entry(items: Seq<Item>, item: Item) -> bool {
    exists|i: int| 0 <= i < items.len() && same_entry(#[trigger] items[i], item)
}

/// The entries with `item` among them: in place of the entry of the same
/// stream and id where there is one, else at the end.
pub open spec fn upsert(items: Seq<Item>, item: Item) -> Seq<Item> {
    if holds_entry(items, item) {
        items.update(
            choose|i: int| 0 <= i < items.len() && same_entry(#[trigger] items[i], item),
            item,
        )
    } else {
        items.push(item)
    }
}

/// The kind of the topic named `topic`, given the names of the two topics
/// that are read.
pub open spec fn topic_kind(topic: Seq<char>, make_move: Seq<char>, game_states: Seq<char>) -> Option<
    TopicKind,
> {
    if topic == make_move {
        Some(TopicKind::MakeMove)
    } else if topic == game_states {
        Some(TopicKind::GameStates)
    } else {
        None
    }
}

/// `acc` with what the entries hold, taken in in order.
pub open spec fn gather_entries(
    acc: Seq<Item>,
    kind: TopicKind,
    entries: Seq<StreamEntryView>,
) -> Seq<Item>
    decreases entries.len(),
{
    if entries.len() == 0 {
        acc
    } else {
        let so_far = gather_entries(acc, kind, entries.drop_last());
        match entry_data(kind, entries.last()) {
            Some(item) => upsert(so_far, item),
            None => so_far,
        }
    }
}

/// `acc` with what the entries of the topics hold, taken in in order.
/// Topics other than the two that are read are passed over.
pub open spec fn gather(
    acc: Seq<Item>,
    make_move: Seq<char>,
    game_states: Seq<char>,
    batches: Seq<TopicEntriesView>,
) -> Seq<Item>
    decreases batches.len(),
{
    if batches.len() == 0 {
        acc
    } else {
        let so_far = gather(acc, make_move, game_states, batches.drop_last());
        match topic_kind(batches.last().topic, make_move, game_states) {
            Some(kind) => gather_entries(so_far, kind, batches.last().entries),
            None => so_far,
        }
    }
}

/// What a read of the bus holds: one entry for each id of each of the two
/// streams, the last one read where an id came more than once.
pub open spec fn deser_spec(
    batches: Seq<TopicEntriesView>,
    make_move: Seq<char>,
    game_states: Seq<char>,
) -> Seq<Item> {
    gather(Seq::empty(), make_move, game_states, batches)
}

/// `a` comes before `b` in the order of the dictionary, characters
/// compared by their code points.
pub open spec fn lex_lt(a: Seq<char>, b: Seq<char>) -> bool
    decreases a.len(),
{
    if b.len() == 0 {
        false
    } else if a.len() == 0 {
        true
    } else if a[0] != b[0] {
        a[0] < b[0]
    } else {
        lex_lt(a.drop_first(), b.drop_first())
    }
}

/// The rank of a kind of topic among entries of one id: the topic whose
/// name comes first in the dictionary ranks first. `commands_first` says
/// that this is the topic of the commands.
pub open spec fn rank_of(kind: TopicKind, commands_first: bool) -> int {
    if (kind == TopicKind::MakeMove) == commands_first {
        0
    } else {
        1
    }
}

/// `a` is dispatched before `b`: it has the lesser id, or the same id and
/// the topic that ranks first.
pub open spec fn dispatched_before(a: Item, b: Item, commands_first: bool) -> bool {
    before(a.0, b.0) || (a.0 == b.0 && rank_of(kind_of(a), commands_first) < rank_of(
        kind_of(b),
        commands_first,
    ))
}

/// The entries are in the order of their dispatch.
pub open spec fn ordered(items: Seq<Item>, commands_first: bool) -> bool {
    forall|i: int, j: int|
        0 <= i < j < items.len() ==> !dispatched_before(
            #[trigger] items[j],
            #[trigger] items[i],
            commands_first,
        )
}

/// Taking an entry in keeps the entries distinct, and the entry is among
/// them afterwards.
pub proof fn lemma_upsert_distinct(items: Seq<Item>, item: Item)
    requires
        distinct_entries(items),
    ensures
        distinct_entries(upsert(items, item)),
        holds_entry(upsert(items, item), item),
{
    let r = upsert(items, item);
    if holds_entry(items, item) {
        let k = choose|i: int| 0 <= i < items.len() && same_entry(#[trigger] items[i], item);
        assert(same_entry(r[k], item));
        assert forall|i: int, j: int| 0 <= i < r.len() && 0 <= j < r.len() && i != j implies !same_entry(
            #[trigger] r[i],
            #[trigger] r[j],
        ) by {
            assert(same_entry(r[i], items[i]));
            assert(same_entry(r[j], items[j]));
            assert(!same_entry(items[i], items[j]));
        }
    } else {
        assert(same_entry(r[items.len() as int], item));
        assert forall|i: int, j: int| 0 <= i < r.len() && 0 <= j < r.len() && i != j implies !same_entry(
            #[trigger] r[i],
            #[trigger] r[j],
        ) by {
            if i < items.len() && j < items.len() {
                assert(r[i] == items[i] && r[j] == items[j]);
                assert(!same_entry(items[i], items[j]));
            } else if i < items.len() {
                assert(r[i] == items[i]);
                assert(!same_entry(items[i], item));
            } else {
                assert(r[j] == items[j]);
                assert(!same_entry(items[j], item));
            }
        }
    }
}

/// Whether `data` came from the topic of the commands.
fn is_command(data: &StreamData) -> (r: bool)
    ensures
        forall|id: XReadEntryId| r == (kind_of((id, data@)) == TopicKind::MakeMove),
{
    match data {
        StreamData::MM(_) => true,
        StreamData::GS(_, _) => false,
    }
}

/// Takes `item` in among `items`, see [`upsert`].
fn put_item(items: &mut Vec<(XReadEntryId, StreamData)>, id: XReadEntryId, data: StreamData)
    requires
        distinct_entries(items_view(old(items)@)),
    ensures
        distinct_entries(items_view(final(items)@)),
        items_view(final(items)@) == upsert(items_view(old(items)@), (id, data@)),
{
    let ghost before_view = items_view(items@);
    let ghost item = (id, data@);
    proof {
        lemma_upsert_distinct(before_view, item);
    }
    let command: bool = is_command(&data);
    let mut i: usize = 0;
    while i < items.len()
        invariant
            i <= items.len(),
            items@ == old(items)@,
            before_view == items_view(items@),
            distinct_entries(before_view),
            item == (id, data@),
            command == (kind_of(item) == TopicKind::MakeMove),
            forall|j: int| 0 <= j < i ==> !same_entry(#[trigger] before_view[j], item),
        decreases items.len() - i,
    {
        if items[i].0 == id && is_command(&items[i].1) == command {
            proof {
                assert(same_entry(before_view[i as int], item));
                let k = choose|k: int|
                    0 <= k < before_view.len() && same_entry(#[trigger] before_view[k], item);
                if k != i {
                    assert(!same_entry(before_view[k], before_view[i as int]));
                }
            }
            items.set(i, (id, data));
            assert(items_view(items@) =~= before_view.update(i as int, item));
            return ;
        }
        assert(!same_entry(before_view[i as int], item));
        i += 1;
    }
    proof {
        if holds_entry(before_view, item) {
            let k = choose|k: int|
                0 <= k < before_view.len() && same_entry(#[trigger] before_view[k], item);
            assert(same_entry(before_view[k], item));
        }
    }
    items.push((id, data));
    assert(items_view(items@) =~= before_view.push(item));
}

/// Reads what the entries that a read brought hold.
///
/// The entries of the two topics that are read are taken in in the order in
/// which they stand; an entry that cannot be read is left out; of two
/// entries of one stream with the same id the later one stays.
pub fn deser(xread_result: &Vec<TopicEntries>, topics: &StreamTopics) -> (items: Vec<
    (XReadEntryId, StreamData),
>)
    ensures
        items_view(items@) == deser_spec(
            Seq::new(xread_result@.len(), |i: int| xread_result@[i]@),
            topics.make_move_cmd@,
            topics.game_states_changelog@,
        ),
        distinct_entries(items_view(items@)),
{
    let ghost batches = Seq::new(xread_result@.len(), |i: int| xread_result@[i]@);
    let ghost mm = topics.make_move_cmd@;
    let ghost gs = topics.game_states_changelog@;
    let mut items: Vec<(XReadEntryId, StreamData)> = Vec::new();
    let mut b: usize = 0;
    assert(items_view(items@) =~= Seq::empty());
    while b < xread_result.len()
        invariant
            b <= xread_result.len(),
            batches == Seq::new(xread_result@.len(), |i: int| xread_result@[i]@),
            mm == topics.make_move_cmd@,
            gs == topics.game_states_changelog@,
            distinct_entries(items_view(items@)),
            items_view(items@) == gather(Seq::empty(), mm, gs, batches.subrange(0, b as int)),
        decreases xread_result.len() - b,
    {
        let batch = &xread_result[b];
        let ghost so_far = items_view(items@);
        proof {
            assert(batches.subrange(0, b + 1).drop_last() =~= batches.subrange(0, b as int));
            assert(batches.subrange(0, b + 1).last() == batch@);
        }
        let kind: Option<TopicKind> = if same_text(
            batch.topic.as_str(),
            topics.make_move_cmd.as_str(),
        ) {
            Some(TopicKind::MakeMove)
        } else if same_text(batch.topic.as_str(), topics.game_states_changelog.as_str()) {
            Some(TopicKind::GameStates)
        } else {
            None
        };
        match kind {
            None => {},
            Some(kind) => {
                let ghost entries = batch@.entries;
                let mut e: usize = 0;
                while e < batch.entries.len()
                    invariant
                        e <= batch.entries.len(),
                        entries == batch@.entries,
                        distinct_entries(items_view(items@)),
                        items_view(items@) == gather_entries(
                            so_far,
                            kind,
                            entries.subrange(0, e as int),
                        ),
                    decreases batch.entries.len() - e,
                {
                    proof {
                        assert(entries.subrange(0, e + 1).drop_last() =~= entries.subrange(
                            0,
                            e as int,
                        ));
                        assert(entries.subrange(0, e + 1).last() == batch.entries[e as int]@);
                    }
                    match read_entry(kind, &batch.entries[e]) {
                        Some((id, data)) => {
                            put_item(&mut items, id, data);
                        },
                        None => {},
                    }
                    e += 1;
                }
                assert(entries.subrange(0, batch.entries.len() as int) =~= entries);
            },
        }
        b += 1;
    }
    assert(batches.subrange(0, xread_result.len() as int) =~= batches);
    items
}

proof fn lemma_lex_lt_skips_common_prefix(a: Seq<char>, b: Seq<char>, n: int)
    requires
        0 <= n <= a.len(),
        n <= b.len(),
        forall|k: int| 0 <= k < n ==> a[k] == b[k],
    ensures
        lex_lt(a, b) == lex_lt(a.subrange(n, a.len() as int), b.subrange(n, b.len() as int)),
    decreases n,
{
    if n == 0 {
        assert(a.subrange(0, a.len() as int) =~= a);
        assert(b.subrange(0, b.len() as int) =~= b);
    } else {
        assert(a[0] == b[0]);
        let a1 = a.drop_first();
        let b1 = b.drop_first();
        assert forall|k: int| 0 <= k < n - 1 implies a1[k] == b1[k] by {
            assert(a[k + 1] == b[k + 1]);
        }
        lemma_lex_lt_skips_common_prefix(a1, b1, n - 1);
        assert(a1.subrange(n - 1, a1.len() as int) =~= a.subrange(n, a.len() as int));
        assert(b1.subrange(n - 1, b1.len() as int) =~= b.subrange(n, b.len() as int));
    }
}

/// Whether `a` comes before `b` in the order of the dictionary.
pub fn text_lt(a: &str, b: &str) -> (r: bool)
    ensures
        r == lex_lt(a@, b@),
{
    let n: usize = a.unicode_len();
    let m: usize = b.unicode_len();
    let mut i: usize = 0;
    while i < n && i < m
        invariant
            i <= n,
            i <= m,
            n == a@.len(),
            m == b@.len(),
            forall|k: int| 0 <= k < i ==> a@[k] == b@[k],
        decreases n - i,
    {
        let x: char = a.get_char(i);
        let y: char = b.get_char(i);
        if x != y {
            proof {
                lemma_lex_lt_skips_common_prefix(a@, b@, i as int);
                assert(a@.subrange(i as int, n as int)[0] == x);
                assert(b@.subrange(i as int, m as int)[0] == y);
            }
            return (x as u32) < (y as u32);
        }
        i += 1;
    }
    proof {
        lemma_lex_lt_skips_common_prefix(a@, b@, i as int);
    }
    i < m
}

/// Whether `a` is dispatched before `b`, see [`dispatched_before`].
fn goes_before(
    a: &(XReadEntryId, StreamData),
    b: &(XReadEntryId, StreamData),
    commands_first: bool,
) -> (r: bool)
    ensures
        r == dispatched_before((a.0, a.1@), (b.0, b.1@), commands_first),
{
    if a.0.precedes(&b.0) {
        true
    } else if a.0 == b.0 {
        let rank_a: u8 = if is_command(&a.1) == commands_first {
            0
        } else {
            1
        };
        let rank_b: u8 = if is_command(&b.1) == commands_first {
            0
        } else {
            1
        };
        rank_a < rank_b
    } else {
        false
    }
}

/// Where the entry that is dispatched first stands, the first one where
/// several could be.
fn least(items: &Vec<(XReadEntryId, StreamData)>, commands_first: bool) -> (m: usize)
    requires
        items.len() > 0,
    ensures
        m < items.len(),
        forall|j: int|
            0 <= j < items.len() ==> !dispatched_before(
                #[trigger] items_view(items@)[j],
                items_view(items@)[m as int],
                commands_first,
            ),
{
    let mut m: usize = 0;
    let mut i: usize = 1;
    while i < items.len()
        invariant
            m < i <= items.len(),
            forall|j: int|
                0 <= j < i ==> !dispatched_before(
                    #[trigger] items_view(items@)[j],
                    items_view(items@)[m as int],
                    commands_first,
                ),
        decreases items.len() - i,
    {
        if goes_before(&items[i], &items[m], commands_first) {
            m = i;
        }
        i += 1;
    }
    m
}

/// Puts entries into the order of their dispatch: by id, and among entries
/// of one id by topic. Entries that tie keep the order in which they came.
pub fn sort_entries(items: Vec<(XReadEntryId, StreamData)>, commands_first: bool) -> (sorted: Vec<
    (XReadEntryId, StreamData),
>)
    ensures
        ordered(items_view(sorted@), commands_first),
        items_view(sorted@).to_multiset() == items_view(items@).to_multiset(),
        sorted.len() == items.len(),
{
    broadcast use vstd::multiset::group_multiset_axioms;

    let ghost all = items_view(items@);
    let mut rest = items;
    let mut out: Vec<(XReadEntryId, StreamData)> = Vec::new();
    proof {
        assert(items_view(out@) =~= Seq::empty());
        vstd::seq_lib::to_multiset_len(items_view(out@));
        vstd::multiset::lemma_multiset_empty_len(items_view(out@).to_multiset());
        assert(items_view(out@).to_multiset().add(all.to_multiset()) =~= all.to_multiset());
    }
    while rest.len() > 0
        invariant
            ordered(items_view(out@), commands_first),
            out.len() + rest.len() == all.len(),
            items_view(out@).to_multiset().add(items_view(rest@).to_multiset()) == all.to_multiset(),
            forall|i: int, j: int|
                0 <= i < out.len() && 0 <= j < rest.len() ==> !dispatched_before(
                    #[trigger] items_view(rest@)[j],
                    #[trigger] items_view(out@)[i],
                    commands_first,
                ),
        decreases rest.len(),
    {
        let m: usize = least(&rest, commands_first);
        let ghost rv0 = items_view(rest@);
        let ghost ov0 = items_view(out@);
        let x = rest.remove(m);
        let ghost xv = (x.0, x.1@);
        out.push(x);
        proof {
            let rv1 = items_view(rest@);
            let ov1 = items_view(out@);
            assert(rv1 =~= rv0.remove(m as int));
            assert(ov1 =~= ov0.push(xv));
            assert(rv0[m as int] == xv);
            vstd::seq_lib::to_multiset_build(ov0, xv);
            vstd::seq_lib::to_multiset_remove(rv0, m as int);
            assert(ov1.to_multiset() =~= ov0.to_multiset().insert(xv));
            assert(rv1.to_multiset() =~= rv0.to_multiset().remove(xv));
            vstd::seq_lib::to_multiset_contains(rv0, xv);
            assert(rv0.to_multiset().count(xv) > 0) by {
                assert(rv0.contains(xv));
            }
            assert(ov1.to_multiset().add(rv1.to_multiset()) =~= ov0.to_multiset().add(
                rv0.to_multiset(),
            ));
            assert forall|i: int, j: int| 0 <= i < j < ov1.len() implies !dispatched_before(
                #[trigger] ov1[j],
                #[trigger] ov1[i],
                commands_first,
            ) by {
                if j == ov0.len() {
                    assert(ov1[i] == ov0[i]);
                    assert(!dispatched_before(rv0[m as int], ov0[i], commands_first));
                } else {
                    assert(ov0[i] == ov1[i] && ov0[j] == ov1[j]);
                }
            }
            assert forall|i: int, j: int| 0 <= i < out.len() && 0 <= j < rest.len() implies !dispatched_before(
                #[trigger] rv1[j],
                #[trigger] ov1[i],
                commands_first,
            ) by {
                let j0 = if j < m { j } else { j + 1 };
                assert(rv1[j] == rv0[j0]);
                if i < ov0.len() {
                    assert(ov1[i] == ov0[i]);
                    assert(!dispatched_before(rv0[j0], ov0[i], commands_first));
                } else {
                    assert(!dispatched_before(rv0[j0], rv0[m as int], commands_first));
                }
            }
        }
    }
    proof {
        assert(items_view(rest@) =~= Seq::empty());
        vstd::seq_lib::to_multiset_len(items_view(rest@));
        vstd::multiset::lemma_multiset_empty_len(items_view(rest@).to_multiset());
        assert(items_view(out@).to_multiset().add(items_view(rest@).to_multiset())
            =~= items_view(out@).to_multiset());
    }
    out
}

/// What a read of the bus holds, in the order of its dispatch: by entry id,
/// and among entries of one id the topic first whose name comes first in
/// the dictionary.
pub fn xread_sort(xread_result: &Vec<TopicEntries>, topics: &StreamTopics) -> (answer: Vec<
    (XReadEntryId, StreamData),
>)
    ensures
        ordered(
            items_view(answer@),
            lex_lt(topics.make_move_cmd@, topics.game_states_changelog@),
        ),
        items_view(answer@).to_multiset() == deser_spec(
            Seq::new(xread_result@.len(), |i: int| xread_result@[i]@),
            topics.make_move_cmd@,
            topics.game_states_changelog@,
        ).to_multiset(),
{
    let unsorted = deser(xread_result, topics);
    let commands_first: bool = text_lt(
        topics.make_move_cmd.as_str(),
        topics.game_states_changelog.as_str(),
    );
    sort_entries(unsorted, commands_first)
}

/// The arguments of the read that brings new entries of both topics: wait
/// up to [`BLOCK_MSEC`], then the names of the two streams, then the entry
/// id after which to read each.
pub open spec fn xread_args_spec(
    entry_ids: AllEntryIds,
    make_move: Seq<char>,
    game_states: Seq<char>,
) -> Seq<Seq<char>> {
    seq![
        "BLOCK"@,
        crate::entry_id::decimal_text(BLOCK_MSEC as nat),
        "STREAMS"@,
        make_move,
        game_states,
        crate::entry_id::entry_id_text(entry_ids.make_moves_eid),
        crate::entry_id::entry_id_text(entry_ids.game_states_eid),
    ]
}

/// The arguments of the read, see [`xread_args_spec`].
pub fn xread_args(entry_ids: &AllEntryIds, topics: &StreamTopics) -> (args: Vec<String>)
    ensures
        args.len() == 7,
        forall|i: int|
            0 <= i < 7 ==> (#[trigger] args[i])@ == xread_args_spec(
                *entry_ids,
                topics.make_move_cmd@,
                topics.game_states_changelog@,
            )[i],
{
    let mut args: Vec<String> = Vec::new();
    args.push("BLOCK".to_owned());
    args.push(crate::entry_id::decimal_string(BLOCK_MSEC as u64));
    args.push("STREAMS".to_owned());
    args.push(topics.make_move_cmd.clone());
    args.push(topics.game_states_changelog.clone());
    args.push(entry_ids.make_moves_eid.to_string());
    args.push(entry_ids.game_states_eid.to_string());
    args
}

} // verus!
