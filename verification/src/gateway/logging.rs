//! Short texts for log lines.

use crate::gateway::websocket::WsSession;
use crate::ids::{id_text, short_text};
use crate::model::Player;
use vstd::prelude::*;
use vstd::string::*;

verus! {

/// What stands in a session code where the session is in no game.
pub const EMPTY_SHORT_UUID: &'static str = "        ";

/// What a log line shows in place of a session that is gone.
pub const MEGA_DEATH_STRING: &'static str = "\u{26B0}\u{FE0F}\u{26B0}\u{FE0F}\u{26B0}\u{FE0F}\u{26B0}\u{FE0F}\u{26B0}\u{FE0F}\u{26B0}\u{FE0F}\u{26B0}\u{FE0F}\u{26B0}\u{FE0F}";

/// The chess pieces that stand for a player in a log line: the black ones
/// for BLACK, the white ones for WHITE, king first.
pub open spec fn glyphs_of(player: Player) -> Seq<Seq<char>> {
    match player {
        Player::BLACK => seq![
            seq!['\u{265A}'],
            seq!['\u{265B}'],
            seq!['\u{265C}'],
            seq!['\u{265D}'],
            seq!['\u{265E}'],
            seq!['\u{265F}'],
        ],
        Player::WHITE => seq![
            seq!['\u{2654}'],
            seq!['\u{2655}'],
            seq!['\u{2656}'],
            seq!['\u{2657}'],
            seq!['\u{2658}'],
            seq!['\u{2659}'],
        ],
    }
}

/// The glyph that was picked, or the king of `player` where none was.
pub open spec fn glyph_or_king(picked: Option<Seq<char>>, player: Player) -> Seq<char> {
    match picked {
        Some(g) => g,
        None => glyphs_of(player)[0],
    }
}

/// Calls `rand::seq::SliceRandom::choose` with the generator of the thread:
/// it hands back one element of the slice, whichever the generator picks,
/// or `None` where the slice is empty. It panics where the generator of the
/// thread cannot be set up.
#[verifier::external_body]
fn pick(glyphs: &Vec<&'static str>) -> (picked: Option<&'static str>)
    ensures
        glyphs.len() == 0 ==> picked is None,
        glyphs.len() > 0 ==> picked is Some && glyphs@.contains(picked->0),
{
    rand::seq::SliceRandom::choose(glyphs.as_slice(), &mut rand::thread_rng()).copied()
}

/// The glyphs of `player` as a list.
pub fn glyph_list(player: Player) -> (glyphs: Vec<&'static str>)
    ensures
        glyphs.len() == 6,
        forall|i: int| 0 <= i < 6 ==> (#[trigger] glyphs[i])@ == glyphs_of(player)[i],
{
    proof {
        reveal_strlit("\u{265A}");
        reveal_strlit("\u{265B}");
        reveal_strlit("\u{265C}");
        reveal_strlit("\u{265D}");
        reveal_strlit("\u{265E}");
        reveal_strlit("\u{265F}");
        reveal_strlit("\u{2654}");
        reveal_strlit("\u{2655}");
        reveal_strlit("\u{2656}");
        reveal_strlit("\u{2657}");
        reveal_strlit("\u{2658}");
        reveal_strlit("\u{2659}");
    }
    let mut glyphs: Vec<&'static str> = Vec::new();
    match player {
        Player::BLACK => {
            glyphs.push("\u{265A}");
            glyphs.push("\u{265B}");
            glyphs.push("\u{265C}");
            glyphs.push("\u{265D}");
            glyphs.push("\u{265E}");
            glyphs.push("\u{265F}");
        },
        Player::WHITE => {
            glyphs.push("\u{2654}");
            glyphs.push("\u{2655}");
            glyphs.push("\u{2656}");
            glyphs.push("\u{2657}");
            glyphs.push("\u{2658}");
            glyphs.push("\u{2659}");
        },
    }
    assert forall|i: int| 0 <= i < 6 implies (#[trigger] glyphs[i])@ =~= glyphs_of(player)[i] by {}
    glyphs
}

/// The text of the glyph that was picked for `player`.
pub fn glyph_text(picked: Option<&str>, player: Player) -> (s: String)
    ensures
        s@ == glyph_or_king(
            match picked {
                Some(g) => Some(g@),
                None => None,
            },
            player,
        ),
{
    proof {
        reveal_strlit("\u{265A}");
        reveal_strlit("\u{2654}");
    }
    let s = match picked {
        Some(g) => g.to_owned(),
        None => match player {
            Player::BLACK => "\u{265A}".to_owned(),
            Player::WHITE => "\u{2654}".to_owned(),
        },
    };
    assert(picked is None ==> s@ =~= glyphs_of(player)[0]);
    s
}

/// A chess piece in the colour of `player`, picked at random.
pub fn emoji(player: &Player) -> (s: String)
    ensures
        glyphs_of(*player).contains(s@),
{
    let glyphs = glyph_list(*player);
    let picked = pick(&glyphs);
    proof {
        let g = picked->0;
        let i = choose|i: int| 0 <= i < glyphs@.len() && glyphs@[i] == g;
        assert(glyphs[i]@ == glyphs_of(*player)[i]);
    }
    glyph_text(picked, *player)
}

/// The first eight characters of the canonical text of `id`.
pub fn short_uuid(id: u128) -> (text: String)
    ensures
        text@ == short_text(id),
        text@.len() == 8,
{
    let full = id_text(id);
    let head = full.as_str().substring_char(0, 8);
    head.to_owned()
}

/// The text of a session code: the short form of the client id, a space, and
/// the short form of the id of the game that the session is in, or eight
/// spaces where it is in none.
pub open spec fn session_code_text(session: WsSession) -> Seq<char> {
    short_text(session.client_id.0) + seq![' '] + match session.current_game {
        Some(g) => short_text(g.0),
        None => EMPTY_SHORT_UUID@,
    }
}

/// A code by which log lines name a session.
pub fn session_code(ws_session: &WsSession) -> (code: String)
    ensures
        code@ == session_code_text(*ws_session),
        code@.len() == 17,
{
    proof {
        reveal_strlit(" ");
        reveal_strlit("        ");
    }
    let client = short_uuid(ws_session.client_id.0);
    let game: String = match ws_session.current_game {
        Some(g) => short_uuid(g.0),
        None => EMPTY_SHORT_UUID.to_owned(),
    };
    let code = client.concat(" ").concat(game.as_str());
    assert(code@ =~= session_code_text(*ws_session));
    code
}

} // verus!
