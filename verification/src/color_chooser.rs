//! The colour chooser: pairs the colour preferences of the two sessions of
//! a game into an assignment of colours.

use crate::events::{ColorsChosen, GameReady};
use crate::ids::{ClientId, GameId, SessionId};
use vstd::prelude::*;

verus! {

/// The colour that a client would like to play.
#[derive(Copy, Clone, Debug, PartialEq, Eq, Hash, Structural)]
pub enum ColorPref {
    Black,
    White,
    Any,
}

/// The preference of one session.
#[derive(Clone, Copy, Debug, PartialEq, Eq, Hash, Structural)]
pub struct SessionColorPref {
    pub session_id: SessionId,
    pub color_pref: ColorPref,
    pub client_id: ClientId,
}

/// What is known of the preferences in a game.
#[derive(Clone, Copy, Debug, PartialEq, Eq, Hash)]
pub enum GameColorPref {
    /// Nothing yet.
    NotReady,
    /// One of the two preferences.
    Partial { game_id: GameId, pref: SessionColorPref },
    /// Both preferences, the earlier one first.
    Complete { game_id: GameId, prefs: (SessionColorPref, SessionColorPref) },
}

/// Whether the earlier session plays black, given both preferences and the
/// id of the game.
///
/// Where the two ask for the same colour the earlier session gets it. Where
/// one asks for a colour and the other for any, the one who asks gets it.
/// Where both ask for different colours each gets their own. Where both ask
/// for any, the lowest bit of the game id decides: game ids are random, so
/// either outcome is as likely as the other.
pub open spec fn first_plays_black(first: ColorPref, second: ColorPref, game_id: GameId) -> bool {
    match (first, second) {
        (ColorPref::Black, _) => true,
        (ColorPref::White, _) => false,
        (ColorPref::Any, ColorPref::Black) => false,
        (ColorPref::Any, ColorPref::White) => true,
        (ColorPref::Any, ColorPref::Any) => game_id.0 % 2 == 0,
    }
}

/// The colours of a game, given both preferences.
pub open spec fn colors_for(
    first: SessionColorPref,
    second: SessionColorPref,
    game_id: GameId,
) -> ColorsChosen {
    if first_plays_black(first.color_pref, second.color_pref, game_id) {
        ColorsChosen { game_id, black: first.client_id, white: second.client_id }
    } else {
        ColorsChosen { game_id, black: second.client_id, white: first.client_id }
    }
}

/// Settles the colours of a game from the preferences of its two sessions.
/// The outcome depends on nothing but the arguments.
pub fn choose_colors(first: &SessionColorPref, second: &SessionColorPref, game_id: &GameId) -> (chosen:
    ColorsChosen)
    ensures
        chosen == colors_for(*first, *second, *game_id),
{
    let first_black: bool = match first.color_pref {
        ColorPref::Black => true,
        ColorPref::White => false,
        ColorPref::Any => match second.color_pref {
            ColorPref::Black => false,
            ColorPref::White => true,
            ColorPref::Any => game_id.0 % 2 == 0,
        },
    };
    if first_black {
        ColorsChosen { game_id: *game_id, black: first.client_id, white: second.client_id }
    } else {
        ColorsChosen { game_id: *game_id, black: second.client_id, white: first.client_id }
    }
}

/// The colours of a game depend on nothing but the colour that each of the
/// two sessions asked for, the clients of the two sessions, and the id of
/// the game.
pub proof fn lemma_colors_are_determined(
    first: SessionColorPref,
    second: SessionColorPref,
    other_first: SessionColorPref,
    other_second: SessionColorPref,
    game_id: GameId,
)
    requires
        first.color_pref == other_first.color_pref,
        first.client_id == other_first.client_id,
        second.color_pref == other_second.color_pref,
        second.client_id == other_second.client_id,
    ensures
        colors_for(first, second, game_id) == colors_for(other_first, other_second, game_id),
{
}

/// Whatever is chosen, each of the two clients gets one of the two colours,
/// and a client who alone asked for a colour gets it.
pub proof fn lemma_colors_are_fair(
    first: SessionColorPref,
    second: SessionColorPref,
    game_id: GameId,
)
    ensures
        ({
            let c = colors_for(first, second, game_id);
            &&& c.game_id == game_id
            &&& (c.black == first.client_id && c.white == second.client_id) || (c.black
                == second.client_id && c.white == first.client_id)
            &&& first.color_pref == ColorPref::Black ==> c.black == first.client_id
            &&& first.color_pref == ColorPref::White ==> c.white == first.client_id
            &&& first.color_pref == ColorPref::Any && second.color_pref == ColorPref::Black
                ==> c.black == second.client_id
            &&& first.color_pref == ColorPref::Any && second.color_pref == ColorPref::White
                ==> c.white == second.client_id
        }),
{
}

/// The state of the chooser for one game after the preference `pref` has
/// arrived.
pub open spec fn after_pref(state: GameColorPref, game_id: GameId, pref: SessionColorPref) -> GameColorPref {
    match state {
        GameColorPref::NotReady => GameColorPref::Partial { game_id, pref },
        GameColorPref::Partial { game_id: g, pref: first } => if first.session_id
            == pref.session_id {
            GameColorPref::Partial { game_id: g, pref }
        } else {
            GameColorPref::Complete { game_id: g, prefs: (first, pref) }
        },
        GameColorPref::Complete { game_id: g, prefs } => GameColorPref::Complete {
            game_id: g,
            prefs,
        },
    }
}

/// What the chooser publishes once the state is `state`: the colours, as
/// soon as both preferences are known.
pub open spec fn outcome(state: GameColorPref) -> Option<ColorsChosen> {
    match state {
        GameColorPref::Complete { game_id, prefs } => Some(colors_for(prefs.0, prefs.1, game_id)),
        _ => None,
    }
}

/// What one preference leads to.
#[derive(Clone, Copy, Debug, PartialEq, Eq, Hash)]
pub struct ChooserStep {
    pub state: GameColorPref,
    /// The colours, where this preference completed the pair.
    pub chosen: Option<ColorsChosen>,
}

/// Takes in the preference of a session of the game `game_id`.
///
/// The first preference is kept; a second one from the same session takes
/// its place; one from another session completes the pair, and the colours
/// are chosen. Once the pair is complete nothing changes any more and
/// nothing is published again.
pub fn on_color_pref(state: &GameColorPref, game_id: &GameId, pref: &SessionColorPref) -> (r:
    ChooserStep)
    ensures
        r.state == after_pref(*state, *game_id, *pref),
        r.chosen == if *state is Partial && r.state is Complete {
            outcome(r.state)
        } else {
            None
        },
{
    match state {
        GameColorPref::NotReady => ChooserStep {
            state: GameColorPref::Partial { game_id: *game_id, pref: *pref },
            chosen: None,
        },
        GameColorPref::Partial { game_id: g, pref: first } => {
            if first.session_id == pref.session_id {
                ChooserStep {
                    state: GameColorPref::Partial { game_id: *g, pref: *pref },
                    chosen: None,
                }
            } else {
                ChooserStep {
                    state: GameColorPref::Complete { game_id: *g, prefs: (*first, *pref) },
                    chosen: Some(choose_colors(first, pref, g)),
                }
            }
        },
        GameColorPref::Complete { game_id: g, prefs } => ChooserStep {
            state: GameColorPref::Complete { game_id: *g, prefs: *prefs },
            chosen: None,
        },
    }
}

} // verus!
