use bugout::botlink::{bot_command, bot_to_move, on_attach_bot, AttachBot, BotAttached, Botness};
use bugout::color_chooser::{
    choose_colors, on_color_pref, ColorPref, GameColorPref, SessionColorPref,
};
use bugout::events::{
    ColorsChosen, GameReady, MoveUndone, PrivateGameRejected, WaitForOpponent,
};
use bugout::game_state::GamePhase;
use bugout::gateway::idle_status::{
    start_status, step, IdleStatus, IdleStatusResponse, KafkaActivityObserved, MonitorInput,
    RequestIdleStatus, ShutdownEvent, UtcTime,
};
use bugout::ids::{ClientId, EventId, GameId, ReqId, SessionId};
use bugout::lobby::{Lobby, LobbyEvent, Waiting};
use bugout::model::{Coord, DeserError, MakeMoveCommand, MoveCoord, MoveMade, Player, Visibility};
use bugout::changelog::{apply, on_move_undone};
use bugout::game_state::GameState;
use bugout::sessions::Sessions;
use bugout::undo::{History, UndoMove, HISTORY_CAPACITY};

const C1: ClientId = ClientId(1);
const C2: ClientId = ClientId(2);
const C3: ClientId = ClientId(3);

fn pref(client: ClientId, session: u128, color_pref: ColorPref) -> SessionColorPref {
    SessionColorPref {
        session_id: SessionId(session),
        color_pref,
        client_id: client,
    }
}

fn made(n: u128, player: Player) -> MoveMade {
    MoveMade {
        game_id: GameId(5),
        reply_to: ReqId(n),
        player,
        coord: MoveCoord::At(Coord::of((n % 19) as u16, (n / 19) as u16)),
        captured: vec![],
        event_id: EventId(n),
    }
}

#[test]
fn public_matchmaking_pairs_two_waiters_fifo() {
    let mut lobby = Lobby::new(19);
    let first = lobby.find_public_game(C1, GameId(100), EventId(1));
    assert_eq!(
        first,
        LobbyEvent::WaitForOpponent(WaitForOpponent {
            game_id: GameId(100),
            client_id: C1,
            event_id: EventId(1),
            visibility: Visibility::Public,
        })
    );
    let second = lobby.find_public_game(C2, GameId(200), EventId(2));
    assert_eq!(
        second,
        LobbyEvent::GameReady(GameReady {
            game_id: GameId(100),
            event_id: EventId(2),
            players: (C1, C2),
            board_size: 19,
        })
    );
    assert!(lobby.public_pool.is_empty());
    let third = lobby.find_public_game(C3, GameId(300), EventId(3));
    assert_eq!(
        third,
        LobbyEvent::WaitForOpponent(WaitForOpponent {
            game_id: GameId(300),
            client_id: C3,
            event_id: EventId(3),
            visibility: Visibility::Public,
        })
    );
    assert_eq!(
        lobby.public_pool.iter().copied().collect::<Vec<_>>(),
        vec![Waiting {
            game_id: GameId(300),
            client_id: C3
        }]
    );
}

#[test]
fn nobody_is_matched_against_themselves() {
    let mut lobby = Lobby::new(19);
    lobby.find_public_game(C1, GameId(100), EventId(1));
    let again = lobby.find_public_game(C1, GameId(200), EventId(2));
    assert_eq!(
        again,
        LobbyEvent::WaitForOpponent(WaitForOpponent {
            game_id: GameId(100),
            client_id: C1,
            event_id: EventId(2),
            visibility: Visibility::Public,
        })
    );
    assert_eq!(lobby.public_pool.len(), 1);
    let paired = lobby.find_public_game(C2, GameId(300), EventId(3));
    assert!(matches!(paired, LobbyEvent::GameReady(g) if g.players == (C1, C2)));
}

#[test]
fn first_opponent_in_the_pool_is_taken() {
    let mut lobby = Lobby::new(9);
    lobby.public_pool.push_back(Waiting {
        game_id: GameId(1),
        client_id: C2,
    });
    lobby.public_pool.push_back(Waiting {
        game_id: GameId(2),
        client_id: C1,
    });
    lobby.public_pool.push_back(Waiting {
        game_id: GameId(3),
        client_id: C3,
    });
    let ev = lobby.find_public_game(C2, GameId(9), EventId(4));
    assert_eq!(
        ev,
        LobbyEvent::GameReady(GameReady {
            game_id: GameId(2),
            event_id: EventId(4),
            players: (C1, C2),
            board_size: 9,
        })
    );
    assert_eq!(
        lobby.public_pool.iter().map(|w| w.game_id).collect::<Vec<_>>(),
        vec![GameId(1), GameId(3)]
    );
}

#[test]
fn private_rejection() {
    let mut lobby = Lobby::new(19);
    let unknown = GameId(0xdead);
    let ev = lobby.join_private_game(C2, unknown, EventId(9));
    assert_eq!(
        ev,
        LobbyEvent::PrivateGameRejected(PrivateGameRejected {
            game_id: unknown,
            client_id: C2,
            event_id: EventId(9),
        })
    );
    assert!(lobby.private_games.is_empty());
    assert!(lobby.public_pool.is_empty());
}

#[test]
fn private_game_is_joined_once() {
    let mut lobby = Lobby::new(13);
    let created = lobby.create_game(C1, Visibility::Private, GameId(50), EventId(1));
    assert_eq!(
        created,
        LobbyEvent::WaitForOpponent(WaitForOpponent {
            game_id: GameId(50),
            client_id: C1,
            event_id: EventId(1),
            visibility: Visibility::Private,
        })
    );
    assert!(lobby.public_pool.is_empty());
    let own = lobby.join_private_game(C1, GameId(50), EventId(2));
    assert!(matches!(own, LobbyEvent::PrivateGameRejected(r) if r.client_id == C1));
    let joined = lobby.join_private_game(C2, GameId(50), EventId(3));
    assert_eq!(
        joined,
        LobbyEvent::GameReady(GameReady {
            game_id: GameId(50),
            event_id: EventId(3),
            players: (C1, C2),
            board_size: 13,
        })
    );
    let late = lobby.join_private_game(C3, GameId(50), EventId(4));
    assert!(matches!(late, LobbyEvent::PrivateGameRejected(_)));
}

#[test]
fn creating_a_public_game_is_a_search() {
    let mut lobby = Lobby::new(19);
    let ev = lobby.create_game(C1, Visibility::Public, GameId(7), EventId(1));
    assert!(matches!(ev, LobbyEvent::WaitForOpponent(w) if w.visibility == Visibility::Public));
    let ev = lobby.create_game(C2, Visibility::Public, GameId(8), EventId(2));
    assert!(matches!(ev, LobbyEvent::GameReady(g) if g.game_id == GameId(7)));
}

#[test]
fn idle_status_transitions() {
    let t0 = UtcTime { secs: 100, nanos: 5 };
    let t1 = UtcTime { secs: 200, nanos: 0 };
    let t2 = UtcTime { secs: 300, nanos: 9 };
    let status = start_status(t0);
    assert_eq!(status, IdleStatus::Idle { since: t0 });
    let s = step(status, MonitorInput::Activity(KafkaActivityObserved), t1);
    assert_eq!(s.status, IdleStatus::Online);
    assert_eq!(s.response, None);
    let s = step(s.status, MonitorInput::Request(RequestIdleStatus(C1)), t1);
    assert_eq!(s.status, IdleStatus::Online);
    assert_eq!(s.response, Some(IdleStatusResponse(C1, IdleStatus::Online)));
    let s = step(s.status, MonitorInput::Shutdown(ShutdownEvent), t2);
    assert_eq!(s.status, IdleStatus::Idle { since: t2 });
    assert_eq!(s.response, None);
    let s = step(s.status, MonitorInput::Request(RequestIdleStatus(C2)), t1);
    assert_eq!(
        s.response,
        Some(IdleStatusResponse(C2, IdleStatus::Idle { since: t2 }))
    );
}

#[test]
fn idle_status_of_a_booting_host() {
    let t = UtcTime { secs: 1, nanos: 2 };
    let booting = IdleStatus::Booting { since: t };
    let s = step(booting, MonitorInput::Request(RequestIdleStatus(C1)), t);
    assert_eq!(s.status, booting);
    assert_eq!(s.response, Some(IdleStatusResponse(C1, booting)));
    let s = step(booting, MonitorInput::Activity(KafkaActivityObserved), t);
    assert_eq!(s.status, IdleStatus::Online);
}

#[test]
fn colors_follow_the_preferences() {
    let (any, black_pref, white_pref) = (ColorPref::Any, ColorPref::Black, ColorPref::White);
    let even = GameId(10);
    let odd = GameId(11);
    let cases = [
        (black_pref, black_pref, even, C1),
        (black_pref, black_pref, odd, C1),
        (white_pref, white_pref, even, C2),
        (white_pref, white_pref, odd, C2),
        (black_pref, white_pref, odd, C1),
        (white_pref, black_pref, even, C2),
        (black_pref, any, odd, C1),
        (white_pref, any, even, C2),
        (any, black_pref, even, C2),
        (any, white_pref, odd, C1),
        (any, any, even, C1),
        (any, any, odd, C2),
    ];
    for (first, second, game_id, black) in cases {
        let chosen = choose_colors(&pref(C1, 1, first), &pref(C2, 2, second), &game_id);
        let white = if black == C1 { C2 } else { C1 };
        assert_eq!(
            chosen,
            ColorsChosen {
                game_id,
                black,
                white
            },
            "{:?} {:?} {:?}",
            first,
            second,
            game_id
        );
    }
}

#[test]
fn colors_depend_on_nothing_but_the_arguments() {
    for _ in 0..10 {
        let a = choose_colors(
            &pref(C1, 1, ColorPref::Any),
            &pref(C2, 2, ColorPref::Any),
            &GameId(0x1234_5678),
        );
        assert_eq!(
            a,
            ColorsChosen {
                game_id: GameId(0x1234_5678),
                black: C1,
                white: C2
            }
        );
    }
}

#[test]
fn chooser_waits_for_both_preferences() {
    let game = GameId(77);
    let first = pref(C1, 1, ColorPref::White);
    let first_again = pref(C1, 1, ColorPref::Any);
    let second = pref(C2, 2, ColorPref::White);
    let s = on_color_pref(&GameColorPref::NotReady, &game, &first);
    assert_eq!(
        s.state,
        GameColorPref::Partial {
            game_id: game,
            pref: first
        }
    );
    assert_eq!(s.chosen, None);
    let s = on_color_pref(&s.state, &game, &first_again);
    assert_eq!(
        s.state,
        GameColorPref::Partial {
            game_id: game,
            pref: first_again
        }
    );
    assert_eq!(s.chosen, None);
    let s = on_color_pref(&s.state, &game, &second);
    assert_eq!(
        s.state,
        GameColorPref::Complete {
            game_id: game,
            prefs: (first_again, second)
        }
    );
    assert_eq!(
        s.chosen,
        Some(ColorsChosen {
            game_id: game,
            black: C1,
            white: C2
        })
    );
    let done = on_color_pref(&s.state, &game, &pref(C3, 3, ColorPref::Black));
    assert_eq!(done.state, s.state);
    assert_eq!(done.chosen, None);
}

#[test]
fn bot_is_attached_and_moves_when_up() {
    let none = Botness::none();
    assert!(!none.is_bot(Player::BLACK));
    assert!(!none.is_bot(Player::WHITE));
    let cmd = AttachBot {
        game_id: GameId(5),
        player: Player::WHITE,
    };
    let (botness, news) = on_attach_bot(&none, &cmd);
    assert_eq!(
        botness,
        Botness {
            black_is_bot: false,
            white_is_bot: true
        }
    );
    assert_eq!(
        news,
        BotAttached {
            game_id: GameId(5),
            player: Player::WHITE
        }
    );
    assert_eq!(bot_to_move(&botness, &made(1, Player::BLACK)), Some(Player::WHITE));
    assert_eq!(bot_to_move(&botness, &made(2, Player::WHITE)), None);
    assert_eq!(bot_to_move(&none, &made(1, Player::BLACK)), None);
    let both = botness.attach(Player::BLACK);
    assert_eq!(bot_to_move(&both, &made(2, Player::WHITE)), Some(Player::BLACK));
    assert_eq!(
        bot_command(GameId(5), Player::WHITE, MoveCoord::Pass, ReqId(8)),
        MakeMoveCommand {
            game_id: GameId(5),
            req_id: ReqId(8),
            player: Player::WHITE,
            coord: MoveCoord::Pass
        }
    );
}

#[test]
fn history_keeps_the_last_moves() {
    let mut h = History::new();
    for n in 0..(HISTORY_CAPACITY as u128 + 3) {
        let player = if n % 2 == 0 {
            Player::BLACK
        } else {
            Player::WHITE
        };
        h.push(made(n, player));
        assert!(h.moves.len() <= HISTORY_CAPACITY);
        assert_eq!(h.moves.last().unwrap().event_id, EventId(n));
    }
    assert_eq!(HISTORY_CAPACITY, 64);
    assert_eq!(h.moves.len(), 64);
    assert_eq!(h.moves[0].event_id, EventId(3));
    h.pop();
    assert_eq!(h.moves.len(), 63);
    assert_eq!(h.moves.last().unwrap().event_id, EventId(65));
    let mut empty = History::new();
    empty.pop();
    assert!(empty.moves.is_empty());
}

#[test]
fn undo_is_permitted_only_for_the_last_mover() {
    let mut h = History::new();
    h.push(made(1, Player::BLACK));
    let no_bots = Botness::none();
    let req = UndoMove {
        game_id: GameId(5),
        player: Player::BLACK,
    };
    assert_eq!(
        h.consider(GamePhase::Awaiting(Player::WHITE), &no_bots, &req),
        Some(MoveUndone {
            game_id: GameId(5),
            undone_move: made(1, Player::BLACK)
        })
    );
    // the game does not await the other player
    assert_eq!(h.consider(GamePhase::Awaiting(Player::BLACK), &no_bots, &req), None);
    assert_eq!(h.consider(GamePhase::Terminal, &no_bots, &req), None);
    // the last move is not the requester's
    let white_asks = UndoMove {
        game_id: GameId(5),
        player: Player::WHITE,
    };
    assert_eq!(
        h.consider(GamePhase::Awaiting(Player::BLACK), &no_bots, &white_asks),
        None
    );
    // a bot plays the requester's colour
    let black_bot = no_bots.attach(Player::BLACK);
    assert_eq!(h.consider(GamePhase::Awaiting(Player::WHITE), &black_bot, &req), None);
    let white_bot = no_bots.attach(Player::WHITE);
    assert!(h
        .consider(GamePhase::Awaiting(Player::WHITE), &white_bot, &req)
        .is_some());
    // nothing to undo
    let empty = History::new();
    assert_eq!(empty.consider(GamePhase::Awaiting(Player::WHITE), &no_bots, &req), None);
}

#[test]
fn history_of_a_game_is_its_last_moves() {
    let few: Vec<MoveMade> = (0..3).map(|n| made(n, Player::BLACK)).collect();
    assert_eq!(History::of_moves(&few).moves, few);
    let many: Vec<MoveMade> = (0..100).map(|n| made(n, Player::WHITE)).collect();
    let h = History::of_moves(&many);
    assert_eq!(h.moves.len(), 64);
    assert_eq!(h.moves, many[36..].to_vec());
    assert!(History::of_moves(&vec![]).moves.is_empty());
}

#[test]
fn undo_request_round_trip() {
    let req = UndoMove {
        game_id: GameId(0x0102),
        player: Player::WHITE,
    };
    let bytes = req.serialize();
    assert_eq!(bytes.len(), 17);
    assert_eq!(&bytes[14..], &[1, 2, 1]);
    assert_eq!(UndoMove::from(&bytes), Ok(req));
    assert_eq!(UndoMove::from(&bytes[..16]), Err(DeserError));
}

#[test]
fn undone_move_is_taken_off_the_state() {
    let m1 = made(1, Player::BLACK);
    let m2 = made(2, Player::WHITE);
    let s1 = apply(&GameState::new(19), &m1).unwrap();
    let s2 = apply(&s1, &m2).unwrap();
    let undone = MoveUndone {
        game_id: GameId(5),
        undone_move: m2.clone(),
    };
    assert_eq!(on_move_undone(&s2, &undone), Ok(s1.clone()));
    // an undo of a move that is not the last one changes nothing
    let stale = MoveUndone {
        game_id: GameId(5),
        undone_move: m1.clone(),
    };
    assert_eq!(on_move_undone(&s2, &stale), Ok(s2.clone()));
    assert_eq!(on_move_undone(&s1, &stale), Ok(GameState::new(19)));
    assert_eq!(
        on_move_undone(&GameState::new(19), &stale),
        Ok(GameState::new(19))
    );
}

#[test]
fn sessions_know_their_clients() {
    let mut sessions = Sessions::new();
    assert_eq!(sessions.client_of(SessionId(1)), None);
    sessions.open(SessionId(1), C1);
    sessions.open(SessionId(2), C2);
    sessions.open(SessionId(3), C1);
    assert_eq!(sessions.client_of(SessionId(1)), Some(C1));
    assert_eq!(sessions.client_of(SessionId(2)), Some(C2));
    assert_eq!(sessions.client_of(SessionId(3)), Some(C1));
    assert_eq!(sessions.close(SessionId(1)), Some(C1));
    assert_eq!(sessions.close(SessionId(1)), None);
    assert_eq!(sessions.client_of(SessionId(1)), None);
    assert_eq!(sessions.client_of(SessionId(3)), Some(C1));
    sessions.open(SessionId(2), C3);
    assert_eq!(sessions.client_of(SessionId(2)), Some(C3));
    assert_eq!(sessions.by_session.len(), 2);
}
