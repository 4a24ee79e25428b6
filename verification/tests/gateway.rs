use bugout::color_chooser::ColorPref;
use bugout::events::{ColorsChosen, GameReady, PrivateGameRejected, WaitForOpponent};
use bugout::gateway::idle_status::UtcTime;
use bugout::gateway::kafka_commands::{
    ChooseColorPrefKafkaCommand, ClientHeartbeat, CreateGameKafkaCommand,
    FindPublicGameKafkaCommand, HeartbeatType, JoinPrivateGameKafkaCommand, KafkaCommands,
    ProvideHistoryCommand,
};
use bugout::gateway::kafka_events::{
    consume_topics, event_kind, is_interested, EventKind, HistoryProvidedEvent, KafkaEvents,
};
use bugout::gateway::kafka_io::{route, Outgoing, APP_NAME};
use bugout::gateway::logging::{
    emoji, glyph_list, glyph_text, session_code, short_uuid, EMPTY_SHORT_UUID,
    MEGA_DEATH_STRING,
};
use bugout::gateway::router::{
    is_idle, on_client_command, on_event, on_pong, ClientCommands, Routed,
};
use bugout::gateway::idle_status::RequestIdleStatus;
use bugout::gateway::topics::{same_text, Topic};
use bugout::gateway::websocket::WsSession;
use bugout::ids::{id_text, parse_id, ClientId, EventId, GameId, ReqId, SessionId};
use bugout::model::{Coord, MakeMoveCommand, MoveCoord, MoveMade, Player, Visibility};

const GAME: GameId = GameId(0x936d_a01f_9abd_4d9d_80c7_02af_85c8_22a8);
const CLIENT: ClientId = ClientId(0x0000_0001_0002_4003_8004_0005_0006_0007);
const GAME_TEXT: &str = "936da01f-9abd-4d9d-80c7-02af85c822a8";
const CLIENT_TEXT: &str = "00000001-0002-4003-8004-000500060007";

fn session(current_game: Option<GameId>) -> WsSession {
    WsSession {
        client_id: CLIENT,
        session_id: SessionId(9),
        current_game,
        last_pong_at: UtcTime { secs: 0, nanos: 0 },
    }
}

fn is_random_form(id: u128) -> bool {
    let text: Vec<char> = id_text(id).chars().collect();
    let by_bits = (id >> 76) & 0xf == 4 && (id >> 62) & 0x3 == 2;
    let by_text = text[14] == '4' && ['8', '9', 'a', 'b'].contains(&text[19]);
    assert_eq!(by_bits, by_text);
    by_text
}

#[test]
fn identifiers_have_their_canonical_text() {
    assert_eq!(id_text(GAME.0), GAME_TEXT);
    assert_eq!(GAME.to_string(), GAME_TEXT);
    assert_eq!(CLIENT.to_string(), CLIENT_TEXT);
    assert_eq!(id_text(0), "00000000-0000-0000-0000-000000000000");
    assert_eq!(id_text(u128::MAX), "ffffffff-ffff-ffff-ffff-ffffffffffff");
    assert_eq!(short_uuid(GAME.0), "936da01f");
    assert_eq!(short_uuid(7), "00000000");
}

#[test]
fn identifiers_are_read_from_text() {
    assert_eq!(parse_id(GAME_TEXT), Some(GAME.0));
    assert_eq!(parse_id("936DA01F-9ABD-4D9D-80C7-02AF85C822A8"), Some(GAME.0));
    assert_eq!(parse_id("936da01f9abd4d9d80c702af85c822a8"), Some(GAME.0));
    assert_eq!(parse_id(&id_text(12345)), Some(12345));
    assert_eq!(parse_id(""), None);
    assert_eq!(parse_id("936da01f-9abd-4d9d-80c7-02af85c822a"), None);
    assert_eq!(parse_id("936da01f-9abd-4d9d-80c7-02af85c822ag"), None);
}

#[test]
fn fresh_identifiers_are_random_and_marked() {
    let a = EventId::new();
    let b = EventId::new();
    assert_ne!(a, b);
    assert!(is_random_form(a.0));
    assert!(is_random_form(b.0));
    assert!(is_random_form(GameId::random().0));
    assert!(is_random_form(ClientId::random().0));
    assert!(is_random_form(SessionId::random().0));
    assert_ne!(GameId::random(), GameId::random());
}

#[test]
fn session_code_shows_client_and_game() {
    assert_eq!(session_code(&session(Some(GAME))), "00000001 936da01f");
    assert_eq!(session_code(&session(None)), "00000001         ");
    assert_eq!(EMPTY_SHORT_UUID, "        ");
    assert_eq!(MEGA_DEATH_STRING.chars().count(), 16);
    let opened = WsSession::open(CLIENT, SessionId(3), UtcTime { secs: 5, nanos: 6 });
    assert_eq!(opened.current_game, None);
    assert_eq!(opened.last_pong_at, UtcTime { secs: 5, nanos: 6 });
    assert_eq!(session_code(&opened), "00000001         ");
}

#[test]
fn emoji_is_a_piece_of_the_players_colour() {
    let black = ["♚", "♛", "♜", "♝", "♞", "♟"];
    let white = ["♔", "♕", "♖", "♗", "♘", "♙"];
    assert_eq!(glyph_list(Player::BLACK), black.to_vec());
    assert_eq!(glyph_list(Player::WHITE), white.to_vec());
    let mut seen_black = std::collections::HashSet::new();
    for _ in 0..200 {
        let b = emoji(&Player::BLACK);
        assert!(black.contains(&b.as_str()), "{:?}", b);
        seen_black.insert(b);
        let w = emoji(&Player::WHITE);
        assert!(white.contains(&w.as_str()), "{:?}", w);
    }
    assert!(seen_black.len() > 1);
    assert_eq!(glyph_text(Some("♜"), Player::BLACK), "♜");
    assert_eq!(glyph_text(None, Player::BLACK), "♚");
    assert_eq!(glyph_text(None, Player::WHITE), "♔");
}

#[test]
fn commands_about_a_game_are_keyed_by_the_game() {
    let make_move = KafkaCommands::MakeMove(MakeMoveCommand {
        game_id: GAME,
        req_id: ReqId(1),
        player: Player::BLACK,
        coord: MoveCoord::At(Coord::of(1, 2)),
    });
    assert_eq!(
        route(&make_move),
        Outgoing {
            topic: Topic::MakeMoveCmd,
            key: GAME_TEXT.to_string()
        }
    );
    let history = KafkaCommands::ProvideHistory(ProvideHistoryCommand {
        game_id: GAME,
        req_id: ReqId(2),
    });
    assert_eq!(
        route(&history),
        Outgoing {
            topic: Topic::ProvideHistoryCmd,
            key: GAME_TEXT.to_string()
        }
    );
}

#[test]
fn commands_of_a_client_are_keyed_by_the_client() {
    let cases = [
        (
            KafkaCommands::JoinPrivateGame(JoinPrivateGameKafkaCommand {
                game_id: GAME,
                client_id: CLIENT,
            }),
            Topic::JoinPrivateGameCmd,
        ),
        (
            KafkaCommands::FindPublicGame(FindPublicGameKafkaCommand { client_id: CLIENT }),
            Topic::FindPublicGameCmd,
        ),
        (
            KafkaCommands::CreateGame(CreateGameKafkaCommand {
                client_id: CLIENT,
                visibility: Visibility::Private,
            }),
            Topic::CreateGameCmd,
        ),
        (
            KafkaCommands::ChooseColorPref(ChooseColorPrefKafkaCommand {
                client_id: CLIENT,
                color_pref: ColorPref::Any,
            }),
            Topic::ChooseColorPrefCmd,
        ),
        (
            KafkaCommands::ClientHeartbeat(ClientHeartbeat {
                client_id: CLIENT,
                heartbeat_type: HeartbeatType::WebSocketPong,
            }),
            Topic::ClientHeartbeat,
        ),
    ];
    for (cmd, topic) in cases {
        assert_eq!(
            route(&cmd),
            Outgoing {
                topic,
                key: CLIENT_TEXT.to_string()
            }
        );
    }
    assert_eq!(APP_NAME, "gateway");
    assert_ne!(HeartbeatType::WebSocketPong, HeartbeatType::UserInterfaceBeep);
}

#[test]
fn topics_have_their_canonical_names() {
    let names = [
        (Topic::MakeMoveCmd, "make-move-cmd"),
        (Topic::MoveAcceptedEv, "move-accepted-ev"),
        (Topic::MoveMadeEv, "move-made-ev"),
        (Topic::MoveRejectedEv, "move-rejected-ev"),
        (Topic::GameStatesChangelog, "game-states-changelog"),
        (Topic::GameReadyEv, "game-ready-ev"),
        (Topic::WaitForOpponentEv, "wait-for-opponent-ev"),
        (Topic::PrivateGameRejectedEv, "private-game-rejected-ev"),
        (Topic::JoinPrivateGameCmd, "join-private-game-cmd"),
        (Topic::FindPublicGameCmd, "find-public-game-cmd"),
        (Topic::CreateGameCmd, "create-game-cmd"),
        (Topic::ChooseColorPrefCmd, "choose-color-pref-cmd"),
        (Topic::ColorsChosenEv, "colors-chosen-ev"),
        (Topic::ClientHeartbeat, "client-heartbeat"),
        (Topic::AttachBotCmd, "attach-bot-cmd"),
        (Topic::BotAttachedEv, "bot-attached-ev"),
        (Topic::UndoMoveCmd, "undo-move-cmd"),
        (Topic::MoveUndoneEv, "move-undone-ev"),
        (Topic::ProvideHistoryCmd, "provide-history-cmd"),
        (Topic::HistoryProvidedEv, "history-provided-ev"),
    ];
    for (topic, name) in names {
        assert_eq!(topic.name(), name);
    }
    assert!(same_text("abc", "abc"));
    assert!(!same_text("abc", "abd"));
    assert!(!same_text("abc", "ab"));
}

#[test]
fn events_are_told_apart_by_topic() {
    assert_eq!(event_kind("move-made-ev"), Some(EventKind::MoveMade));
    assert_eq!(event_kind("history-provided-ev"), Some(EventKind::HistoryProvided));
    assert_eq!(
        event_kind("private-game-rejected-ev"),
        Some(EventKind::PrivateGameRejected)
    );
    assert_eq!(event_kind("game-ready-ev"), Some(EventKind::GameReady));
    assert_eq!(event_kind("wait-for-opponent-ev"), Some(EventKind::WaitForOpponent));
    assert_eq!(event_kind("colors-chosen-ev"), Some(EventKind::ColorsChosen));
    assert_eq!(event_kind("make-move-cmd"), None);
    assert_eq!(event_kind(""), None);
    assert_eq!(event_kind("MOVE-MADE-EV"), None);
    assert_eq!(
        consume_topics(),
        vec![
            Topic::MoveMadeEv,
            Topic::HistoryProvidedEv,
            Topic::PrivateGameRejectedEv,
            Topic::GameReadyEv,
            Topic::WaitForOpponentEv,
            Topic::ColorsChosenEv
        ]
    );
    for topic in consume_topics() {
        assert!(event_kind(topic.name()).is_some());
    }
}

#[test]
fn events_go_to_the_sessions_they_concern() {
    let in_game = session(Some(GAME));
    let elsewhere = session(Some(GameId(1)));
    let idle = session(None);
    let made = KafkaEvents::MoveMade(MoveMade {
        game_id: GAME,
        reply_to: ReqId(1),
        player: Player::BLACK,
        coord: MoveCoord::Pass,
        captured: vec![],
        event_id: EventId(1),
    });
    assert!(is_interested(&in_game, &made));
    assert!(!is_interested(&elsewhere, &made));
    assert!(!is_interested(&idle, &made));
    let history = KafkaEvents::HistoryProvided(HistoryProvidedEvent {
        game_id: GAME,
        reply_to: ReqId(1),
        event_id: EventId(2),
        moves: vec![],
    });
    assert!(is_interested(&in_game, &history));
    assert!(!is_interested(&idle, &history));
    let ready = KafkaEvents::GameReady(GameReady {
        game_id: GAME,
        event_id: EventId(3),
        players: (ClientId(1), CLIENT),
        board_size: 19,
    });
    assert!(is_interested(&idle, &ready));
    let not_ours = KafkaEvents::GameReady(GameReady {
        game_id: GAME,
        event_id: EventId(3),
        players: (ClientId(1), ClientId(2)),
        board_size: 19,
    });
    assert!(!is_interested(&in_game, &not_ours));
    let wait = KafkaEvents::WaitForOpponent(WaitForOpponent {
        game_id: GAME,
        client_id: CLIENT,
        event_id: EventId(4),
        visibility: Visibility::Public,
    });
    assert!(is_interested(&idle, &wait));
    let rejected = KafkaEvents::PrivateGameRejected(PrivateGameRejected {
        game_id: GAME,
        client_id: ClientId(2),
        event_id: EventId(5),
    });
    assert!(!is_interested(&idle, &rejected));
    let colors = KafkaEvents::ColorsChosen(ColorsChosen {
        game_id: GAME,
        black: ClientId(2),
        white: CLIENT,
    });
    assert!(is_interested(&idle, &colors));
}

#[test]
fn client_commands_carry_the_client_of_the_session() {
    let s = session(None);
    assert_eq!(
        on_client_command(&s, &ClientCommands::FindPublicGame, None),
        Routed::Publish(KafkaCommands::FindPublicGame(FindPublicGameKafkaCommand {
            client_id: CLIENT
        }))
    );
    assert_eq!(
        on_client_command(&s, &ClientCommands::JoinPrivateGame { game_id: GAME }, None),
        Routed::Publish(KafkaCommands::JoinPrivateGame(JoinPrivateGameKafkaCommand {
            game_id: GAME,
            client_id: CLIENT
        }))
    );
    assert_eq!(
        on_client_command(
            &s,
            &ClientCommands::CreateGame {
                visibility: Visibility::Private
            },
            None
        ),
        Routed::Publish(KafkaCommands::CreateGame(CreateGameKafkaCommand {
            client_id: CLIENT,
            visibility: Visibility::Private
        }))
    );
    assert_eq!(
        on_client_command(
            &s,
            &ClientCommands::ChooseColorPref {
                color_pref: ColorPref::White
            },
            None
        ),
        Routed::Publish(KafkaCommands::ChooseColorPref(ChooseColorPrefKafkaCommand {
            client_id: CLIENT,
            color_pref: ColorPref::White
        }))
    );
    assert_eq!(
        on_client_command(
            &s,
            &ClientCommands::Heartbeat {
                heartbeat_type: HeartbeatType::UserInterfaceBeep
            },
            None
        ),
        Routed::Publish(KafkaCommands::ClientHeartbeat(ClientHeartbeat {
            client_id: CLIENT,
            heartbeat_type: HeartbeatType::UserInterfaceBeep
        }))
    );
    assert_eq!(
        on_client_command(&s, &ClientCommands::RequestIdleStatus, None),
        Routed::AskMonitor(RequestIdleStatus(CLIENT))
    );
}

#[test]
fn client_moves_in_the_colour_that_was_chosen() {
    let s = session(Some(GAME));
    let cmd = ClientCommands::MakeMove {
        game_id: GAME,
        req_id: ReqId(5),
        coord: MoveCoord::At(Coord::of(3, 4)),
    };
    let as_white = ColorsChosen {
        game_id: GAME,
        black: ClientId(77),
        white: CLIENT,
    };
    assert_eq!(
        on_client_command(&s, &cmd, Some(as_white)),
        Routed::Publish(KafkaCommands::MakeMove(MakeMoveCommand {
            game_id: GAME,
            req_id: ReqId(5),
            player: Player::WHITE,
            coord: MoveCoord::At(Coord::of(3, 4)),
        }))
    );
    let as_black = ColorsChosen {
        game_id: GAME,
        black: CLIENT,
        white: ClientId(77),
    };
    assert!(matches!(
        on_client_command(&s, &cmd, Some(as_black)),
        Routed::Publish(KafkaCommands::MakeMove(m)) if m.player == Player::BLACK
    ));
    let other_game = ColorsChosen {
        game_id: GameId(1),
        black: CLIENT,
        white: ClientId(77),
    };
    assert_eq!(on_client_command(&s, &cmd, Some(other_game)), Routed::Refused);
    let strangers = ColorsChosen {
        game_id: GAME,
        black: ClientId(76),
        white: ClientId(77),
    };
    assert_eq!(on_client_command(&s, &cmd, Some(strangers)), Routed::Refused);
    assert_eq!(on_client_command(&s, &cmd, None), Routed::Refused);
}

#[test]
fn session_follows_its_client_into_a_game() {
    let s = session(None);
    let wait = KafkaEvents::WaitForOpponent(WaitForOpponent {
        game_id: GAME,
        client_id: CLIENT,
        event_id: EventId(4),
        visibility: Visibility::Public,
    });
    assert_eq!(on_event(&s, &wait).current_game, Some(GAME));
    let ready = KafkaEvents::GameReady(GameReady {
        game_id: GameId(8),
        event_id: EventId(3),
        players: (CLIENT, ClientId(1)),
        board_size: 19,
    });
    let joined = on_event(&on_event(&s, &wait), &ready);
    assert_eq!(joined.current_game, Some(GameId(8)));
    assert_eq!(joined.client_id, CLIENT);
    let not_ours = KafkaEvents::GameReady(GameReady {
        game_id: GameId(9),
        event_id: EventId(3),
        players: (ClientId(2), ClientId(1)),
        board_size: 19,
    });
    assert_eq!(on_event(&joined, &not_ours), joined);
    let colors = KafkaEvents::ColorsChosen(ColorsChosen {
        game_id: GameId(9),
        black: CLIENT,
        white: ClientId(1),
    });
    assert_eq!(on_event(&joined, &colors), joined);
}

#[test]
fn session_goes_idle_after_the_timeout() {
    let s = on_pong(&session(None), UtcTime { secs: 1000, nanos: 5 });
    assert_eq!(s.last_pong_at, UtcTime { secs: 1000, nanos: 5 });
    assert!(!is_idle(&s, UtcTime { secs: 1030, nanos: 0 }, 30));
    assert!(is_idle(&s, UtcTime { secs: 1031, nanos: 0 }, 30));
    assert!(!is_idle(&s, UtcTime { secs: 900, nanos: 0 }, 30));
    let early = on_pong(&s, UtcTime { secs: i64::MIN, nanos: 0 });
    assert!(is_idle(&early, UtcTime { secs: i64::MAX, nanos: 0 }, u32::MAX));
    assert!(!is_idle(&early, UtcTime { secs: i64::MIN + 5, nanos: 0 }, 5));
    assert!(is_idle(&early, UtcTime { secs: i64::MIN + 6, nanos: 0 }, 5));
}
