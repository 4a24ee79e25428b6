use bugout::botlink::{BotAttached, Botness};
use bugout::codec::encode;
use bugout::config::{
    after_failure, configure, exit_code, AfterFailure, Config, ConfigError, Exit, Options,
};
use bugout::entry_id::XReadEntryId;
use bugout::model::{Coord, DeserError, MakeMoveCommand, MoveCoord, Player};
use bugout::gateway::topics::Topic;
use bugout::game_state::GameState;
use bugout::ids::{GameId, ReqId, SessionId};
use bugout::repo::{
    bot_attached_key, consume_bot_attached, consume_log, entry_ids_key, game_states_key,
    session_key, undo_history_key, waiting_private_key, waiting_public_key, GameStatesRepo,
    RedisKeyNamespace, DEFAULT_NAMESPACE, EXPIRY_SECS,
};
use bugout::undo::{
    game_states_handler, is_data_key, names_data, StreamInput, BLOCK_MS, CONSUMER_NAME, DATA_ID,
    GROUP_NAME,
};
use bugout::xread::{
    command_from_parts, deser, find_field, find_text, parse_player, parse_u16, read_entry,
    sort_entries, state_from_parts, text_lt, value_text, xread_args, xread_sort, AllEntryIds,
    Field, StreamData,
    StreamEntry, StreamTopics, TopicEntries, TopicKind, BLOCK_MSEC,
};

const GAME: GameId = GameId(0x936d_a01f_9abd_4d9d_80c7_02af_85c8_22a8);
const GAME_TEXT: &str = "936da01f-9abd-4d9d-80c7-02af85c822a8";
const REQ_TEXT: &str = "00000000-0000-0000-0000-00000000002a";

fn field(name: &str, value: &[u8]) -> Field {
    Field {
        name: name.to_string(),
        value: value.to_vec(),
    }
}

fn text(name: &str, value: &str) -> Field {
    field(name, value.as_bytes())
}

fn move_fields(player: &str, extra: &[(&str, &str)]) -> Vec<Field> {
    let mut fields = vec![
        text("game_id", GAME_TEXT),
        text("req_id", REQ_TEXT),
        text("player", player),
    ];
    for (name, value) in extra {
        fields.push(text(name, value));
    }
    fields
}

fn command(player: Player, coord: MoveCoord) -> MakeMoveCommand {
    MakeMoveCommand {
        game_id: GAME,
        req_id: ReqId(42),
        player,
        coord,
    }
}

fn topics() -> StreamTopics {
    StreamTopics {
        make_move_cmd: "make-move-cmd".to_string(),
        game_states_changelog: "game-states-changelog".to_string(),
    }
}

fn ns() -> RedisKeyNamespace {
    RedisKeyNamespace(DEFAULT_NAMESPACE.to_string())
}

fn eid(millis_time: u64, seq_no: u64) -> XReadEntryId {
    XReadEntryId {
        millis_time,
        seq_no,
    }
}

#[test]
fn command_is_read_from_fields() {
    assert_eq!(
        MakeMoveCommand::from(&move_fields("BLACK", &[("coord_x", "3"), ("coord_y", "15")])),
        Ok(command(Player::BLACK, MoveCoord::At(Coord::of(3, 15))))
    );
    assert_eq!(
        MakeMoveCommand::from(&move_fields("WHITE", &[])),
        Ok(command(Player::WHITE, MoveCoord::Pass))
    );
    assert_eq!(
        MakeMoveCommand::from(&move_fields("WHITE", &[("coord_x", "3")])),
        Ok(command(Player::WHITE, MoveCoord::Pass))
    );
    assert_eq!(
        MakeMoveCommand::from(&move_fields("WHITE", &[("resign", "true")])),
        Ok(command(Player::WHITE, MoveCoord::Resign))
    );
    assert_eq!(
        MakeMoveCommand::from(&move_fields("WHITE", &[("resign", "no")])),
        Ok(command(Player::WHITE, MoveCoord::Pass))
    );
    assert_eq!(
        MakeMoveCommand::from(&move_fields(
            "BLACK",
            &[("coord_x", "1"), ("coord_y", "2"), ("resign", "true")]
        )),
        Ok(command(Player::BLACK, MoveCoord::At(Coord::of(1, 2))))
    );
}

#[test]
fn command_needs_game_request_and_player() {
    assert_eq!(
        MakeMoveCommand::from(&move_fields("black", &[])),
        Err(DeserError)
    );
    assert_eq!(MakeMoveCommand::from(&vec![]), Err(DeserError));
    let mut fields = move_fields("BLACK", &[]);
    fields[0] = text("game_id", "not an id");
    assert_eq!(MakeMoveCommand::from(&fields), Err(DeserError));
    let mut fields = move_fields("BLACK", &[]);
    fields[1] = field("req_id", &[0xff, 0xfe]);
    assert_eq!(MakeMoveCommand::from(&fields), Err(DeserError));
    let mut fields = move_fields("BLACK", &[]);
    fields.remove(2);
    assert_eq!(MakeMoveCommand::from(&fields), Err(DeserError));
}

#[test]
fn command_is_put_together_from_its_parts() {
    assert_eq!(
        command_from_parts(
            Some(GAME.0),
            Some(42),
            Some(Player::BLACK),
            Some(1),
            Some(2),
            false
        ),
        Some(command(Player::BLACK, MoveCoord::At(Coord::of(1, 2))))
    );
    assert_eq!(
        command_from_parts(Some(GAME.0), Some(42), Some(Player::BLACK), None, Some(2), true),
        Some(command(Player::BLACK, MoveCoord::Resign))
    );
    assert_eq!(
        command_from_parts(Some(GAME.0), Some(42), Some(Player::BLACK), Some(1), None, false),
        Some(command(Player::BLACK, MoveCoord::Pass))
    );
    assert_eq!(
        command_from_parts(None, Some(42), Some(Player::BLACK), Some(1), Some(2), false),
        None
    );
    assert_eq!(
        command_from_parts(Some(GAME.0), None, Some(Player::BLACK), Some(1), Some(2), false),
        None
    );
    assert_eq!(
        command_from_parts(Some(GAME.0), Some(42), None, Some(1), Some(2), false),
        None
    );
}

#[test]
fn fields_are_found_by_name() {
    let fields = vec![
        text("a", "first"),
        text("b", "second"),
        text("a", "third"),
        field("raw", &[0xc3, 0x28]),
        text("word", "grüß"),
    ];
    assert_eq!(find_field(&fields, "a"), Some(&b"first".to_vec()));
    assert_eq!(find_field(&fields, "b"), Some(&b"second".to_vec()));
    assert_eq!(find_field(&fields, "c"), None);
    assert_eq!(find_text(&fields, "a"), Some("first"));
    assert_eq!(find_text(&fields, "raw"), None);
    assert_eq!(find_text(&fields, "word"), Some("grüß"));
    assert_eq!(find_text(&fields, "A"), None);
    assert_eq!(value_text(&vec![0x68, 0x69]), Some("hi"));
    assert_eq!(value_text(&vec![]), Some(""));
    assert_eq!(value_text(&vec![0x80]), None);
}

#[test]
fn players_and_coordinates_are_read_from_text() {
    assert_eq!(parse_player("BLACK"), Some(Player::BLACK));
    assert_eq!(parse_player("WHITE"), Some(Player::WHITE));
    assert_eq!(parse_player("white"), None);
    assert_eq!(parse_player(""), None);
    assert_eq!(parse_u16("0"), Some(0));
    assert_eq!(parse_u16("65535"), Some(65535));
    assert_eq!(parse_u16("65536"), None);
    assert_eq!(parse_u16("+18"), Some(18));
    assert_eq!(parse_u16("-1"), None);
    assert_eq!(parse_u16(""), None);
    assert_eq!(parse_u16("1 "), None);
}

#[test]
fn entries_are_read_by_kind_of_topic() {
    let state = GameState::new(19);
    let good_move = StreamEntry {
        id: "10-1".to_string(),
        fields: move_fields("BLACK", &[("coord_x", "3"), ("coord_y", "3")]),
    };
    assert_eq!(
        read_entry(TopicKind::MakeMove, &good_move),
        Some((
            eid(10, 1),
            StreamData::MM(command(Player::BLACK, MoveCoord::At(Coord::of(3, 3))))
        ))
    );
    assert_eq!(read_entry(TopicKind::GameStates, &good_move), None);
    let good_state = StreamEntry {
        id: "9-0".to_string(),
        fields: vec![text("game_id", GAME_TEXT), field("data", &encode(&state))],
    };
    assert_eq!(
        read_entry(TopicKind::GameStates, &good_state),
        Some((eid(9, 0), StreamData::GS(GAME, state.clone())))
    );
    assert_eq!(read_entry(TopicKind::MakeMove, &good_state), None);
    let bad_id = StreamEntry {
        id: "9".to_string(),
        fields: good_state.fields.clone(),
    };
    assert_eq!(read_entry(TopicKind::GameStates, &bad_id), None);
    let bad_data = StreamEntry {
        id: "9-0".to_string(),
        fields: vec![text("game_id", GAME_TEXT), field("data", &[1, 2, 3])],
    };
    assert_eq!(read_entry(TopicKind::GameStates, &bad_data), None);
    let no_game = StreamEntry {
        id: "9-0".to_string(),
        fields: vec![field("data", &encode(&state))],
    };
    assert_eq!(read_entry(TopicKind::GameStates, &no_game), None);
}

fn sample_read() -> Vec<TopicEntries> {
    let state = GameState::new(19);
    vec![
        TopicEntries {
            topic: "make-move-cmd".to_string(),
            entries: vec![
                StreamEntry {
                    id: "20-0".to_string(),
                    fields: move_fields("BLACK", &[("coord_x", "3"), ("coord_y", "3")]),
                },
                StreamEntry {
                    id: "garbage".to_string(),
                    fields: move_fields("BLACK", &[]),
                },
                StreamEntry {
                    id: "10-5".to_string(),
                    fields: move_fields("WHITE", &[]),
                },
                StreamEntry {
                    id: "30-0".to_string(),
                    fields: move_fields("nobody", &[]),
                },
            ],
        },
        TopicEntries {
            topic: "something-else".to_string(),
            entries: vec![StreamEntry {
                id: "1-1".to_string(),
                fields: move_fields("BLACK", &[]),
            }],
        },
        TopicEntries {
            topic: "game-states-changelog".to_string(),
            entries: vec![
                StreamEntry {
                    id: "10-4".to_string(),
                    fields: vec![text("game_id", GAME_TEXT), field("data", &encode(&state))],
                },
                StreamEntry {
                    id: "20-0".to_string(),
                    fields: vec![text("game_id", GAME_TEXT), field("data", &encode(&state))],
                },
            ],
        },
    ]
}

#[test]
fn what_was_read_is_taken_in_in_order() {
    let state = GameState::new(19);
    let placed = command(Player::BLACK, MoveCoord::At(Coord::of(3, 3)));
    let items = deser(&sample_read(), &topics());
    assert_eq!(
        items,
        vec![
            (eid(20, 0), StreamData::MM(placed)),
            (eid(10, 5), StreamData::MM(command(Player::WHITE, MoveCoord::Pass))),
            (eid(10, 4), StreamData::GS(GAME, state.clone())),
            (eid(20, 0), StreamData::GS(GAME, state.clone())),
        ]
    );
    assert_eq!(deser(&vec![], &topics()), vec![]);
}

#[test]
fn later_entry_of_a_stream_takes_the_place_of_an_earlier_one() {
    let read = vec![
        TopicEntries {
            topic: "make-move-cmd".to_string(),
            entries: vec![
                StreamEntry {
                    id: "5-0".to_string(),
                    fields: move_fields("BLACK", &[]),
                },
                StreamEntry {
                    id: "6-0".to_string(),
                    fields: move_fields("WHITE", &[]),
                },
            ],
        },
        TopicEntries {
            topic: "make-move-cmd".to_string(),
            entries: vec![StreamEntry {
                id: "5-0".to_string(),
                fields: move_fields("WHITE", &[("resign", "true")]),
            }],
        },
    ];
    assert_eq!(
        deser(&read, &topics()),
        vec![
            (eid(5, 0), StreamData::MM(command(Player::WHITE, MoveCoord::Resign))),
            (eid(6, 0), StreamData::MM(command(Player::WHITE, MoveCoord::Pass))),
        ]
    );
}

#[test]
fn what_was_read_is_sorted_by_entry_id() {
    let state = GameState::new(19);
    let placed = command(Player::BLACK, MoveCoord::At(Coord::of(3, 3)));
    let answer = xread_sort(&sample_read(), &topics());
    assert_eq!(
        answer,
        vec![
            (eid(10, 4), StreamData::GS(GAME, state.clone())),
            (eid(10, 5), StreamData::MM(command(Player::WHITE, MoveCoord::Pass))),
            (eid(20, 0), StreamData::GS(GAME, state.clone())),
            (eid(20, 0), StreamData::MM(placed)),
        ]
    );
}

#[test]
fn ties_go_to_the_topic_whose_name_comes_first() {
    let state = GameState::new(19);
    let renamed = StreamTopics {
        make_move_cmd: "a-commands".to_string(),
        game_states_changelog: "b-states".to_string(),
    };
    let read = vec![
        TopicEntries {
            topic: "b-states".to_string(),
            entries: vec![StreamEntry {
                id: "7-7".to_string(),
                fields: vec![text("game_id", GAME_TEXT), field("data", &encode(&state))],
            }],
        },
        TopicEntries {
            topic: "a-commands".to_string(),
            entries: vec![StreamEntry {
                id: "7-7".to_string(),
                fields: move_fields("BLACK", &[]),
            }],
        },
    ];
    assert_eq!(
        xread_sort(&read, &renamed),
        vec![
            (eid(7, 7), StreamData::MM(command(Player::BLACK, MoveCoord::Pass))),
            (eid(7, 7), StreamData::GS(GAME, state.clone())),
        ]
    );
}

#[test]
fn sort_orders_by_time_then_sequence() {
    let pass = |p: Player| StreamData::MM(command(p, MoveCoord::Pass));
    let state = || StreamData::GS(GAME, GameState::new(9));
    let foo = (eid(2, 0), pass(Player::BLACK));
    let bar = (eid(1, 10), pass(Player::WHITE));
    let baz = (eid(1, 1), pass(Player::BLACK));
    let tie = (eid(1, 10), state());
    let sorted = sort_entries(
        vec![foo.clone(), bar.clone(), baz.clone(), tie.clone()],
        true,
    );
    assert_eq!(
        sorted,
        vec![baz.clone(), bar.clone(), tie.clone(), foo.clone()]
    );
    let sorted = sort_entries(
        vec![foo.clone(), bar.clone(), baz.clone(), tie.clone()],
        false,
    );
    assert_eq!(sorted, vec![baz, tie, bar, foo]);
    assert_eq!(sort_entries(vec![], true), vec![]);
}

#[test]
fn texts_are_compared_as_in_the_dictionary() {
    assert!(text_lt("game-states-changelog", "make-move-cmd"));
    assert!(!text_lt("make-move-cmd", "game-states-changelog"));
    assert!(!text_lt("abc", "abc"));
    assert!(text_lt("ab", "abc"));
    assert!(!text_lt("abc", "ab"));
    assert!(text_lt("", "a"));
    assert!(!text_lt("", ""));
    assert!(text_lt("Z", "a"));
    assert!(text_lt("z", "é"));
    for (a, b) in [("x", "y"), ("abc", "abd"), ("a", "ab"), ("é", "z"), ("", "")] {
        assert_eq!(text_lt(a, b), a < b);
        assert_eq!(text_lt(b, a), b < a);
    }
}

#[test]
fn read_asks_for_both_streams() {
    let ids = AllEntryIds {
        make_moves_eid: eid(1518951480106, 0),
        game_states_eid: eid(0, 0),
    };
    assert_eq!(
        xread_args(&ids, &topics()),
        vec![
            "BLOCK",
            "5000",
            "STREAMS",
            "make-move-cmd",
            "game-states-changelog",
            "1518951480106-0",
            "0-0"
        ]
    );
    assert_eq!(BLOCK_MSEC, 5000);
}

#[test]
fn keys_are_namespace_entity_id() {
    let ns = ns();
    assert_eq!(
        game_states_key(&ns, &GAME),
        format!("BUGOUT:game-states:{}", GAME_TEXT)
    );
    assert_eq!(
        bot_attached_key(&ns, &GAME),
        format!("BUGOUT:bot-attached:{}", GAME_TEXT)
    );
    assert_eq!(
        session_key(&ns, &SessionId(0x2a)),
        format!("BUGOUT:session:{}", REQ_TEXT)
    );
    assert_eq!(entry_ids_key(&ns), "BUGOUT:entry-ids");
    assert_eq!(waiting_public_key(&ns), "BUGOUT:waiting-public");
    assert_eq!(
        waiting_private_key(&ns, &GAME),
        format!("BUGOUT:waiting-private:{}", GAME_TEXT)
    );
    assert_eq!(
        undo_history_key(&RedisKeyNamespace("BUGTEST".to_string()), &GAME),
        format!("BUGTEST:undo-history:{}", GAME_TEXT)
    );
    assert_eq!(EXPIRY_SECS, 24 * 60 * 60);
}

#[test]
fn game_states_are_kept_under_their_game() {
    let repo = GameStatesRepo { namespace: ns() };
    let state = GameState::new(19);
    let write = repo.put(&GAME, &state);
    assert_eq!(write.key, format!("BUGOUT:game-states:{}", GAME_TEXT));
    assert_eq!(write.key, repo.key(&GAME));
    assert_eq!(write.value, encode(&state));
    assert_eq!(write.expiry_secs, 86400);
    assert_eq!(repo.read(&write.value), Ok(state.clone()));
    assert_eq!(repo.read(&[]), Err(DeserError));
    assert_eq!(consume_log(&GAME, &state, &repo), write);
}

#[test]
fn attached_bots_are_kept_under_their_game() {
    let news = BotAttached {
        game_id: GAME,
        player: Player::WHITE,
    };
    let write = consume_bot_attached(&news, &Botness::none(), &ns());
    assert_eq!(write.key, format!("BUGOUT:bot-attached:{}", GAME_TEXT));
    assert_eq!(write.value, vec![0, 1]);
    assert_eq!(write.expiry_secs, 86400);
}

#[test]
fn payload_field_is_found_whatever_its_case() {
    for key in ["data", "DATA", " Data ", "\tdata\n", "dAtA"] {
        assert!(is_data_key(key), "{:?}", key);
    }
    for key in ["", "dat", "data1", "d ata", "game_id"] {
        assert!(!is_data_key(key), "{:?}", key);
    }
    assert!(names_data("data"));
    assert!(!names_data(" data"));
    assert!(!names_data("DATA"));
    assert_eq!(DATA_ID, "data");
    assert_eq!(GROUP_NAME, "undo");
    assert_eq!(CONSUMER_NAME, "singleton");
    assert_eq!(BLOCK_MS, 5000);
}

#[test]
fn game_states_are_taken_from_the_changelog() {
    let state = GameState::new(9);
    let message = vec![
        text("game_id", GAME_TEXT),
        field(" DATA ", &encode(&state)),
        field("data", &[1, 2, 3]),
        field("Data", &encode(&GameState::new(13))),
    ];
    assert_eq!(
        game_states_handler(&message),
        vec![
            (" DATA ".to_string(), StreamInput::LOG(state)),
            ("Data".to_string(), StreamInput::LOG(GameState::new(13))),
        ]
    );
    assert_eq!(game_states_handler(&vec![]), vec![]);
}

fn no_options() -> Options {
    Options {
        brokers: None,
        redis_url: None,
        redis_namespace: None,
        app_name: None,
        board_size: None,
    }
}

#[test]
fn configuration_has_its_defaults() {
    assert_eq!(
        configure(&no_options(), "judge"),
        Ok(Config {
            brokers: None,
            redis_url: None,
            namespace: RedisKeyNamespace("BUGOUT".to_string()),
            app_name: "judge".to_string(),
            board_size: 19,
        })
    );
}

#[test]
fn configuration_takes_what_it_is_given() {
    let options = Options {
        brokers: Some("kafka-1:9092,kafka-2:9092".to_string()),
        redis_url: Some("redis://redis/".to_string()),
        redis_namespace: Some("BUGTEST".to_string()),
        app_name: Some("gateway-2".to_string()),
        board_size: Some("9".to_string()),
    };
    assert_eq!(
        configure(&options, "gateway"),
        Ok(Config {
            brokers: Some("kafka-1:9092,kafka-2:9092".to_string()),
            redis_url: Some("redis://redis/".to_string()),
            namespace: RedisKeyNamespace("BUGTEST".to_string()),
            app_name: "gateway-2".to_string(),
            board_size: 9,
        })
    );
}

#[test]
fn configuration_refuses_a_bad_board_size() {
    for bad in ["", "nineteen", "65536", "-1", "19 "] {
        let mut options = no_options();
        options.board_size = Some(bad.to_string());
        assert_eq!(configure(&options, "judge"), Err(ConfigError::BadBoardSize));
    }
}

#[test]
fn exit_codes() {
    assert_eq!(exit_code(Exit::Normal), 0);
    assert_eq!(exit_code(Exit::Configuration), 1);
    assert_eq!(exit_code(Exit::Bus), 2);
    assert_eq!(exit_code(Exit::Store), 3);
}

#[test]
fn failed_writes_of_state_are_tried_again() {
    for topic in [
        Topic::MoveAcceptedEv,
        Topic::MoveMadeEv,
        Topic::GameStatesChangelog,
    ] {
        assert_eq!(after_failure(topic, 1), AfterFailure::RetryAfter(50));
        assert_eq!(after_failure(topic, 2), AfterFailure::RetryAfter(100));
        assert_eq!(after_failure(topic, 3), AfterFailure::RetryAfter(200));
        assert_eq!(after_failure(topic, 4), AfterFailure::RetryAfter(500));
        assert_eq!(after_failure(topic, 5), AfterFailure::RetryAfter(1000));
        assert_eq!(after_failure(topic, 6), AfterFailure::GiveUp);
        assert_eq!(after_failure(topic, u32::MAX), AfterFailure::GiveUp);
        assert_eq!(after_failure(topic, 0), AfterFailure::GiveUp);
    }
    for topic in [Topic::MakeMoveCmd, Topic::GameReadyEv, Topic::ClientHeartbeat] {
        assert_eq!(after_failure(topic, 1), AfterFailure::Drop);
        assert_eq!(after_failure(topic, 6), AfterFailure::Drop);
    }
}

#[test]
fn game_state_is_put_together_from_its_parts() {
    let state = GameState::new(19);
    let bytes = encode(&state);
    assert_eq!(
        state_from_parts(Some(GAME.0), Some(&bytes)),
        Some((GAME, state))
    );
    assert_eq!(state_from_parts(None, Some(&bytes)), None);
    assert_eq!(state_from_parts(Some(GAME.0), None), None);
    assert_eq!(state_from_parts(Some(GAME.0), Some(&vec![0, 19])), None);
}
