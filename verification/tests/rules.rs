use bugout::board::Board;
use bugout::changelog::{
    apply, materialize, on_game_ready, replay, ApplyError, ChangelogError, ChangelogInput,
    Materialized, ReplayError,
};
use bugout::codec::{decode, encode};
use bugout::events::GameReady;
use bugout::game_state::{GamePhase, GameState, DEFAULT_BOARD_SIZE};
use bugout::groups::{explore, group_of, liberties_of};
use bugout::ids::{ClientId, EventId, GameId, ReqId};
use bugout::judge::{judge, Judgement, MoveRejected, RejectReason};
use bugout::model::{Captures, Coord, MakeMoveCommand, MoveCoord, MoveMade, Player, Stone};

const G1: GameId = GameId(0x0123_4567_89ab_4def_8123_4567_89ab_cdef);

fn stone_cmd(n: u128, player: Player, x: u16, y: u16) -> MakeMoveCommand {
    MakeMoveCommand {
        game_id: G1,
        req_id: ReqId(n),
        player,
        coord: MoveCoord::At(Coord::of(x, y)),
    }
}

fn other_cmd(n: u128, player: Player, coord: MoveCoord) -> MakeMoveCommand {
    MakeMoveCommand {
        game_id: G1,
        req_id: ReqId(n),
        player,
        coord,
    }
}

fn accepted(state: &GameState, cmd: &MakeMoveCommand) -> MoveMade {
    assert!(state.is_well_formed());
    match judge(state, cmd, EventId(1000 + cmd.req_id.0)) {
        Judgement::Accepted(m) => m,
        Judgement::Rejected(r) => panic!("rejected: {:?}", r),
    }
}

fn rejected(state: &GameState, cmd: &MakeMoveCommand) -> MoveRejected {
    assert!(state.is_well_formed());
    match judge(state, cmd, EventId(1000 + cmd.req_id.0)) {
        Judgement::Accepted(m) => panic!("accepted: {:?}", m),
        Judgement::Rejected(r) => r,
    }
}

fn play(state: &GameState, cmd: &MakeMoveCommand) -> GameState {
    let m = accepted(state, cmd);
    let next = apply(state, &m).unwrap();
    assert!(next.is_well_formed());
    next
}

fn play_all(moves: &[(Player, u16, u16)]) -> GameState {
    let mut state = GameState::new(DEFAULT_BOARD_SIZE);
    let mut n: u128 = 1;
    for (player, x, y) in moves {
        state = play(&state, &stone_cmd(n, *player, *x, *y));
        n += 1;
    }
    state
}

fn ready() -> GameReady {
    GameReady {
        game_id: G1,
        event_id: EventId(1),
        players: (ClientId(11), ClientId(12)),
        board_size: 19,
    }
}

fn stones(list: &[(u16, u16, Player)]) -> Vec<Stone> {
    list.iter()
        .map(|(x, y, player)| Stone {
            coord: Coord::of(*x, *y),
            player: *player,
        })
        .collect()
}

#[test]
fn empty_capture() {
    let state = on_game_ready(&ready());
    assert_eq!(state, GameState::new(19));
    let move_made = MoveMade {
        game_id: G1,
        reply_to: ReqId(0),
        player: Player::BLACK,
        coord: MoveCoord::At(Coord::of(3, 3)),
        captured: vec![],
        event_id: EventId(7),
    };
    let after = apply(&state, &move_made).unwrap();
    let expected = GameState {
        board: Board {
            size: 19,
            stones: stones(&[(3, 3, Player::BLACK)]),
        },
        moves: vec![move_made],
        turn: 2,
        player_up: Player::WHITE,
        captures: Captures { black: 0, white: 0 },
    };
    assert_eq!(after, expected);
}

#[test]
fn test_process_move() {
    let game_id = G1;
    // Changelog expects a game ready event and will initialize
    // an empty game
    let started = materialize(
        None,
        &ChangelogInput::Ready(GameReady {
            game_id,
            event_id: EventId(1),
            players: (ClientId(11), ClientId(12)),
            board_size: 19,
        }),
    )
    .unwrap();

    let placement = Coord::of(0, 0);
    let move_made = MoveMade {
        game_id,
        reply_to: ReqId(0),
        captured: vec![],
        coord: MoveCoord::At(placement),
        event_id: EventId(99),
        player: Player::BLACK,
    };
    // Judge accepts a move
    let after = materialize(
        Some(&started.state),
        &ChangelogInput::Accepted(move_made.clone()),
    )
    .unwrap();
    // We should see something published to MOVE_MADE
    assert_ne!(after.made, None);
    assert_eq!(after.made, Some(move_made.clone()));

    let payload = encode(&after.state);
    let expected_game_state = GameState {
        board: Board {
            size: 19,
            stones: vec![Stone {
                coord: placement,
                player: Player::BLACK,
            }],
        },
        moves: vec![move_made],
        turn: 2,
        player_up: Player::WHITE,
        captures: Captures { black: 0, white: 0 },
    };
    assert_eq!(decode(&payload).unwrap(), expected_game_state);
}

#[test]
fn single_stone_capture() {
    let s0 = GameState::new(19);
    let s1 = play(&s0, &stone_cmd(1, Player::BLACK, 0, 1));
    let s2 = play(&s1, &stone_cmd(2, Player::WHITE, 0, 0));
    let third = accepted(&s2, &stone_cmd(3, Player::BLACK, 1, 0));
    assert_eq!(third.captured, vec![Coord::of(0, 0)]);
    assert_eq!(third.player, Player::BLACK);
    assert_eq!(third.coord, MoveCoord::At(Coord::of(1, 0)));
    assert_eq!(third.reply_to, ReqId(3));
    assert_eq!(third.game_id, G1);
    assert_eq!(third.event_id, EventId(1003));
    let s3 = apply(&s2, &third).unwrap();
    assert_eq!(
        s3.board,
        Board {
            size: 19,
            stones: stones(&[(0, 1, Player::BLACK), (1, 0, Player::BLACK)]),
        }
    );
    assert_eq!(s3.turn, 4);
    assert_eq!(s3.player_up, Player::WHITE);
    assert_eq!(s3.captures, Captures { black: 1, white: 0 });
    assert_eq!(s3.moves.len(), 3);
    assert_eq!(s3.moves[2].captured, vec![Coord::of(0, 0)]);
}

#[test]
fn suicide_rejected() {
    let state = GameState {
        board: Board {
            size: 19,
            stones: stones(&[(0, 1, Player::WHITE), (1, 0, Player::WHITE)]),
        },
        moves: vec![],
        turn: 1,
        player_up: Player::BLACK,
        captures: Captures { black: 0, white: 0 },
    };
    let before = state.clone();
    let r = rejected(&state, &stone_cmd(1, Player::BLACK, 0, 0));
    assert_eq!(
        r,
        MoveRejected {
            game_id: G1,
            reply_to: ReqId(1),
            reason: RejectReason::Suicide
        }
    );
    assert_eq!(state, before);
}

#[test]
fn suicide_rejected_after_play() {
    let state = play_all(&[
        (Player::BLACK, 5, 5),
        (Player::WHITE, 0, 1),
        (Player::BLACK, 5, 6),
        (Player::WHITE, 1, 0),
    ]);
    let r = rejected(&state, &stone_cmd(9, Player::BLACK, 0, 0));
    assert_eq!(r.reason, RejectReason::Suicide);
}

#[test]
fn capture_is_not_suicide() {
    // White on (0,0) would have no liberty, but takes the stone on (0,1).
    let state = GameState {
        board: Board {
            size: 19,
            stones: stones(&[
                (0, 1, Player::BLACK),
                (0, 2, Player::WHITE),
                (1, 0, Player::BLACK),
                (1, 1, Player::WHITE),
                (2, 0, Player::WHITE),
            ]),
        },
        moves: vec![],
        turn: 1,
        player_up: Player::BLACK,
        captures: Captures { black: 0, white: 0 },
    };
    let state = play(&state, &stone_cmd(1, Player::BLACK, 10, 10));
    let m = accepted(&state, &stone_cmd(2, Player::WHITE, 0, 0));
    assert_eq!(m.captured, vec![Coord::of(0, 1), Coord::of(1, 0)]);
    let after = apply(&state, &m).unwrap();
    assert_eq!(after.captures, Captures { black: 0, white: 2 });
    assert_eq!(after.board.get(Coord::of(0, 0)), Some(Player::WHITE));
    assert_eq!(after.board.get(Coord::of(0, 1)), None);
    assert_eq!(after.board.get(Coord::of(1, 0)), None);
}

fn ko_position() -> GameState {
    play_all(&[
        (Player::BLACK, 1, 0),
        (Player::WHITE, 2, 0),
        (Player::BLACK, 0, 1),
        (Player::WHITE, 3, 1),
        (Player::BLACK, 1, 2),
        (Player::WHITE, 2, 2),
        (Player::BLACK, 10, 10),
        (Player::WHITE, 1, 1),
    ])
}

#[test]
fn ko_rejected() {
    let before_capture = ko_position();
    let capture = accepted(&before_capture, &stone_cmd(9, Player::BLACK, 2, 1));
    assert_eq!(capture.captured, vec![Coord::of(1, 1)]);
    let after_capture = apply(&before_capture, &capture).unwrap();
    assert_eq!(after_capture.previous_board(), before_capture.board);
    let r = rejected(&after_capture, &stone_cmd(10, Player::WHITE, 1, 1));
    assert_eq!(r.reason, RejectReason::Ko);
}

#[test]
fn ko_may_be_retaken_after_a_move_elsewhere() {
    let s = ko_position();
    let s = play(&s, &stone_cmd(9, Player::BLACK, 2, 1));
    let s = play(&s, &stone_cmd(10, Player::WHITE, 15, 15));
    let s = play(&s, &stone_cmd(11, Player::BLACK, 15, 16));
    let retake = accepted(&s, &stone_cmd(12, Player::WHITE, 1, 1));
    assert_eq!(retake.captured, vec![Coord::of(2, 1)]);
}

#[test]
fn board_after_two_moves_differs_from_board_before() {
    let s0 = ko_position();
    let s1 = play(&s0, &stone_cmd(9, Player::BLACK, 2, 1));
    let s2 = play(&s1, &stone_cmd(10, Player::WHITE, 7, 7));
    assert_ne!(s2.board, s0.board);
    assert!(!s2.board.same_position(&s0.board));
}

#[test]
fn not_your_turn() {
    let state = GameState::new(19);
    let r = rejected(&state, &stone_cmd(1, Player::WHITE, 3, 3));
    assert_eq!(r.reason, RejectReason::NotYourTurn);
}

#[test]
fn occupied() {
    let state = play_all(&[(Player::BLACK, 3, 3)]);
    let r = rejected(&state, &stone_cmd(2, Player::WHITE, 3, 3));
    assert_eq!(r.reason, RejectReason::Occupied);
}

#[test]
fn out_of_bounds() {
    let state = GameState::new(19);
    for (x, y) in [(19, 0), (0, 19), (19, 19), (65535, 65535)] {
        let r = rejected(&state, &stone_cmd(1, Player::BLACK, x, y));
        assert_eq!(r.reason, RejectReason::OutOfBounds);
    }
    assert!(matches!(
        judge(&state, &stone_cmd(1, Player::BLACK, 18, 18), EventId(5)),
        Judgement::Accepted(_)
    ));
}

#[test]
fn game_over_after_resign() {
    let s = GameState::new(19);
    let s = play(&s, &other_cmd(1, Player::BLACK, MoveCoord::Resign));
    assert_eq!(s.turn, 2);
    assert_eq!(s.phase(), GamePhase::Terminal);
    assert!(s.is_over());
    for cmd in [
        stone_cmd(2, Player::WHITE, 3, 3),
        other_cmd(3, Player::WHITE, MoveCoord::Pass),
        other_cmd(4, Player::BLACK, MoveCoord::Resign),
    ] {
        assert_eq!(rejected(&s, &cmd).reason, RejectReason::GameOver);
    }
}

#[test]
fn game_over_after_two_passes() {
    let s = GameState::new(19);
    let s = play(&s, &other_cmd(1, Player::BLACK, MoveCoord::Pass));
    assert_eq!(s.phase(), GamePhase::Awaiting(Player::WHITE));
    let s = play(&s, &stone_cmd(2, Player::WHITE, 3, 3));
    let s = play(&s, &other_cmd(3, Player::BLACK, MoveCoord::Pass));
    assert!(!s.is_over());
    let s = play(&s, &other_cmd(4, Player::WHITE, MoveCoord::Pass));
    assert!(s.is_over());
    assert_eq!(s.turn, 5);
    assert_eq!(
        rejected(&s, &stone_cmd(5, Player::BLACK, 4, 4)).reason,
        RejectReason::GameOver
    );
}

#[test]
fn turn_counts_moves_and_players_alternate() {
    let mut state = GameState::new(19);
    assert_eq!(state.turn, 1);
    assert_eq!(state.player_up, Player::BLACK);
    let script = [
        stone_cmd(1, Player::BLACK, 3, 3),
        other_cmd(2, Player::WHITE, MoveCoord::Pass),
        stone_cmd(3, Player::BLACK, 4, 4),
        stone_cmd(4, Player::WHITE, 5, 5),
        other_cmd(5, Player::BLACK, MoveCoord::Pass),
        stone_cmd(6, Player::WHITE, 6, 6),
    ];
    for cmd in script.iter() {
        state = play(&state, cmd);
        assert_eq!(state.moves.len() as u32 + 1, state.turn);
        let expected = if state.turn % 2 == 1 {
            Player::BLACK
        } else {
            Player::WHITE
        };
        assert_eq!(state.player_up, expected);
    }
    assert_eq!(state.turn, 7);
}

#[test]
fn same_event_twice_is_applied_once() {
    let s0 = GameState::new(19);
    let m = accepted(&s0, &stone_cmd(1, Player::BLACK, 3, 3));
    let once = apply(&s0, &m).unwrap();
    let twice = apply(&once, &m).unwrap();
    assert_eq!(once, twice);
    assert_eq!(twice.turn, 2);
    assert_eq!(twice.moves.len(), 1);
}

#[test]
fn apply_refuses_what_breaks_the_state() {
    let s = play_all(&[(Player::BLACK, 3, 3)]);
    let base = MoveMade {
        game_id: G1,
        reply_to: ReqId(2),
        player: Player::WHITE,
        coord: MoveCoord::At(Coord::of(4, 4)),
        captured: vec![],
        event_id: EventId(77),
    };
    let mut m = base.clone();
    m.coord = MoveCoord::At(Coord::of(19, 4));
    assert_eq!(apply(&s, &m), Err(ApplyError::OutOfBounds));
    let mut m = base.clone();
    m.coord = MoveCoord::At(Coord::of(3, 3));
    assert_eq!(apply(&s, &m), Err(ApplyError::Occupied));
    let mut m = base.clone();
    m.captured = vec![Coord::of(9, 9)];
    assert_eq!(apply(&s, &m), Err(ApplyError::BadCapture));
    let mut m = base.clone();
    m.captured = vec![Coord::of(3, 3), Coord::of(3, 3)];
    assert_eq!(apply(&s, &m), Err(ApplyError::BadCapture));
    let mut m = base.clone();
    m.captured = vec![Coord::of(4, 4)];
    assert_eq!(apply(&s, &m), Err(ApplyError::BadCapture));
    let mut m = base.clone();
    m.coord = MoveCoord::Pass;
    m.captured = vec![Coord::of(3, 3)];
    assert_eq!(apply(&s, &m), Err(ApplyError::BadCapture));
    let mut m = base.clone();
    m.captured = vec![Coord::of(3, 3)];
    let after = apply(&s, &m).unwrap();
    assert_eq!(after.captures, Captures { black: 0, white: 1 });
    assert_eq!(after.board.stones, stones(&[(4, 4, Player::WHITE)]));
}

#[test]
fn replay_rebuilds_the_state() {
    let s = ko_position();
    assert_eq!(replay(19, &s.moves), Ok(s.clone()));
    assert_eq!(replay(19, &vec![]), Ok(GameState::new(19)));
    let mut twice = s.moves.clone();
    twice.extend(s.moves.iter().cloned());
    assert_eq!(replay(19, &twice), Ok(s.clone()));
    let mut broken = s.moves.clone();
    broken[3].coord = MoveCoord::At(Coord::of(1, 0));
    assert_eq!(
        replay(19, &broken),
        Err(ReplayError {
            at: 3,
            cause: ApplyError::Occupied
        })
    );
    assert_eq!(
        replay(3, &s.moves),
        Err(ReplayError {
            at: 3,
            cause: ApplyError::OutOfBounds
        })
    );
}

#[test]
fn board_keeps_its_stones_in_order() {
    let b = Board::new(9);
    let b = b.with_stone(Coord::of(2, 1), Player::BLACK);
    let b = b.with_stone(Coord::of(0, 5), Player::WHITE);
    let b = b.with_stone(Coord::of(2, 0), Player::WHITE);
    assert_eq!(
        b.stones,
        stones(&[
            (0, 5, Player::WHITE),
            (2, 0, Player::WHITE),
            (2, 1, Player::BLACK)
        ])
    );
    assert!(b.is_well_formed());
    assert_eq!(b.find(Coord::of(2, 0)), Some(1));
    assert_eq!(b.get(Coord::of(2, 1)), Some(Player::BLACK));
    assert_eq!(b.get(Coord::of(1, 1)), None);
    let b = b.with_stone(Coord::of(2, 0), Player::BLACK);
    assert_eq!(b.get(Coord::of(2, 0)), Some(Player::BLACK));
    assert_eq!(b.stones.len(), 3);
    let b = b.without_point(Coord::of(0, 5));
    assert_eq!(
        b.stones,
        stones(&[(2, 0, Player::BLACK), (2, 1, Player::BLACK)])
    );
    let b = b.without_points(&vec![Coord::of(2, 1), Coord::of(7, 7), Coord::of(2, 1)]);
    assert_eq!(b.stones, stones(&[(2, 0, Player::BLACK)]));
    let b = b.with_stones(&vec![Coord::of(8, 8), Coord::of(0, 0)], Player::WHITE);
    assert_eq!(
        b.stones,
        stones(&[
            (0, 0, Player::WHITE),
            (2, 0, Player::BLACK),
            (8, 8, Player::WHITE)
        ])
    );
    assert_eq!(Coord::of(2, 1).rank(), 2 * 65536 + 1);
    assert!(b.in_bounds(Coord::of(8, 8)));
    assert!(!b.in_bounds(Coord::of(9, 0)));
}

#[test]
fn board_invariant_is_checked() {
    let unsorted = Board {
        size: 9,
        stones: stones(&[(2, 0, Player::BLACK), (0, 5, Player::WHITE)]),
    };
    assert!(!unsorted.is_well_formed());
    let twice = Board {
        size: 9,
        stones: stones(&[(2, 0, Player::BLACK), (2, 0, Player::WHITE)]),
    };
    assert!(!twice.is_well_formed());
    let outside = Board {
        size: 9,
        stones: stones(&[(9, 0, Player::BLACK)]),
    };
    assert!(!outside.is_well_formed());
}

#[test]
fn state_invariant_is_checked() {
    let good = ko_position();
    assert!(good.is_well_formed());
    let mut s = good.clone();
    s.turn = 8;
    assert!(!s.is_well_formed());
    let mut s = good.clone();
    s.player_up = Player::WHITE;
    assert!(!s.is_well_formed());
    let mut s = good.clone();
    s.captures.black = 1;
    assert!(!s.is_well_formed());
    let mut s = good.clone();
    s.moves[0].captured = vec![Coord::of(1, 1)];
    assert!(!s.is_well_formed());
    s.captures.black = 1;
    assert!(s.is_well_formed());
    s.moves[0].captured = vec![Coord::of(19, 1)];
    assert!(!s.is_well_formed());
    let mut s = good.clone();
    s.moves[1].coord = MoveCoord::At(Coord::of(0, 19));
    assert!(!s.is_well_formed());
}

#[test]
fn large_group_is_captured_whole() {
    // A black wall along the top edge, shut in by white, loses its last
    // liberty on (5,0).
    let mut list: Vec<(u16, u16, Player)> = Vec::new();
    for x in 0..5u16 {
        list.push((x, 0, Player::BLACK));
        list.push((x, 1, Player::WHITE));
    }
    list.sort_by_key(|(x, y, _)| (*x, *y));
    let state = GameState {
        board: Board {
            size: 19,
            stones: stones(&list),
        },
        moves: vec![],
        turn: 1,
        player_up: Player::BLACK,
        captures: Captures { black: 0, white: 0 },
    };
    let state = play(&state, &stone_cmd(1, Player::BLACK, 12, 12));
    let m = accepted(&state, &stone_cmd(2, Player::WHITE, 5, 0));
    assert_eq!(
        m.captured,
        (0..5u16).map(|x| Coord::of(x, 0)).collect::<Vec<_>>()
    );
    let after = apply(&state, &m).unwrap();
    assert_eq!(after.captures, Captures { black: 0, white: 5 });
    assert_eq!(after.board.stones.len(), 7);
}

#[test]
fn changelog_materializes_a_game() {
    let start = materialize(None, &ChangelogInput::Ready(ready())).unwrap();
    assert_eq!(
        start,
        Materialized {
            state: GameState::new(19),
            made: None
        }
    );
    let m = accepted(&start.state, &stone_cmd(1, Player::BLACK, 3, 3));
    let after = materialize(Some(&start.state), &ChangelogInput::Accepted(m.clone())).unwrap();
    assert_eq!(after.made, Some(m.clone()));
    assert_eq!(after.state.turn, 2);
    assert_eq!(after.state.board.get(Coord::of(3, 3)), Some(Player::BLACK));
    // the same entry again changes nothing and publishes nothing
    let again = materialize(Some(&after.state), &ChangelogInput::Accepted(m.clone())).unwrap();
    assert_eq!(
        again,
        Materialized {
            state: after.state.clone(),
            made: None
        }
    );
    // a game that is made ready again keeps its state
    let ready_again = materialize(Some(&after.state), &ChangelogInput::Ready(ready())).unwrap();
    assert_eq!(ready_again.state, after.state);
    assert_eq!(ready_again.made, None);
}

#[test]
fn changelog_cannot_go_on_without_a_state() {
    let m = accepted(&GameState::new(19), &stone_cmd(1, Player::BLACK, 3, 3));
    assert_eq!(
        materialize(None, &ChangelogInput::Accepted(m.clone())),
        Err(ChangelogError::MissingState)
    );
    let small = GameState::new(3);
    assert_eq!(
        materialize(Some(&small), &ChangelogInput::Accepted(m)),
        Err(ChangelogError::Unsound(ApplyError::OutOfBounds))
    );
}

fn sorted_points(mut points: Vec<Coord>) -> Vec<(u16, u16)> {
    points.sort_by_key(|c| (c.x, c.y));
    points.iter().map(|c| (c.x, c.y)).collect()
}

#[test]
fn groups_and_their_liberties() {
    // . B B .
    // W B . .
    // . W . .
    let board = Board {
        size: 4,
        stones: stones(&[
            (0, 1, Player::WHITE),
            (1, 0, Player::BLACK),
            (1, 1, Player::BLACK),
            (1, 2, Player::WHITE),
            (2, 0, Player::BLACK),
        ]),
    };
    assert!(board.is_well_formed());
    let black = vec![(1, 0), (1, 1), (2, 0)];
    for (x, y) in black.iter() {
        assert_eq!(
            sorted_points(group_of(&board, Coord::of(*x, *y)).unwrap()),
            black
        );
        assert_eq!(
            sorted_points(liberties_of(&board, Coord::of(*x, *y)).unwrap()),
            vec![(0, 0), (2, 1), (3, 0)]
        );
    }
    assert_eq!(
        sorted_points(group_of(&board, Coord::of(0, 1)).unwrap()),
        vec![(0, 1)]
    );
    assert_eq!(
        sorted_points(liberties_of(&board, Coord::of(0, 1)).unwrap()),
        vec![(0, 0), (0, 2)]
    );
    assert_eq!(
        sorted_points(liberties_of(&board, Coord::of(1, 2)).unwrap()),
        vec![(0, 2), (1, 3), (2, 2)]
    );
    assert_eq!(group_of(&board, Coord::of(3, 3)), None);
    assert_eq!(liberties_of(&board, Coord::of(0, 0)), None);
    assert_eq!(liberties_of(&board, Coord::of(9, 9)), None);
    let found = explore(&board, 1);
    assert!(found.free);
    let mut members = found.members.clone();
    members.sort();
    assert_eq!(members, vec![1, 2, 4]);
}

#[test]
fn group_without_a_liberty() {
    // B W
    // W .
    let board = Board {
        size: 2,
        stones: stones(&[
            (0, 0, Player::BLACK),
            (0, 1, Player::WHITE),
            (1, 0, Player::WHITE),
        ]),
    };
    assert_eq!(liberties_of(&board, Coord::of(0, 0)), Some(vec![]));
    assert!(!explore(&board, 0).free);
    assert_eq!(
        sorted_points(liberties_of(&board, Coord::of(0, 1)).unwrap()),
        vec![(1, 1)]
    );
    let full = Board {
        size: 1,
        stones: stones(&[(0, 0, Player::WHITE)]),
    };
    assert_eq!(liberties_of(&full, Coord::of(0, 0)), Some(vec![]));
    assert_eq!(group_of(&full, Coord::of(0, 0)), Some(vec![Coord::of(0, 0)]));
}

#[test]
fn every_stone_keeps_a_liberty() {
    let mut state = ko_position();
    let script = [
        stone_cmd(9, Player::BLACK, 2, 1),
        stone_cmd(10, Player::WHITE, 15, 15),
        stone_cmd(11, Player::BLACK, 18, 18),
        stone_cmd(12, Player::WHITE, 1, 1),
        stone_cmd(13, Player::BLACK, 0, 0),
    ];
    for cmd in script.iter() {
        state = play(&state, cmd);
        for stone in state.board.stones.iter() {
            let liberties = liberties_of(&state.board, stone.coord).unwrap();
            assert!(!liberties.is_empty(), "{:?} after {:?}", stone, cmd);
        }
    }
    assert_eq!(state.turn, 14);
    assert_eq!(state.captures, Captures { black: 1, white: 1 });
}
