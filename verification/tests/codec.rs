use bugout::board::Board;
use bugout::botlink::{AttachBot, BotAttached, Botness};
use bugout::changelog::apply;
use bugout::codec::{decode, encode};
use bugout::model::{
    Captures, Coord, DeserError, MakeMoveCommand, MoveCoord, MoveMade, Player, Stone,
};
use bugout::game_state::GameState;
use bugout::ids::{EventId, GameId, ReqId};
use bugout::judge::{judge, Judgement};
use bugout::wire::{get_int, put_int};

const G1: GameId = GameId(0x0123_4567_89ab_4def_8123_4567_89ab_cdef);

fn g1_bytes() -> Vec<u8> {
    vec![
        0x01, 0x23, 0x45, 0x67, 0x89, 0xab, 0x4d, 0xef, 0x81, 0x23, 0x45, 0x67, 0x89, 0xab, 0xcd,
        0xef,
    ]
}

fn one_move_state() -> GameState {
    let m = MoveMade {
        game_id: G1,
        reply_to: ReqId(0),
        player: Player::BLACK,
        coord: MoveCoord::At(Coord::of(3, 3)),
        captured: vec![],
        event_id: EventId(7),
    };
    apply(&GameState::new(19), &m).unwrap()
}

fn one_move_bytes() -> Vec<u8> {
    let mut b: Vec<u8> = vec![0, 19, 0, 0, 0, 1, 0, 3, 0, 3, 0, 0, 0, 0, 1];
    b.extend(g1_bytes());
    b.extend([0u8; 16]);
    b.extend([0, 0, 0, 3, 0, 3, 0, 0, 0, 0]);
    b.extend([0u8; 15]);
    b.push(7);
    b.extend([0, 0, 0, 2, 1, 0, 0, 0, 0, 0, 0, 0, 0]);
    b
}

fn busy_state() -> GameState {
    let mut state = GameState::new(19);
    let script = [
        (Player::BLACK, MoveCoord::At(Coord::of(0, 1))),
        (Player::WHITE, MoveCoord::At(Coord::of(0, 0))),
        (Player::BLACK, MoveCoord::At(Coord::of(1, 0))),
        (Player::WHITE, MoveCoord::Pass),
        (Player::BLACK, MoveCoord::At(Coord::of(18, 18))),
        (Player::WHITE, MoveCoord::Resign),
    ];
    let mut n: u128 = 1;
    for (player, coord) in script {
        let cmd = MakeMoveCommand {
            game_id: G1,
            req_id: ReqId(n << 64),
            player,
            coord,
        };
        state = match judge(&state, &cmd, EventId(u128::MAX - n)) {
            Judgement::Accepted(m) => apply(&state, &m).unwrap(),
            Judgement::Rejected(r) => panic!("{:?}", r),
        };
        n += 1;
    }
    state
}

#[test]
fn numbers_are_written_most_significant_byte_first() {
    let mut out: Vec<u8> = vec![9];
    put_int(&mut out, 0x0102, 2);
    put_int(&mut out, 0x0a0b_0c0d, 4);
    put_int(&mut out, 0x1_0203, 2);
    put_int(&mut out, 5, 0);
    assert_eq!(out, vec![9, 1, 2, 0x0a, 0x0b, 0x0c, 0x0d, 2, 3]);
    assert_eq!(get_int(&out, 1, 2), Some(0x0102));
    assert_eq!(get_int(&out, 3, 4), Some(0x0a0b_0c0d));
    assert_eq!(get_int(&out, 9, 0), Some(0));
    assert_eq!(get_int(&out, 8, 2), None);
    let mut id: Vec<u8> = Vec::new();
    put_int(&mut id, G1.0, 16);
    assert_eq!(id, g1_bytes());
    assert_eq!(get_int(&id, 0, 16), Some(G1.0));
}

#[test]
fn encoding_of_the_empty_state() {
    let bytes = encode(&GameState::new(19));
    assert_eq!(
        bytes,
        vec![0, 19, 0, 0, 0, 0, 0, 0, 0, 0, 0, 0, 0, 1, 0, 0, 0, 0, 0, 0, 0, 0, 0]
    );
    assert_eq!(decode(&bytes), Ok(GameState::new(19)));
}

#[test]
fn encoding_of_a_state_with_one_move() {
    assert_eq!(encode(&one_move_state()), one_move_bytes());
    assert_eq!(decode(&one_move_bytes()), Ok(one_move_state()));
}

#[test]
fn decode_gives_back_what_was_encoded() {
    let state = busy_state();
    assert!(state.is_well_formed());
    assert_eq!(state.captures, Captures { black: 1, white: 0 });
    let bytes = encode(&state);
    assert_eq!(decode(&bytes), Ok(state.clone()));
    assert_eq!(encode(&decode(&bytes).unwrap()), bytes);
}

#[test]
fn decode_refuses_truncated_bytes() {
    let bytes = encode(&busy_state());
    for n in 0..bytes.len() {
        assert_eq!(decode(&bytes[..n]), Err(DeserError), "prefix of {}", n);
    }
}

#[test]
fn decode_refuses_trailing_bytes() {
    let mut bytes = one_move_bytes();
    bytes.push(0);
    assert_eq!(decode(&bytes), Err(DeserError));
}

#[test]
fn decode_refuses_unknown_tags() {
    let good = one_move_bytes();
    // the colour of the stone
    let mut b = good.clone();
    b[10] = 2;
    assert_eq!(decode(&b), Err(DeserError));
    // the player of the move
    let mut b = good.clone();
    b[47] = 2;
    assert_eq!(decode(&b), Err(DeserError));
    // the kind of the move
    let mut b = good.clone();
    b[48] = 3;
    assert_eq!(decode(&b), Err(DeserError));
}

#[test]
fn decode_refuses_states_that_are_not_well_formed() {
    let good = one_move_bytes();
    let n = good.len();
    // the turn
    let mut b = good.clone();
    b[n - 10] = 3;
    assert_eq!(decode(&b), Err(DeserError));
    // the player who is up
    let mut b = good.clone();
    b[n - 9] = 0;
    assert_eq!(decode(&b), Err(DeserError));
    // a capture count
    let mut b = good.clone();
    b[n - 1] = 1;
    assert_eq!(decode(&b), Err(DeserError));
    // a stone off the board
    let mut b = good.clone();
    b[7] = 19;
    assert_eq!(decode(&b), Err(DeserError));
    // a move off the board
    let mut b = good.clone();
    b[50] = 19;
    assert_eq!(decode(&b), Err(DeserError));
}

#[test]
fn decode_refuses_stones_out_of_order() {
    let state = GameState {
        board: Board {
            size: 19,
            stones: vec![
                Stone {
                    coord: Coord::of(1, 1),
                    player: Player::BLACK,
                },
                Stone {
                    coord: Coord::of(2, 2),
                    player: Player::WHITE,
                },
            ],
        },
        moves: vec![],
        turn: 1,
        player_up: Player::BLACK,
        captures: Captures { black: 0, white: 0 },
    };
    let good = encode(&state);
    assert_eq!(decode(&good), Ok(state));
    let mut swapped = good.clone();
    swapped[6..11].copy_from_slice(&good[11..16]);
    swapped[11..16].copy_from_slice(&good[6..11]);
    assert_eq!(decode(&swapped), Err(DeserError));
    let mut twice = good.clone();
    twice[11..16].copy_from_slice(&good[6..11]);
    assert_eq!(decode(&twice), Err(DeserError));
}

#[test]
fn attach_bot_round_trip() {
    let cmd = AttachBot {
        game_id: G1,
        player: Player::WHITE,
    };
    let bytes = cmd.serialize().unwrap();
    let mut expected = g1_bytes();
    expected.push(1);
    assert_eq!(bytes, expected);
    assert_eq!(AttachBot::from(&bytes), Ok(cmd));
    let news = BotAttached {
        game_id: G1,
        player: Player::BLACK,
    };
    let bytes = news.serialize().unwrap();
    assert_eq!(bytes[16], 0);
    assert_eq!(BotAttached::from(&bytes), Ok(news));
}

#[test]
fn attach_bot_refuses_malformed_bytes() {
    let mut bytes = g1_bytes();
    assert_eq!(AttachBot::from(&bytes), Err(DeserError));
    bytes.push(2);
    assert_eq!(AttachBot::from(&bytes), Err(DeserError));
    bytes[16] = 1;
    bytes.push(0);
    assert_eq!(BotAttached::from(&bytes), Err(DeserError));
    assert_eq!(BotAttached::from(&[]), Err(DeserError));
}

#[test]
fn botness_round_trip() {
    for black in [false, true] {
        for white in [false, true] {
            let b = Botness {
                black_is_bot: black,
                white_is_bot: white,
            };
            let bytes = b.serialize();
            assert_eq!(bytes, vec![black as u8, white as u8]);
            assert_eq!(Botness::from(&bytes), Ok(b));
        }
    }
    assert_eq!(Botness::from(&[1]), Err(DeserError));
    assert_eq!(Botness::from(&[1, 2]), Err(DeserError));
    assert_eq!(Botness::from(&[0, 0, 0]), Err(DeserError));
}

#[test]
fn move_round_trip() {
    let m = MoveMade {
        game_id: G1,
        reply_to: ReqId(3),
        player: Player::WHITE,
        coord: MoveCoord::At(Coord::of(258, 3)),
        captured: vec![Coord::of(1, 2), Coord::of(3, 4)],
        event_id: EventId(9),
    };
    let bytes = m.serialize();
    assert_eq!(bytes.len(), 16 + 16 + 1 + 5 + 4 + 8 + 16);
    assert_eq!(&bytes[32..38], &[1, 0, 1, 2, 0, 3]);
    assert_eq!(&bytes[38..50], &[0, 0, 0, 2, 0, 1, 0, 2, 0, 3, 0, 4]);
    assert_eq!(MoveMade::from(&bytes), Ok(m.clone()));
    assert_eq!(MoveMade::from(&bytes[..bytes.len() - 1]), Err(DeserError));
    let mut longer = bytes.clone();
    longer.push(0);
    assert_eq!(MoveMade::from(&longer), Err(DeserError));
    let pass = MoveMade {
        coord: MoveCoord::Pass,
        captured: vec![],
        ..m
    };
    assert_eq!(MoveMade::from(&pass.serialize()), Ok(pass));
}
