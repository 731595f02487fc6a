use ws_room_test::reversi::{Disc, MoveError, Player, Reversi, States};

fn started() -> Reversi {
    let mut r = Reversi::new();
    assert!(r.regist_player(Player::One, 1));
    assert!(r.regist_player(Player::Two, 2));
    r.init();
    r
}

fn empty() -> Vec<Vec<u8>> {
    vec![vec![0u8; 8]; 8]
}

fn initial() -> Vec<Vec<u8>> {
    let mut b = empty();
    b[3][3] = 1;
    b[3][4] = 2;
    b[4][3] = 2;
    b[4][4] = 1;
    b
}

#[test]
fn disc_numbers() {
    assert_eq!(Disc::Empty.u8(), 0);
    assert_eq!(Disc::White.u8(), 1);
    assert_eq!(Disc::Black.u8(), 2);
}

#[test]
fn new_game_waits_with_an_empty_board() {
    let r = Reversi::new();
    assert_eq!(r.state(), States::AwaitingStart);
    assert_eq!(r.get_discs(), empty());
    assert_eq!(r.player(Player::One), None);
    assert_eq!(r.player(Player::Two), None);
}

#[test]
fn init_sets_the_four_discs() {
    let r = started();
    assert_eq!(r.state(), States::TurnPlayer1);
    let b = r.get_discs();
    assert_eq!(b, initial());
    assert_eq!(b.len(), 8);
    assert!(b.iter().all(|row| row.len() == 8));
    assert_eq!(b[3][3], 1);
    assert_eq!(b[3][4], 2);
    assert_eq!(b[4][3], 2);
    assert_eq!(b[4][4], 1);
    let whites: usize = b.iter().map(|row| row.iter().filter(|c| **c == 1).count()).sum();
    let blacks: usize = b.iter().map(|row| row.iter().filter(|c| **c == 2).count()).sum();
    assert_eq!((whites, blacks), (2, 2));
}

#[test]
fn init_again_resets_the_board() {
    let mut r = started();
    r.set_disc(1, 5, 3).unwrap();
    r.init();
    assert_eq!(r.get_discs(), initial());
    assert_eq!(r.state(), States::TurnPlayer1);
    assert_eq!(r.player(Player::One), Some(1));
}

#[test]
fn end_clears_the_board() {
    let mut r = started();
    r.end();
    assert_eq!(r.state(), States::End);
    assert_eq!(r.get_discs(), empty());
    assert_eq!(r.set_disc(1, 2, 2), Err(MoveError::GameNotActive));
}

#[test]
fn out_of_bounds_changes_nothing() {
    let mut r = started();
    assert_eq!(r.set_disc(1, 8, 0), Err(MoveError::OutOfBounds));
    assert_eq!(r.set_disc(1, 0, 8), Err(MoveError::OutOfBounds));
    assert_eq!(r.set_disc(1, usize::MAX, usize::MAX), Err(MoveError::OutOfBounds));
    assert_eq!(r.set_disc(7, 8, 8), Err(MoveError::OutOfBounds));
    assert_eq!(r.get_discs(), initial());
    assert_eq!(r.state(), States::TurnPlayer1);
    let mut waiting = Reversi::new();
    assert_eq!(waiting.set_disc(1, 9, 9), Err(MoveError::OutOfBounds));
    assert_eq!(waiting.get_discs(), empty());
}

#[test]
fn occupied_cell_is_refused() {
    let mut r = started();
    assert_eq!(r.set_disc(1, 3, 3), Err(MoveError::CellOccupied));
    assert_eq!(r.set_disc(1, 4, 3), Err(MoveError::CellOccupied));
    assert_eq!(r.get_discs(), initial());
    assert_eq!(r.state(), States::TurnPlayer1);
}

#[test]
fn capture_line_to_the_left() {
    let mut r = started();
    let snapshot = r.set_disc(1, 5, 3).unwrap();
    assert_eq!(snapshot[3], vec![0, 0, 0, 1, 1, 1, 0, 0]);
    assert_eq!(snapshot[4], vec![0, 0, 0, 2, 1, 0, 0, 0]);
    assert_eq!(snapshot, r.get_discs());
    assert_eq!(r.state(), States::TurnPlayer2);
    let mut expected = initial();
    expected[3][4] = 1;
    expected[3][5] = 1;
    assert_eq!(snapshot, expected);
}

#[test]
fn turn_passes_once() {
    let mut r = started();
    r.set_disc(1, 5, 3).unwrap();
    assert_eq!(r.state(), States::TurnPlayer2);
    assert_eq!(r.set_disc(1, 0, 0), Err(MoveError::WrongTurn));
    assert_eq!(r.state(), States::TurnPlayer2);
    r.set_disc(2, 5, 2).unwrap();
    assert_eq!(r.state(), States::TurnPlayer1);
    assert_eq!(r.set_disc(2, 0, 0), Err(MoveError::WrongTurn));
}

#[test]
fn wrong_turn_changes_nothing() {
    let mut r = started();
    assert_eq!(r.set_disc(2, 5, 3), Err(MoveError::WrongTurn));
    assert_eq!(r.get_discs(), initial());
    assert_eq!(r.state(), States::TurnPlayer1);
}

#[test]
fn stranger_is_no_player() {
    let mut r = started();
    assert_eq!(r.set_disc(3, 5, 3), Err(MoveError::NotAPlayer));
    assert_eq!(r.set_disc(0, 5, 3), Err(MoveError::NotAPlayer));
    assert_eq!(r.get_discs(), initial());
    let mut nobody = Reversi::new();
    nobody.init();
    assert_eq!(nobody.set_disc(0, 5, 3), Err(MoveError::NotAPlayer));
}

#[test]
fn waiting_game_takes_no_move() {
    let mut r = Reversi::new();
    r.regist_player(Player::One, 1);
    assert_eq!(r.set_disc(1, 2, 2), Err(MoveError::GameNotActive));
    assert_eq!(r.get_discs(), empty());
    assert_eq!(r.state(), States::AwaitingStart);
}

#[test]
fn diagonal_capture() {
    let mut r = started();
    // White takes (5,3); black answers at (5,2), turning (4,3) back over.
    r.set_disc(1, 5, 3).unwrap();
    let b = r.set_disc(2, 5, 2).unwrap();
    assert_eq!(b[2], vec![0, 0, 0, 0, 0, 2, 0, 0]);
    assert_eq!(b[3], vec![0, 0, 0, 1, 2, 1, 0, 0]);
    assert_eq!(b[4], vec![0, 0, 0, 2, 1, 0, 0, 0]);
}

#[test]
fn two_lines_in_one_move() {
    let mut r = started();
    r.set_disc(1, 5, 3).unwrap();
    r.set_disc(2, 5, 2).unwrap();
    // White at (5,1) takes (5,2) downwards; nothing else.
    let b = r.set_disc(1, 5, 1).unwrap();
    assert_eq!(b[1], vec![0, 0, 0, 0, 0, 1, 0, 0]);
    assert_eq!(b[2], vec![0, 0, 0, 0, 0, 1, 0, 0]);
    assert_eq!(b[3], vec![0, 0, 0, 1, 2, 1, 0, 0]);
    // Black at (6,3) takes (5,3) to the left, up to its own disc at (4,3).
    let b = r.set_disc(2, 6, 3).unwrap();
    assert_eq!(b[3], vec![0, 0, 0, 1, 2, 2, 2, 0]);
    // White at (7,3) takes (6,3), (5,3) and (4,3), closed by (3,3).
    let b = r.set_disc(1, 7, 3).unwrap();
    assert_eq!(b[3], vec![0, 0, 0, 1, 1, 1, 1, 1]);
    assert_eq!(b[4], vec![0, 0, 0, 2, 1, 0, 0, 0]);
}

#[test]
fn line_that_ends_at_an_empty_cell_stays() {
    let mut r = started();
    // White at (0,4): the cell next to it is empty, nothing is taken.
    let b = r.set_disc(1, 0, 4).unwrap();
    assert_eq!(b[4], vec![1, 0, 0, 2, 1, 0, 0, 0]);
    assert_eq!(b[3], vec![0, 0, 0, 1, 2, 0, 0, 0]);
    // Black at (5,3): to its left stands black (4,3) at once; below to the
    // left white (4,4) is followed by the empty (3,5). Nothing is taken.
    let b = r.set_disc(2, 5, 3).unwrap();
    assert_eq!(b[3], vec![0, 0, 0, 1, 2, 2, 0, 0]);
    assert_eq!(b[4], vec![1, 0, 0, 2, 1, 0, 0, 0]);
}

#[test]
fn line_that_ends_at_the_edge_stays() {
    let mut r = started();
    r.set_disc(1, 7, 7).unwrap();
    r.set_disc(2, 6, 6).unwrap();
    // (5,5) white: towards (6,6) black, then (7,7) white closes the line;
    // towards (4,4) white at once: nothing.
    let b = r.set_disc(1, 5, 5).unwrap();
    assert_eq!(b[6][6], 1);
    assert_eq!(b[7][7], 1);
    assert_eq!(b[5][5], 1);
    r.set_disc(2, 0, 1).unwrap();
    // (1,0) white: towards (0,1) black the board ends: nothing is taken.
    let b = r.set_disc(1, 1, 0).unwrap();
    assert_eq!(b[1][0], 2);
    assert_eq!(b[0][1], 1);
}

#[test]
fn strict_game_requires_a_capture() {
    let mut r = Reversi::with_rules(true);
    r.regist_player(Player::One, 1);
    r.regist_player(Player::Two, 2);
    r.init();
    assert_eq!(r.set_disc(1, 0, 4), Err(MoveError::NoCapture));
    assert_eq!(r.set_disc(1, 2, 3), Err(MoveError::NoCapture));
    assert_eq!(r.get_discs(), initial());
    assert_eq!(r.state(), States::TurnPlayer1);
    let b = r.set_disc(1, 5, 3).unwrap();
    assert_eq!(b[3], vec![0, 0, 0, 1, 1, 1, 0, 0]);
    assert_eq!(r.state(), States::TurnPlayer2);
    // The occupied cell is reported before the missing capture.
    assert_eq!(r.set_disc(2, 3, 3), Err(MoveError::CellOccupied));
}

#[test]
fn permissive_game_takes_a_move_without_capture() {
    let mut r = started();
    let b = r.set_disc(1, 0, 0).unwrap();
    let mut expected = initial();
    expected[0][0] = 1;
    assert_eq!(b, expected);
    assert_eq!(r.state(), States::TurnPlayer2);
}

#[test]
fn slots_are_given_once() {
    let mut r = Reversi::new();
    assert!(r.regist_player(Player::One, 5));
    assert!(!r.regist_player(Player::One, 6));
    assert!(!r.regist_player(Player::Two, 5));
    assert!(r.regist_player(Player::Two, 6));
    assert_eq!(r.player(Player::One), Some(5));
    assert_eq!(r.player(Player::Two), Some(6));
    r.unregist_player(5);
    assert_eq!(r.player(Player::One), None);
    assert_eq!(r.player(Player::Two), Some(6));
    assert!(!r.regist_player(Player::One, 6));
    assert!(r.regist_player(Player::One, 0));
}

#[test]
fn snapshot_is_a_copy() {
    let r = started();
    let mut b = r.get_discs();
    b[0][0] = 2;
    assert_eq!(r.get_discs(), initial());
}

/// The board after a disc of `color` was put at `(x, y)`, worked out line by
/// line: walk from the disc, collect the opposing discs, and turn them over
/// if the walk ends at a disc of `color`.
fn plain_move(board: &Vec<Vec<u8>>, color: u8, x: usize, y: usize) -> Vec<Vec<u8>> {
    let other = 3 - color;
    let mut after = board.clone();
    after[y][x] = color;
    for (dx, dy) in [(1i32, 0i32), (-1, 0), (0, 1), (0, -1), (1, 1), (-1, -1), (1, -1), (-1, 1)] {
        let mut line = Vec::new();
        let (mut cx, mut cy) = (x as i32 + dx, y as i32 + dy);
        while (0..8).contains(&cx) && (0..8).contains(&cy) && board[cy as usize][cx as usize] == other {
            line.push((cx as usize, cy as usize));
            cx += dx;
            cy += dy;
        }
        let closed =
            (0..8).contains(&cx) && (0..8).contains(&cy) && board[cy as usize][cx as usize] == color;
        if closed {
            for (px, py) in line {
                after[py][px] = color;
            }
        }
    }
    after
}

#[test]
fn many_games_follow_the_plain_rule() {
    let mut seed: u64 = 0x2545_f491_4f6c_dd1d;
    let mut next = move |bound: usize| {
        seed = seed.wrapping_mul(6364136223846793005).wrapping_add(1442695040888963407);
        ((seed >> 33) as usize) % bound
    };
    for game in 0..200 {
        let strict = game % 2 == 1;
        let mut r = Reversi::with_rules(strict);
        r.regist_player(Player::One, 10);
        r.regist_player(Player::Two, 20);
        r.init();
        let mut moves = 0;
        for _ in 0..400 {
            let (x, y) = (next(8), next(8));
            let before = r.get_discs();
            let (id, color, then) = match r.state() {
                States::TurnPlayer1 => (10, 1u8, States::TurnPlayer2),
                States::TurnPlayer2 => (20, 2u8, States::TurnPlayer1),
                other => panic!("the game stopped: {:?}", other),
            };
            let expected = plain_move(&before, color, x, y);
            let captured = expected.iter().flatten().zip(before.iter().flatten()).filter(|(a, b)| a != b).count() > 1;
            let result = r.set_disc(id, x, y);
            if before[y][x] != 0 {
                assert_eq!(result, Err(MoveError::CellOccupied));
                assert_eq!(r.get_discs(), before);
            } else if strict && !captured {
                assert_eq!(result, Err(MoveError::NoCapture));
                assert_eq!(r.get_discs(), before);
            } else {
                assert_eq!(result, Ok(expected.clone()));
                assert_eq!(r.get_discs(), expected);
                assert_eq!(r.state(), then);
                assert!(expected.iter().flatten().all(|c| *c <= 2));
                moves += 1;
            }
        }
        assert!(moves > 0);
    }
}
