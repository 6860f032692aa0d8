use uc4::uc4::{Board, BoardType, MoveResult, PlayerType, SlotType, BOARD_COLS, BOARD_ROWS};

fn empty_alpha(i: usize) -> Board {
    Board::new(BoardType::Alpha(i))
}

#[test]
fn new_board_is_empty_and_available() {
    let b = empty_alpha(0);
    assert!(b.available());
    assert_eq!(b.board_type(), BoardType::Alpha(0));
    for row in 0..BOARD_ROWS {
        for col in 0..BOARD_COLS {
            assert_eq!(b.slot(row, col), Some(SlotType::Empty));
        }
    }
    assert_eq!(b.slot(6, 0), None);
    assert_eq!(b.slot(0, 7), None);
}

#[test]
fn omega_board_is_unavailable_and_rejects() {
    let mut b = Board::new(BoardType::Omega);
    assert!(!b.available());
    assert_eq!(b.play(PlayerType::Blue, 3), None);
    assert_eq!(b.slot(5, 3), Some(SlotType::Empty));
}

#[test]
fn discs_obey_gravity() {
    let mut b = empty_alpha(1);
    assert_eq!(b.play(PlayerType::Blue, 4), Some(MoveResult::Normal(BoardType::Alpha(1))));
    assert_eq!(b.slot(5, 4), Some(SlotType::Filled(PlayerType::Blue)));
    assert_eq!(b.play(PlayerType::Red, 4), Some(MoveResult::Normal(BoardType::Alpha(1))));
    assert_eq!(b.slot(4, 4), Some(SlotType::Filled(PlayerType::Red)));
    assert_eq!(b.slot(3, 4), Some(SlotType::Empty));
}

#[test]
fn out_of_range_column_rejects() {
    let mut b = empty_alpha(0);
    assert_eq!(b.play(PlayerType::Blue, 7), None);
    assert_eq!(b.play(PlayerType::Blue, usize::MAX), None);
}

#[test]
fn full_column_rejects_next_disc() {
    let mut b = empty_alpha(0);
    // alternate so the column holds no four-in-a-row
    let stack = [
        PlayerType::Blue,
        PlayerType::Blue,
        PlayerType::Red,
        PlayerType::Red,
        PlayerType::Blue,
        PlayerType::Blue,
    ];
    for p in stack {
        assert_eq!(b.play(p, 2), Some(MoveResult::Normal(BoardType::Alpha(0))));
    }
    assert_eq!(b.slot(0, 2), Some(SlotType::Filled(PlayerType::Blue)));
    // the column is filled to its top row: no further disc, either player
    assert_eq!(b.play(PlayerType::Red, 2), None);
    assert_eq!(b.play(PlayerType::Blue, 2), None);
}

#[test]
fn horizontal_win_completing_at_the_end() {
    let mut b = empty_alpha(3);
    for col in [1, 2, 3] {
        assert_eq!(b.play(PlayerType::Blue, col), Some(MoveResult::Normal(BoardType::Alpha(3))));
    }
    // discs at columns 1,2,3: placing at column 4 completes the run
    assert_eq!(b.play(PlayerType::Blue, 4), Some(MoveResult::BoardWin(BoardType::Alpha(3))));
    // the grid resets after resolution
    for row in 0..BOARD_ROWS {
        for col in 0..BOARD_COLS {
            assert_eq!(b.slot(row, col), Some(SlotType::Empty));
        }
    }
}

#[test]
fn horizontal_win_completing_in_the_middle() {
    let mut b = empty_alpha(0);
    for col in [2, 3, 5] {
        assert_eq!(b.play(PlayerType::Red, col), Some(MoveResult::Normal(BoardType::Alpha(0))));
    }
    assert_eq!(b.play(PlayerType::Red, 4), Some(MoveResult::BoardWin(BoardType::Alpha(0))));
}

#[test]
fn vertical_win() {
    let mut b = empty_alpha(2);
    for _ in 0..3 {
        assert_eq!(b.play(PlayerType::Blue, 6), Some(MoveResult::Normal(BoardType::Alpha(2))));
    }
    assert_eq!(b.play(PlayerType::Blue, 6), Some(MoveResult::BoardWin(BoardType::Alpha(2))));
}

#[test]
fn diagonal_win_rising() {
    let mut b = empty_alpha(0);
    // build stairs: heights 0,1,2,3 in columns 0..=3, then the blue diagonal
    let filler = PlayerType::Red;
    let winner = PlayerType::Blue;
    // column 1 needs 1 filler, column 2 needs 2, column 3 needs 3
    for (col, height) in [(1, 1), (2, 2), (3, 3)] {
        for h in 0..height {
            // avoid a red four-in-a-row: spread fillers across columns
            let p = if h == 2 { winner } else { filler };
            assert_eq!(b.play(p, col), Some(MoveResult::Normal(BoardType::Alpha(0))));
        }
    }
    assert_eq!(b.play(winner, 0), Some(MoveResult::Normal(BoardType::Alpha(0))));
    assert_eq!(b.play(winner, 1), Some(MoveResult::Normal(BoardType::Alpha(0))));
    assert_eq!(b.play(winner, 2), Some(MoveResult::Normal(BoardType::Alpha(0))));
    assert_eq!(b.play(winner, 3), Some(MoveResult::BoardWin(BoardType::Alpha(0))));
}

#[test]
fn diagonal_win_falling() {
    let mut b = empty_alpha(0);
    let filler = PlayerType::Blue;
    let winner = PlayerType::Red;
    for (col, height) in [(2, 1), (1, 2), (0, 3)] {
        for h in 0..height {
            let p = if h == 2 { winner } else { filler };
            assert_eq!(b.play(p, col), Some(MoveResult::Normal(BoardType::Alpha(0))));
        }
    }
    assert_eq!(b.play(winner, 3), Some(MoveResult::Normal(BoardType::Alpha(0))));
    assert_eq!(b.play(winner, 2), Some(MoveResult::Normal(BoardType::Alpha(0))));
    assert_eq!(b.play(winner, 1), Some(MoveResult::Normal(BoardType::Alpha(0))));
    assert_eq!(b.play(winner, 0), Some(MoveResult::BoardWin(BoardType::Alpha(0))));
}

/// The color of the draw pattern at column `col` and height `h` from the
/// bottom: vertical pairs, offset by one pair every column, which yields a
/// full board without any four-in-a-row.
fn draw_pattern(col: usize, h: usize) -> PlayerType {
    if (h / 2 + col) % 2 == 0 {
        PlayerType::Blue
    } else {
        PlayerType::Red
    }
}

#[test]
fn filling_a_board_without_a_win_ties_on_the_forty_second_disc() {
    let mut b = empty_alpha(0);
    let mut plays = 0;
    for h in 0..BOARD_ROWS {
        for col in 0..BOARD_COLS {
            plays += 1;
            let p = draw_pattern(col, h);
            let r = b.play(p, col);
            if plays == 42 {
                // the final disc is Blue and ties the board
                assert_eq!(p, PlayerType::Blue);
                assert_eq!(r, Some(MoveResult::BoardTie(BoardType::Alpha(0))));
            } else {
                assert_eq!(r, Some(MoveResult::Normal(BoardType::Alpha(0))));
            }
        }
    }
    // the grid resets after the tie
    for row in 0..BOARD_ROWS {
        for col in 0..BOARD_COLS {
            assert_eq!(b.slot(row, col), Some(SlotType::Empty));
        }
    }
}
