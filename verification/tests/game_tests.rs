use uc4::bots::random_bot::RandomBot;
use uc4::bots::{get_available_moves, Bot, Move};
use uc4::uc4::{
    BoardType, GameInstance, GameState, MoveResult, PlayerType, SlotType, BOARD_COLS, BOARD_ROWS,
};

fn alpha(i: usize) -> BoardType {
    BoardType::Alpha(i)
}

fn assert_board_empty(g: &GameInstance, bt: BoardType) {
    let b = g.board(bt).unwrap();
    for row in 0..BOARD_ROWS {
        for col in 0..BOARD_COLS {
            assert_eq!(b.slot(row, col), Some(SlotType::Empty));
        }
    }
}

#[test]
fn fresh_game_state() {
    let g = GameInstance::new();
    assert_eq!(g.state(), GameState::Turn(PlayerType::Blue));
    for i in 0..7 {
        let b = g.board(alpha(i)).unwrap();
        assert!(b.available());
        assert_eq!(b.board_type(), alpha(i));
        assert_board_empty(&g, alpha(i));
    }
    let om = g.board(BoardType::Omega).unwrap();
    assert!(!om.available());
    assert_board_empty(&g, BoardType::Omega);
    assert!(g.board(alpha(7)).is_none());
    assert!(g.board(alpha(usize::MAX)).is_none());
}

#[test]
fn a_continuation_sends_the_opponent_to_the_matching_board() {
    let mut g = GameInstance::new();
    assert_eq!(g.play(alpha(0), 3), Some(MoveResult::Normal(alpha(0))));
    assert_eq!(g.state(), GameState::Turn(PlayerType::Red));
    for i in 0..7 {
        let b = g.board(alpha(i)).unwrap();
        assert_eq!(b.available(), i == 3);
    }
    assert_eq!(
        g.board(alpha(0)).unwrap().slot(5, 3),
        Some(SlotType::Filled(PlayerType::Blue))
    );
}

#[test]
fn unavailable_board_is_rejected_without_any_mutation() {
    let mut g = GameInstance::new();
    assert_eq!(g.play(alpha(0), 3), Some(MoveResult::Normal(alpha(0))));
    // only board 3 is available now; addressing board 5 must change nothing
    assert_eq!(g.play(alpha(5), 0), None);
    assert_eq!(g.state(), GameState::Turn(PlayerType::Red));
    for i in 0..7 {
        assert_eq!(g.board(alpha(i)).unwrap().available(), i == 3);
    }
    assert_board_empty(&g, alpha(5));
    // the omega board is never directly addressable
    assert_eq!(g.play(BoardType::Omega, 0), None);
    // neither is a board index out of range or a full-range column
    assert_eq!(g.play(alpha(9), 0), None);
    assert_eq!(g.play(alpha(3), 7), None);
    assert_eq!(g.state(), GameState::Turn(PlayerType::Red));
}

#[test]
fn turns_alternate_on_plain_moves() {
    let mut g = GameInstance::new();
    let mut expected = PlayerType::Blue;
    // bounce between boards: each move at column c sends play to board c
    for col in [1, 2, 1, 2, 3, 4] {
        assert_eq!(g.state(), GameState::Turn(expected));
        let r = g.play(current_board(&g), col).unwrap();
        assert!(matches!(r, MoveResult::Normal(_)));
        expected = other(expected);
    }
    assert_eq!(g.state(), GameState::Turn(expected));
}

fn other(p: PlayerType) -> PlayerType {
    if p == PlayerType::Blue {
        PlayerType::Red
    } else {
        PlayerType::Blue
    }
}

/// Some available alpha board of the instance.
fn current_board(g: &GameInstance) -> BoardType {
    for i in 0..7 {
        if g.board(alpha(i)).unwrap().available() {
            return alpha(i);
        }
    }
    panic!("no available board");
}

/// Blue connects four vertically in alpha board 2; Red is bounced off
/// board 3 in between.
fn win_board_2_for_blue(g: &mut GameInstance, blue_col: usize, red_burn_col: usize) -> MoveResult {
    // Blue must be to move and board 2 available.
    for _ in 0..3 {
        assert_eq!(g.play(alpha(2), blue_col), Some(MoveResult::Normal(alpha(2))));
        assert_eq!(
            g.play(alpha(blue_col), red_burn_col),
            Some(MoveResult::Normal(alpha(blue_col)))
        );
    }
    g.play(alpha(2), blue_col).unwrap()
}

#[test]
fn vertical_win_propagates_to_the_omega_board() {
    let mut g = GameInstance::new();
    let r = win_board_2_for_blue(&mut g, 3, 2);
    // the returned outcome is the omega-level one
    assert_eq!(r, MoveResult::Normal(BoardType::Omega));
    // the winner's marker dropped into omega column 2
    let om = g.board(BoardType::Omega).unwrap();
    assert_eq!(om.slot(5, 2), Some(SlotType::Filled(PlayerType::Blue)));
    // the won board resets and the turn passes on
    assert_board_empty(&g, alpha(2));
    assert_eq!(g.state(), GameState::Turn(PlayerType::Red));
    // free choice: every alpha board whose omega cell is unclaimed is
    // available, which here is all of them
    for i in 0..7 {
        assert!(g.board(alpha(i)).unwrap().available());
    }
}

#[test]
fn four_sub_board_wins_in_one_column_win_the_game() {
    let mut g = GameInstance::new();
    for (round, blue_col) in [3, 4, 5, 6].into_iter().enumerate() {
        let r = win_board_2_for_blue(&mut g, blue_col, 2);
        if round == 3 {
            // four blue markers stacked in omega column 2: game over
            assert_eq!(r, MoveResult::BoardWin(BoardType::Omega));
            assert_eq!(g.state(), GameState::Win(PlayerType::Blue));
        } else {
            assert_eq!(r, MoveResult::Normal(BoardType::Omega));
            assert_eq!(g.state(), GameState::Turn(PlayerType::Red));
            // hand the move back to Blue and send it to board 2
            assert_eq!(g.play(alpha(0), 2), Some(MoveResult::Normal(alpha(0))));
        }
    }
    // the terminal state absorbs: every further move is rejected
    assert_eq!(g.play(alpha(0), 0), None);
    for i in 0..7 {
        assert!(!g.board(alpha(i)).unwrap().available());
    }
    assert_eq!(g.state(), GameState::Win(PlayerType::Blue));
}

#[test]
fn available_moves_on_a_fresh_game() {
    let g = GameInstance::new();
    let moves = get_available_moves(&g);
    assert_eq!(moves.len(), 49);
    let mut k = 0;
    for i in 0..7 {
        for c in 0..7 {
            assert_eq!(moves[k], Move { board: alpha(i), column: c });
            k += 1;
        }
    }
}

#[test]
fn available_moves_follow_the_sent_to_board_rule() {
    let mut g = GameInstance::new();
    g.play(alpha(0), 5).unwrap();
    let moves = get_available_moves(&g);
    assert_eq!(moves.len(), 7);
    for (c, mv) in moves.iter().enumerate() {
        assert_eq!(*mv, Move { board: alpha(5), column: c });
    }
}

#[test]
fn available_moves_skip_full_columns() {
    let mut g = GameInstance::new();
    // every play in column 1 of board 1 sends the opponent right back to
    // board 1, so the two players fill that column with alternating colors
    for _ in 0..6 {
        assert_eq!(g.play(alpha(1), 1), Some(MoveResult::Normal(alpha(1))));
    }
    // play still sits at board 1, whose column 1 is now full
    let moves = get_available_moves(&g);
    assert_eq!(moves.len(), 6);
    for mv in &moves {
        assert_eq!(mv.board, alpha(1));
        assert_ne!(mv.column, 1);
    }
    // and the full column is rejected outright
    assert_eq!(g.play(alpha(1), 1), None);
}

#[test]
fn replaying_the_same_moves_reproduces_the_same_game() {
    let script = [
        (0usize, 3usize),
        (3, 2),
        (2, 3),
        (3, 2),
        (2, 3),
        (3, 2),
        (2, 3),
        (2, 6),
        (6, 1),
        (1, 1),
        (1, 0),
    ];
    let mut g1 = GameInstance::new();
    let mut g2 = GameInstance::new();
    for (b, c) in script {
        let r1 = g1.play(alpha(b), c);
        let r2 = g2.play(alpha(b), c);
        assert_eq!(r1, r2);
    }
    assert_eq!(g1.state(), g2.state());
    for i in 0..7 {
        let b1 = g1.board(alpha(i)).unwrap();
        let b2 = g2.board(alpha(i)).unwrap();
        assert_eq!(b1.available(), b2.available());
        for row in 0..BOARD_ROWS {
            for col in 0..BOARD_COLS {
                assert_eq!(b1.slot(row, col), b2.slot(row, col));
            }
        }
    }
    let o1 = g1.board(BoardType::Omega).unwrap();
    let o2 = g2.board(BoardType::Omega).unwrap();
    for row in 0..BOARD_ROWS {
        for col in 0..BOARD_COLS {
            assert_eq!(o1.slot(row, col), o2.slot(row, col));
        }
    }
}

#[test]
fn some_alpha_board_is_available_while_the_game_goes_on() {
    let mut g = GameInstance::new();
    let mut bot = RandomBot::new();
    for _ in 0..200 {
        if !matches!(g.state(), GameState::Turn(_)) {
            break;
        }
        let moves = get_available_moves(&g);
        assert!(!moves.is_empty(), "no legal move while the game is ongoing");
        let mv = bot.play(&g).expect("the bot must find a move");
        assert!(moves.contains(&mv));
        assert!(g.play(mv.board, mv.column).is_some());
    }
}

#[test]
fn random_bot_picks_a_legal_move() {
    let g = GameInstance::new();
    let mut bot = RandomBot::new();
    assert_eq!(<RandomBot as Bot>::id(), "Random");
    let mv = bot.select_move(&g).unwrap();
    let moves = get_available_moves(&g);
    assert!(moves.contains(&mv));
}
