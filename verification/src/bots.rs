//! Move enumeration and the bot capability interface.
pub mod random_bot;

use crate::uc4::ALPHA_BOARDS_NUM;
use crate::uc4::BOARD_COLS;
use crate::uc4::BoardType;
use crate::uc4::GameInstance;
use crate::uc4::GameModel;
use crate::uc4::GameState;
use crate::uc4::board_step;
use crate::uc4::cell_at;
use crate::uc4::game_step;
use crate::uc4::game_wf;
use crate::uc4::lemma_top_empty_has_room;
use crate::uc4::lemma_top_filled_column_full;
use vstd::prelude::*;

verus! {

/// One legal move: an addressable board and a column on it.
#[derive(Clone, Debug, PartialEq, Eq, Structural)]
pub struct Move {
    pub board: BoardType,
    pub column: usize,
}

/// A move is legal when it addresses an available alpha board at a column
/// whose top slot is still empty.
pub open spec fn is_legal_move(m: GameModel, bt: BoardType, col: int) -> bool {
    &&& bt matches BoardType::Alpha(i) && i < 7 && m.alphas[i as int].available && cell_at(
        m.alphas[i as int].grid,
        0,
        col,
    ) is Empty
    &&& 0 <= col < 7
}

/// The position of a move in the enumeration order: boards first, then
/// columns.
pub open spec fn move_key(mv: Move) -> int {
    (mv.board->Alpha_0 as int) * 7 + mv.column as int
}

/// A strategy that picks the next move for whoever is to play, or gives up.
pub trait Bot {
    fn id() -> &'static str;

    fn play(&mut self, instance: &GameInstance) -> (r: Option<Move>)
        requires
            game_wf(instance@),
    ;
}

/// Every currently legal move, freshly computed: exactly the moves that
/// `is_legal_move` admits, each once, ordered by board then column.
pub fn get_available_moves(instance: &GameInstance) -> (moves: Vec<Move>)
    requires
        game_wf(instance@),
    ensures
        forall|k: int|
            0 <= k < moves@.len() ==> is_legal_move(
                instance@,
                (#[trigger] moves@[k]).board,
                moves@[k].column as int,
            ),
        forall|bt: BoardType, c: int|
            is_legal_move(instance@, bt, c) ==> moves@.contains(
                (Move { board: bt, column: c as usize }),
            ),
        forall|k1: int, k2: int|
            0 <= k1 < k2 < moves@.len() ==> move_key(moves@[k1]) < move_key(moves@[k2]),
{
    let mut moves: Vec<Move> = Vec::new();
    let mut index: usize = 0;
    while index < ALPHA_BOARDS_NUM
        invariant
            index <= 7,
            game_wf(instance@),
            forall|k: int|
                0 <= k < moves@.len() ==> is_legal_move(
                    instance@,
                    (#[trigger] moves@[k]).board,
                    moves@[k].column as int,
                ),
            forall|k: int| 0 <= k < moves@.len() ==> move_key(#[trigger] moves@[k]) < index * 7,
            forall|i: int, c: int|
                0 <= i < index && 0 <= c < 7 && #[trigger] is_legal_move(
                    instance@,
                    BoardType::Alpha(i as usize),
                    c,
                ) ==> moves@.contains(
                    (Move { board: BoardType::Alpha(i as usize), column: c as usize }),
                ),
            forall|k1: int, k2: int|
                0 <= k1 < k2 < moves@.len() ==> move_key(moves@[k1]) < move_key(moves@[k2]),
        decreases 7 - index,
    {
        let board = instance.board(BoardType::Alpha(index)).unwrap();
        if board.available() {
            let mut column: usize = 0;
            while column < BOARD_COLS
                invariant
                    index < 7,
                    column <= 7,
                    game_wf(instance@),
                    board@ == instance@.alphas[index as int],
                    board@.available,
                    forall|k: int|
                        0 <= k < moves@.len() ==> is_legal_move(
                            instance@,
                            (#[trigger] moves@[k]).board,
                            moves@[k].column as int,
                        ),
                    forall|k: int|
                        0 <= k < moves@.len() ==> move_key(#[trigger] moves@[k]) < index * 7
                            + column,
                    forall|i: int, c: int|
                        0 <= i < index && 0 <= c < 7 && #[trigger] is_legal_move(
                            instance@,
                            BoardType::Alpha(i as usize),
                            c,
                        ) ==> moves@.contains(
                            (Move { board: BoardType::Alpha(i as usize), column: c as usize }),
                        ),
                    forall|c: int|
                        0 <= c < column && #[trigger] is_legal_move(
                            instance@,
                            BoardType::Alpha(index),
                            c,
                        ) ==> moves@.contains(
                            (Move { board: BoardType::Alpha(index), column: c as usize }),
                        ),
                    forall|k1: int, k2: int|
                        0 <= k1 < k2 < moves@.len() ==> move_key(moves@[k1]) < move_key(
                            moves@[k2],
                        ),
                decreases 7 - column,
            {
                let s = board.slot(0, column).unwrap();
                if matches!(s, crate::uc4::SlotType::Empty) {
                    let ghost pre = moves@;
                    moves.push(Move { board: BoardType::Alpha(index), column });
                    proof {
                        let mv = (Move { board: BoardType::Alpha(index), column });
                        assert(moves@[moves@.len() - 1] == mv);
                        assert(moves@.contains(mv));
                        assert forall|mv2: Move| pre.contains(mv2) implies moves@.contains(
                            mv2,
                        ) by {
                            let k = choose|k: int| 0 <= k < pre.len() && pre[k] == mv2;
                            assert(moves@[k] == mv2);
                        }
                        assert(move_key(mv) == index * 7 + column);
                    }
                } else {
                    proof {
                        assert(!is_legal_move(instance@, BoardType::Alpha(index), column as int));
                    }
                }
                column += 1;
            }
        }
        index += 1;
    }
    moves
}

/// Law: while the game is going, the listed moves are exactly the moves the
/// engine accepts — a legal move always steps, and every accepted move is
/// legal.
pub proof fn lemma_legal_moves_are_accepted(m: GameModel, bt: BoardType, col: int)
    requires
        game_wf(m),
        m.state is Turn,
    ensures
        is_legal_move(m, bt, col) <==> game_step(m, bt, col) is Some,
{
    if let BoardType::Alpha(i) = bt {
        if i < 7 {
            if let GameState::Turn(turn) = m.state {
                let b = m.alphas[i as int];
                if is_legal_move(m, bt, col) {
                    lemma_top_empty_has_room(b.grid, col);
                    assert(board_step(b, turn, col) is Some);
                    if (board_step(b, turn, col).unwrap().0) is BoardWin {
                        assert(cell_at(m.omega.grid, 0, i as int) is Empty);
                        lemma_top_empty_has_room(m.omega.grid, i as int);
                    }
                } else {
                    if 0 <= col < 7 && b.available {
                        assert(!(cell_at(b.grid, 0, col) is Empty));
                        lemma_top_filled_column_full(b.grid, col);
                    }
                }
            }
        }
    }
}

} // verus!
