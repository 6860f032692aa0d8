//! A reduced shape of the game's data model: boards and slot lookup only,
//! with move handling left to the full engine. Alpha boards are addressed
//! 0-based, uniformly between their labels and the lookup.
use vstd::prelude::*;

verus! {

pub const BOARD_ROWS: usize = 6;

pub const BOARD_COLS: usize = 7;

pub const ALPHA_BOARDS_NUM: usize = 7;

#[derive(Copy, Clone, Debug, PartialEq, Eq, Structural)]
pub enum PlayerType {
    First,
    Second,
}

#[derive(Copy, Clone, Debug, PartialEq, Eq, Structural)]
pub enum SlotType {
    Empty,
    Filled(PlayerType),
}

#[derive(Copy, Clone, Debug, PartialEq, Eq, Structural)]
pub enum BoardType {
    Alpha(usize),
    Omega,
}

#[derive(Copy, Clone, Debug, PartialEq, Eq, Structural)]
pub enum GameMoveResult {
    Fail,
    Accepted,
    AlphaTie,
    AlphaWin,
    OmegaTie,
    OmegaWin,
}

/// Mathematical model of a board of this reduced shape.
#[verifier::ext_equal]
pub ghost struct BoardModel {
    pub board_type: BoardType,
    pub grid: Seq<SlotType>,
}

pub open spec fn empty_grid() -> Seq<SlotType> {
    Seq::new(42, |i: int| SlotType::Empty)
}

pub open spec fn board_wf(b: BoardModel) -> bool {
    b.grid.len() == 42
}

/// Mathematical model of an instance of this reduced shape.
#[verifier::ext_equal]
pub ghost struct InstanceModel {
    pub alphas: Seq<BoardModel>,
    pub omega: BoardModel,
    pub turn: PlayerType,
}

pub open spec fn instance_wf(m: InstanceModel) -> bool {
    &&& m.alphas.len() == 7
    &&& forall|i: int| 0 <= i < 7 ==> board_wf(#[trigger] m.alphas[i])
    &&& forall|i: int|
        0 <= i < 7 ==> (#[trigger] m.alphas[i]).board_type == BoardType::Alpha(i as usize)
    &&& board_wf(m.omega)
    &&& m.omega.board_type is Omega
}

pub struct Board {
    board_type: BoardType,
    slots: Vec<SlotType>,
}

impl View for Board {
    type V = BoardModel;

    closed spec fn view(&self) -> BoardModel {
        BoardModel { board_type: self.board_type, grid: self.slots@ }
    }
}

impl Board {
    pub fn new(board_type: BoardType) -> (b: Board)
        ensures
            board_wf(b@),
            b@.board_type == board_type,
            b@.grid == empty_grid(),
    {
        let mut slots: Vec<SlotType> = Vec::new();
        let mut i: usize = 0;
        while i < 42
            invariant
                i <= 42,
                slots@.len() == i,
                forall|j: int| 0 <= j < i ==> slots@[j] is Empty,
            decreases 42 - i,
        {
            slots.push(SlotType::Empty);
            i += 1;
        }
        proof {
            assert(slots@ =~= empty_grid());
        }
        Board { board_type, slots }
    }

    pub fn get_slot(&self, row: usize, col: usize) -> (r: Option<SlotType>)
        requires
            board_wf(self@),
        ensures
            r == (if row < 6 && col < 7 {
                Some(self@.grid[row as int * 7 + col as int])
            } else {
                None::<SlotType>
            }),
    {
        if row >= BOARD_ROWS || col >= BOARD_COLS {
            None
        } else {
            Some(self.slots[row * BOARD_COLS + col])
        }
    }

    /// A placeholder mutator of this reduced shape: it accepts nothing.
    pub fn play(col: usize) -> (r: GameMoveResult)
        ensures
            r is Fail,
    {
        GameMoveResult::Fail
    }
}

pub struct Instance {
    alpha_boards: Vec<Board>,
    omega_board: Board,
    turn: PlayerType,
}

impl View for Instance {
    type V = InstanceModel;

    closed spec fn view(&self) -> InstanceModel {
        InstanceModel {
            alphas: Seq::new(self.alpha_boards@.len(), |i: int| self.alpha_boards@[i]@),
            omega: self.omega_board@,
            turn: self.turn,
        }
    }
}

impl Instance {
    /// Seven empty alpha boards, the board at index `i` carrying identity
    /// `Alpha(i)`, an empty omega board, and the first player to move.
    pub fn new() -> (g: Instance)
        ensures
            instance_wf(g@),
            g@.turn == PlayerType::First,
            g@.alphas.len() == 7,
            forall|i: int|
                0 <= i < 7 ==> (#[trigger] g@.alphas[i]) == (BoardModel {
                    board_type: BoardType::Alpha(i as usize),
                    grid: empty_grid(),
                }),
            g@.omega == (BoardModel { board_type: BoardType::Omega, grid: empty_grid() }),
    {
        let mut alpha_boards: Vec<Board> = Vec::new();
        alpha_boards.push(Board::new(BoardType::Alpha(0)));
        alpha_boards.push(Board::new(BoardType::Alpha(1)));
        alpha_boards.push(Board::new(BoardType::Alpha(2)));
        alpha_boards.push(Board::new(BoardType::Alpha(3)));
        alpha_boards.push(Board::new(BoardType::Alpha(4)));
        alpha_boards.push(Board::new(BoardType::Alpha(5)));
        alpha_boards.push(Board::new(BoardType::Alpha(6)));
        let omega_board = Board::new(BoardType::Omega);
        let turn = PlayerType::First;
        Instance { alpha_boards, omega_board, turn }
    }

    /// Looks a board up by its address: each of the seven alpha boards and
    /// the omega board resolves, carrying exactly the identity that was
    /// requested; any other address is rejected as a value.
    pub fn get_board(&self, board: BoardType) -> (r: Option<&Board>)
        requires
            instance_wf(self@),
        ensures
            (match board {
                BoardType::Alpha(a) => if a < 7 {
                    r matches Some(b) && b@ == self@.alphas[a as int] && b@.board_type == board
                } else {
                    r is None
                },
                BoardType::Omega => r matches Some(b) && b@ == self@.omega && b@.board_type
                    == board,
            }),
    {
        match board {
            BoardType::Alpha(alpha) => {
                if alpha < ALPHA_BOARDS_NUM {
                    let b = &self.alpha_boards[alpha];
                    proof {
                        assert(b@ == self@.alphas[alpha as int]);
                        assert(self@.alphas[alpha as int].board_type == BoardType::Alpha(alpha));
                    }
                    Some(b)
                } else {
                    None
                }
            },
            BoardType::Omega => Some(&self.omega_board),
        }
    }
}

impl Default for Instance {
    fn default() -> (g: Instance)
        ensures
            instance_wf(g@),
            g@.turn == PlayerType::First,
    {
        Instance::new()
    }
}

} // verus!
