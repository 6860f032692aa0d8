//! The core rules engine: grids, alpha/omega boards, move resolution, win
//! and tie detection, availability propagation, and the game state machine.
use vstd::prelude::*;

verus! {

pub const BOARD_ROWS: usize = 6;

pub const BOARD_COLS: usize = 7;

pub const ALPHA_BOARDS_NUM: usize = 7;

#[derive(Copy, Clone, Debug, PartialEq, Eq, Structural)]
pub enum PlayerType {
    Blue,
    Red,
}

#[derive(Copy, Clone, Debug, PartialEq, Eq, Structural)]
pub enum SlotType {
    Empty,
    Filled(PlayerType),
}

#[derive(Copy, Clone, Debug, PartialEq, Eq, Structural)]
pub enum BoardType {
    Alpha(usize),
    Omega,
}

#[derive(Copy, Clone, Debug, PartialEq, Eq, Structural)]
pub enum GameState {
    Turn(PlayerType),
    Tie,
    Win(PlayerType),
}

#[derive(Copy, Clone, Debug, PartialEq, Eq, Structural)]
pub enum MoveResult {
    Normal(BoardType),
    BoardTie(BoardType),
    BoardWin(BoardType),
}

/// Mathematical model of a board: its grid is a row-major sequence of
/// `BOARD_ROWS * BOARD_COLS` slots, row 0 on top.
#[verifier::ext_equal]
pub ghost struct BoardModel {
    pub available: bool,
    pub board_type: BoardType,
    pub grid: Seq<SlotType>,
}

/// The slot of grid `g` at `row`, `col` (row 0 is the top row).
pub open spec fn cell_at(g: Seq<SlotType>, row: int, col: int) -> SlotType {
    g[row * 7 + col]
}

pub open spec fn in_bounds(row: int, col: int) -> bool {
    0 <= row < 6 && 0 <= col < 7
}

/// Gravity at one cell: a filled slot has a filled slot directly below it.
pub open spec fn gravity_at(g: Seq<SlotType>, r: int, c: int) -> bool {
    !(cell_at(g, r, c) is Empty) ==> !(cell_at(g, r + 1, c) is Empty)
}

/// A well-formed grid has exactly 42 slots and obeys gravity everywhere.
pub open spec fn grid_wf(g: Seq<SlotType>) -> bool {
    &&& g.len() == 42
    &&& forall|r: int, c: int| 0 <= r < 5 && 0 <= c < 7 ==> #[trigger] gravity_at(g, r, c)
}

pub open spec fn empty_grid() -> Seq<SlotType> {
    Seq::new(42, |i: int| SlotType::Empty)
}

pub open spec fn board_wf(b: BoardModel) -> bool {
    &&& grid_wf(b.grid)
    &&& (b.board_type matches BoardType::Alpha(i) ==> i < 7)
}

/// The row where a disc dropped in `col` lands when scanning upward from
/// `row`: the lowest empty row, or -1 when every row up to `row` is filled.
pub open spec fn landing_row_from(g: Seq<SlotType>, col: int, row: int) -> int
    decreases row,
{
    if cell_at(g, row, col) is Empty {
        row
    } else if row <= 0 {
        -1
    } else {
        landing_row_from(g, col, row - 1)
    }
}

pub open spec fn landing_row(g: Seq<SlotType>, col: int) -> int {
    landing_row_from(g, col, 5)
}

/// Row step of scan direction `dir`: 0 horizontal, 1 vertical, 2 the
/// top-left to bottom-right diagonal, 3 the other diagonal.
pub open spec fn dir_dr(dir: int) -> int {
    if dir == 1 || dir == 2 {
        1
    } else if dir == 3 {
        -1
    } else {
        0
    }
}

/// Column step of scan direction `dir`.
pub open spec fn dir_dc(dir: int) -> int {
    if dir == 1 {
        0
    } else {
        1
    }
}

/// The cell `k` steps from (`row`, `col`) along `dir` is in bounds and holds
/// a disc of `p`.
pub open spec fn good_cell(g: Seq<SlotType>, p: PlayerType, row: int, col: int) -> bool {
    in_bounds(row, col) && cell_at(g, row, col) == SlotType::Filled(p)
}

/// The cell `t` steps from (`row`, `col`) along direction `dir` is in
/// bounds and holds a disc of `p`.
pub open spec fn line_cell(
    g: Seq<SlotType>,
    p: PlayerType,
    row: int,
    col: int,
    dir: int,
    t: int,
) -> bool {
    good_cell(g, p, row + t * dir_dr(dir), col + t * dir_dc(dir))
}

/// Four consecutive cells of `p` along direction `dir`, starting `k` steps
/// from (`row`, `col`).
pub open spec fn run_of_four(
    g: Seq<SlotType>,
    p: PlayerType,
    row: int,
    col: int,
    dir: int,
    k: int,
) -> bool {
    &&& line_cell(g, p, row, col, dir, k)
    &&& line_cell(g, p, row, col, dir, k + 1)
    &&& line_cell(g, p, row, col, dir, k + 2)
    &&& line_cell(g, p, row, col, dir, k + 3)
}

/// Some four-in-a-row of `p` passes through (`row`, `col`): a run may start
/// up to three cells before it in any of the four directions.
pub open spec fn wins_at(g: Seq<SlotType>, p: PlayerType, row: int, col: int) -> bool {
    exists|dir: int, k: int|
        0 <= dir < 4 && -3 <= k <= 0 && run_of_four(g, p, row, col, dir, k)
}

/// Every column's top slot is filled, so the whole board is full.
pub open spec fn top_row_full(g: Seq<SlotType>) -> bool {
    forall|c: int| 0 <= c < 7 ==> !(#[trigger] cell_at(g, 0, c) is Empty)
}

/// What one play of `p` in `col` does to board `b`: rejected (`None`) when
/// the column is out of range, the board unavailable, or the column full;
/// otherwise the disc lands on the lowest empty row, a completed
/// four-in-a-row wins the board, a full grid without one ties it (both reset
/// the grid), and anything else merely continues.
pub open spec fn board_step(b: BoardModel, p: PlayerType, col: int) -> Option<
    (MoveResult, BoardModel),
> {
    if !(0 <= col < 7) || !b.available || landing_row(b.grid, col) < 0 {
        None
    } else {
        let lr = landing_row(b.grid, col);
        let g2 = b.grid.update(lr * 7 + col, SlotType::Filled(p));
        if wins_at(g2, p, lr, col) {
            Some((MoveResult::BoardWin(b.board_type), BoardModel { grid: empty_grid(), ..b }))
        } else if top_row_full(g2) {
            Some((MoveResult::BoardTie(b.board_type), BoardModel { grid: empty_grid(), ..b }))
        } else {
            Some((MoveResult::Normal(b.board_type), BoardModel { grid: g2, ..b }))
        }
    }
}

proof fn lemma_landing_found(g: Seq<SlotType>, col: int, lr: int, hi: int)
    requires
        0 <= lr <= hi <= 5,
        cell_at(g, lr, col) is Empty,
        forall|r2: int| lr < r2 <= hi ==> !(#[trigger] cell_at(g, r2, col) is Empty),
    ensures
        landing_row_from(g, col, hi) == lr,
    decreases hi,
{
    if hi > lr {
        lemma_landing_found(g, col, lr, hi - 1);
    }
}

proof fn lemma_landing_none(g: Seq<SlotType>, col: int, hi: int)
    requires
        0 <= hi <= 5,
        forall|r2: int| 0 <= r2 <= hi ==> !(#[trigger] cell_at(g, r2, col) is Empty),
    ensures
        landing_row_from(g, col, hi) == -1,
    decreases hi,
{
    if hi > 0 {
        lemma_landing_none(g, col, hi - 1);
    }
}

proof fn lemma_landing_nonneg(g: Seq<SlotType>, col: int, hi: int)
    requires
        0 <= hi <= 5,
        cell_at(g, 0, col) is Empty,
    ensures
        0 <= landing_row_from(g, col, hi) <= hi,
    decreases hi,
{
    if !(cell_at(g, hi, col) is Empty) {
        lemma_landing_nonneg(g, col, hi - 1);
    }
}

/// In a grid that obeys gravity, a column whose top slot is filled has no
/// room left at all.
pub proof fn lemma_top_filled_column_full(g: Seq<SlotType>, col: int)
    requires
        grid_wf(g),
        0 <= col < 7,
        !(cell_at(g, 0, col) is Empty),
    ensures
        landing_row(g, col) == -1,
{
    assert(gravity_at(g, 0, col) && gravity_at(g, 1, col) && gravity_at(g, 2, col)
        && gravity_at(g, 3, col) && gravity_at(g, 4, col));
    lemma_landing_none(g, col, 5);
}

/// In a grid that obeys gravity, a column whose top slot is empty still has
/// room: a dropped disc finds a landing row.
pub proof fn lemma_top_empty_has_room(g: Seq<SlotType>, col: int)
    requires
        0 <= col < 7,
        cell_at(g, 0, col) is Empty,
    ensures
        0 <= landing_row(g, col) <= 5,
{
    lemma_landing_nonneg(g, col, 5);
}

fn empty_slots() -> (slots: Vec<SlotType>)
    ensures
        slots@ == empty_grid(),
{
    let mut slots: Vec<SlotType> = Vec::new();
    let mut i: usize = 0;
    while i < 42
        invariant
            i <= 42,
            slots@.len() == i,
            forall|j: int| 0 <= j < i ==> slots@[j] is Empty,
        decreases 42 - i,
    {
        slots.push(SlotType::Empty);
        i += 1;
    }
    proof {
        assert(slots@ =~= empty_grid());
    }
    slots
}

/// One of the seven alpha boards or the single omega board.
pub struct Board {
    available: bool,
    board_type: BoardType,
    slots: Vec<SlotType>,
}

impl View for Board {
    type V = BoardModel;

    closed spec fn view(&self) -> BoardModel {
        BoardModel { available: self.available, board_type: self.board_type, grid: self.slots@ }
    }
}

impl Board {
    pub fn new(board_type: BoardType) -> (b: Board)
        requires
            board_type matches BoardType::Alpha(i) ==> i < 7,
        ensures
            board_wf(b@),
            b@.board_type == board_type,
            b@.available == !(board_type is Omega),
            b@.grid == empty_grid(),
    {
        let available = !matches!(board_type, BoardType::Omega);
        let slots = empty_slots();
        Board { available, board_type, slots }
    }

    pub fn available(&self) -> (r: bool)
        ensures
            r == self@.available,
    {
        self.available
    }

    pub fn board_type(&self) -> (r: BoardType)
        ensures
            r == self@.board_type,
    {
        self.board_type
    }

    pub fn slot(&self, row: usize, col: usize) -> (r: Option<SlotType>)
        requires
            board_wf(self@),
        ensures
            r == (if in_bounds(row as int, col as int) {
                Some(cell_at(self@.grid, row as int, col as int))
            } else {
                None::<SlotType>
            }),
    {
        if row >= BOARD_ROWS || col >= BOARD_COLS {
            None
        } else {
            Some(self.slots[row * BOARD_COLS + col])
        }
    }

    #[verifier::rlimit(100)]
    fn check_win_condition(&self, player: PlayerType, row: usize, col: usize) -> (r: bool)
        requires
            board_wf(self@),
            in_bounds(row as int, col as int),
        ensures
            r == wins_at(self@.grid, player, row as int, col as int),
    {
        let ghost g = self@.grid;
        let mut dir: usize = 0;
        while dir < 4
            invariant
                dir <= 4,
                g.len() == 42,
                in_bounds(row as int, col as int),
                g == self@.grid,
                forall|d: int, k: int|
                    0 <= d < dir && -3 <= k <= 0 ==> !(#[trigger] run_of_four(
                        g,
                        player,
                        row as int,
                        col as int,
                        d,
                        k,
                    )),
            decreases 4 - dir,
        {
            let mut counter: usize = 0;
            let mut w: usize = 0;
            while w < 7
                invariant
                    w <= 7,
                    counter <= 3,
                    counter as int <= w as int,
                    dir < 4,
                    g.len() == 42,
                    in_bounds(row as int, col as int),
                    g == self@.grid,
                    forall|o: int|
                        w as int - counter as int - 3 <= o < w as int - 3
                            ==> #[trigger] line_cell(g, player, row as int, col as int, dir as int, o),
                    counter < w ==> !line_cell(
                        g,
                        player,
                        row as int,
                        col as int,
                        dir as int,
                        w as int - counter as int - 4,
                    ),
                    forall|k: int|
                        -3 <= k <= w as int - 7 ==> !(#[trigger] run_of_four(
                            g,
                            player,
                            row as int,
                            col as int,
                            dir as int,
                            k,
                        )),
                decreases 7 - w,
            {
                let off: i32 = (w as i32) - 3;
                let mut r_chk: i32 = row as i32;
                let mut c_chk: i32 = col as i32;
                if dir == 0 {
                    c_chk = c_chk + off;
                    proof {
                        assert(r_chk as int == row as int + (w as int - 3) * dir_dr(0));
                        assert(c_chk as int == col as int + (w as int - 3) * dir_dc(0));
                    }
                } else if dir == 1 {
                    r_chk = r_chk + off;
                    proof {
                        assert(r_chk as int == row as int + (w as int - 3) * dir_dr(1));
                        assert(c_chk as int == col as int + (w as int - 3) * dir_dc(1));
                    }
                } else if dir == 2 {
                    r_chk = r_chk + off;
                    c_chk = c_chk + off;
                    proof {
                        assert(r_chk as int == row as int + (w as int - 3) * dir_dr(2));
                        assert(c_chk as int == col as int + (w as int - 3) * dir_dc(2));
                    }
                } else {
                    r_chk = r_chk - off;
                    c_chk = c_chk + off;
                    proof {
                        assert(r_chk as int == row as int + (w as int - 3) * dir_dr(3));
                        assert(c_chk as int == col as int + (w as int - 3) * dir_dc(3));
                    }
                }
                proof {
                    assert(r_chk as int == row as int + (w as int - 3) * dir_dr(dir as int));
                    assert(c_chk as int == col as int + (w as int - 3) * dir_dc(dir as int));
                }
                let good: bool;
                if r_chk < 0 || r_chk >= 6 || c_chk < 0 || c_chk >= 7 {
                    good = false;
                } else {
                    let idx: usize = (r_chk as usize) * BOARD_COLS + (c_chk as usize);
                    good = self.slots[idx] == SlotType::Filled(player);
                }
                proof {
                    assert(good == line_cell(
                        g,
                        player,
                        row as int,
                        col as int,
                        dir as int,
                        w as int - 3,
                    ));
                }
                if good {
                    counter = counter + 1;
                    if counter >= 4 {
                        proof {
                            let kk = w as int - 6;
                            assert(run_of_four(g, player, row as int, col as int, dir as int, kk));
                            assert(wins_at(g, player, row as int, col as int));
                        }
                        return true;
                    }
                } else {
                    counter = 0;
                    proof {
                        let kk = w as int - 6;
                        if -3 <= kk {
                            assert(!line_cell(g, player, row as int, col as int, dir as int, w as int - 3));
                            assert(!run_of_four(g, player, row as int, col as int, dir as int, kk));
                        }
                    }
                }
                w = w + 1;
            }
            dir = dir + 1;
        }
        proof {
            assert(!wins_at(g, player, row as int, col as int));
        }
        false
    }

    fn check_tie_condition(&self) -> (r: bool)
        requires
            board_wf(self@),
        ensures
            r == top_row_full(self@.grid),
    {
        let mut col: usize = 0;
        while col < BOARD_COLS
            invariant
                col <= 7,
                board_wf(self@),
                forall|c: int| 0 <= c < col ==> !(#[trigger] cell_at(self@.grid, 0, c) is Empty),
            decreases 7 - col,
        {
            if matches!(self.slots[col], SlotType::Empty) {
                assert(cell_at(self@.grid, 0, col as int) is Empty);
                return false;
            }
            assert(!(cell_at(self@.grid, 0, col as int) is Empty));
            col += 1;
        }
        true
    }

    fn reset(&mut self)
        ensures
            final(self)@ == (BoardModel { grid: empty_grid(), ..old(self)@ }),
    {
        self.slots = empty_slots();
        proof {
            assert(self@ =~= (BoardModel { grid: empty_grid(), ..old(self)@ }));
        }
    }

    /// One play of `player` in `col`: the sole mutator of a board, specified
    /// exactly by `board_step`; a rejected play leaves the board unchanged.
    pub fn play(&mut self, player: PlayerType, col: usize) -> (r: Option<MoveResult>)
        requires
            board_wf(old(self)@),
        ensures
            board_wf(final(self)@),
            final(self)@.available == old(self)@.available,
            final(self)@.board_type == old(self)@.board_type,
            (match board_step(old(self)@, player, col as int) {
                Option::None => r is None && final(self)@ == old(self)@,
                Option::Some(pr) => r == Option::Some(pr.0) && final(self)@ == pr.1,
            }),
    {
        if col >= BOARD_COLS {
            return None;
        }
        if !self.available {
            return None;
        }
        let ghost g = self@.grid;
        let mut rr: usize = BOARD_ROWS;
        while rr > 0
            invariant
                rr <= 6,
                col < 7,
                grid_wf(g),
                board_wf(old(self)@),
                self@ == old(self)@,
                g == self@.grid,
                old(self)@.available,
                forall|r2: int| rr <= r2 < 6 ==> !(#[trigger] cell_at(g, r2, col as int) is Empty),
            decreases rr,
        {
            let lr = rr - 1;
            if matches!(self.slots[lr * BOARD_COLS + col], SlotType::Empty) {
                proof {
                    lemma_landing_found(g, col as int, lr as int, 5);
                    assert(landing_row(g, col as int) == lr as int);
                }
                let ghost g2 = g.update(lr as int * 7 + col as int, SlotType::Filled(player));
                self.slots.set(lr * BOARD_COLS + col, SlotType::Filled(player));
                proof {
                    assert(self@.grid =~= g2);
                    assert forall|r2: int, c2: int|
                        0 <= r2 < 5 && 0 <= c2 < 7 implies #[trigger] gravity_at(g2, r2, c2) by {
                        assert(gravity_at(g, r2, c2));
                        if r2 == lr as int && c2 == col as int {
                            assert(!(cell_at(g2, r2 + 1, c2) is Empty));
                        } else if r2 + 1 == lr as int && c2 == col as int {
                            assert(cell_at(g2, r2, c2) == cell_at(g, r2, c2));
                            assert(!(cell_at(g, r2, c2) is Empty) ==> !(cell_at(g, r2 + 1, c2) is Empty));
                        } else {
                            assert(cell_at(g2, r2, c2) == cell_at(g, r2, c2));
                            assert(cell_at(g2, r2 + 1, c2) == cell_at(g, r2 + 1, c2));
                        }
                    }
                    assert(grid_wf(self@.grid));
                }
                let won = self.check_win_condition(player, lr, col);
                if won {
                    let bt = self.board_type;
                    self.reset();
                    proof {
                        assert(self@ =~= (BoardModel { grid: empty_grid(), ..old(self)@ }));
                    }
                    return Some(MoveResult::BoardWin(bt));
                }
                let tied = self.check_tie_condition();
                if tied {
                    let bt = self.board_type;
                    self.reset();
                    proof {
                        assert(self@ =~= (BoardModel { grid: empty_grid(), ..old(self)@ }));
                    }
                    return Some(MoveResult::BoardTie(bt));
                }
                proof {
                    assert(self@ =~= (BoardModel { grid: g2, ..old(self)@ }));
                }
                return Some(MoveResult::Normal(self.board_type));
            }
            proof {
                assert(!(cell_at(g, lr as int, col as int) is Empty));
            }
            rr -= 1;
        }
        proof {
            lemma_landing_none(g, col as int, 5);
        }
        None
    }
}


/// Mathematical model of a whole game: the seven alpha boards, the omega
/// board, and whose turn it is (or how the game ended).
#[verifier::ext_equal]
pub ghost struct GameModel {
    pub alphas: Seq<BoardModel>,
    pub omega: BoardModel,
    pub state: GameState,
}

pub open spec fn other_player(p: PlayerType) -> PlayerType {
    if p is Blue {
        PlayerType::Red
    } else {
        PlayerType::Blue
    }
}

/// A well-formed game: seven well-formed alpha boards carrying their own
/// index, a well-formed omega board that is never directly addressable, and
/// an alpha board is available only while its omega column still has room.
pub open spec fn game_wf(m: GameModel) -> bool {
    &&& m.alphas.len() == 7
    &&& (forall|i: int| 0 <= i < 7 ==> board_wf(#[trigger] m.alphas[i]))
    &&& (forall|i: int|
        0 <= i < 7 ==> (#[trigger] m.alphas[i]).board_type == BoardType::Alpha(i as usize))
    &&& board_wf(m.omega)
    &&& m.omega.board_type is Omega
    &&& !m.omega.available
    &&& (forall|i: int|
        0 <= i < 7 && (#[trigger] m.alphas[i]).available ==> cell_at(m.omega.grid, 0, i) is Empty)
}

/// Whether alpha board `i` is available after a move in column `col` whose
/// last resolved outcome was `result`, with the omega board's grid at
/// `omega_grid`: a plain continuation whose target omega column still has
/// room sends the opponent to that one board; a resolved sub-board, an omega
/// continuation, or a claimed target gives free choice of every alpha board
/// whose omega column has room; an ended game frees no board at all.
pub open spec fn avail_flag(
    result: MoveResult,
    omega_grid: Seq<SlotType>,
    col: int,
    i: int,
) -> bool {
    match result {
        MoveResult::Normal(BoardType::Alpha(_)) => if cell_at(omega_grid, 0, col) is Empty {
            i == col
        } else {
            cell_at(omega_grid, 0, i) is Empty
        },
        MoveResult::BoardTie(BoardType::Omega) | MoveResult::BoardWin(BoardType::Omega) => false,
        _ => cell_at(omega_grid, 0, i) is Empty,
    }
}

/// The alpha boards with their availability recomputed.
pub open spec fn apply_avail(
    alphas: Seq<BoardModel>,
    result: MoveResult,
    omega_grid: Seq<SlotType>,
    col: int,
) -> Seq<BoardModel> {
    Seq::new(
        alphas.len(),
        |i: int| BoardModel { available: avail_flag(result, omega_grid, col, i), ..alphas[i] },
    )
}

/// The move of `turn` on alpha board `index`, column `col`: the alpha board
/// resolves the play; a sub-board win is propagated as a play of the same
/// player on the omega board at column `index`, whose outcome settles the
/// game state; any other outcome passes the turn on; availability is then
/// recomputed from the outcome and the omega board's top row.
pub open spec fn game_step_at(m: GameModel, turn: PlayerType, index: int, col: int) -> Option<
    (MoveResult, GameModel),
> {
    match board_step(m.alphas[index], turn, col) {
        Option::None => Option::None,
        Option::Some(pr) => {
            let res = pr.0;
            let alphas1 = m.alphas.update(index, pr.1);
            if res is BoardWin {
                match board_step(BoardModel { available: true, ..m.omega }, turn, index) {
                    Option::None => Option::None,
                    Option::Some(opr) => {
                        let ores = opr.0;
                        let omega2 = BoardModel { available: false, ..opr.1 };
                        let state2 = if ores is BoardWin {
                            GameState::Win(turn)
                        } else if ores is BoardTie {
                            GameState::Tie
                        } else {
                            GameState::Turn(other_player(turn))
                        };
                        Option::Some(
                            (
                                ores,
                                GameModel {
                                    alphas: apply_avail(alphas1, ores, omega2.grid, col),
                                    omega: omega2,
                                    state: state2,
                                },
                            ),
                        )
                    },
                }
            } else {
                Option::Some(
                    (
                        res,
                        GameModel {
                            alphas: apply_avail(alphas1, res, m.omega.grid, col),
                            omega: m.omega,
                            state: GameState::Turn(other_player(turn)),
                        },
                    ),
                )
            }
        },
    }
}

/// One whole move of the game: rejected outright when the game is over or
/// the move does not address one of the seven alpha boards.
pub open spec fn game_step(m: GameModel, bt: BoardType, col: int) -> Option<
    (MoveResult, GameModel),
> {
    match (m.state, bt) {
        (GameState::Turn(turn), BoardType::Alpha(index)) => if index < 7 {
            game_step_at(m, turn, index as int, col)
        } else {
            Option::None
        },
        _ => Option::None,
    }
}

/// The state of a freshly created game: empty boards, all seven alpha
/// boards available, and the first player to move.
pub open spec fn initial_model() -> GameModel {
    GameModel {
        alphas: Seq::new(
            7,
            |i: int| BoardModel {
                available: true,
                board_type: BoardType::Alpha(i as usize),
                grid: empty_grid(),
            },
        ),
        omega: BoardModel { available: false, board_type: BoardType::Omega, grid: empty_grid() },
        state: GameState::Turn(PlayerType::Blue),
    }
}

/// The root aggregate: seven alpha boards, the omega board, and the current
/// game state.
pub struct GameInstance {
    alpha_boards: Vec<Board>,
    omega_board: Board,
    state: GameState,
}

impl View for GameInstance {
    type V = GameModel;

    closed spec fn view(&self) -> GameModel {
        GameModel {
            alphas: Seq::new(self.alpha_boards@.len(), |i: int| self.alpha_boards@[i]@),
            omega: self.omega_board@,
            state: self.state,
        }
    }
}

fn set_avail_flag(boards: &mut Vec<Board>, i: usize, v: bool)
    requires
        i < old(boards)@.len(),
    ensures
        final(boards)@.len() == old(boards)@.len(),
        final(boards)@[i as int]@ == (BoardModel { available: v, ..old(boards)@[i as int]@ }),
        forall|j: int|
            0 <= j < old(boards)@.len() && j != i ==> final(boards)@[j] == old(boards)@[j],
{
    let b = &mut boards[i];
    b.available = v;
}

impl GameInstance {
    pub fn new() -> (g: GameInstance)
        ensures
            game_wf(g@),
            g@ == initial_model(),
    {
        let mut alpha_boards: Vec<Board> = Vec::new();
        alpha_boards.push(Board::new(BoardType::Alpha(0)));
        alpha_boards.push(Board::new(BoardType::Alpha(1)));
        alpha_boards.push(Board::new(BoardType::Alpha(2)));
        alpha_boards.push(Board::new(BoardType::Alpha(3)));
        alpha_boards.push(Board::new(BoardType::Alpha(4)));
        alpha_boards.push(Board::new(BoardType::Alpha(5)));
        alpha_boards.push(Board::new(BoardType::Alpha(6)));
        let omega_board = Board::new(BoardType::Omega);
        let state = GameState::Turn(PlayerType::Blue);
        let g = GameInstance { alpha_boards, omega_board, state };
        proof {
            assert(g@.alphas =~= initial_model().alphas);
            assert(g@ =~= initial_model());
        }
        g
    }

    /// A read-only view of one board: every alpha index in range and the
    /// omega board resolve, anything else is rejected.
    pub fn board(&self, board: BoardType) -> (r: Option<&Board>)
        requires
            game_wf(self@),
        ensures
            (match board {
                BoardType::Alpha(a) => if a < 7 {
                    r matches Some(b) && b@ == self@.alphas[a as int]
                } else {
                    r is None
                },
                BoardType::Omega => r matches Some(b) && b@ == self@.omega,
            }),
    {
        match board {
            BoardType::Alpha(alpha) => {
                if alpha < ALPHA_BOARDS_NUM {
                    Some(&self.alpha_boards[alpha])
                } else {
                    None
                }
            },
            BoardType::Omega => Some(&self.omega_board),
        }
    }

    pub fn state(&self) -> (r: GameState)
        ensures
            r == self@.state,
    {
        self.state
    }

    fn switch_turn(&mut self)
        ensures
            final(self)@.alphas == old(self)@.alphas,
            final(self)@.omega == old(self)@.omega,
            final(self)@.state == (match old(self)@.state {
                GameState::Turn(t) => GameState::Turn(other_player(t)),
                s => s,
            }),
    {
        if let GameState::Turn(turn) = self.state {
            let nxt = if matches!(turn, PlayerType::Blue) {
                PlayerType::Red
            } else {
                PlayerType::Blue
            };
            self.state = GameState::Turn(nxt);
        }
        proof {
            assert(self@.alphas =~= old(self)@.alphas);
        }
    }

    fn play_omega(&mut self, col: usize) -> (r: MoveResult)
        requires
            col < 7,
            old(self)@.state is Turn,
            board_wf(old(self)@.omega),
            !old(self)@.omega.available,
            cell_at(old(self)@.omega.grid, 0, col as int) is Empty,
        ensures
            final(self)@.alphas == old(self)@.alphas,
            final(self)@.state == old(self)@.state,
            board_wf(final(self)@.omega),
            !final(self)@.omega.available,
            final(self)@.omega.board_type == old(self)@.omega.board_type,
            (match old(self)@.state {
                GameState::Turn(turn) => (match board_step(
                    BoardModel { available: true, ..old(self)@.omega },
                    turn,
                    col as int,
                ) {
                    Option::Some(opr) => r == opr.0 && final(self)@.omega == (BoardModel {
                        available: false,
                        ..opr.1
                    }),
                    Option::None => false,
                }),
                _ => false,
            }),
    {
        let turn: PlayerType;
        match self.state {
            GameState::Turn(t) => {
                turn = t;
            },
            _ => {
                // dead arm: the caller guarantees an ongoing game
                proof {
                    assert(false);
                }
                turn = PlayerType::Blue;
            },
        }
        proof {
            lemma_top_empty_has_room(self@.omega.grid, col as int);
        }
        self.omega_board.available = true;
        let r0 = self.omega_board.play(turn, col);
        let result = r0.unwrap();
        self.omega_board.available = false;
        proof {
            assert(self@.alphas =~= old(self)@.alphas);
        }
        result
    }

    fn calculate_available_alpha_boards(&mut self, result: MoveResult, col: usize)
        requires
            col < 7,
            old(self)@.alphas.len() == 7,
            board_wf(old(self)@.omega),
        ensures
            final(self)@.omega == old(self)@.omega,
            final(self)@.state == old(self)@.state,
            final(self)@.alphas.len() == 7,
            forall|j: int|
                0 <= j < 7 ==> final(self)@.alphas[j] == (BoardModel {
                    available: avail_flag(result, old(self)@.omega.grid, col as int, j),
                    ..old(self)@.alphas[j]
                }),
    {
        let mode_only: bool;
        let mode_none: bool;
        match result {
            MoveResult::Normal(BoardType::Alpha(_)) => {
                let s = self.omega_board.slot(0, col).unwrap();
                mode_only = matches!(s, SlotType::Empty);
                mode_none = false;
            },
            MoveResult::BoardTie(BoardType::Omega) | MoveResult::BoardWin(BoardType::Omega) => {
                mode_only = false;
                mode_none = true;
            },
            _ => {
                mode_only = false;
                mode_none = false;
            },
        }
        let mut i: usize = 0;
        while i < ALPHA_BOARDS_NUM
            invariant
                i <= 7,
                col < 7,
                self.alpha_boards@.len() == 7,
                old(self)@.alphas.len() == 7,
                self@.omega == old(self)@.omega,
                self@.state == old(self)@.state,
                board_wf(old(self)@.omega),
                mode_only == (result matches MoveResult::Normal(BoardType::Alpha(_)) && cell_at(
                    old(self)@.omega.grid,
                    0,
                    col as int,
                ) is Empty),
                mode_none == (result matches MoveResult::BoardTie(BoardType::Omega) || result
                    matches MoveResult::BoardWin(BoardType::Omega)),
                forall|j: int|
                    0 <= j < i ==> self@.alphas[j] == (BoardModel {
                        available: avail_flag(result, old(self)@.omega.grid, col as int, j),
                        ..old(self)@.alphas[j]
                    }),
                forall|j: int| i <= j < 7 ==> self@.alphas[j] == old(self)@.alphas[j],
            decreases 7 - i,
        {
            let v: bool;
            if mode_none {
                v = false;
            } else if mode_only {
                v = i == col;
            } else {
                let s = self.omega_board.slot(0, i).unwrap();
                v = matches!(s, SlotType::Empty);
            }
            proof {
                assert(v == avail_flag(result, old(self)@.omega.grid, col as int, i as int));
            }
            let ghost pre = self@;
            set_avail_flag(&mut self.alpha_boards, i, v);
            proof {
                assert forall|j: int| 0 <= j <= i implies self@.alphas[j] == (BoardModel {
                    available: avail_flag(result, old(self)@.omega.grid, col as int, j),
                    ..old(self)@.alphas[j]
                }) by {
                    assert(self@.alphas[j] == self.alpha_boards@[j]@);
                    if j == i as int {
                        assert(self.alpha_boards@[j]@ == (BoardModel {
                            available: v,
                            ..pre.alphas[j]
                        }));
                        assert(pre.alphas[j] == old(self)@.alphas[j]);
                    } else {
                        assert(self.alpha_boards@[j]@ == pre.alphas[j]);
                        assert(pre.alphas[j] == (BoardModel {
                            available: avail_flag(result, old(self)@.omega.grid, col as int, j),
                            ..old(self)@.alphas[j]
                        }));
                    }
                }
            }
            i += 1;
        }
    }

    /// The sole mutator of a game: one whole move, specified exactly by
    /// `game_step`; a rejected move leaves the game unchanged.
    pub fn play(&mut self, board: BoardType, col: usize) -> (r: Option<MoveResult>)
        requires
            game_wf(old(self)@),
        ensures
            game_wf(final(self)@),
            (match game_step(old(self)@, board, col as int) {
                Option::None => r is None && final(self)@ == old(self)@,
                Option::Some(pr) => r == Option::Some(pr.0) && final(self)@ == pr.1,
            }),
    {
        let ghost m0 = self@;
        let turn = match self.state {
            GameState::Turn(t) => t,
            _ => {
                return None;
            },
        };
        let index = match board {
            BoardType::Alpha(i) => {
                if i < ALPHA_BOARDS_NUM {
                    i
                } else {
                    return None;
                }
            },
            BoardType::Omega => {
                return None;
            },
        };
        proof {
            assert(self.alpha_boards@.len() == 7);
        }
        let b = &mut self.alpha_boards[index];
        proof {
            assert(*b == old(self).alpha_boards@[index as int]);
            assert(b@ == m0.alphas[index as int]);
        }
        let r0 = b.play(turn, col);
        let ghost pr = board_step(m0.alphas[index as int], turn, col as int);
        let result = match r0 {
            Option::Some(res) => res,
            Option::None => {
                proof {
                    assert(self@.alphas =~= m0.alphas);
                    assert(self@ =~= m0);
                }
                return None;
            },
        };
        let ghost alphas1 = m0.alphas.update(index as int, pr.unwrap().1);
        proof {
            assert(self@.alphas =~= alphas1);
            assert(0 <= col < 7);
            assert(m0.alphas[index as int].available);
            assert(cell_at(m0.omega.grid, 0, index as int) is Empty);
        }
        let result2: MoveResult;
        match result {
            MoveResult::BoardWin(_) => {
                let ores = self.play_omega(index);
                match ores {
                    MoveResult::Normal(_) => {
                        self.switch_turn();
                    },
                    MoveResult::BoardWin(_) => {
                        self.state = GameState::Win(turn);
                    },
                    MoveResult::BoardTie(_) => {
                        self.state = GameState::Tie;
                    },
                }
                result2 = ores;
            },
            _ => {
                self.switch_turn();
                result2 = result;
            },
        }
        proof {
            assert(self@.alphas =~= alphas1);
        }
        self.calculate_available_alpha_boards(result2, col);
        proof {
            let step = game_step(m0, board, col as int);
            assert(step is Some);
            let m2 = step.unwrap().1;
            assert(self@.alphas =~= m2.alphas);
            assert(self@ =~= m2);
            assert forall|i2: int| 0 <= i2 < 7 implies board_wf(#[trigger] self@.alphas[i2]) by {
                assert(board_wf(alphas1[i2]));
            }
            assert forall|i2: int|
                0 <= i2 < 7 && (#[trigger] self@.alphas[i2]).available implies cell_at(
                self@.omega.grid,
                0,
                i2,
            ) is Empty by {
                assert(self@.alphas[i2].available == avail_flag(
                    result2,
                    self@.omega.grid,
                    col as int,
                    i2,
                ));
            }
            assert(game_wf(self@));
        }
        Some(result2)
    }
}


impl Default for GameInstance {
    fn default() -> (g: GameInstance)
        ensures
            game_wf(g@),
            g@ == initial_model(),
    {
        GameInstance::new()
    }
}

/// Law: once the game has ended in a tie or a win, every further move is
/// rejected — the terminal states are absorbing.
pub proof fn lemma_terminal_absorbs(m: GameModel, bt: BoardType, col: int)
    requires
        !(m.state is Turn),
    ensures
        game_step(m, bt, col) is None,
{
}

/// Law: a column whose top slot is filled can never accept another disc, on
/// any board, alpha or omega alike.
pub proof fn lemma_full_column_rejects(b: BoardModel, p: PlayerType, col: int)
    requires
        grid_wf(b.grid),
        0 <= col < 7,
        !(cell_at(b.grid, 0, col) is Empty),
    ensures
        board_step(b, p, col) is None,
{
    lemma_top_filled_column_full(b.grid, col);
}

/// Law: a whole-game move into a full column of an alpha board is rejected.
pub proof fn lemma_full_column_rejects_game(m: GameModel, i: usize, col: int)
    requires
        game_wf(m),
        i < 7,
        0 <= col < 7,
        !(cell_at(m.alphas[i as int].grid, 0, col) is Empty),
    ensures
        game_step(m, BoardType::Alpha(i), col) is None,
{
    if let GameState::Turn(t) = m.state {
        lemma_full_column_rejects(m.alphas[i as int], t, col);
    }
}

/// Law: a move addressed at an alpha board that is not currently available
/// is rejected; by `play`'s contract a rejected move mutates nothing.
pub proof fn lemma_unavailable_board_rejects(m: GameModel, i: usize, col: int)
    requires
        i < 7,
        !m.alphas[i as int].available,
    ensures
        game_step(m, BoardType::Alpha(i), col) is None,
{
}

/// Law: the player to move alternates after every accepted move that keeps
/// the game going, also when an alpha-board win consumed a propagated omega
/// play; a move that wins or ties the omega board ends the game instead,
/// in favour of the player who made it.
pub proof fn lemma_turn_alternation(m: GameModel, bt: BoardType, col: int)
    requires
        game_wf(m),
        game_step(m, bt, col) is Some,
    ensures
        m.state is Turn,
        (match game_step(m, bt, col) {
            Option::Some(pr) => {
                &&& (pr.1.state is Turn ==> (m.state matches GameState::Turn(t) && pr.1.state
                    == GameState::Turn(other_player(t))))
                &&& ((pr.0 matches MoveResult::BoardWin(o) && o is Omega) <==> (
                m.state matches GameState::Turn(t) && pr.1.state == GameState::Win(t)))
                &&& ((pr.0 matches MoveResult::BoardTie(o) && o is Omega) <==> pr.1.state
                    == GameState::Tie)
            },
            Option::None => true,
        }),
{
    if let GameState::Turn(turn) = m.state {
        if let BoardType::Alpha(index) = bt {
            let pr = board_step(m.alphas[index as int], turn, col).unwrap();
            assert(m.alphas[index as int].board_type == BoardType::Alpha(index));
            if pr.0 is BoardWin {
                let om = BoardModel { available: true, ..m.omega };
                let opr = board_step(om, turn, index as int).unwrap();
                assert(om.board_type is Omega);
            }
        }
    }
}

/// Law: an alpha-board win is itself the move at the meta level. The omega
/// play is made on behalf of the same player who just won the alpha board,
/// with no extra turn consumed: the winner's marker drops to the lowest
/// empty row of the omega column matching the won board's index, the
/// returned outcome is the omega-level one, and that outcome settles the
/// game state (continue with the turn passed on once, or win, or tie). The
/// omega board stays unavailable to direct moves.
pub proof fn lemma_win_propagates_to_omega(m: GameModel, i: usize, col: int)
    requires
        game_wf(m),
        i < 7,
        (match m.state {
            GameState::Turn(turn) => board_step(m.alphas[i as int], turn, col)
                matches Some(pr) && pr.0 is BoardWin,
            _ => false,
        }),
    ensures
        game_step(m, BoardType::Alpha(i), col) is Some,
        (match (m.state, game_step(m, BoardType::Alpha(i), col)) {
            (GameState::Turn(turn), Option::Some(gpr)) => {
                let lr = landing_row(m.omega.grid, i as int);
                let oprop = board_step(BoardModel { available: true, ..m.omega }, turn, i as int);
                &&& 0 <= lr <= 5
                &&& oprop matches Some(opr) && gpr.0 == opr.0 && gpr.1.omega == (BoardModel {
                    available: false,
                    ..opr.1
                })
                &&& (match gpr.0 {
                    MoveResult::Normal(o) => o is Omega,
                    MoveResult::BoardTie(o) => o is Omega,
                    MoveResult::BoardWin(o) => o is Omega,
                })
                &&& !gpr.1.omega.available
                &&& (gpr.0 is Normal ==> gpr.1.state == GameState::Turn(other_player(turn))
                    && gpr.1.omega.grid == m.omega.grid.update(
                    lr * 7 + i as int,
                    SlotType::Filled(turn),
                ))
                &&& (gpr.0 is BoardWin ==> gpr.1.state == GameState::Win(turn))
                &&& (gpr.0 is BoardTie ==> gpr.1.state == GameState::Tie)
            },
            _ => false,
        }),
{
    if let GameState::Turn(turn) = m.state {
        let pr = board_step(m.alphas[i as int], turn, col).unwrap();
        assert(m.alphas[i as int].available);
        assert(cell_at(m.omega.grid, 0, i as int) is Empty);
        lemma_top_empty_has_room(m.omega.grid, i as int);
        let om = BoardModel { available: true, ..m.omega };
        assert(board_step(om, turn, i as int) is Some);
        let opr = board_step(om, turn, i as int).unwrap();
        assert(om.board_type is Omega);
    }
}

/// Law: after any accepted move, at least one alpha board is available
/// unless the game has ended.
pub proof fn lemma_available_nonempty(m: GameModel, bt: BoardType, col: int)
    requires
        game_wf(m),
        game_step(m, bt, col) is Some,
    ensures
        (match game_step(m, bt, col) {
            Option::Some(pr) => pr.1.state is Turn ==> exists|i: int|
                0 <= i < 7 && (#[trigger] pr.1.alphas[i]).available,
            Option::None => true,
        }),
{
    let step = game_step(m, bt, col);
    if let GameState::Turn(turn) = m.state {
        if let BoardType::Alpha(index) = bt {
            if index < 7 {
                let pr = board_step(m.alphas[index as int], turn, col).unwrap();
                let res = pr.0;
                let alphas1 = m.alphas.update(index as int, pr.1);
                assert(0 <= col < 7);
                assert(m.alphas[index as int].available);
                assert(cell_at(m.omega.grid, 0, index as int) is Empty);
                if res is BoardWin {
                    let om = BoardModel { available: true, ..m.omega };
                    let opr = board_step(om, turn, index as int).unwrap();
                    let ores = opr.0;
                    let omega2 = BoardModel { available: false, ..opr.1 };
                    let fin = step.unwrap().1;
                    assert(fin.alphas == apply_avail(alphas1, ores, omega2.grid, col));
                    if !(ores is BoardWin) && !(ores is BoardTie) {
                        assert(!top_row_full(omega2.grid));
                        assert(exists|c: int| 0 <= c < 7 && cell_at(omega2.grid, 0, c) is Empty);
                        let c = choose|c: int| 0 <= c < 7 && cell_at(omega2.grid, 0, c) is Empty;
                        assert(avail_flag(ores, omega2.grid, col, c));
                        assert(fin.alphas[c].available);
                    }
                } else {
                    let fin = step.unwrap().1;
                    assert(fin.alphas == apply_avail(alphas1, res, m.omega.grid, col));
                    if res is Normal && cell_at(m.omega.grid, 0, col) is Empty {
                        assert(fin.alphas[col].available);
                    } else {
                        assert(avail_flag(res, m.omega.grid, col, index as int));
                        assert(fin.alphas[index as int].available);
                    }
                }
            }
        }
    }
}

/// Law: a play is reported as a board win exactly when the placed disc
/// completes four-in-a-row in one of the four directions — including runs
/// that start before the placed cell and runs centered after it.
pub proof fn lemma_win_detected_on_placement(b: BoardModel, p: PlayerType, col: int)
    requires
        b.available,
        0 <= col < 7,
        0 <= landing_row(b.grid, col),
    ensures
        (board_step(b, p, col) matches Option::Some(pr) && pr.0 is BoardWin) <==> wins_at(
            b.grid.update(landing_row(b.grid, col) * 7 + col, SlotType::Filled(p)),
            p,
            landing_row(b.grid, col),
            col,
        ),
{
}

/// Replaying a sequence of moves from a starting state; a rejected move
/// leaves the state unchanged, exactly as `play` does.
pub open spec fn replay(m: GameModel, moves: Seq<(BoardType, int)>) -> GameModel
    decreases moves.len(),
{
    if moves.len() == 0 {
        m
    } else {
        let m2 = (match game_step(m, moves[0].0, moves[0].1) {
            Option::Some(pr) => pr.1,
            Option::None => m,
        });
        replay(m2, moves.drop_first())
    }
}

/// Law (round trip): the engine is deterministic — replaying one sequence
/// of moves from equal states, in particular from two fresh games, yields
/// identical board contents and identical game state.
pub proof fn lemma_replay_round_trip(m1: GameModel, m2: GameModel, moves: Seq<(BoardType, int)>)
    requires
        m1 == m2,
    ensures
        replay(m1, moves) == replay(m2, moves),
{
}

} // verus!
