//! The two player actions and the test for a won game.

use crate::board::{board_of, counts_settled, in_board, is_mine_at, mine_cells, mines_around, rectangular, untouched, with_cell, Board, Cell, CellState, CellType, Flag, Game, GameState, GameStatus, Point};
use vstd::prelude::*;

verus! {

/// Nothing is left to do at this cell: it holds a mine, or it is open.
pub open spec fn cell_settled(c: Cell) -> bool {
    c.cell_type is Mine || c.state is Opened
}

/// Every cell without a mine has been opened.
pub open spec fn board_won(b: Board) -> bool {
    forall|x: int, y: int| in_board(b, x, y) ==> cell_settled(#[trigger] b[y][x])
}

/// The status of a game in progress after a move that left `b`.
pub open spec fn status_after(b: Board) -> GameStatus {
    if board_won(b) {
        GameStatus::Won
    } else {
        GameStatus::InProgress
    }
}

/// The game after the player opens the cell at `(x, y)`.
pub open spec fn opened(g: Game, x: int, y: int) -> Game {
    if g.status != GameStatus::InProgress || g.board[y][x].state is Opened {
        g
    } else {
        let cell = Cell { cell_type: g.board[y][x].cell_type, state: CellState::Opened };
        let board = with_cell(g.board, x, y, cell);
        Game {
            status: if cell.cell_type is Mine {
                GameStatus::Lost
            } else {
                status_after(board)
            },
            board,
        }
    }
}

/// The game after the player sets the marker of the cell at `(x, y)` to `flag`.
pub open spec fn flagged(g: Game, x: int, y: int, flag: Flag) -> Game {
    if g.status != GameStatus::InProgress || g.board[y][x].state is Opened {
        g
    } else {
        let cell = Cell { cell_type: g.board[y][x].cell_type, state: CellState::Unopened(flag) };
        let board = with_cell(g.board, x, y, cell);
        Game { status: status_after(board), board }
    }
}

fn cell_is_settled(cell: Cell) -> (settled: bool)
    ensures
        settled == cell_settled(cell),
{
    match cell.cell_type {
        CellType::Mine => true,
        CellType::Empty { adjacent_mines: _ } => match cell.state {
            CellState::Opened => true,
            CellState::Unopened(_) => false,
        },
    }
}

/// Whether the game on this grid is won: every cell holds a mine or is open.
pub fn is_game_won(grid: &Vec<Vec<Cell>>) -> (won: bool)
    ensures
        won == board_won(board_of(*grid)),
{
    let ghost b = board_of(*grid);
    let mut y: usize = 0;
    while y < grid.len()
        invariant
            y <= grid.len(),
            b == board_of(*grid),
            forall|i: int, j: int| 0 <= j < y && in_board(b, i, j) ==> cell_settled(#[trigger] b[j][i]),
        decreases grid.len() - y,
    {
        let row = &grid[y];
        let mut x: usize = 0;
        while x < row.len()
            invariant
                y < grid.len(),
                x <= row.len(),
                b == board_of(*grid),
                row@ == b[y as int],
                forall|i: int, j: int| 0 <= j < y && in_board(b, i, j) ==> cell_settled(#[trigger] b[j][i]),
                forall|i: int| 0 <= i < x ==> cell_settled(#[trigger] b[y as int][i]),
            decreases row.len() - x,
        {
            if !cell_is_settled(row[x]) {
                assert(in_board(b, x as int, y as int) && !cell_settled(b[y as int][x as int]));
                return false;
            }
            x += 1;
        }
        y += 1;
    }
    true
}

/// Opens the cell at `point`. A finished game and an open cell are left as
/// they are. Opening a mine loses the game; opening the last cell without a
/// mine wins it.
pub fn open_cell(state: GameState, point: Point) -> (next: GameState)
    requires
        state.status == GameStatus::InProgress ==> in_board(state@.board, point.0 as int, point.1 as int),
    ensures
        next@ == opened(state@, point.0 as int, point.1 as int),
{
    match state.status {
        GameStatus::InProgress => {
            let (x, y) = point;
            let ghost before = state@;
            let mut grid = state.grid;
            let cell = grid[y][x];
            match cell.state {
                CellState::Opened => {
                    let next = GameState { status: state.status, grid };
                    assert(next@.board =~~= before.board);
                    next
                },
                _ => {
                    let fresh = Cell { cell_type: cell.cell_type, state: CellState::Opened };
                    grid[y][x] = fresh;
                    assert(board_of(grid) =~~= with_cell(before.board, x as int, y as int, fresh));
                    match cell.cell_type {
                        CellType::Mine => GameState { status: GameStatus::Lost, grid },
                        _ => GameState {
                            status: if is_game_won(&grid) {
                                GameStatus::Won
                            } else {
                                GameStatus::InProgress
                            },
                            grid,
                        },
                    }
                },
            }
        },
        _ => {
            let next = GameState { status: state.status, grid: state.grid };
            assert(next@.board =~~= state@.board);
            next
        },
    }
}

/// Sets the marker of the cell at `point`. A finished game and an open cell
/// are left as they are.
pub fn change_flag(state: GameState, point: Point, flag: Flag) -> (next: GameState)
    requires
        state.status == GameStatus::InProgress ==> in_board(state@.board, point.0 as int, point.1 as int),
    ensures
        next@ == flagged(state@, point.0 as int, point.1 as int, flag),
{
    match state.status {
        GameStatus::InProgress => {
            let (x, y) = point;
            let ghost before = state@;
            let mut grid = state.grid;
            let cell = grid[y][x];
            match cell.state {
                CellState::Opened => {
                    let next = GameState { status: state.status, grid };
                    assert(next@.board =~~= before.board);
                    next
                },
                _ => {
                    let fresh = Cell { cell_type: cell.cell_type, state: CellState::Unopened(flag) };
                    grid[y][x] = fresh;
                    assert(board_of(grid) =~~= with_cell(before.board, x as int, y as int, fresh));
                    GameState {
                        status: if is_game_won(&grid) {
                            GameStatus::Won
                        } else {
                            GameStatus::InProgress
                        },
                        grid,
                    }
                },
            }
        },
        _ => {
            let next = GameState { status: state.status, grid: state.grid };
            assert(next@.board =~~= state@.board);
            next
        },
    }
}

/// Opening a cell a second time changes nothing.
pub proof fn lemma_open_is_idempotent(g: Game, x: int, y: int)
    requires
        g.status == GameStatus::InProgress ==> in_board(g.board, x, y),
    ensures
        opened(opened(g, x, y), x, y) == opened(g, x, y),
{
}

/// A game that is won or lost is left as it is by both actions, whatever the
/// position and the marker.
pub proof fn lemma_finished_game_is_final(g: Game, x: int, y: int, flag: Flag)
    requires
        g.status == GameStatus::Won || g.status == GameStatus::Lost,
    ensures
        opened(g, x, y) == g,
        flagged(g, x, y, flag) == g,
{
}

/// No mine of the board has been opened.
pub open spec fn no_mine_opened(b: Board) -> bool {
    forall|x: int, y: int|
        in_board(b, x, y) ==> !((#[trigger] b[y][x]).cell_type is Mine && b[y][x].state is Opened)
}

/// A game is sound when, as long as it is in progress, no mine has been
/// opened. A new game is sound, and both actions keep a game sound.
pub open spec fn sound(g: Game) -> bool {
    g.status == GameStatus::InProgress ==> no_mine_opened(g.board)
}

/// A game on an untouched board is sound.
pub proof fn lemma_new_game_is_sound(g: Game)
    requires
        untouched(g.board),
    ensures
        sound(g),
{
}

/// Both actions keep a sound game sound.
pub proof fn lemma_actions_keep_sound(g: Game, x: int, y: int, flag: Flag)
    requires
        sound(g),
        g.status == GameStatus::InProgress ==> in_board(g.board, x, y),
    ensures
        sound(opened(g, x, y)),
        sound(flagged(g, x, y, flag)),
{
    let o = opened(g, x, y);
    if o.status == GameStatus::InProgress {
        assert forall|u: int, v: int| in_board(o.board, u, v) implies !((#[trigger] o.board[v][u]).cell_type is Mine
            && o.board[v][u].state is Opened) by {
            assert(in_board(g.board, u, v));
            if !(u == x && v == y) {
                assert(o.board[v][u] == g.board[v][u]);
            }
        }
    }
    let f = flagged(g, x, y, flag);
    if f.status == GameStatus::InProgress {
        assert forall|u: int, v: int| in_board(f.board, u, v) implies !((#[trigger] f.board[v][u]).cell_type is Mine
            && f.board[v][u].state is Opened) by {
            assert(in_board(g.board, u, v));
            if !(u == x && v == y) {
                assert(f.board[v][u] == g.board[v][u]);
            }
        }
    }
}

/// Opening a cell that holds a mine loses a sound game in progress, whatever
/// the rest of the board holds.
pub proof fn lemma_opening_mine_loses(g: Game, x: int, y: int)
    requires
        sound(g),
        g.status == GameStatus::InProgress,
        in_board(g.board, x, y),
        g.board[y][x].cell_type is Mine,
    ensures
        opened(g, x, y).status == GameStatus::Lost,
{
    assert(!(g.board[y][x].cell_type is Mine && g.board[y][x].state is Opened));
}

/// A board is won exactly when all its empty cells are open.
pub proof fn lemma_won_iff_empty_cells_open(b: Board)
    ensures
        board_won(b) <==> (forall|x: int, y: int|
            in_board(b, x, y) && (#[trigger] b[y][x]).cell_type is Empty ==> b[y][x].state is Opened),
{
    if board_won(b) {
        assert forall|x: int, y: int|
            in_board(b, x, y) && (#[trigger] b[y][x]).cell_type is Empty implies b[y][x].state is Opened by {
            assert(cell_settled(b[y][x]));
        }
    }
}

/// Setting a marker never loses a game in progress.
pub proof fn lemma_flag_never_loses(g: Game, x: int, y: int, flag: Flag)
    requires
        g.status == GameStatus::InProgress,
    ensures
        flagged(g, x, y, flag).status != GameStatus::Lost,
{
}

/// Both actions keep the size of the board and what each cell holds; they
/// touch no cell but the one they name.
pub proof fn lemma_actions_keep_contents(g: Game, x: int, y: int, flag: Flag, u: int, v: int)
    requires
        in_board(g.board, x, y),
        in_board(g.board, u, v),
    ensures
        in_board(opened(g, x, y).board, u, v),
        in_board(flagged(g, x, y, flag).board, u, v),
        opened(g, x, y).board[v][u].cell_type == g.board[v][u].cell_type,
        flagged(g, x, y, flag).board[v][u].cell_type == g.board[v][u].cell_type,
        !(u == x && v == y) ==> opened(g, x, y).board[v][u] == g.board[v][u],
        !(u == x && v == y) ==> flagged(g, x, y, flag).board[v][u] == g.board[v][u],
{
}

/// Both actions keep the shape of the board, the positions of its mines and
/// the counts of its empty cells.
pub proof fn lemma_actions_keep_layout(g: Game, x: int, y: int, flag: Flag, width: int, height: int)
    requires
        rectangular(g.board, width, height),
        in_board(g.board, x, y),
    ensures
        rectangular(opened(g, x, y).board, width, height),
        rectangular(flagged(g, x, y, flag).board, width, height),
        mine_cells(opened(g, x, y).board) == mine_cells(g.board),
        mine_cells(flagged(g, x, y, flag).board) == mine_cells(g.board),
        counts_settled(g.board) ==> counts_settled(opened(g, x, y).board),
        counts_settled(g.board) ==> counts_settled(flagged(g, x, y, flag).board),
{
    let o = opened(g, x, y).board;
    let f = flagged(g, x, y, flag).board;
    assert forall|u: int, v: int| #[trigger] is_mine_at(o, u, v) == is_mine_at(g.board, u, v) by {
        lemma_same_mine(g.board, o, x, y, u, v);
    }
    assert forall|u: int, v: int| #[trigger] is_mine_at(f, u, v) == is_mine_at(g.board, u, v) by {
        lemma_same_mine(g.board, f, x, y, u, v);
    }
    assert(mine_cells(o) =~= mine_cells(g.board));
    assert(mine_cells(f) =~= mine_cells(g.board));
    if counts_settled(g.board) {
        assert forall|u: int, v: int| in_board(o, u, v) implies match (#[trigger] o[v][u]).cell_type {
            CellType::Empty { adjacent_mines } => adjacent_mines == mines_around(o, u, v),
            CellType::Mine => true,
        } by {
            assert(in_board(g.board, u, v));
            assert(o[v][u].cell_type == g.board[v][u].cell_type);
            assert(mines_around(o, u, v) == mines_around(g.board, u, v));
        }
        assert forall|u: int, v: int| in_board(f, u, v) implies match (#[trigger] f[v][u]).cell_type {
            CellType::Empty { adjacent_mines } => adjacent_mines == mines_around(f, u, v),
            CellType::Mine => true,
        } by {
            assert(in_board(g.board, u, v));
            assert(f[v][u].cell_type == g.board[v][u].cell_type);
            assert(mines_around(f, u, v) == mines_around(g.board, u, v));
        }
    }
}

/// A board that differs from `b` at most in the state of the cell at
/// `(x, y)` has its mines where `b` has them.
proof fn lemma_same_mine(b: Board, c: Board, x: int, y: int, u: int, v: int)
    requires
        in_board(b, x, y),
        c == b || (c == with_cell(b, x, y, c[y][x]) && c[y][x].cell_type == b[y][x].cell_type),
    ensures
        is_mine_at(c, u, v) == is_mine_at(b, u, v),
{
    if c != b {
        if in_board(b, u, v) {
            assert(in_board(c, u, v));
        }
    }
}

} // verus!
