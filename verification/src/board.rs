//! The data of a game and its mathematical model.

use vstd::prelude::*;

verus! {

/// A grid position: column first, then row.
pub type Point = (usize, usize);

/// The model of a grid: rows of cells, indexed `[row][column]`.
pub type Board = Seq<Seq<Cell>>;

/// The marker a player may leave on an unopened cell.
#[derive(Debug, Clone, Copy, PartialEq, Eq, Structural)]
pub enum Flag {
    Unflagged,
    Unsure,
    Sure,
}

/// What a cell holds: a mine, or nothing together with the number of mines
/// around it.
#[derive(Debug, Clone, Copy, PartialEq, Eq, Structural)]
pub enum CellType {
    Empty { adjacent_mines: u8 },
    Mine,
}

/// Whether the player has revealed a cell.
#[derive(Debug, Clone, Copy, PartialEq, Eq, Structural)]
pub enum CellState {
    Opened,
    Unopened(Flag),
}

/// One grid position: what it holds and whether it has been revealed.
#[derive(Debug, Clone, Copy, PartialEq, Eq, Structural)]
pub struct Cell {
    pub cell_type: CellType,
    pub state: CellState,
}

/// Where a game stands. `Lost` and `Won` are final.
#[derive(Debug, Clone, Copy, PartialEq, Eq, Structural)]
pub enum GameStatus {
    InProgress,
    Lost,
    Won,
}

/// A game: its status and its grid, indexed `[row][column]`.
#[derive(Debug, Clone, PartialEq, Eq)]
pub struct GameState {
    pub status: GameStatus,
    pub grid: Vec<Vec<Cell>>,
}

/// The model of a game: its status and its board.
pub ghost struct Game {
    pub status: GameStatus,
    pub board: Board,
}

/// The board that a grid of vectors stands for.
pub open spec fn board_of(grid: Vec<Vec<Cell>>) -> Board {
    Seq::new(grid@.len(), |y: int| grid@[y]@)
}

impl View for GameState {
    type V = Game;

    open spec fn view(&self) -> Game {
        Game { status: self.status, board: board_of(self.grid) }
    }
}

/// `(x, y)` names a cell of the board.
pub open spec fn in_board(b: Board, x: int, y: int) -> bool {
    0 <= y < b.len() && 0 <= x < b[y].len()
}

/// The board has `height` rows of `width` cells each.
pub open spec fn rectangular(b: Board, width: int, height: int) -> bool {
    &&& b.len() == height
    &&& forall|y: int| 0 <= y < height ==> (#[trigger] b[y]).len() == width
}

/// The board with the cell at `(x, y)` replaced by `c`.
pub open spec fn with_cell(b: Board, x: int, y: int, c: Cell) -> Board {
    b.update(y, b[y].update(x, c))
}

/// There is a mine at `(x, y)`; false outside the board.
pub open spec fn is_mine_at(b: Board, x: int, y: int) -> bool {
    in_board(b, x, y) && b[y][x].cell_type is Mine
}

/// The positions of the board's mines.
pub open spec fn mine_cells(b: Board) -> Set<Point> {
    Set::new(|p: Point| is_mine_at(b, p.0 as int, p.1 as int))
}

/// 1 where `(x, y)` holds a mine, else 0.
pub open spec fn mine_bit(b: Board, x: int, y: int) -> int {
    if is_mine_at(b, x, y) {
        1
    } else {
        0
    }
}

/// The number of mines in the up to eight cells around `(x, y)`.
pub open spec fn mines_around(b: Board, x: int, y: int) -> int {
    mine_bit(b, x - 1, y - 1) + mine_bit(b, x - 1, y) + mine_bit(b, x - 1, y + 1)
        + mine_bit(b, x, y - 1) + mine_bit(b, x, y + 1)
        + mine_bit(b, x + 1, y - 1) + mine_bit(b, x + 1, y) + mine_bit(b, x + 1, y + 1)
}

/// Every empty cell carries the number of mines around it.
pub open spec fn counts_settled(b: Board) -> bool {
    forall|x: int, y: int|
        in_board(b, x, y) ==> match (#[trigger] b[y][x]).cell_type {
            CellType::Empty { adjacent_mines } => adjacent_mines == mines_around(b, x, y),
            CellType::Mine => true,
        }
}

/// No cell has been opened or flagged.
pub open spec fn untouched(b: Board) -> bool {
    forall|x: int, y: int|
        in_board(b, x, y) ==> (#[trigger] b[y][x]).state == CellState::Unopened(Flag::Unflagged)
}

} // verus!
