//! What a player may see of a game.

use crate::board::{in_board, Cell, CellState, CellType, Flag, GameState, GameStatus, Point};
use vstd::prelude::*;

verus! {

/// A cell as the player sees it: an open cell shows what it holds, an
/// unopened cell shows its marker and nothing else.
#[derive(Debug, Clone, Copy, PartialEq, Eq, Structural)]
pub enum CellView {
    Revealed(CellType),
    Hidden(Flag),
}

/// What the player sees of `cell`.
pub open spec fn seen(cell: Cell) -> CellView {
    match cell.state {
        CellState::Opened => CellView::Revealed(cell.cell_type),
        CellState::Unopened(flag) => CellView::Hidden(flag),
    }
}

impl GameState {
    /// Whether the game is in progress, won or lost.
    pub fn status(&self) -> (status: GameStatus)
        ensures
            status == self@.status,
    {
        self.status
    }

    /// What the player sees of the cell at `point`.
    pub fn visible_cell(&self, point: Point) -> (shown: CellView)
        requires
            in_board(self@.board, point.0 as int, point.1 as int),
        ensures
            shown == seen(self@.board[point.1 as int][point.0 as int]),
    {
        let cell = self.grid[point.1][point.0];
        match cell.state {
            CellState::Opened => CellView::Revealed(cell.cell_type),
            CellState::Unopened(flag) => CellView::Hidden(flag),
        }
    }
}

/// Two unopened cells with the same marker look alike, whatever they hold.
pub proof fn lemma_unopened_cells_hide_content(a: Cell, b: Cell)
    requires
        a.state is Unopened,
        a.state == b.state,
    ensures
        seen(a) == seen(b),
{
}

} // verus!
