//! Building the grid of a new game.

use crate::adjacency::{adjacent, find_adjacent, is_neighbor, precedes, strictly_ordered};
use crate::board::{board_of, counts_settled, in_board, is_mine_at, mine_bit, mine_cells, mines_around, rectangular, untouched, with_cell, Board, Cell, CellState, CellType, Flag, GameState, GameStatus, Point};
use crate::sampling::{all_inside, random_coordinates};
use vstd::prelude::*;

verus! {

/// `(x, y)` is among the first `upto` positions of `ps`.
pub open spec fn listed(ps: Seq<Point>, upto: int, x: int, y: int) -> bool {
    exists|k: int| 0 <= k < upto && (#[trigger] ps[k]).0 == x && ps[k].1 == y
}

/// The board's mines lie exactly at the first `upto` positions of `ps`.
pub open spec fn mines_match(b: Board, ps: Seq<Point>, upto: int) -> bool {
    forall|x: int, y: int|
        in_board(b, x, y) ==> ((#[trigger] b[y][x]).cell_type is Mine <==> listed(ps, upto, x, y))
}

/// No empty cell counts more than eight mines.
pub open spec fn counts_bounded(b: Board) -> bool {
    forall|x: int, y: int|
        in_board(b, x, y) ==> match (#[trigger] b[y][x]).cell_type {
            CellType::Empty { adjacent_mines } => adjacent_mines <= 8,
            CellType::Mine => true,
        }
}

/// While the cells around a new mine are being visited: an empty cell counts
/// the mines that `before` had around it, and one more once it has been
/// visited.
spec fn counts_pending(b: Board, before: Board, visited: Seq<Point>, upto: int) -> bool {
    forall|x: int, y: int|
        in_board(b, x, y) ==> match (#[trigger] b[y][x]).cell_type {
            CellType::Empty { adjacent_mines } => adjacent_mines == mines_around(before, x, y) + (if listed(
                visited,
                upto,
                x,
                y,
            ) {
                1int
            } else {
                0int
            }),
            CellType::Mine => true,
        }
}

proof fn lemma_listed_step(ps: Seq<Point>, upto: int, x: int, y: int)
    requires
        0 <= upto < ps.len(),
    ensures
        listed(ps, upto + 1, x, y) <==> (listed(ps, upto, x, y) || (ps[upto].0 == x && ps[upto].1 == y)),
{
    if listed(ps, upto + 1, x, y) {
        let k = choose|k: int| 0 <= k < upto + 1 && (#[trigger] ps[k]).0 == x && ps[k].1 == y;
        if k < upto {
            assert(listed(ps, upto, x, y));
        }
    }
    if listed(ps, upto, x, y) {
        let k = choose|k: int| 0 <= k < upto && (#[trigger] ps[k]).0 == x && ps[k].1 == y;
        assert(0 <= k < upto + 1 && ps[k].0 == x && ps[k].1 == y);
    }
    if ps[upto].0 == x && ps[upto].1 == y {
        assert(0 <= upto < upto + 1 && ps[upto].0 == x && ps[upto].1 == y);
    }
}

/// A mine laid on a cell that had none adds one to the count around each of
/// the cells next to it, and to no other.
proof fn lemma_new_mine(b0: Board, b1: Board, mx: int, my: int, c: Cell, x: int, y: int)
    requires
        in_board(b0, mx, my),
        !is_mine_at(b0, mx, my),
        c.cell_type is Mine,
        b1 == with_cell(b0, mx, my, c),
    ensures
        mines_around(b1, x, y) == mines_around(b0, x, y) + (if adjacent(x, y, mx, my) {
            1int
        } else {
            0int
        }),
{
    assert forall|u: int, v: int| #[trigger]
        mine_bit(b1, u, v) == mine_bit(b0, u, v) + (if u == mx && v == my {
            1int
        } else {
            0int
        }) by {
        if in_board(b0, u, v) {
            assert(in_board(b1, u, v));
        }
    }
}

/// The mines among the cells that a grid of the given size has around
/// `(x, y)`.
pub open spec fn mined_neighbors(b: Board, x: int, y: int, width: int, height: int) -> Set<Point> {
    Set::new(
        |p: Point| is_neighbor(x, y, width, height, p.0 as int, p.1 as int) && is_mine_at(b, p.0 as int, p.1 as int),
    )
}

/// `s` with the position `(u, v)` added where it holds a mine.
spec fn with_mine(s: Set<Point>, b: Board, u: int, v: int) -> Set<Point> {
    if is_mine_at(b, u, v) {
        s.insert((u as usize, v as usize))
    } else {
        s
    }
}

/// The number that `mines_around` gives for a cell is the number of mines
/// among the cells around it.
pub proof fn lemma_mines_around_counts_neighbors(b: Board, x: int, y: int, width: int, height: int)
    requires
        rectangular(b, width, height),
        width <= usize::MAX,
        height <= usize::MAX,
        in_board(b, x, y),
    ensures
        mined_neighbors(b, x, y, width, height).finite(),
        mined_neighbors(b, x, y, width, height).len() == mines_around(b, x, y),
{
    let s0 = Set::<Point>::empty();
    let s1 = with_mine(s0, b, x - 1, y - 1);
    let s2 = with_mine(s1, b, x - 1, y);
    let s3 = with_mine(s2, b, x - 1, y + 1);
    let s4 = with_mine(s3, b, x, y - 1);
    let s5 = with_mine(s4, b, x, y + 1);
    let s6 = with_mine(s5, b, x + 1, y - 1);
    let s7 = with_mine(s6, b, x + 1, y);
    let s8 = with_mine(s7, b, x + 1, y + 1);
    assert(s1.finite() && s1.len() == mine_bit(b, x - 1, y - 1));
    assert(s2.finite() && s2.len() == s1.len() + mine_bit(b, x - 1, y));
    assert(s3.finite() && s3.len() == s2.len() + mine_bit(b, x - 1, y + 1));
    assert(s4.finite() && s4.len() == s3.len() + mine_bit(b, x, y - 1));
    assert(s5.finite() && s5.len() == s4.len() + mine_bit(b, x, y + 1));
    assert(s6.finite() && s6.len() == s5.len() + mine_bit(b, x + 1, y - 1));
    assert(s7.finite() && s7.len() == s6.len() + mine_bit(b, x + 1, y));
    assert(s8.finite() && s8.len() == s7.len() + mine_bit(b, x + 1, y + 1));
    assert(s8 =~= mined_neighbors(b, x, y, width, height));
}

fn set_cell(grid: &mut Vec<Vec<Cell>>, x: usize, y: usize, cell: Cell)
    requires
        in_board(board_of(*old(grid)), x as int, y as int),
    ensures
        board_of(*final(grid)) == with_cell(board_of(*old(grid)), x as int, y as int, cell),
{
    grid[y][x] = cell;
    assert(board_of(*grid) =~~= with_cell(board_of(*old(grid)), x as int, y as int, cell));
}

/// A grid of `height` rows of `width` cells, all empty, unopened and unflagged.
fn blank_grid(width: usize, height: usize) -> (grid: Vec<Vec<Cell>>)
    ensures
        rectangular(board_of(grid), width as int, height as int),
        untouched(board_of(grid)),
        forall|x: int, y: int|
            in_board(board_of(grid), x, y) ==> (#[trigger] board_of(grid)[y][x]).cell_type
                == (CellType::Empty { adjacent_mines: 0 }),
{
    let blank = Cell {
        cell_type: CellType::Empty { adjacent_mines: 0 },
        state: CellState::Unopened(Flag::Unflagged),
    };
    let mut grid: Vec<Vec<Cell>> = Vec::new();
    let mut y: usize = 0;
    while y < height
        invariant
            y <= height,
            grid@.len() == y,
            forall|j: int| 0 <= j < y ==> (#[trigger] grid@[j])@.len() == width,
            forall|i: int, j: int| 0 <= j < y && 0 <= i < width ==> (#[trigger] grid@[j]@[i]) == blank,
            blank == (Cell {
                cell_type: CellType::Empty { adjacent_mines: 0 },
                state: CellState::Unopened(Flag::Unflagged),
            }),
        decreases height - y,
    {
        let mut row: Vec<Cell> = Vec::new();
        let mut x: usize = 0;
        while x < width
            invariant
                x <= width,
                row@.len() == x,
                forall|i: int| 0 <= i < x ==> (#[trigger] row@[i]) == blank,
            decreases width - x,
        {
            row.push(blank);
            x += 1;
        }
        grid.push(row);
        y += 1;
    }
    grid
}

/// Builds the grid of a new game with mines at the given positions: every
/// cell unopened and unflagged, and every empty cell counting the mines
/// around it.
pub fn place_mines(width: usize, height: usize, mines: &Vec<Point>) -> (state: GameState)
    requires
        mines@.no_duplicates(),
        all_inside(mines@, width as int, height as int),
    ensures
        state.status == GameStatus::InProgress,
        rectangular(state@.board, width as int, height as int),
        untouched(state@.board),
        mines_match(state@.board, mines@, mines@.len() as int),
        mine_cells(state@.board) == mines@.to_set(),
        mine_cells(state@.board).finite(),
        mine_cells(state@.board).len() == mines@.len(),
        counts_settled(state@.board),
        counts_bounded(state@.board),
{
    let mut grid = blank_grid(width, height);
    let mut m: usize = 0;
    while m < mines.len()
        invariant
            m <= mines@.len(),
            mines@.no_duplicates(),
            all_inside(mines@, width as int, height as int),
            rectangular(board_of(grid), width as int, height as int),
            untouched(board_of(grid)),
            mines_match(board_of(grid), mines@, m as int),
            counts_settled(board_of(grid)),
        decreases mines.len() - m,
    {
        let (mine_x, mine_y) = mines[m];
        let ghost b0 = board_of(grid);
        assert(!listed(mines@, m as int, mine_x as int, mine_y as int)) by {
            if listed(mines@, m as int, mine_x as int, mine_y as int) {
                let k = choose|k: int| 0 <= k < m && (#[trigger] mines@[k]).0 == mine_x && mines@[k].1 == mine_y;
                assert(mines@[k] == mines@[m as int]);
            }
        }
        assert(in_board(b0, mine_x as int, mine_y as int));
        let mine = grid[mine_y][mine_x];
        let laid = Cell { cell_type: CellType::Mine, state: mine.state };
        set_cell(&mut grid, mine_x, mine_y, laid);
        let ghost b1 = board_of(grid);

        let adj = find_adjacent(mine_x, mine_y, width, height);
        let mut a: usize = 0;
        while a < adj.len()
            invariant
                a <= adj@.len(),
                rectangular(board_of(grid), width as int, height as int),
                untouched(board_of(grid)),
                forall|k: int|
                    0 <= k < adj@.len() ==> (#[trigger] adj@[k]).0 < width && adj@[k].1 < height,
                strictly_ordered(adj@),
                forall|u: int, v: int| #[trigger] is_mine_at(board_of(grid), u, v) == is_mine_at(b1, u, v),
                counts_pending(board_of(grid), b0, adj@, a as int),
            decreases adj.len() - a,
        {
            let (x, y) = adj[a];
            let ghost b = board_of(grid);
            assert(in_board(b, x as int, y as int));
            let cell = grid[y][x];
            assert(!listed(adj@, a as int, x as int, y as int)) by {
                if listed(adj@, a as int, x as int, y as int) {
                    let k = choose|k: int| 0 <= k < a && (#[trigger] adj@[k]).0 == x && adj@[k].1 == y;
                    assert(precedes(adj@[k], adj@[a as int]));
                }
            }
            match cell.cell_type {
                CellType::Empty { adjacent_mines } => {
                    let bumped = Cell {
                        cell_type: CellType::Empty { adjacent_mines: adjacent_mines + 1 },
                        state: cell.state,
                    };
                    set_cell(&mut grid, x, y, bumped);
                },
                CellType::Mine => (),
            }
            proof {
                let nb = board_of(grid);
                assert forall|u: int, v: int| #[trigger] is_mine_at(nb, u, v) == is_mine_at(b, u, v) by {
                    if in_board(b, u, v) {
                        assert(in_board(nb, u, v));
                        if !(u == x && v == y) {
                            assert(nb[v][u] == b[v][u]);
                        }
                    }
                }
                assert forall|u: int, v: int| in_board(nb, u, v) implies match (#[trigger] nb[v][u]).cell_type {
                    CellType::Empty { adjacent_mines } => adjacent_mines == mines_around(b0, u, v) + (if listed(
                        adj@,
                        a + 1,
                        u,
                        v,
                    ) {
                        1int
                    } else {
                        0int
                    }),
                    CellType::Mine => true,
                } by {
                    lemma_listed_step(adj@, a as int, u, v);
                    assert(in_board(b, u, v));
                    if !(u == x && v == y) {
                        assert(nb[v][u] == b[v][u]);
                    }
                }
            }
            a += 1;
        }
        proof {
            let nb = board_of(grid);
            assert forall|u: int, v: int| in_board(nb, u, v) implies match (#[trigger] nb[v][u]).cell_type {
                CellType::Empty { adjacent_mines } => adjacent_mines == mines_around(nb, u, v),
                CellType::Mine => true,
            } by {
                lemma_new_mine(b0, b1, mine_x as int, mine_y as int, laid, u, v);
                if listed(adj@, adj@.len() as int, u, v) {
                    let k = choose|k: int| 0 <= k < adj@.len() && (#[trigger] adj@[k]).0 == u && adj@[k].1 == v;
                    assert(is_neighbor(mine_x as int, mine_y as int, width as int, height as int, adj@[k].0 as int, adj@[k].1 as int));
                }
                if adjacent(u, v, mine_x as int, mine_y as int) {
                    let p: Point = (u as usize, v as usize);
                    assert(is_neighbor(mine_x as int, mine_y as int, width as int, height as int, p.0 as int, p.1 as int));
                    assert(adj@.contains(p));
                    let k = choose|k: int| 0 <= k < adj@.len() && adj@[k] == p;
                    assert(adj@[k].0 == u && adj@[k].1 == v);
                }
                assert(mines_around(nb, u, v) == mines_around(b1, u, v));
            }
            assert forall|u: int, v: int| in_board(nb, u, v) implies ((#[trigger] nb[v][u]).cell_type is Mine
                <==> listed(mines@, m + 1, u, v)) by {
                lemma_listed_step(mines@, m as int, u, v);
                assert(is_mine_at(nb, u, v) == is_mine_at(b1, u, v));
                assert(in_board(b0, u, v));
                assert(b0[v][u].cell_type is Mine <==> listed(mines@, m as int, u, v));
            }
        }
        m += 1;
    }
    let state = GameState { grid, status: GameStatus::InProgress };
    proof {
        let b = state@.board;
        assert forall|p: Point| mine_cells(b).contains(p) <==> mines@.to_set().contains(p) by {
            if is_mine_at(b, p.0 as int, p.1 as int) {
                assert(b[p.1 as int][p.0 as int].cell_type is Mine);
                let k = choose|k: int|
                    0 <= k < mines@.len() && (#[trigger] mines@[k]).0 == p.0 && mines@[k].1 == p.1;
                assert(mines@[k] == p);
            }
            if mines@.contains(p) {
                let k = choose|k: int| 0 <= k < mines@.len() && mines@[k] == p;
                assert(mines@[k].0 == p.0 && mines@[k].1 == p.1);
                assert(listed(mines@, mines@.len() as int, p.0 as int, p.1 as int));
                assert(in_board(b, p.0 as int, p.1 as int));
            }
        }
        assert(mine_cells(b) =~= mines@.to_set());
        mines@.unique_seq_to_set();
        vstd::seq_lib::seq_to_set_is_finite(mines@);
    }
    state
}

/// Starts a game on a grid of `width` by `height` cells with `mines` mines at
/// distinct positions drawn at random.
pub fn initial_state(width: usize, height: usize, mines: usize) -> (state: GameState)
    requires
        width > 0,
        height > 0,
        width * height <= usize::MAX,
        mines <= width * height,
    ensures
        state.status == GameStatus::InProgress,
        rectangular(state@.board, width as int, height as int),
        untouched(state@.board),
        mine_cells(state@.board).finite(),
        mine_cells(state@.board).len() == mines,
        counts_settled(state@.board),
        counts_bounded(state@.board),
{
    let mines = random_coordinates(mines, width, height);
    place_mines(width, height, &mines)
}

} // verus!
