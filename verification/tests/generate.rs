use minesweeper::board::{Cell, CellState, CellType, Flag, GameState, GameStatus};
use minesweeper::generate::{initial_state, place_mines};
use minesweeper::sampling::random_coordinates;

fn mine_count(state: &GameState) -> usize {
    state
        .grid
        .iter()
        .flatten()
        .filter(|c| c.cell_type == CellType::Mine)
        .count()
}

fn mines_near(state: &GameState, x: usize, y: usize) -> u8 {
    let mut n = 0;
    for (cy, row) in state.grid.iter().enumerate() {
        for (cx, cell) in row.iter().enumerate() {
            let near = cx + 1 >= x && cx <= x + 1 && cy + 1 >= y && cy <= y + 1;
            if near && (cx, cy) != (x, y) && cell.cell_type == CellType::Mine {
                n += 1;
            }
        }
    }
    n
}

fn check_generated(state: &GameState, width: usize, height: usize, mines: usize) {
    assert_eq!(state.status, GameStatus::InProgress);
    assert_eq!(state.grid.len(), height);
    for row in state.grid.iter() {
        assert_eq!(row.len(), width);
    }
    assert_eq!(mine_count(state), mines);
    for y in 0..height {
        for x in 0..width {
            let cell = state.grid[y][x];
            assert_eq!(cell.state, CellState::Unopened(Flag::Unflagged));
            if let CellType::Empty { adjacent_mines } = cell.cell_type {
                assert!(adjacent_mines <= 8);
                assert_eq!(adjacent_mines, mines_near(state, x, y));
            }
        }
    }
}

#[test]
fn generated_grids_hold_the_mines_and_counts() {
    for &(w, h, m) in [(10, 10, 25), (1, 1, 0), (1, 1, 1), (3, 3, 9), (3, 3, 8), (7, 2, 5), (2, 7, 0)].iter() {
        for _ in 0..20 {
            let state = initial_state(w, h, m);
            check_generated(&state, w, h, m);
        }
    }
}

#[test]
fn grid_without_mines_is_all_zero() {
    let state = initial_state(2, 1, 0);
    let blank = Cell {
        cell_type: CellType::Empty { adjacent_mines: 0 },
        state: CellState::Unopened(Flag::Unflagged),
    };
    assert_eq!(
        state,
        GameState {
            status: GameStatus::InProgress,
            grid: vec![vec![blank, blank]],
        }
    );
}

#[test]
fn full_grid_is_all_mines() {
    let state = initial_state(4, 3, 12);
    for row in state.grid.iter() {
        for cell in row.iter() {
            assert_eq!(cell.cell_type, CellType::Mine);
        }
    }
}

#[test]
fn place_mines_counts_exactly() {
    let state = place_mines(3, 3, &vec![(0, 0), (2, 1)]);
    let e = |n: u8| Cell {
        cell_type: CellType::Empty { adjacent_mines: n },
        state: CellState::Unopened(Flag::Unflagged),
    };
    let m = Cell {
        cell_type: CellType::Mine,
        state: CellState::Unopened(Flag::Unflagged),
    };
    assert_eq!(state.status, GameStatus::InProgress);
    assert_eq!(
        state.grid,
        vec![
            vec![m, e(2), e(1)],
            vec![e(1), e(2), m],
            vec![e(0), e(1), e(1)],
        ]
    );
}

#[test]
fn place_mines_center_surrounded() {
    let ring = vec![(0, 0), (1, 0), (2, 0), (0, 1), (2, 1), (0, 2), (1, 2), (2, 2)];
    let state = place_mines(3, 3, &ring);
    assert_eq!(
        state.grid[1][1].cell_type,
        CellType::Empty { adjacent_mines: 8 }
    );
    assert_eq!(mine_count(&state), 8);
}

#[test]
fn place_mines_is_independent_of_order() {
    let a = place_mines(4, 3, &vec![(0, 0), (3, 2), (1, 1)]);
    let b = place_mines(4, 3, &vec![(1, 1), (0, 0), (3, 2)]);
    assert_eq!(a, b);
}

#[test]
fn random_coordinates_are_distinct_and_inside() {
    for &(count, w, h) in [(0, 3, 3), (5, 3, 3), (9, 3, 3), (1, 1, 1), (25, 10, 10), (0, 0, 4)].iter() {
        for _ in 0..20 {
            let coords = random_coordinates(count, w, h);
            assert_eq!(coords.len(), count);
            for (i, &(x, y)) in coords.iter().enumerate() {
                assert!(x < w && y < h);
                assert!(!coords[..i].contains(&(x, y)));
            }
        }
    }
}

#[test]
fn random_coordinates_reach_every_cell() {
    let mut seen = [false; 6];
    for _ in 0..400 {
        let coords = random_coordinates(1, 3, 2);
        let (x, y) = coords[0];
        seen[y * 3 + x] = true;
    }
    assert!(seen.iter().all(|&s| s));
}
