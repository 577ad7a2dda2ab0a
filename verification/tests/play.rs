use minesweeper::board::{Cell, CellState, CellType, Flag, GameState, GameStatus};
use minesweeper::generate::{initial_state, place_mines};
use minesweeper::play::{change_flag, is_game_won, open_cell};

fn empty(n: u8, state: CellState) -> Cell {
    Cell {
        cell_type: CellType::Empty { adjacent_mines: n },
        state,
    }
}

fn mine(state: CellState) -> Cell {
    Cell {
        cell_type: CellType::Mine,
        state,
    }
}

const CLOSED: CellState = CellState::Unopened(Flag::Unflagged);

#[test]
fn two_cells_without_mines_are_won_after_both_open() {
    let state = initial_state(2, 1, 0);
    assert_eq!(state.grid, vec![vec![empty(0, CLOSED), empty(0, CLOSED)]]);
    let state = open_cell(state, (0, 0));
    assert_eq!(state.status, GameStatus::InProgress);
    assert_eq!(state.grid[0][0].state, CellState::Opened);
    assert_eq!(state.grid[0][1].state, CLOSED);
    let state = open_cell(state, (1, 0));
    assert_eq!(state.status, GameStatus::Won);
    assert_eq!(
        state.grid,
        vec![vec![empty(0, CellState::Opened), empty(0, CellState::Opened)]]
    );
}

#[test]
fn single_mine_is_lost_when_opened() {
    let state = initial_state(1, 1, 1);
    assert_eq!(state.grid, vec![vec![mine(CLOSED)]]);
    let state = open_cell(state, (0, 0));
    assert_eq!(state.status, GameStatus::Lost);
    assert_eq!(state.grid, vec![vec![mine(CellState::Opened)]]);
}

#[test]
fn flag_survives_opening_another_cell() {
    let state = place_mines(3, 1, &vec![(2, 0)]);
    let state = change_flag(state, (1, 0), Flag::Sure);
    assert_eq!(state.status, GameStatus::InProgress);
    assert_eq!(state.grid[0][1], empty(1, CellState::Unopened(Flag::Sure)));
    let state = open_cell(state, (0, 0));
    assert_eq!(state.status, GameStatus::InProgress);
    assert_eq!(
        state.grid,
        vec![vec![
            empty(0, CellState::Opened),
            empty(1, CellState::Unopened(Flag::Sure)),
            mine(CLOSED),
        ]]
    );
}

#[test]
fn flagging_a_mine_then_opening_the_rest_wins() {
    let state = place_mines(2, 1, &vec![(1, 0)]);
    let state = change_flag(state, (1, 0), Flag::Unsure);
    assert_eq!(state.status, GameStatus::InProgress);
    let state = open_cell(state, (0, 0));
    assert_eq!(state.status, GameStatus::Won);
    assert_eq!(state.grid[0][1], mine(CellState::Unopened(Flag::Unsure)));
}

#[test]
fn opening_twice_is_the_same_as_once() {
    let start = place_mines(3, 3, &vec![(0, 0), (2, 2)]);
    for &p in [(1, 1), (0, 0), (2, 0)].iter() {
        let once = open_cell(start.clone(), p);
        let twice = open_cell(once.clone(), p);
        assert_eq!(once, twice);
    }
}

#[test]
fn finished_games_do_not_change() {
    let board = vec![
        vec![empty(1, CLOSED), mine(CellState::Opened)],
        vec![empty(1, CellState::Opened), empty(1, CellState::Unopened(Flag::Sure))],
    ];
    for &status in [GameStatus::Won, GameStatus::Lost].iter() {
        let state = GameState {
            status,
            grid: board.clone(),
        };
        for &p in [(0, 0), (1, 0), (0, 1), (1, 1), (9, 9)].iter() {
            assert_eq!(open_cell(state.clone(), p), state);
            for &f in [Flag::Unflagged, Flag::Unsure, Flag::Sure].iter() {
                assert_eq!(change_flag(state.clone(), p, f), state);
            }
        }
    }
}

#[test]
fn opening_a_mine_loses_whatever_else_is_on_the_board() {
    let start = place_mines(3, 2, &vec![(1, 0), (2, 1)]);
    let opened_first = open_cell(start.clone(), (0, 0));
    let flagged = change_flag(start.clone(), (1, 0), Flag::Sure);
    for state in [start, opened_first, flagged] {
        for &p in [(1, 0), (2, 1)].iter() {
            let next = open_cell(state.clone(), p);
            assert_eq!(next.status, GameStatus::Lost);
            assert_eq!(next.grid[p.1][p.0], mine(CellState::Opened));
        }
    }
}

#[test]
fn opening_an_open_cell_changes_nothing() {
    let state = GameState {
        status: GameStatus::InProgress,
        grid: vec![vec![empty(0, CellState::Opened), empty(0, CLOSED)]],
    };
    assert_eq!(open_cell(state.clone(), (0, 0)), state);
    assert_eq!(change_flag(state.clone(), (0, 0), Flag::Sure), state);
}

#[test]
fn won_needs_every_empty_cell_open() {
    let all_open = vec![
        vec![empty(0, CellState::Opened), empty(0, CellState::Opened)],
        vec![empty(0, CellState::Opened), empty(0, CellState::Opened)],
    ];
    assert!(is_game_won(&all_open));

    let one_closed = vec![
        vec![mine(CLOSED), empty(1, CellState::Opened)],
        vec![empty(1, CellState::Unopened(Flag::Unsure)), empty(1, CellState::Opened)],
    ];
    assert!(!is_game_won(&one_closed));

    let mines_closed = vec![
        vec![mine(CLOSED), empty(1, CellState::Opened)],
        vec![mine(CellState::Unopened(Flag::Sure)), empty(1, CellState::Opened)],
    ];
    assert!(is_game_won(&mines_closed));

    let opened_mine = vec![vec![mine(CellState::Opened)]];
    assert!(is_game_won(&opened_mine));

    assert!(is_game_won(&Vec::new()));
    assert!(is_game_won(&vec![Vec::new(), Vec::new()]));
}

#[test]
fn flagging_sets_the_marker_and_keeps_the_content() {
    let state = place_mines(2, 2, &vec![(0, 0)]);
    let state = change_flag(state, (0, 0), Flag::Sure);
    assert_eq!(state.grid[0][0], mine(CellState::Unopened(Flag::Sure)));
    let state = change_flag(state, (0, 0), Flag::Unsure);
    assert_eq!(state.grid[0][0], mine(CellState::Unopened(Flag::Unsure)));
    let state = change_flag(state, (1, 1), Flag::Sure);
    assert_eq!(state.grid[1][1], empty(1, CellState::Unopened(Flag::Sure)));
    let state = change_flag(state, (1, 1), Flag::Unflagged);
    assert_eq!(state.grid[1][1], empty(1, CLOSED));
    assert_eq!(state.status, GameStatus::InProgress);
}

#[test]
fn flagging_a_board_of_mines_wins() {
    let state = place_mines(1, 1, &vec![(0, 0)]);
    let state = change_flag(state, (0, 0), Flag::Sure);
    assert_eq!(state.status, GameStatus::Won);
}

#[test]
fn opening_does_not_cascade() {
    let state = initial_state(3, 3, 0);
    let state = open_cell(state, (1, 1));
    assert_eq!(state.status, GameStatus::InProgress);
    let open = state
        .grid
        .iter()
        .flatten()
        .filter(|c| c.state == CellState::Opened)
        .count();
    assert_eq!(open, 1);
}
