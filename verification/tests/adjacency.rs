use minesweeper::adjacency::find_adjacent;

fn sorted(mut v: Vec<(usize, usize)>) -> Vec<(usize, usize)> {
    v.sort();
    v
}

#[test]
fn corner_has_three_neighbors() {
    assert_eq!(find_adjacent(0, 0, 3, 3), vec![(0, 1), (1, 0), (1, 1)]);
    assert_eq!(find_adjacent(2, 2, 3, 3), vec![(1, 1), (1, 2), (2, 1)]);
    assert_eq!(find_adjacent(0, 4, 5, 5).len(), 3);
    assert_eq!(find_adjacent(4, 0, 5, 5).len(), 3);
}

#[test]
fn edge_has_five_neighbors() {
    assert_eq!(
        find_adjacent(1, 0, 3, 3),
        vec![(0, 0), (0, 1), (1, 1), (2, 0), (2, 1)]
    );
    assert_eq!(find_adjacent(0, 2, 4, 5).len(), 5);
    assert_eq!(find_adjacent(3, 2, 4, 5).len(), 5);
    assert_eq!(find_adjacent(2, 4, 4, 5).len(), 5);
}

#[test]
fn interior_has_eight_neighbors_in_column_order() {
    assert_eq!(
        find_adjacent(4, 7, 10, 10),
        vec![(3, 6), (3, 7), (3, 8), (4, 6), (4, 8), (5, 6), (5, 7), (5, 8)]
    );
}

#[test]
fn neighbors_exclude_the_cell_and_stay_inside() {
    let (w, h) = (4, 3);
    for x in 0..w {
        for y in 0..h {
            let adj = find_adjacent(x, y, w, h);
            assert!(!adj.contains(&(x, y)));
            for &(nx, ny) in adj.iter() {
                assert!(nx < w && ny < h);
                assert!(nx + 1 >= x && nx <= x + 1);
                assert!(ny + 1 >= y && ny <= y + 1);
            }
            let mut expected = Vec::new();
            for nx in 0..w {
                for ny in 0..h {
                    let near = nx + 1 >= x && nx <= x + 1 && ny + 1 >= y && ny <= y + 1;
                    if near && (nx, ny) != (x, y) {
                        expected.push((nx, ny));
                    }
                }
            }
            assert_eq!(adj, expected);
            assert_eq!(sorted(adj.clone()), adj);
        }
    }
}

#[test]
fn single_cell_grid_has_no_neighbors() {
    assert_eq!(find_adjacent(0, 0, 1, 1), Vec::<(usize, usize)>::new());
}

#[test]
fn narrow_grids_clip_the_neighbors() {
    assert_eq!(find_adjacent(0, 0, 2, 1), vec![(1, 0)]);
    assert_eq!(find_adjacent(0, 1, 1, 3), vec![(0, 0), (0, 2)]);
    assert_eq!(find_adjacent(1, 1, 2, 2), vec![(0, 0), (0, 1), (1, 0)]);
}

#[test]
fn neighbors_near_the_largest_coordinates() {
    let top = usize::MAX;
    assert_eq!(
        find_adjacent(top - 1, top - 1, top, top),
        vec![(top - 2, top - 2), (top - 2, top - 1), (top - 1, top - 2)]
    );
}
