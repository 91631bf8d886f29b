use game_of_life::grid::{
    count_live_neighbors, create_next_generation, dead_grid, is_alive, next_cell_state, set_alive,
    Cell,
};

fn grid_with(rows: usize, columns: usize, live: &[(usize, usize)]) -> Vec<Vec<Cell>> {
    let mut g = dead_grid(rows, columns);
    for &(r, c) in live {
        set_alive(&mut g, r, c, true);
    }
    g
}

fn live_cells(g: &Vec<Vec<Cell>>) -> Vec<(usize, usize)> {
    let mut out = Vec::new();
    for (r, row) in g.iter().enumerate() {
        for (c, cell) in row.iter().enumerate() {
            if cell.alive {
                out.push((r, c));
            }
        }
    }
    out
}

#[test]
fn dead_grid_has_requested_dimensions() {
    let g = dead_grid(3, 7);
    assert_eq!(g.len(), 3);
    assert!(g.iter().all(|row| row.len() == 7 && row.iter().all(|c| !c.alive)));
}

#[test]
fn set_and_read_single_cell() {
    let mut g = dead_grid(4, 4);
    set_alive(&mut g, 2, 3, true);
    assert!(is_alive(&g, 2, 3));
    assert!(!is_alive(&g, 3, 2));
    assert_eq!(live_cells(&g), vec![(2, 3)]);
    set_alive(&mut g, 2, 3, false);
    assert!(live_cells(&g).is_empty());
}

#[test]
fn blinker_one_generation() {
    let g = grid_with(5, 5, &[(1, 2), (2, 2), (3, 2)]);
    let next = create_next_generation(&g);
    let expected = [
        [false, false, false, false, false],
        [false, false, false, false, false],
        [false, true, true, true, false],
        [false, false, false, false, false],
        [false, false, false, false, false],
    ];
    assert_eq!(next.len(), 5);
    for r in 0..5 {
        assert_eq!(next[r].len(), 5);
        for c in 0..5 {
            assert_eq!(next[r][c].alive, expected[r][c], "cell ({}, {})", r, c);
        }
    }
}

#[test]
fn blinker_returns_after_two_generations() {
    let g = grid_with(5, 5, &[(1, 2), (2, 2), (3, 2)]);
    let twice = create_next_generation(&create_next_generation(&g));
    assert_eq!(live_cells(&twice), vec![(1, 2), (2, 2), (3, 2)]);
}

#[test]
fn cells_in_first_column_are_never_counted() {
    // A vertical line in column 0: none of its cells is counted as anyone's neighbour.
    let g = grid_with(5, 5, &[(1, 0), (2, 0), (3, 0)]);
    assert_eq!(count_live_neighbors(&g, 2, 1), 0);
    assert_eq!(count_live_neighbors(&g, 2, 0), 0);
    let next = create_next_generation(&g);
    assert!(live_cells(&next).is_empty());
}

#[test]
fn cells_in_first_row_are_never_counted() {
    let g = grid_with(4, 4, &[(0, 1), (0, 2), (0, 3)]);
    assert_eq!(count_live_neighbors(&g, 1, 2), 0);
    assert!(live_cells(&create_next_generation(&g)).is_empty());
}

#[test]
fn cells_in_last_row_and_column_are_counted() {
    let g = grid_with(4, 4, &[(3, 1), (3, 2), (3, 3)]);
    assert_eq!(count_live_neighbors(&g, 2, 2), 3);
    assert_eq!(count_live_neighbors(&g, 3, 2), 2);
    let next = create_next_generation(&g);
    assert_eq!(live_cells(&next), vec![(2, 2), (3, 2)]);
}

#[test]
fn next_generation_keeps_non_square_dimensions() {
    let g = grid_with(3, 7, &[(1, 1), (1, 2), (1, 3)]);
    let next = create_next_generation(&g);
    assert_eq!(next.len(), 3);
    assert!(next.iter().all(|row| row.len() == 7));
    assert_eq!(live_cells(&next), vec![(0, 2), (1, 2), (2, 2)]);
}

#[test]
fn empty_grid_stays_empty() {
    let g: Vec<Vec<Cell>> = Vec::new();
    assert!(create_next_generation(&g).is_empty());
}

#[test]
fn all_dead_grid_stays_dead() {
    let g = dead_grid(6, 4);
    let next = create_next_generation(&g);
    assert_eq!(next.len(), 6);
    assert!(next.iter().all(|row| row.len() == 4 && row.iter().all(|c| !c.alive)));
}

#[test]
fn isolated_dead_cell_stays_dead() {
    let g = grid_with(5, 5, &[(4, 4)]);
    assert_eq!(count_live_neighbors(&g, 1, 1), 0);
    assert!(!create_next_generation(&g)[1][1].alive);
}

#[test]
fn overpopulated_cell_dies() {
    let g = grid_with(5, 5, &[(2, 2), (1, 1), (1, 2), (1, 3), (2, 1), (2, 3)]);
    assert_eq!(count_live_neighbors(&g, 2, 2), 5);
    assert!(!create_next_generation(&g)[2][2].alive);
}

#[test]
fn dead_cell_with_three_neighbours_comes_alive() {
    let g = grid_with(5, 5, &[(1, 1), (1, 2), (1, 3)]);
    assert_eq!(count_live_neighbors(&g, 2, 2), 3);
    assert!(create_next_generation(&g)[2][2].alive);
}

#[test]
fn dead_cell_with_two_or_four_neighbours_stays_dead() {
    let two = grid_with(5, 5, &[(1, 1), (1, 3)]);
    assert_eq!(count_live_neighbors(&two, 2, 2), 2);
    assert!(!create_next_generation(&two)[2][2].alive);
    let four = grid_with(5, 5, &[(1, 1), (1, 3), (3, 1), (3, 3)]);
    assert_eq!(count_live_neighbors(&four, 2, 2), 4);
    assert!(!create_next_generation(&four)[2][2].alive);
}

#[test]
fn rule_on_each_count() {
    for n in 0u8..=8 {
        assert_eq!(next_cell_state(true, n), n == 2 || n == 3, "live, {}", n);
        assert_eq!(next_cell_state(false, n), n == 3, "dead, {}", n);
    }
}

#[test]
fn block_is_still() {
    let g = grid_with(4, 4, &[(1, 1), (1, 2), (2, 1), (2, 2)]);
    assert_eq!(live_cells(&create_next_generation(&g)), live_cells(&g));
}
