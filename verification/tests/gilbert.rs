use luminet_blackhole_lib::plotting::gilbert::{gilbert_d2xy, gilbert_d2xy_r, sgn};

fn walk_grid(width: u32, height: u32) -> Vec<(u32, u32)> {
    (0..width * height)
        .map(|idx| gilbert_d2xy(idx, width, height))
        .collect()
}

#[test]
fn sgn_gives_the_sign() {
    assert_eq!(sgn(-7), -1);
    assert_eq!(sgn(0), 0);
    assert_eq!(sgn(12), 1);
    assert_eq!(sgn(i64::MIN), -1);
    assert_eq!(sgn(i64::MAX), 1);
}

#[test]
fn single_cell_grid() {
    assert_eq!(walk_grid(1, 1), vec![(0, 0)]);
}

#[test]
fn two_by_two_grid() {
    assert_eq!(walk_grid(2, 2), vec![(0, 0), (0, 1), (1, 1), (1, 0)]);
}

#[test]
fn four_by_four_grid() {
    assert_eq!(
        walk_grid(4, 4),
        vec![
            (0, 0),
            (1, 0),
            (1, 1),
            (0, 1),
            (0, 2),
            (0, 3),
            (1, 3),
            (1, 2),
            (2, 2),
            (2, 3),
            (3, 3),
            (3, 2),
            (3, 1),
            (2, 1),
            (2, 0),
            (3, 0),
        ]
    );
}

#[test]
fn wide_grid_with_odd_sides() {
    assert_eq!(
        walk_grid(5, 3),
        vec![
            (0, 0),
            (0, 1),
            (0, 2),
            (1, 2),
            (1, 1),
            (1, 0),
            (2, 0),
            (2, 1),
            (2, 2),
            (3, 2),
            (4, 2),
            (4, 1),
            (3, 1),
            (3, 0),
            (4, 0),
        ]
    );
}

#[test]
fn tall_grid_with_odd_sides() {
    assert_eq!(
        walk_grid(3, 5),
        vec![
            (0, 0),
            (1, 0),
            (2, 0),
            (2, 1),
            (1, 1),
            (0, 1),
            (0, 2),
            (1, 2),
            (2, 2),
            (2, 3),
            (2, 4),
            (1, 4),
            (1, 3),
            (0, 3),
            (0, 4),
        ]
    );
}

#[test]
fn long_grid_is_cut_in_two() {
    assert_eq!(
        walk_grid(6, 2),
        vec![
            (0, 0),
            (0, 1),
            (1, 1),
            (1, 0),
            (2, 0),
            (2, 1),
            (3, 1),
            (3, 0),
            (4, 0),
            (4, 1),
            (5, 1),
            (5, 0),
        ]
    );
}

#[test]
fn one_row_and_one_column() {
    assert_eq!(
        walk_grid(7, 1),
        vec![(0, 0), (1, 0), (2, 0), (3, 0), (4, 0), (5, 0), (6, 0)]
    );
    assert_eq!(walk_grid(1, 4), vec![(0, 0), (0, 1), (0, 2), (0, 3)]);
}

#[test]
fn every_cell_is_visited_exactly_once() {
    for width in 1..=24u32 {
        for height in 1..=24u32 {
            let mut seen = vec![false; (width * height) as usize];
            for idx in 0..width * height {
                let (x, y) = gilbert_d2xy(idx, width, height);
                assert!(x < width && y < height);
                let at = (y * width + x) as usize;
                assert!(!seen[at], "{}x{}: cell ({}, {}) twice", width, height, x, y);
                seen[at] = true;
            }
            assert!(seen.iter().all(|&s| s));
        }
    }
}

#[test]
fn every_cell_of_a_large_grid_is_visited_exactly_once() {
    let (width, height) = (256u32, 135u32);
    let mut seen = vec![false; (width * height) as usize];
    for idx in 0..width * height {
        let (x, y) = gilbert_d2xy(idx, width, height);
        let at = (y * width + x) as usize;
        assert!(!seen[at]);
        seen[at] = true;
    }
    assert!(seen.iter().all(|&s| s));
}

#[test]
fn consecutive_cells_touch() {
    for width in 1..=24u32 {
        for height in 1..=24u32 {
            let cells = walk_grid(width, height);
            for pair in cells.windows(2) {
                let dx = (pair[0].0 as i64 - pair[1].0 as i64).abs();
                let dy = (pair[0].1 as i64 - pair[1].1 as i64).abs();
                assert!(dx <= 1 && dy <= 1 && dx + dy > 0);
            }
        }
    }
}

#[test]
fn grids_with_even_sides_are_walked_without_diagonal_steps() {
    let cells = walk_grid(16, 12);
    for pair in cells.windows(2) {
        let dx = (pair[0].0 as i64 - pair[1].0 as i64).abs();
        let dy = (pair[0].1 as i64 - pair[1].1 as i64).abs();
        assert_eq!(dx + dy, 1);
    }
}

#[test]
fn a_grid_with_an_odd_longer_side_and_an_even_shorter_side_has_one_diagonal_step() {
    let cells = walk_grid(5, 4);
    let diagonal = cells
        .windows(2)
        .filter(|pair| pair[0].0 != pair[1].0 && pair[0].1 != pair[1].1)
        .count();
    assert_eq!(diagonal, 1);
}

#[test]
fn the_curve_starts_in_the_corner() {
    for width in 1..=12u32 {
        for height in 1..=12u32 {
            assert_eq!(gilbert_d2xy(0, width, height), (0, 0));
        }
    }
}

#[test]
fn the_curve_ends_at_the_far_end_of_the_longer_side() {
    assert_eq!(gilbert_d2xy(15, 4, 4), (3, 0));
    assert_eq!(gilbert_d2xy(14, 5, 3), (4, 0));
    assert_eq!(gilbert_d2xy(14, 3, 5), (0, 4));
    assert_eq!(gilbert_d2xy(6, 7, 1), (6, 0));
    assert_eq!(gilbert_d2xy(3, 1, 4), (0, 3));
    // two rows and an odd number of columns: one cell short
    assert_eq!(gilbert_d2xy(9, 5, 2), (3, 0));
    assert_eq!(gilbert_d2xy(9, 2, 5), (0, 3));
}

#[test]
fn last_cell_of_a_grid_near_the_index_limit() {
    let (width, height) = (65_536u32, 65_535u32);
    let (x, y) = gilbert_d2xy(width * height - 1, width, height);
    assert!(x < width && y < height);
    assert_eq!(gilbert_d2xy(0, width, height), (0, 0));
}

#[test]
fn recursive_walk_from_a_shifted_block() {
    // a block of 3 by 2 cells that starts at (10, 20) and runs to the left and up
    let cells: Vec<(i64, i64)> = (0..6)
        .map(|idx| gilbert_d2xy_r(100 + idx, 100, 10, 20, -3, 0, 0, -2))
        .collect();
    let mut sorted = cells.clone();
    sorted.sort();
    assert_eq!(
        sorted,
        vec![(8, 19), (8, 20), (9, 19), (9, 20), (10, 19), (10, 20)]
    );
    assert_eq!(cells[0], (10, 20));
}
