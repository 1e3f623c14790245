use game_of_life::board::Board;
use game_of_life::random::{is_live_draw, FULL_DENSITY};

#[test]
fn full_density_is_two_to_the_53() {
    assert_eq!(FULL_DENSITY, 1u64 << 53);
    assert_eq!(FULL_DENSITY, 9_007_199_254_740_992);
}

#[test]
fn draw_is_live_below_the_density() {
    // the sample of a draw is its upper 53 bits
    assert!(is_live_draw(5 * 2048, 6));
    assert!(!is_live_draw(5 * 2048, 5));
    assert!(!is_live_draw(5 * 2048, 4));
    assert!(is_live_draw(5 * 2048 + 2047, 6));
    assert!(!is_live_draw(6 * 2048, 6));
    assert!(is_live_draw(0, 1));
    assert!(is_live_draw(2047, 1));
    assert!(!is_live_draw(2048, 1));
}

#[test]
fn no_draw_is_live_at_density_zero() {
    assert!(!is_live_draw(0, 0));
    assert!(!is_live_draw(1, 0));
    assert!(!is_live_draw(u64::MAX, 0));
}

#[test]
fn every_draw_is_live_at_full_density() {
    assert!(is_live_draw(0, FULL_DENSITY));
    assert!(is_live_draw(u64::MAX, FULL_DENSITY));
    assert!(is_live_draw(u64::MAX, u64::MAX));
    assert!(!is_live_draw(u64::MAX, FULL_DENSITY - 1));
    assert!(is_live_draw(u64::MAX - 2048, FULL_DENSITY - 1));
}

#[test]
fn half_density_splits_the_draws_in_the_middle() {
    let half: u64 = FULL_DENSITY / 2;
    assert!(is_live_draw((1u64 << 63) - 1, half));
    assert!(!is_live_draw(1u64 << 63, half));
}

#[test]
fn rand_init_with_density_zero_is_all_dead() {
    let board = Board::rand_init(6, 9, 0);
    assert_eq!(board.cells, vec![vec![false; 9]; 6]);
}

#[test]
fn rand_init_with_full_density_fills_all_but_the_last_row_and_column() {
    let board = Board::rand_init(5, 7, FULL_DENSITY);
    assert_eq!(board.cells.len(), 5);
    for (r, row) in board.cells.iter().enumerate() {
        assert_eq!(row.len(), 7);
        for (c, &cell) in row.iter().enumerate() {
            assert_eq!(cell, r < 4 && c < 6);
        }
    }
}

#[test]
fn rand_init_above_full_density_is_as_at_full_density() {
    let board = Board::rand_init(3, 3, u64::MAX);
    assert_eq!(
        board.cells,
        vec![vec![true, true, false], vec![true, true, false], vec![false, false, false]]
    );
}

#[test]
fn rand_init_has_the_dimensions_asked_for() {
    for &(rows, cols) in &[(1usize, 1usize), (1, 5), (5, 1), (2, 2), (12, 30)] {
        let board = Board::rand_init(rows, cols, FULL_DENSITY / 5);
        assert!(board.is_rectangular());
        assert_eq!(board.cells.len(), rows);
        for row in &board.cells {
            assert_eq!(row.len(), cols);
        }
    }
}

#[test]
fn rand_init_leaves_the_last_row_and_column_dead() {
    for _ in 0..20 {
        let board = Board::rand_init(8, 11, FULL_DENSITY / 2);
        for c in 0..11usize {
            assert!(!board.cells[7][c]);
        }
        for r in 0..8usize {
            assert!(!board.cells[r][10]);
        }
    }
}

#[test]
fn rand_init_of_a_single_row_or_column_is_dead() {
    assert_eq!(Board::rand_init(1, 6, FULL_DENSITY).cells, vec![vec![false; 6]]);
    assert_eq!(Board::rand_init(6, 1, FULL_DENSITY).cells, vec![vec![false]; 6]);
    assert_eq!(Board::rand_init(1, 1, FULL_DENSITY).cells, vec![vec![false]]);
}

#[test]
fn rand_init_without_rows_or_columns() {
    assert!(Board::rand_init(0, 0, FULL_DENSITY).cells.is_empty());
    assert!(Board::rand_init(0, 4, FULL_DENSITY).cells.is_empty());
    let expected: Vec<Vec<bool>> = vec![Vec::new(), Vec::new(), Vec::new()];
    assert_eq!(Board::rand_init(3, 0, FULL_DENSITY).cells, expected);
}

#[test]
fn rand_init_at_half_density_draws_both_kinds_of_cell() {
    // 99 x 99 drawn cells: that all of them come out alike has probability 2^-9800
    let board = Board::rand_init(100, 100, FULL_DENSITY / 2);
    let live: usize = board.cells.iter().map(|row| row.iter().filter(|&&c| c).count()).sum();
    assert!(live > 0);
    assert!(live < 99 * 99);
}

#[test]
fn rand_init_can_be_updated() {
    let board = Board::rand_init(10, 10, FULL_DENSITY / 5);
    let next = board.update();
    assert_eq!(next.cells.len(), 10);
    for row in &next.cells {
        assert_eq!(row.len(), 10);
    }
}
