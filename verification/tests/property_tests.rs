//! Checks of the library's stated properties on concrete values: the wrap
//! equivalence of coordinates, the count invariant under mixed spawn and
//! kill sequences, the decrement floor, reset, and pattern seeding.

use game_of_life::cell::CellArray;
use game_of_life::gol::patterns;
use game_of_life::gol::utils;

#[test]
fn wrap_invariant_spawning_congruent_coordinates() {
    // Spawning at (-1, y) is spawning at (W - 1, y); likewise a full turn
    // along either axis, and both at once for the corners.
    let pairs: [((isize, isize), (isize, isize)); 4] =
        [((-1, 2), (4, 2)), ((2, -1), (2, 4)), ((5, 3), (0, 3)), ((-1, -1), (4, 4))];
    for &((x1, y1), (x2, y2)) in pairs.iter() {
        let mut left = CellArray::<5, 5>::new();
        let mut right = CellArray::<5, 5>::new();
        left.spawn_cell(x1, y1);
        right.spawn_cell(x2, y2);
        let mut y: isize = 0;
        while y < 5 {
            let mut x: isize = 0;
            while x < 5 {
                assert_eq!(left.cell(x, y).is_alive(), right.cell(x, y).is_alive());
                assert_eq!(left.cell(x, y).neighbour_cnt(), right.cell(x, y).neighbour_cnt());
                x += 1;
            }
            y += 1;
        }
    }
}

#[test]
fn count_invariant_after_mixed_spawn_and_kill() {
    let mut grid = CellArray::<4, 6>::new();
    grid.spawn_cell(0, 0);
    grid.spawn_cell(1, 0);
    grid.spawn_cell(5, 3);
    grid.spawn_cell(-1, -2);
    grid.spawn_cell(2, 2);
    grid.kill_cell(1, 0);
    grid.spawn_cell(3, 1);
    grid.kill_cell(5, 3);
    grid.kill_cell(2, 2);
    grid.spawn_cell(2, 3);

    let mut y: isize = 0;
    while y < 4 {
        let mut x: isize = 0;
        while x < 6 {
            assert_eq!(grid.cell(x, y).neighbour_cnt(), grid.calc_neighbours(x, y));
            x += 1;
        }
        y += 1;
    }
}

#[test]
fn count_invariant_on_one_column_torus() {
    // On a torus narrower than the neighborhood, several slots of a cell
    // wrap onto the same neighbor and the counts track that multiplicity.
    let mut grid = CellArray::<4, 1>::new();
    grid.spawn_cell(0, 1);
    grid.kill_cell(0, 1);
    grid.spawn_cell(0, 0);
    grid.spawn_cell(0, 2);
    let mut y: isize = 0;
    while y < 4 {
        assert_eq!(grid.cell(0, y).neighbour_cnt(), grid.calc_neighbours(0, y));
        y += 1;
    }
    // Each of (0, 1) and (0, 3) sees (0, 0) and (0, 2) through three slots
    // apiece, and (0, 0) even sees itself through its two column wraps.
    assert_eq!(grid.cell(0, 1).neighbour_cnt(), 6);
    assert_eq!(grid.cell(0, 3).neighbour_cnt(), 6);
    assert_eq!(grid.cell(0, 0).neighbour_cnt(), 2);
}

#[test]
fn decrement_floor_stays_at_zero() {
    let mut grid = CellArray::<3, 3>::new();
    let cell = grid.mut_cell(0, 0);
    assert_eq!(cell.neighbour_cnt(), 0);
    cell.decrement_neighbour_count();
    cell.decrement_neighbour_count();
    assert_eq!(cell.neighbour_cnt(), 0);
    assert_eq!(cell.is_alive(), false);
}

#[test]
fn reset_clears_any_prior_state() {
    let mut grid = CellArray::<5, 5>::new();
    grid.spawn_cell(1, 1);
    grid.spawn_cell(2, 2);
    grid.kill_cell(1, 1);
    grid.reset();
    let mut y: isize = 0;
    while y < 5 {
        let mut x: isize = 0;
        while x < 5 {
            assert_eq!(grid.cell(x, y).is_alive(), false);
            assert_eq!(grid.cell(x, y).neighbour_cnt(), 0);
            x += 1;
        }
        y += 1;
    }
}

#[test]
fn neighbour_coordinates_are_raw_offsets() {
    let grid = CellArray::<5, 5>::new();
    let coords = grid.neighbour_coordinates(0, 0);
    let expected: [(isize, isize); 8] =
        [(-1, -1), (0, -1), (1, -1), (-1, 0), (1, 0), (-1, 1), (0, 1), (1, 1)];
    let mut k: usize = 0;
    while k < 8 {
        assert_eq!(coords[k], expected[k]);
        k += 1;
    }
}

#[test]
fn width_and_height_report_the_dimensions() {
    let grid = CellArray::<3, 7>::new();
    assert_eq!(grid.width(), 7);
    assert_eq!(grid.height(), 3);
}

#[test]
fn iter_returns_a_row_major_snapshot() {
    let mut grid = CellArray::<2, 3>::new();
    grid.spawn_cell(1, 0);
    let snapshot = grid.iter();
    assert_eq!(snapshot.len(), 6);
    let mut j: usize = 0;
    while j < 6 {
        assert_eq!(snapshot[j].is_alive(), j == 1);
        j += 1;
    }
}

#[test]
fn patterns_glider_updates_counts() {
    let mut grid = game_of_life::gol::types::CellArray::<5, 5>::new();
    patterns::spawn_glider(&mut grid, 0, 0);
    assert_eq!(grid.cell(2, 0).alive(), true);
    assert_eq!(grid.cell(2, 1).alive(), true);
    assert_eq!(grid.cell(2, 2).alive(), true);
    assert_eq!(grid.cell(1, 2).alive(), true);
    assert_eq!(grid.cell(0, 1).alive(), true);
    assert_eq!(grid.cell(1, 1).neighbours(), 5);
    assert_eq!(grid.cell(1, 2).neighbours(), 3);
    assert_eq!(grid.cell(0, 1).neighbours(), 1);
}

#[test]
fn utils_glider_sets_flags_without_counting() {
    let mut grid = game_of_life::gol::cell_array::CellArray::<5, 5>::new();
    utils::spawn_glider(&mut grid, 0, 0);
    assert_eq!(grid.cell(2, 0).is_alive(), true);
    assert_eq!(grid.cell(2, 1).is_alive(), true);
    assert_eq!(grid.cell(2, 2).is_alive(), true);
    assert_eq!(grid.cell(1, 2).is_alive(), true);
    assert_eq!(grid.cell(0, 1).is_alive(), true);
    // The counts are untouched: still zero everywhere.
    let mut y: isize = 0;
    while y < 5 {
        let mut x: isize = 0;
        while x < 5 {
            assert_eq!(grid.cell(x, y).neighbour_cnt(), 0);
            x += 1;
        }
        y += 1;
    }
}

#[test]
fn packed_byte_comparison_rejects_other_values() {
    let mut grid = CellArray::<3, 3>::new();
    let cell = grid.mut_cell(0, 0);
    cell.set_neighbors(3);
    cell.spawn();
    assert_eq!(*cell == 0b00000111, true);
    assert_eq!(*cell == 0b00000110, false);
    assert_eq!(*cell == 0b00000011, false);
}
