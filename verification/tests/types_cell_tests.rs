//! The cell type the engine drives: direct flag and count manipulation.

use game_of_life::gol::types::Cell;

#[test]
fn types_cell_test_spawn() {
    let mut cell = Cell::new();
    cell.add_neighbour();
    assert_eq!(cell, 0b00000010);
    assert_eq!(cell.alive(), false);
    assert_eq!(cell.neighbours(), 1);
    assert_eq!(cell.to_string(), "00000010");
    cell.spawn();
    assert_eq!(cell.alive(), true);
    assert_eq!(cell.neighbours(), 1);
    assert_eq!(cell.to_string(), "00000011");
    assert_eq!(cell == 0b00000011, true);
}

#[test]
fn types_cell_test_kill() {
    let mut cell = Cell::new();
    cell.spawn();
    cell.add_neighbour();
    cell.kill();
    assert_eq!(cell.alive(), false);
    assert_eq!(cell.to_string(), "00000010");
    assert_eq!(cell == 0b00000010, true);
}

#[test]
fn types_cell_test_increment_neighbours() {
    let mut cell = Cell::new();
    cell.add_neighbour();
    assert_eq!(cell.neighbours(), 1);
    assert_eq!(cell.to_string(), "00000010");
    assert_eq!(cell == 0b00000010, true);

    cell.add_neighbour();
    assert_eq!(cell.neighbours(), 2);
    assert_eq!(cell.to_string(), "00000100");
    assert_eq!(cell == 0b00000100, true);

    cell.add_neighbour();
    assert_eq!(cell.neighbours(), 3);
    assert_eq!(cell.to_string(), "00000110");
    assert_eq!(cell == 0b00000110, true);
}

#[test]
fn types_cell_test_decrement_neighbours() {
    let mut cell = Cell::new();
    cell.add_neighbour();
    assert_eq!(cell.neighbours(), 1);
    assert_eq!(cell.to_string(), "00000010");
    assert_eq!(cell == 0b00000010, true);
    cell.remove_neighbour();
    assert_eq!(cell.neighbours(), 0);
    assert_eq!(cell.to_string(), "00000000");
    assert_eq!(cell == 0b00000000, true);
}

#[test]
fn types_cell_remove_neighbour_at_zero_stays_zero() {
    let mut cell = Cell::new();
    assert_eq!(cell.neighbours(), 0);
    cell.remove_neighbour();
    assert_eq!(cell.neighbours(), 0);
    assert_eq!(cell.to_string(), "00000000");
}
