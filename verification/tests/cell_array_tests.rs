//! The cell and toroidal grid under the crate root: wrapping, packed-state
//! accounting, and the incremental neighbor counts of a seeded glider.

use game_of_life::cell::CellArray;


#[test]
fn test_wrapping_top_left_to_top_right() {
    let mut cell_array = CellArray::<5, 5>::new();
    let x: isize = -1;
    let y: isize = 0;
    let cell = cell_array.mut_cell(x, y);
    cell.spawn();
    let destination = cell_array.cell(4, 0);
    assert_eq!(destination.is_alive(), true);
}

#[test]
fn test_wrapping_top_right_to_top_left() {
    let mut cell_array = CellArray::<5, 5>::new();
    let x: isize = 5;
    let y: isize = 0;
    let cell = cell_array.mut_cell(x, y);
    cell.spawn();
    let destination = cell_array.cell(0, 0);
    assert_eq!(destination.is_alive(), true);
}

#[test]
fn test_wrapping_bottom_left_to_bottom_right() {
    let mut cell_array = CellArray::<5, 5>::new();
    let x: isize = -1;
    let y: isize = 4;
    let cell = cell_array.mut_cell(x, y);
    cell.spawn();
    let destination = cell_array.cell(4, 4);
    assert_eq!(destination.is_alive(), true);
}

#[test]
fn test_wrapping_bottom_right_to_bottom_left() {
    let mut cell_array = CellArray::<5, 5>::new();
    let x: isize = 5;
    let y: isize = 4;
    let cell = cell_array.mut_cell(x, y);
    cell.spawn();
    let destination = cell_array.cell(0, 4);
    assert_eq!(destination.is_alive(), true);
}

#[test]
fn test_top_right_to_bottom_left_corner() {
    let mut cell_array = CellArray::<5, 5>::new();
    let x: isize = -1;
    let y: isize = -1;
    let cell = cell_array.mut_cell(x, y);
    cell.spawn();
    let destination = cell_array.cell(4, 4);
    assert_eq!(destination.is_alive(), true);
}

#[test]
fn test_bottom_left_to_top_right_corner() {
    let mut cell_array = CellArray::<5, 5>::new();
    let x: isize = 5;
    let y: isize = 5;
    let cell = cell_array.mut_cell(x, y);
    cell.spawn();
    let destination = cell_array.cell(0, 0);
    assert_eq!(destination.is_alive(), true);
}

#[test]
fn test_top_left_to_bottom_left_corner() {
    let mut cell_array = CellArray::<5, 5>::new();
    let x: isize = 0;
    let y: isize = -1;
    let cell = cell_array.mut_cell(x, y);
    cell.spawn();
    let destination = cell_array.cell(0, 4);
    assert_eq!(destination.is_alive(), true);
}

#[test]
fn test_top_right_to_bottom_right() {
    let mut cell_array = CellArray::<5, 5>::new();
    let x: isize = 4;
    let y: isize = -1;
    let cell = cell_array.mut_cell(x, y);
    cell.spawn();
    let destination = cell_array.cell(4, 4);
    assert_eq!(destination.is_alive(), true);
}

#[test]
fn test_bottom_left_to_top_left() {
    let mut cell_array = CellArray::<5, 5>::new();
    let x: isize = 0;
    let y: isize = 5;
    let cell = cell_array.mut_cell(x, y);
    cell.spawn();
    let destination = cell_array.cell(0, 0);
    assert_eq!(destination.is_alive(), true);
}

#[test]
fn test_bottom_right_to_top_right() {
    let mut cell_array = CellArray::<5, 5>::new();
    let x: isize = 4;
    let y: isize = 5;
    let cell = cell_array.mut_cell(x, y);
    cell.spawn();
    let destination = cell_array.cell(4, 0);
    assert_eq!(destination.is_alive(), true);
}

#[test]
fn test_spawn() {
    let mut cell_array = CellArray::<5, 5>::new();
    let cell = cell_array.mut_cell(0, 0);
    cell.spawn();
    assert_eq!(cell.is_alive(), true);
    assert_eq!(cell.to_string(), "00000001");
    assert_eq!(*cell == 0b00000001, true);
}

#[test]
fn test_kill() {
    let mut cell_array = CellArray::<5, 5>::new();
    let cell = cell_array.mut_cell(0, 0);
    cell.spawn();
    cell.kill();
    assert_eq!(cell.is_alive(), false);
    assert_eq!(cell.to_string(), "00000000");
    assert_eq!(*cell == 0b00000000, true);
}

#[test]
fn test_set_neighbors_0() {
    let mut cell_array = CellArray::<5, 5>::new();
    let cell = cell_array.mut_cell(0, 0);
    cell.set_neighbors(0);
    assert_eq!(cell.neighbour_cnt(), 0);
    assert_eq!(cell.to_string(), "00000000");
    assert_eq!(*cell == 0b00000000, true);

    let cell = cell_array.mut_cell(0, 0);
    cell.spawn();
    assert_eq!(cell.is_alive(), true);
    assert_eq!(cell.to_string(), "00000001");
}

#[test]
fn test_set_neighbors_1() {
    let mut cell_array = CellArray::<5, 5>::new();
    let cell = cell_array.mut_cell(0, 0);
    cell.set_neighbors(1);
    assert_eq!(cell.neighbour_cnt(), 1);
    assert_eq!(cell.to_string(), "00000010");
    assert_eq!(*cell == 0b00000010, true);

    let cell = cell_array.mut_cell(0, 0);
    cell.spawn();
    assert_eq!(cell.is_alive(), true);
    assert_eq!(cell.to_string(), "00000011");
}

#[test]
fn test_set_neighbors_2() {
    let mut cell_array = CellArray::<5, 5>::new();
    let cell = cell_array.mut_cell(0, 0);
    cell.set_neighbors(2);
    assert_eq!(cell.neighbour_cnt(), 2);
    assert_eq!(cell.to_string(), "00000100");
    assert_eq!(*cell == 0b00000100, true);

    let cell = cell_array.mut_cell(0, 0);
    cell.spawn();
    assert_eq!(cell.is_alive(), true);
    assert_eq!(cell.to_string(), "00000101");
}

#[test]
fn test_set_neighbors_3() {
    let mut cell_array = CellArray::<5, 5>::new();
    let cell = cell_array.mut_cell(0, 0);
    cell.set_neighbors(3);
    assert_eq!(cell.neighbour_cnt(), 3);
    assert_eq!(cell.to_string(), "00000110");
    assert_eq!(*cell == 0b00000110, true);

    let cell = cell_array.mut_cell(0, 0);
    cell.spawn();
    assert_eq!(cell.is_alive(), true);
    assert_eq!(cell.to_string(), "00000111");
}

#[test]
fn test_set_neighbors_4() {
    let mut cell_array = CellArray::<5, 5>::new();
    let cell = cell_array.mut_cell(0, 0);
    cell.set_neighbors(4);
    assert_eq!(cell.neighbour_cnt(), 4);
    assert_eq!(cell.to_string(), "00001000");
    assert_eq!(*cell == 0b00001000, true);

    let cell = cell_array.mut_cell(0, 0);
    cell.spawn();
    assert_eq!(cell.is_alive(), true);
    assert_eq!(cell.to_string(), "00001001");
    let cell = cell_array.mut_cell(0, 0);
    cell.spawn();
    assert_eq!(cell.is_alive(), true);
    assert_eq!(cell.to_string(), "00001001");
}

#[test]
fn test_set_neighbors_5() {
    let mut cell_array = CellArray::<5, 5>::new();
    let cell = cell_array.mut_cell(0, 0);
    cell.set_neighbors(5);
    assert_eq!(cell.neighbour_cnt(), 5);
    assert_eq!(cell.to_string(), "00001010");
    assert_eq!(*cell == 0b00001010, true);

    let cell = cell_array.mut_cell(0, 0);
    cell.spawn();
    assert_eq!(cell.is_alive(), true);
    assert_eq!(cell.to_string(), "00001011");
}

#[test]
fn test_set_neighbors_6() {
    let mut cell_array = CellArray::<5, 5>::new();
    let cell = cell_array.mut_cell(0, 0);
    cell.set_neighbors(6);
    assert_eq!(cell.neighbour_cnt(), 6);
    assert_eq!(cell.to_string(), "00001100");
    assert_eq!(*cell == 0b00001100, true);

    let cell = cell_array.mut_cell(0, 0);
    cell.spawn();
    assert_eq!(cell.is_alive(), true);
    assert_eq!(cell.to_string(), "00001101");
}

#[test]
fn test_set_neighbors_7() {
    let mut cell_array = CellArray::<5, 5>::new();
    let cell = cell_array.mut_cell(0, 0);
    cell.set_neighbors(7);
    assert_eq!(cell.neighbour_cnt(), 7);
    assert_eq!(cell.to_string(), "00001110");
    assert_eq!(*cell == 0b00001110, true);

    let cell = cell_array.mut_cell(0, 0);
    cell.spawn();
    assert_eq!(cell.is_alive(), true);
    assert_eq!(cell.to_string(), "00001111");
}

#[test]
fn test_set_neighbors_8() {
    let mut cell_array = CellArray::<5, 5>::new();
    let cell = cell_array.mut_cell(0, 0);
    cell.set_neighbors(8);
    assert_eq!(cell.neighbour_cnt(), 8);
    assert_eq!(cell.to_string(), "00010000");
    assert_eq!(*cell == 0b00010000, true);

    let cell = cell_array.mut_cell(0, 0);
    cell.spawn();
    assert_eq!(cell.is_alive(), true);
    assert_eq!(cell.to_string(), "00010001");
}

#[test]
fn test_increment_neighbours() {
    let mut cell_array = CellArray::<5, 5>::new();
    let cell = cell_array.mut_cell(0, 0);
    cell.increment_neighbour_count();
    assert_eq!(cell.neighbour_cnt(), 1);
    assert_eq!(cell.to_string(), "00000010");
    assert_eq!(*cell == 0b00000010, true);
}

#[test]
fn test_decrement_neighbours() {
    let mut cell_array = CellArray::<5, 5>::new();
    let cell = cell_array.mut_cell(0, 0);
    cell.set_neighbors(1);
    assert_eq!(cell.neighbour_cnt(), 1);
    assert_eq!(cell.to_string(), "00000010");
    assert_eq!(*cell == 0b00000010, true);
    cell.decrement_neighbour_count();
    assert_eq!(cell.neighbour_cnt(), 0);
    assert_eq!(cell.to_string(), "00000000");
    assert_eq!(*cell == 0b00000000, true);
}

#[test]
fn test_reset() {
    let mut cell_array = CellArray::<5, 5>::new();
    let cell = cell_array.mut_cell(0, 0);
    cell.spawn();
    cell.set_neighbors(8);
    assert_eq!(cell.is_alive(), true);
    assert_eq!(cell.neighbour_cnt(), 8);
    assert_eq!(cell.to_string(), "00010001");
    cell_array.reset();
    let cell = cell_array.cell(0, 0);
    assert_eq!(cell.neighbour_cnt(), 0);
    assert_eq!(cell.to_string(), "00000000");
    assert_eq!(*cell == 0b00000000, true);
}

#[test]
fn test_glider() {
    let mut cell_array = CellArray::<5, 5>::new();

    cell_array.spawn_cell(2, 0);
    cell_array.spawn_cell(2, 1);
    cell_array.spawn_cell(2, 2);
    cell_array.spawn_cell(1, 2);
    cell_array.spawn_cell(0, 1);
    let c_neighbours = cell_array.calc_neighbours(0, 0);
    let c = cell_array.mut_cell(0, 0);
    assert_eq!(c.is_alive(), false);
    assert_eq!(c_neighbours, 1);
    assert_eq!(c.to_string(), "00000010");
    assert_eq!(*c == 0b00000010, true);
    let c_neighbours = cell_array.calc_neighbours(0, 1);
    let c = cell_array.mut_cell(0, 1);
    assert_eq!(c.is_alive(), true);
    assert_eq!(c_neighbours, 1);
    assert_eq!(c.to_string(), "00000011");
    assert_eq!(*c == 0b00000011, true);
    let c = cell_array.cell(0, 2);
    let c_neighbours = cell_array.calc_neighbours(0, 2);
    assert_eq!(c.is_alive(), false);
    assert_eq!(c_neighbours, 2);
    let c = cell_array.cell(0, 3);
    let c_neighbours = cell_array.calc_neighbours(0, 3);
    assert_eq!(c.is_alive(), false);
    assert_eq!(c_neighbours, 1);
    let c = cell_array.cell(0, 4);
    let c_neighbours = cell_array.calc_neighbours(0, 4);
    assert_eq!(c.is_alive(), false);
    assert_eq!(c_neighbours, 0);
    let c = cell_array.cell(1, 0);
    let c_neighbours = cell_array.calc_neighbours(1, 0);
    assert_eq!(c.is_alive(), false);
    assert_eq!(c_neighbours, 3);
    let c = cell_array.cell(1, 1);
    let c_neighbours = cell_array.calc_neighbours(1, 1);
    assert_eq!(c.is_alive(), false);
    assert_eq!(c_neighbours, 5);
    let c = cell_array.cell(1, 2);
    let c_neighbours = cell_array.calc_neighbours(1, 2);
    assert_eq!(c.is_alive(), true);
    assert_eq!(c_neighbours, 3);
    let c = cell_array.cell(1, 3);
    let c_neighbours = cell_array.calc_neighbours(1, 3);
    assert_eq!(c.is_alive(), false);
    assert_eq!(c_neighbours, 2);
    let c = cell_array.cell(1, 4);
    let c_neighbours = cell_array.calc_neighbours(1, 4);
    assert_eq!(c.is_alive(), false);
    assert_eq!(c_neighbours, 1);
    let c = cell_array.cell(2, 0);
    let c_neighbours = cell_array.calc_neighbours(2, 0);
    assert_eq!(c.is_alive(), true);
    assert_eq!(c_neighbours, 1);
    let c = cell_array.cell(2, 1);
    let c_neighbours = cell_array.calc_neighbours(2, 1);
    assert_eq!(c.is_alive(), true);
    assert_eq!(c_neighbours, 3);
    let c = cell_array.cell(2, 2);
    let c_neighbours = cell_array.calc_neighbours(2, 2);
    assert_eq!(c.is_alive(), true);
    assert_eq!(c_neighbours, 2);
    let c = cell_array.cell(2, 3);
    let c_neighbours = cell_array.calc_neighbours(2, 3);
    assert_eq!(c.is_alive(), false);
    assert_eq!(c_neighbours, 2);
    let c = cell_array.cell(2, 4);
    let c_neighbours = cell_array.calc_neighbours(2, 4);
    assert_eq!(c.is_alive(), false);
    assert_eq!(c_neighbours, 1);
    let c = cell_array.cell(3, 0);
    let c_neighbours = cell_array.calc_neighbours(3, 0);
    assert_eq!(c.is_alive(), false);
    assert_eq!(c_neighbours, 2);
    let c = cell_array.cell(3, 1);
    let c_neighbours = cell_array.calc_neighbours(3, 1);
    assert_eq!(c.is_alive(), false);
    assert_eq!(c_neighbours, 3);
    let c = cell_array.cell(3, 2);
    let c_neighbours = cell_array.calc_neighbours(3, 2);
    assert_eq!(c.is_alive(), false);
    assert_eq!(c_neighbours, 2);
    let c = cell_array.cell(3, 3);
    let c_neighbours = cell_array.calc_neighbours(3, 3);
    assert_eq!(c.is_alive(), false);
    assert_eq!(c_neighbours, 1);
    let c = cell_array.cell(3, 4);
    let c_neighbours = cell_array.calc_neighbours(3, 4);
    assert_eq!(c.is_alive(), false);
    assert_eq!(c_neighbours, 1);
    let c = cell_array.cell(4, 0);
    let c_neighbours = cell_array.calc_neighbours(4, 0);
    assert_eq!(c.is_alive(), false);
    assert_eq!(c_neighbours, 1);
    let c = cell_array.cell(4, 1);
    let c_neighbours = cell_array.calc_neighbours(4, 1);
    assert_eq!(c.is_alive(), false);
    assert_eq!(c_neighbours, 1);
    let c = cell_array.cell(4, 2);
    let c_neighbours = cell_array.calc_neighbours(4, 2);
    assert_eq!(c.is_alive(), false);
    assert_eq!(c_neighbours, 1);
    let c = cell_array.cell(4, 3);
    let c_neighbours = cell_array.calc_neighbours(4, 3);
    assert_eq!(c.is_alive(), false);
    assert_eq!(c_neighbours, 0);
    let c = cell_array.cell(4, 4);
    let c_neighbours = cell_array.calc_neighbours(4, 4);
    assert_eq!(c.is_alive(), false);
    assert_eq!(c_neighbours, 0);
}
