use game_of_life::{start_type_variants, Cell, CellStore, LifeError, StartType, Universe, UNIVERSE_SIZE};

fn all_dead(width: usize, height: usize) -> Universe {
    let mut u = Universe::new(StartType::AllDead, &[]);
    u.set_width(width).unwrap();
    u.set_height(height).unwrap();
    u
}

fn live_cells(u: &Universe) -> Vec<(usize, usize)> {
    let mut live = Vec::new();
    for row in 0..u.height() {
        for col in 0..u.width() {
            if u.get_cell(row, col).unwrap() == Cell::Alive {
                live.push((row, col));
            }
        }
    }
    live
}

#[test]
fn new_has_fixed_size() {
    let u = Universe::new(StartType::Default, &[]);
    assert_eq!(u.width(), UNIVERSE_SIZE);
    assert_eq!(u.height(), UNIVERSE_SIZE);
    assert_eq!(u.get_cells().len(), UNIVERSE_SIZE * UNIVERSE_SIZE / 8);
    assert_eq!(u.cells().len(), UNIVERSE_SIZE * UNIVERSE_SIZE / 8);
}

#[test]
fn default_pattern_marks_even_and_seventh_cells() {
    let u = Universe::new(StartType::Default, &[]);
    // cells 0, 2, 4, 6, 7 of the first byte, and 8, 10, 12, 14 of the second
    assert_eq!(u.get_cells()[0], 0b1101_0101);
    assert_eq!(u.get_cells()[1], 0b0101_0101);
    assert_eq!(u.get_cell(0, 21).unwrap(), Cell::Alive);
    assert_eq!(u.get_cell(0, 9).unwrap(), Cell::Dead);
    assert_eq!(u.get_cell(1, 0).unwrap(), Cell::Alive);
}

#[test]
fn random_pattern_follows_draws() {
    let u = Universe::new(StartType::Random, &[true, false, false, true, true]);
    assert_eq!(u.get_cells()[0], 0b0001_1001);
    assert_eq!(live_cells(&u), vec![(0, 0), (0, 3), (0, 4)]);
}

#[test]
fn all_dead_pattern_is_empty() {
    let u = Universe::new(StartType::AllDead, &[true, true]);
    assert!(u.cells().iter().all(|&b| b == 0));
}

#[test]
fn spaceship_pattern_is_the_glider() {
    let u = Universe::new(StartType::Spaceship, &[]);
    assert_eq!(live_cells(&u), vec![(4, 3), (5, 4), (6, 2), (6, 3), (6, 4)]);
}

#[test]
fn tick_replayed_from_same_grid_gives_same_result() {
    let mut a = Universe::new(StartType::Default, &[]);
    let draws: Vec<bool> = (0..UNIVERSE_SIZE * UNIVERSE_SIZE).map(|i| (i * 7919) % 5 < 2).collect();
    let mut b = Universe::new(StartType::Random, &draws);
    let mut c = Universe::new(StartType::Random, &draws);
    a.tick();
    b.tick();
    c.tick();
    assert_eq!(b.get_cells(), c.get_cells());
    b.tick();
    c.tick();
    assert_eq!(b.get_cells(), c.get_cells());
    let mut d = Universe::new(StartType::Default, &[]);
    d.tick();
    assert_eq!(a.get_cells(), d.get_cells());
}

#[test]
fn corner_counts_opposite_corner_as_neighbour() {
    // (4, 4) has exactly the three live neighbours (0, 0), (0, 4), (4, 0) only through wrapping
    let mut u = all_dead(5, 5);
    u.set_cells(&[(0, 0), (0, 4), (4, 0)]).unwrap();
    u.tick();
    assert_eq!(u.get_cell(4, 4).unwrap(), Cell::Alive);

    let mut v = all_dead(5, 5);
    v.set_cells(&[(0, 4), (4, 0)]).unwrap();
    v.tick();
    assert_eq!(v.get_cell(4, 4).unwrap(), Cell::Dead);
}

#[test]
fn origin_counts_far_corner_as_neighbour() {
    let mut u = all_dead(6, 4);
    u.set_cells(&[(3, 5), (3, 0), (0, 5)]).unwrap();
    u.tick();
    assert_eq!(u.get_cell(0, 0).unwrap(), Cell::Alive);

    let mut v = all_dead(6, 4);
    v.set_cells(&[(3, 0), (0, 5)]).unwrap();
    v.tick();
    assert_eq!(v.get_cell(0, 0).unwrap(), Cell::Dead);
}

#[test]
fn all_dead_grid_stays_dead() {
    let mut u = Universe::new(StartType::AllDead, &[]);
    u.tick();
    assert!(u.get_cells().iter().all(|&b| b == 0));
    let mut small = all_dead(3, 1);
    small.tick();
    assert_eq!(live_cells(&small), vec![]);
}

#[test]
fn block_is_still_life() {
    let mut u = all_dead(6, 6);
    u.set_cells(&[(2, 2), (2, 3), (3, 2), (3, 3)]).unwrap();
    let before = u.get_cells().clone();
    u.tick();
    assert_eq!(u.get_cells(), &before);
    assert_eq!(live_cells(&u), vec![(2, 2), (2, 3), (3, 2), (3, 3)]);
}

#[test]
fn blinker_oscillates() {
    let mut u = all_dead(5, 5);
    u.set_cells(&[(2, 1), (2, 2), (2, 3)]).unwrap();
    u.tick();
    assert_eq!(live_cells(&u), vec![(1, 2), (2, 2), (3, 2)]);
    u.tick();
    assert_eq!(live_cells(&u), vec![(2, 1), (2, 2), (2, 3)]);
}

#[test]
fn glider_moves_one_row_and_column_in_four_ticks() {
    let mut u = Universe::new(StartType::Spaceship, &[]);
    for _ in 0..4 {
        u.tick();
    }
    assert_eq!(live_cells(&u), vec![(5, 4), (6, 5), (7, 3), (7, 4), (7, 5)]);
}

#[test]
fn glider_wraps_around_the_torus() {
    let mut u = all_dead(8, 8);
    let glider = [(4, 3), (5, 4), (6, 2), (6, 3), (6, 4)];
    u.set_cells(&glider).unwrap();
    for _ in 0..4 {
        u.tick();
    }
    assert_eq!(live_cells(&u), vec![(5, 4), (6, 5), (7, 3), (7, 4), (7, 5)]);
    for _ in 0..4 {
        u.tick();
    }
    assert_eq!(live_cells(&u), vec![(0, 4), (0, 5), (0, 6), (6, 5), (7, 6)]);
    for _ in 0..24 {
        u.tick();
    }
    assert_eq!(live_cells(&u), glider.to_vec());
}

#[test]
fn crowded_cell_dies_and_lonely_cell_dies() {
    let mut u = all_dead(5, 5);
    // centre has four live neighbours
    u.set_cells(&[(2, 2), (1, 1), (1, 3), (3, 1), (3, 3)]).unwrap();
    u.tick();
    assert_eq!(u.get_cell(2, 2).unwrap(), Cell::Dead);

    let mut v = all_dead(5, 5);
    v.set_cells(&[(2, 2), (0, 0)]).unwrap();
    v.tick();
    assert_eq!(live_cells(&v), vec![]);
}

#[test]
fn single_column_counts_own_column_twice() {
    // with width 1 the column offsets w - 1 and 0 coincide: the cell above
    // and below each count three times, the cell itself once
    let mut u = all_dead(1, 5);
    u.set_cell(1, 0, Cell::Alive).unwrap();
    u.tick();
    assert_eq!(live_cells(&u), vec![(0, 0), (2, 0)]);
}

#[test]
fn set_width_clears_and_resizes() {
    let mut u = Universe::new(StartType::Default, &[]);
    assert_eq!(u.set_width(10), Ok(()));
    assert_eq!(u.width(), 10);
    assert_eq!(u.height(), UNIVERSE_SIZE);
    assert_eq!(u.get_cells().len(), (10 * UNIVERSE_SIZE + 7) / 8);
    assert!(u.get_cells().iter().all(|&b| b == 0));
}

#[test]
fn set_height_clears_and_resizes() {
    let mut u = Universe::new(StartType::Spaceship, &[]);
    assert_eq!(u.set_height(3), Ok(()));
    assert_eq!(u.height(), 3);
    assert_eq!(u.width(), UNIVERSE_SIZE);
    assert_eq!(u.get_cells().len(), 3 * UNIVERSE_SIZE / 8);
    assert!(u.get_cells().iter().all(|&b| b == 0));
    assert_eq!(u.set_width(3), Ok(()));
    assert_eq!(u.get_cells().len(), 2);
}

#[test]
fn zero_dimension_is_rejected() {
    let mut u = Universe::new(StartType::Spaceship, &[]);
    let before = u.get_cells().clone();
    assert_eq!(u.set_width(0), Err(LifeError::InvalidDimension));
    assert_eq!(u.set_height(0), Err(LifeError::InvalidDimension));
    assert_eq!(u.width(), UNIVERSE_SIZE);
    assert_eq!(u.height(), UNIVERSE_SIZE);
    assert_eq!(u.get_cells(), &before);
}

#[test]
fn oversized_dimension_is_rejected() {
    let mut u = Universe::new(StartType::AllDead, &[]);
    assert_eq!(u.set_width(usize::MAX), Err(LifeError::InvalidDimension));
    assert_eq!(u.set_height(usize::MAX / 64), Err(LifeError::InvalidDimension));
    assert_eq!(u.width(), UNIVERSE_SIZE);
}

#[test]
fn set_cell_round_trip() {
    let mut u = Universe::new(StartType::AllDead, &[]);
    u.set_cell(17, 90, Cell::Alive).unwrap();
    assert_eq!(u.get_cell(17, 90), Ok(Cell::Alive));
    u.set_cell(17, 90, Cell::Dead).unwrap();
    assert_eq!(u.get_cell(17, 90), Ok(Cell::Dead));
}

#[test]
fn toggle_flips_a_cell() {
    let mut u = Universe::new(StartType::AllDead, &[]);
    assert_eq!(u.toggle_cell(3, 5), Ok(()));
    assert_eq!(u.get_cell(3, 5), Ok(Cell::Alive));
    assert_eq!(u.toggle_cell(3, 5), Ok(()));
    assert_eq!(u.get_cell(3, 5), Ok(Cell::Dead));
}

#[test]
fn out_of_range_coordinates_are_rejected() {
    let mut u = all_dead(4, 3);
    u.set_cell(1, 1, Cell::Alive).unwrap();
    let before = u.get_cells().clone();
    assert_eq!(u.set_cell(3, 0, Cell::Alive), Err(LifeError::IndexError));
    assert_eq!(u.set_cell(0, 4, Cell::Alive), Err(LifeError::IndexError));
    assert_eq!(u.toggle_cell(0, 4), Err(LifeError::IndexError));
    assert_eq!(u.get_cell(3, 3), Err(LifeError::IndexError));
    assert_eq!(u.set_cells(&[(0, 0), (2, 9)]), Err(LifeError::IndexError));
    assert_eq!(u.get_cells(), &before);
}

#[test]
fn set_cells_keeps_other_cells() {
    let mut u = all_dead(4, 4);
    u.set_cell(0, 0, Cell::Alive).unwrap();
    assert_eq!(u.set_cells(&[(1, 1), (3, 2), (1, 1)]), Ok(()));
    assert_eq!(live_cells(&u), vec![(0, 0), (1, 1), (3, 2)]);
    assert_eq!(u.get_cells(), &vec![0b0010_0001, 0b0100_0000]);
}

#[test]
fn setting_a_bit_keeps_its_byte_neighbours() {
    let mut u = all_dead(8, 2);
    u.set_cells(&[(0, 1), (0, 3), (0, 6)]).unwrap();
    assert_eq!(u.cells()[0], 0b0100_1010);
    u.set_cell(0, 2, Cell::Alive).unwrap();
    assert_eq!(u.cells()[0], 0b0100_1110);
    u.set_cell(0, 3, Cell::Dead).unwrap();
    assert_eq!(u.cells()[0], 0b0100_0110);
    assert_eq!(u.cells()[1], 0);
}

#[test]
fn cell_store_starts_dead_in_whole_bytes() {
    let store = CellStore::all_dead(12);
    assert_eq!(store.len(), 16);
    assert_eq!(store.as_bytes(), &vec![0, 0]);
    let copy = store.clone();
    assert_eq!(copy.as_bytes(), store.as_bytes());
    assert_eq!(CellStore::all_dead(16).as_bytes().len(), 2);
    assert_eq!(CellStore::all_dead(0).len(), 0);
}

#[test]
fn buffer_holds_cell_bits_low_first() {
    let mut u = Universe::new(StartType::AllDead, &[]);
    u.set_cell(3, 5, Cell::Alive).unwrap();
    assert_eq!(u.get_cells()[48], 0x20);
    assert_eq!(u.get_cells().iter().filter(|&&b| b != 0).count(), 1);
    u.set_cell(3, 5, Cell::Dead).unwrap();
    assert_eq!(u.get_cells(), &vec![0u8; 2048]);
}

#[test]
fn buffer_after_ticks() {
    let mut block = Universe::new(StartType::AllDead, &[]);
    block.set_cells(&[(10, 10), (10, 11), (11, 10), (11, 11)]).unwrap();
    block.tick();
    let mut expected = vec![0u8; 2048];
    expected[161] = 0x0C;
    expected[177] = 0x0C;
    assert_eq!(block.get_cells(), &expected);

    let mut glider = Universe::new(StartType::Spaceship, &[]);
    for _ in 0..4 {
        glider.tick();
    }
    let mut expected = vec![0u8; 2048];
    expected[80] = 0x10;
    expected[96] = 0x20;
    expected[112] = 0x38;
    assert_eq!(glider.get_cells(), &expected);

    let mut empty = Universe::new(StartType::AllDead, &[]);
    empty.tick();
    assert_eq!(empty.get_cells(), &vec![0u8; 2048]);
}

#[test]
fn render_draws_one_line_per_row() {
    let mut u = all_dead(3, 2);
    u.set_cells(&[(0, 1), (1, 0), (1, 2)]).unwrap();
    assert_eq!(u.render(), "◻◼◻\n◼◻◼\n");
}

#[test]
fn render_of_new_universe_has_every_row() {
    let u = Universe::new(StartType::AllDead, &[]);
    let text = u.render();
    assert_eq!(text.lines().count(), UNIVERSE_SIZE);
    assert!(text.lines().all(|l| l.chars().count() == UNIVERSE_SIZE && l.chars().all(|c| c == '◻')));
}

#[test]
fn start_type_names() {
    assert_eq!(start_type_variants(), vec!["default", "random", "all_dead", "spaceship"]);
}
