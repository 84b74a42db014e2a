use wasm_game_of_life::{get_state, Universe, UniverseError};

fn sized(width: u32, height: u32) -> Universe {
    let mut u = Universe::new();
    u.set_width(width).unwrap();
    u.set_height(height).unwrap();
    u
}

fn alive(u: &Universe, row: u32, col: u32) -> bool {
    u.get_cells().contains((row * u.width() + col) as usize)
}

fn live_set(u: &Universe) -> Vec<(u32, u32)> {
    let mut out = Vec::new();
    for row in 0..u.height() {
        for col in 0..u.width() {
            if alive(u, row, col) {
                out.push((row, col));
            }
        }
    }
    out
}

#[test]
fn new_is_64_by_64_and_dead() {
    let u = Universe::new();
    assert_eq!(u.width(), 64);
    assert_eq!(u.height(), 64);
    assert_eq!(u.get_cells().len(), 64 * 64);
    assert_eq!(u.get_cells().count_ones(..), 0);
}

#[test]
fn get_state_follows_the_rules() {
    assert!(!get_state(true, 0));
    assert!(!get_state(true, 1));
    assert!(get_state(true, 2));
    assert!(get_state(true, 3));
    assert!(!get_state(true, 4));
    assert!(!get_state(true, 8));
    assert!(!get_state(false, 2));
    assert!(get_state(false, 3));
    assert!(!get_state(false, 4));
    assert!(!get_state(false, 0));
}

#[test]
fn toggle_twice_restores() {
    let mut u = sized(7, 5);
    u.set_cells(&[(1, 1), (4, 6)]).unwrap();
    let before = live_set(&u);
    u.toggle_cell(4, 6).unwrap();
    assert!(!alive(&u, 4, 6));
    u.toggle_cell(4, 6).unwrap();
    assert_eq!(live_set(&u), before);
    u.toggle_cell(0, 3).unwrap();
    assert!(alive(&u, 0, 3));
    u.toggle_cell(0, 3).unwrap();
    assert_eq!(live_set(&u), before);
}

#[test]
fn toggle_out_of_range_is_refused() {
    let mut u = sized(7, 5);
    assert_eq!(u.toggle_cell(5, 0), Err(UniverseError::IndexOutOfRange));
    assert_eq!(u.toggle_cell(0, 7), Err(UniverseError::IndexOutOfRange));
    assert!(live_set(&u).is_empty());
}

#[test]
fn clear_kills_every_cell() {
    let mut u = sized(6, 9);
    u.set_cells(&[(0, 0), (8, 5), (3, 3)]).unwrap();
    u.clear();
    assert_eq!(u.get_cells().len(), 6 * 9);
    assert_eq!(u.get_cells().count_ones(..), 0);
    assert_eq!(u.width(), 6);
    assert_eq!(u.height(), 9);
}

#[test]
fn resize_discards_cells() {
    let mut u = Universe::new();
    u.set_cells(&[(0, 0), (10, 10)]).unwrap();
    u.set_width(10).unwrap();
    assert_eq!(u.get_cells().len(), 10 * 64);
    assert_eq!(u.get_cells().count_ones(..), 0);
    u.set_cells(&[(2, 2)]).unwrap();
    u.set_height(3).unwrap();
    assert_eq!(u.get_cells().len(), 10 * 3);
    assert_eq!(u.get_cells().count_ones(..), 0);
}

#[test]
fn zero_or_huge_dimensions_are_refused() {
    let mut u = sized(4, 4);
    u.toggle_cell(1, 1).unwrap();
    assert_eq!(u.set_width(0), Err(UniverseError::InvalidDimensions));
    assert_eq!(u.set_height(0), Err(UniverseError::InvalidDimensions));
    assert_eq!(u.set_width(u32::MAX), Err(UniverseError::InvalidDimensions));
    assert_eq!(u.width(), 4);
    assert_eq!(u.height(), 4);
    assert!(alive(&u, 1, 1));
}

#[test]
fn set_cells_out_of_range_changes_nothing() {
    let mut u = sized(5, 5);
    assert_eq!(u.set_cells(&[(0, 0), (5, 1)]), Err(UniverseError::IndexOutOfRange));
    assert!(live_set(&u).is_empty());
    assert_eq!(u.set_cells(&[(4, 4), (0, 2)]), Ok(()));
    assert_eq!(live_set(&u), vec![(0, 2), (4, 4)]);
}

#[test]
fn glider_cells() {
    let mut u = sized(6, 6);
    u.create_glider().unwrap();
    assert_eq!(live_set(&u), vec![(0, 0), (1, 1), (1, 2), (2, 0), (2, 1)]);
}

#[test]
fn glider_keeps_other_cells() {
    let mut u = sized(6, 6);
    u.toggle_cell(5, 5).unwrap();
    u.create_glider().unwrap();
    assert_eq!(live_set(&u), vec![(0, 0), (1, 1), (1, 2), (2, 0), (2, 1), (5, 5)]);
}

#[test]
fn glider_on_small_grid_is_refused() {
    let mut u = sized(2, 6);
    assert_eq!(u.create_glider(), Err(UniverseError::IndexOutOfRange));
    assert!(live_set(&u).is_empty());
}

fn glider_after_four(width: u32, height: u32) {
    let mut u = sized(width, height);
    u.clear();
    u.create_glider().unwrap();
    for _ in 0..4 {
        u.tick();
    }
    assert_eq!(live_set(&u), vec![(1, 1), (2, 2), (2, 3), (3, 1), (3, 2)]);
}

#[test]
fn glider_moves_one_cell_diagonally() {
    glider_after_four(5, 5);
    glider_after_four(8, 6);
    glider_after_four(64, 64);
}

#[test]
fn glider_wraps_around_the_torus() {
    let mut u = sized(8, 8);
    u.create_glider().unwrap();
    for _ in 0..4 * 8 {
        u.tick();
    }
    assert_eq!(live_set(&u), vec![(0, 0), (1, 1), (1, 2), (2, 0), (2, 1)]);
}

#[test]
fn lone_cell_dies() {
    let mut u = sized(10, 10);
    u.toggle_cell(4, 7).unwrap();
    u.tick();
    assert!(live_set(&u).is_empty());
    let mut corner = sized(3, 3);
    corner.toggle_cell(0, 0).unwrap();
    corner.tick();
    assert!(!alive(&corner, 0, 0));
}

#[test]
fn block_is_stable() {
    let mut u = sized(20, 20);
    u.set_cells(&[(5, 5), (5, 6), (6, 5), (6, 6)]).unwrap();
    u.tick();
    assert_eq!(live_set(&u), vec![(5, 5), (5, 6), (6, 5), (6, 6)]);
    let mut wrapped = sized(20, 20);
    wrapped.set_cells(&[(19, 19), (19, 0), (0, 19), (0, 0)]).unwrap();
    wrapped.tick();
    assert_eq!(live_set(&wrapped), vec![(0, 0), (0, 19), (19, 0), (19, 19)]);
}

#[test]
fn blinker_oscillates() {
    let mut u = sized(5, 7);
    u.set_cells(&[(3, 1), (3, 2), (3, 3)]).unwrap();
    u.tick();
    assert_eq!(live_set(&u), vec![(2, 2), (3, 2), (4, 2)]);
    u.tick();
    assert_eq!(live_set(&u), vec![(3, 1), (3, 2), (3, 3)]);
}

#[test]
fn tick_covers_wide_grids() {
    let mut u = sized(12, 4);
    u.toggle_cell(1, 10).unwrap();
    u.tick();
    assert!(live_set(&u).is_empty());
}

#[test]
fn neighbors_of_the_origin() {
    let mut u = sized(5, 4);
    u.toggle_cell(0, 0).unwrap();
    let h = u.height();
    let w = u.width();
    for row in 0..h {
        for col in 0..w {
            let near = [0, 1, h - 1].contains(&row) && [0, 1, w - 1].contains(&col) && (row, col) != (0, 0);
            let expected = if near { 1 } else { 0 };
            assert_eq!(u.live_neighbor_count(row, col), expected, "at {:?}", (row, col));
        }
    }
    assert_eq!(u.live_neighbor_count(h - 1, w - 1), 1);
    assert_eq!(u.live_neighbor_count(2, 2), 0);
}

#[test]
fn neighbors_count_up_to_eight() {
    let mut u = sized(3, 3);
    u.set_cells(&[(0, 0), (0, 1), (0, 2), (1, 0), (1, 1), (1, 2), (2, 0), (2, 1), (2, 2)]).unwrap();
    assert_eq!(u.live_neighbor_count(1, 1), 8);
    assert_eq!(u.live_neighbor_count(0, 0), 8);
}

#[test]
fn fill_random_takes_the_drawn_states() {
    let mut u = sized(3, 2);
    u.fill_random(&[true, false, false, true, true, false]);
    assert_eq!(live_set(&u), vec![(0, 0), (1, 0), (1, 1)]);
}

#[test]
fn cells_are_packed_row_major() {
    let mut u = sized(40, 2);
    u.toggle_cell(0, 33).unwrap();
    u.toggle_cell(1, 0).unwrap();
    let blocks = u.cells();
    assert_eq!(blocks.len(), 3);
    assert_eq!(blocks[0], 0);
    assert_eq!(blocks[1], (1 << 1) | (1 << 8));
    assert_eq!(blocks[2], 0);
}
