use game_of_life::Universe;

/// A small all-dead grid of the given dimensions.
fn dead_grid(width: u32, height: u32) -> Universe {
    let mut u = Universe::new();
    u.set_width(width);
    u.set_height(height);
    u.clear();
    u
}

fn is_alive(u: &Universe, row: u32, col: u32) -> bool {
    u.get_cells().contains((row * u.width() + col) as usize)
}

fn live_cells(u: &Universe) -> Vec<(u32, u32)> {
    let mut alive = Vec::new();
    for row in 0..u.height() {
        for col in 0..u.width() {
            if is_alive(u, row, col) {
                alive.push((row, col));
            }
        }
    }
    alive
}

#[test]
fn new_has_default_dimensions() {
    let u = Universe::new();
    assert_eq!(u.width(), 120);
    assert_eq!(u.height(), 120);
}

#[test]
fn resize_clears_all_cells() {
    let mut u = Universe::new();
    u.set_width(5);
    u.set_height(7);
    assert_eq!(u.width(), 5);
    assert_eq!(u.height(), 7);
    assert_eq!(live_cells(&u).len(), 0);
}

#[test]
fn dead_grid_stays_dead() {
    let mut u = dead_grid(6, 5);
    u.tick();
    assert_eq!(live_cells(&u).len(), 0);
}

#[test]
fn dead_cell_with_three_neighbors_is_born() {
    let mut u = dead_grid(8, 8);
    u.set_cells(&[(2, 2), (2, 4), (4, 3)]);
    assert!(!is_alive(&u, 3, 3));
    u.tick();
    assert!(is_alive(&u, 3, 3));
}

#[test]
fn dead_cell_with_two_neighbors_stays_dead() {
    let mut u = dead_grid(8, 8);
    u.set_cells(&[(2, 2), (2, 4)]);
    u.tick();
    assert!(!is_alive(&u, 3, 3));
}

#[test]
fn live_cell_with_two_or_three_neighbors_survives() {
    let mut u = dead_grid(8, 8);
    u.set_cells(&[(3, 3), (2, 2), (2, 4)]);
    u.tick();
    assert!(is_alive(&u, 3, 3));

    let mut u = dead_grid(8, 8);
    u.set_cells(&[(3, 3), (2, 2), (2, 4), (4, 3)]);
    u.tick();
    assert!(is_alive(&u, 3, 3));
}

#[test]
fn live_cell_with_other_counts_dies() {
    // 0 neighbors
    let mut u = dead_grid(8, 8);
    u.set_cells(&[(3, 3)]);
    u.tick();
    assert!(!is_alive(&u, 3, 3));

    // 1 neighbor
    let mut u = dead_grid(8, 8);
    u.set_cells(&[(3, 3), (2, 2)]);
    u.tick();
    assert!(!is_alive(&u, 3, 3));

    // 4 to 8 neighbors
    let all_eight = [
        (2, 2),
        (2, 3),
        (2, 4),
        (3, 2),
        (3, 4),
        (4, 2),
        (4, 3),
        (4, 4),
    ];
    for n in 4usize..=8usize {
        let mut u = dead_grid(8, 8);
        u.set_cells(&[(3, 3)]);
        u.set_cells(&all_eight[..n]);
        u.tick();
        assert!(!is_alive(&u, 3, 3), "live cell with {} neighbors must die", n);
    }
}

#[test]
fn neighbor_count_wraps_toroidally() {
    // (0,0) is alive with exactly the far corner and (0,1) as neighbors:
    // the far corner (h-1, w-1) is its diagonal neighbor across the wrap,
    // so (0,0) has two live neighbors and survives. Without the wrap it
    // would have one and die.
    let mut u = dead_grid(4, 4);
    u.set_cells(&[(0, 0), (0, 1), (3, 3)]);
    u.tick();
    assert!(is_alive(&u, 0, 0));
}

#[test]
fn set_alive_wraps_out_of_range_coordinates() {
    let mut u = dead_grid(4, 4);
    // row 6 wraps to 2, column 9 wraps to 1
    u.set_alive(6, 9);
    assert_eq!(live_cells(&u), vec![(2, 1)]);
}

#[test]
fn clear_then_render_is_all_dead_glyphs() {
    let mut u = dead_grid(4, 3);
    u.set_cells(&[(1, 1), (2, 3)]);
    u.clear();
    let text = u.render();
    let lines: Vec<&str> = text.split_terminator('\n').collect();
    assert_eq!(lines.len(), 3);
    for line in &lines {
        assert_eq!(line.chars().count(), 4);
        assert!(line.chars().all(|c| c == '\u{25fb}'));
    }
}

#[test]
fn render_marks_live_cells() {
    let mut u = dead_grid(2, 2);
    u.set_cells(&[(0, 0)]);
    let text = u.render();
    assert_eq!(text, "\u{25fc}\u{25fb}\n\u{25fb}\u{25fb}\n");
}

#[test]
fn set_cells_sets_exactly_the_listed_indices() {
    let mut u = dead_grid(8, 8);
    u.set_cells(&[(2, 3), (2, 4)]);
    let cells = u.get_cells();
    let w = u.width() as usize;
    for i in 0..(u.width() * u.height()) as usize {
        let expected = i == 2 * w + 3 || i == 2 * w + 4;
        assert_eq!(cells.contains(i), expected, "index {}", i);
    }
}

#[test]
fn set_cells_duplicates_are_idempotent() {
    let mut u = dead_grid(8, 8);
    u.set_cells(&[(2, 3), (2, 3), (2, 3)]);
    assert_eq!(live_cells(&u), vec![(2, 3)]);
}

#[test]
fn toggle_cell_twice_round_trips() {
    let mut u = dead_grid(5, 5);
    u.set_cells(&[(1, 1)]);
    let before = live_cells(&u);

    u.toggle_cell(3, 2);
    u.toggle_cell(3, 2);
    assert_eq!(live_cells(&u), before);

    u.toggle_cell(1, 1);
    u.toggle_cell(1, 1);
    assert_eq!(live_cells(&u), before);
}

#[test]
fn toggle_cell_flips_state() {
    let mut u = dead_grid(5, 5);
    u.toggle_cell(2, 2);
    assert!(is_alive(&u, 2, 2));
    u.toggle_cell(2, 2);
    assert!(!is_alive(&u, 2, 2));
}

#[test]
fn glider_advances_one_generation() {
    let mut u = dead_grid(8, 8);
    u.set_cells(&[(0, 1), (1, 2), (2, 0), (2, 1), (2, 2)]);
    u.tick();
    assert_eq!(live_cells(&u), vec![(1, 0), (1, 2), (2, 1), (2, 2), (3, 1)]);
}

#[test]
fn glider_translates_by_one_row_and_column_after_four_ticks() {
    let mut u = dead_grid(8, 8);
    u.set_cells(&[(0, 1), (1, 2), (2, 0), (2, 1), (2, 2)]);
    for _ in 0..4 {
        u.tick();
    }
    assert_eq!(live_cells(&u), vec![(1, 2), (2, 3), (3, 1), (3, 2), (3, 3)]);
}

#[test]
fn reset_keeps_dimensions() {
    let mut u = dead_grid(6, 4);
    u.reset();
    assert_eq!(u.width(), 6);
    assert_eq!(u.height(), 4);
}

#[test]
fn cells_and_get_cells_agree() {
    let mut u = dead_grid(4, 4);
    u.set_cells(&[(1, 2)]);
    let w = u.width() as usize;
    assert!(u.cells().contains(w + 2));
    assert!(u.get_cells().contains(w + 2));
    assert_eq!(u.cells().count_ones(..), 1);
}
