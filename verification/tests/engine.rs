use minefield::cell::State;
use minefield::field::{Field, Orientation};

fn count_bombs(f: &Field) -> usize {
    let mut n = 0;
    for i in 0..f.rows {
        for j in 0..f.cols {
            if f.has_bomb_at(i, j) {
                n += 1;
            }
        }
    }
    n
}

fn states(f: &Field) -> Vec<State> {
    let mut v = Vec::new();
    for i in 0..f.rows {
        for j in 0..f.cols {
            v.push(f.cells[i][j].state);
        }
    }
    v
}

#[test]
fn empty_cell_is_closed_and_harmless() {
    let c = minefield::cell::Cell::empty();
    assert_eq!(c.state, State::Closed);
    assert!(!c.pipebomb);
}

#[test]
fn new_builds_closed_grid_with_clamped_density() {
    let f = Field::new(3, 5, 1000);
    assert_eq!(f.rows, 3);
    assert_eq!(f.cols, 5);
    assert_eq!(f.bomb_pcnt, 100);
    assert_eq!((f.cursor_row, f.cursor_col), (0, 0));
    for i in 0..3 {
        for j in 0..5 {
            assert_eq!(f.cells[i][j].state, State::Closed);
            assert!(!f.has_bomb_at(i, j));
        }
    }
}

#[test]
fn randomize_places_exact_quota_and_spares_cursor() {
    // ceil(4 * 4 * 16 / 100) = 3 hazards on a 4x4 grid.
    let mut f = Field::new(4, 4, 16);
    f.randomize();
    assert_eq!(count_bombs(&f), 3);
    assert!(!f.has_bomb_at(0, 0));
    for i in 0..4 {
        for j in 0..4 {
            assert_eq!(f.cells[i][j].state, State::Closed);
        }
    }
}

#[test]
fn randomize_caps_at_non_cursor_capacity() {
    // Quota ceil(2*2*100/100) = 4 exceeds the 3 non-cursor cells.
    let mut f = Field::new(2, 2, 100);
    f.randomize();
    assert_eq!(count_bombs(&f), 3);
    assert!(!f.has_bomb_at(0, 0));
    assert!(f.has_bomb_at(0, 1));
    assert!(f.has_bomb_at(1, 0));
    assert!(f.has_bomb_at(1, 1));
}

#[test]
fn randomize_resets_previous_round() {
    let mut f = Field::new(3, 3, 0);
    f.check_at(1, 1);
    assert_eq!(f.cells[1][1].state, State::Open);
    f.randomize();
    assert_eq!(count_bombs(&f), 0);
    for i in 0..3 {
        for j in 0..3 {
            assert_eq!(f.cells[i][j].state, State::Closed);
        }
    }
}

#[test]
fn adjacency_counts_neighbors_not_self_or_outside() {
    let mut f = Field::new(2, 2, 0);
    assert!(f.set_bomb_at(0, 1));
    assert!(f.set_bomb_at(1, 0));
    assert!(f.set_bomb_at(1, 1));
    // The corner sees all three hazards; out-of-bounds positions add nothing.
    assert_eq!(f.bombs_around(0, 0), 3);
    // A hazard cell does not count itself.
    assert_eq!(f.bombs_around(1, 1), 2);
    // A position outside the grid counts only in-bounds neighbors.
    assert_eq!(f.bombs_around(-1, -1), 0);
}

#[test]
fn set_bomb_refuses_cursor_and_duplicates() {
    let mut f = Field::new(2, 2, 0);
    assert!(!f.set_bomb_at(0, 0));
    assert!(f.set_bomb_at(1, 1));
    assert!(!f.set_bomb_at(1, 1));
    assert!(f.has_bomb_at(1, 1));
    assert!(!f.has_bomb_at(0, 0));
}

#[test]
fn out_of_bounds_flags_each_axis() {
    let f = Field::new(2, 3, 0);
    assert_eq!(f.out_of_bounds(-1, 0), (true, false));
    assert_eq!(f.out_of_bounds(0, 3), (false, true));
    assert_eq!(f.out_of_bounds(1, 2), (false, false));
    assert_eq!(f.out_of_bounds(2, -5), (true, true));
}

#[test]
fn cascade_opens_zero_region_and_border() {
    // 3x3 grid, hazard at the corner, cursor moved away from it.
    let mut f = Field::new(3, 3, 0);
    f.inc_cursor(Orientation::Vertical);
    f.inc_cursor(Orientation::Vertical);
    f.inc_cursor(Orientation::Horizontal);
    f.inc_cursor(Orientation::Horizontal);
    assert!(f.set_bomb_at(0, 0));
    f.check_at(2, 2);
    // Every non-hazard cell is connected to the zero region or borders it.
    for i in 0..3 {
        for j in 0..3 {
            if i == 0 && j == 0 {
                assert_eq!(f.cells[i][j].state, State::Closed);
            } else {
                assert_eq!(f.cells[i][j].state, State::Open);
            }
        }
    }
    assert!(f.victory());
}

#[test]
fn cascade_stops_at_numbered_cells() {
    // Hazard at (1,1) on a 3x3 grid: every other cell borders it, so a
    // reveal opens exactly the one target cell.
    let mut f = Field::new(3, 3, 0);
    f.inc_cursor(Orientation::Horizontal);
    assert!(f.set_bomb_at(1, 1));
    f.check_at(0, 0);
    assert_eq!(f.cells[0][0].state, State::Open);
    for i in 0..3 {
        for j in 0..3 {
            if !(i == 0 && j == 0) {
                assert_eq!(f.cells[i][j].state, State::Closed);
            }
        }
    }
}

#[test]
fn cascade_leaves_flagged_zero_cells_alone() {
    // No hazards at all: the whole grid is one zero region. A flagged cell
    // is passed through without being opened.
    let mut f = Field::new(3, 3, 0);
    f.inc_cursor(Orientation::Vertical);
    f.flag_at_cursor();
    assert_eq!(f.cells[1][0].state, State::Flagged);
    f.check_at(2, 2);
    for i in 0..3 {
        for j in 0..3 {
            if i == 1 && j == 0 {
                assert_eq!(f.cells[i][j].state, State::Flagged);
            } else {
                assert_eq!(f.cells[i][j].state, State::Open);
            }
        }
    }
}

#[test]
fn reveal_on_hazard_changes_nothing() {
    let mut f = Field::new(2, 2, 0);
    f.inc_cursor(Orientation::Horizontal);
    assert!(f.set_bomb_at(0, 0));
    let before = states(&f);
    f.check_at(0, 0);
    assert_eq!(states(&f), before);
}

#[test]
fn reveal_on_open_cell_is_a_noop() {
    let mut f = Field::new(3, 3, 0);
    f.inc_cursor(Orientation::Horizontal);
    assert!(f.set_bomb_at(2, 2));
    f.check_at(0, 0);
    let before = states(&f);
    f.check_at(0, 0);
    assert_eq!(states(&f), before);
}

#[test]
fn flag_toggle_twice_restores_closed() {
    let mut f = Field::new(2, 2, 0);
    f.flag_at_cursor();
    assert_eq!(f.cells[0][0].state, State::Flagged);
    f.flag_at_cursor();
    assert_eq!(f.cells[0][0].state, State::Closed);
}

#[test]
fn flag_leaves_open_cells_alone() {
    let mut f = Field::new(2, 2, 0);
    f.check_at(0, 0);
    assert_eq!(f.cells[0][0].state, State::Open);
    f.flag_at_cursor();
    assert_eq!(f.cells[0][0].state, State::Open);
}

#[test]
fn cursor_clamps_at_edges() {
    let mut f = Field::new(2, 3, 0);
    f.dec_cursor(Orientation::Vertical);
    f.dec_cursor(Orientation::Horizontal);
    assert_eq!((f.cursor_row, f.cursor_col), (0, 0));
    for _ in 0..5 {
        f.inc_cursor(Orientation::Vertical);
        f.inc_cursor(Orientation::Horizontal);
    }
    assert_eq!((f.cursor_row, f.cursor_col), (1, 2));
    f.dec_cursor(Orientation::Vertical);
    assert_eq!((f.cursor_row, f.cursor_col), (0, 2));
}

#[test]
fn open_at_cursor_needs_confirmation_on_flagged() {
    let mut f = Field::new(2, 2, 0);
    f.inc_cursor(Orientation::Vertical);
    assert!(f.set_bomb_at(1, 1));
    f.dec_cursor(Orientation::Vertical);
    f.flag_at_cursor();
    assert_eq!(f.cells[0][0].state, State::Flagged);
    // Declined: nothing changes, but the hazard flag is still reported.
    assert!(!f.open_at_cursor(false));
    assert_eq!(f.cells[0][0].state, State::Flagged);
    // Confirmed: the cell borders the hazard, so it opens with a digit.
    assert!(!f.open_at_cursor(true));
    assert_eq!(f.cells[0][0].state, State::Open);
    assert_eq!(f.cell_str_at(0, 0), "1");
}

#[test]
fn open_at_cursor_reports_hazard_without_opening_it() {
    let mut f = Field::new(2, 2, 0);
    f.inc_cursor(Orientation::Vertical);
    f.inc_cursor(Orientation::Horizontal);
    assert!(f.set_bomb_at(0, 0));
    f.dec_cursor(Orientation::Vertical);
    f.dec_cursor(Orientation::Horizontal);
    // Cursor sits on the hazard: the reveal declines to open it and signals
    // defeat to the caller.
    assert!(f.open_at_cursor(false));
    assert_eq!(f.cells[0][0].state, State::Closed);
}

#[test]
fn open_at_cursor_ignores_open_cells_but_reports_hazard() {
    let mut f = Field::new(2, 2, 0);
    f.inc_cursor(Orientation::Horizontal);
    assert!(f.set_bomb_at(0, 0));
    f.dec_cursor(Orientation::Horizontal);
    f.open_at(0, 0);
    let before = states(&f);
    assert!(f.open_at_cursor(false));
    assert_eq!(states(&f), before);
}

#[test]
fn reveal_mines_opens_every_hazard_only() {
    let mut f = Field::new(2, 2, 0);
    f.inc_cursor(Orientation::Horizontal);
    assert!(f.set_bomb_at(0, 0));
    assert!(f.set_bomb_at(1, 1));
    f.reveal_mines();
    assert_eq!(f.cells[0][0].state, State::Open);
    assert_eq!(f.cells[1][1].state, State::Open);
    assert_eq!(f.cells[0][1].state, State::Closed);
    assert_eq!(f.cells[1][0].state, State::Closed);
}

#[test]
fn victory_flips_on_the_last_non_hazard_reveal() {
    let mut f = Field::new(2, 2, 0);
    f.inc_cursor(Orientation::Vertical);
    f.inc_cursor(Orientation::Horizontal);
    assert!(f.set_bomb_at(0, 0));
    assert!(!f.victory());
    f.check_at(0, 1);
    assert!(!f.victory());
    f.check_at(1, 0);
    assert!(!f.victory());
    f.check_at(1, 1);
    assert!(f.victory());
}

#[test]
fn victory_ignores_hazard_cells() {
    let mut f = Field::new(1, 2, 0);
    f.inc_cursor(Orientation::Horizontal);
    assert!(f.set_bomb_at(0, 0));
    f.check_at(0, 1);
    // The hazard is still closed, yet every non-hazard cell is open.
    assert_eq!(f.cells[0][0].state, State::Closed);
    assert!(f.victory());
}

#[test]
fn glyphs_show_hazard_digit_and_blank() {
    let mut f = Field::new(3, 3, 0);
    f.inc_cursor(Orientation::Horizontal);
    assert!(f.set_bomb_at(0, 0));
    assert_eq!(f.cell_str_at(0, 0), "@");
    assert_eq!(f.cell_str_at(1, 1), "1");
    assert_eq!(f.cell_str_at(2, 2), " ");
}

#[test]
fn glyphs_count_several_hazards() {
    let mut f = Field::new(2, 2, 0);
    assert!(f.set_bomb_at(0, 1));
    assert!(f.set_bomb_at(1, 0));
    assert!(f.set_bomb_at(1, 1));
    assert_eq!(f.cell_str_at(0, 0), "3");
}

#[test]
fn is_cursor_at_tracks_moves() {
    let mut f = Field::new(2, 2, 0);
    assert!(f.is_cursor_at(0, 0));
    f.inc_cursor(Orientation::Vertical);
    assert!(f.is_cursor_at(1, 0));
    assert!(!f.is_cursor_at(0, 0));
}

#[test]
fn get_cell_mut_edits_one_cell() {
    let mut f = Field::new(2, 2, 0);
    let cell = f.get_cell_mut(0, 1);
    cell.state = State::Flagged;
    assert_eq!(f.cells[0][1].state, State::Flagged);
    assert_eq!(f.cells[0][0].state, State::Closed);
    assert_eq!(f.cells[1][0].state, State::Closed);
    assert_eq!(f.cells[1][1].state, State::Closed);
}

#[test]
fn open_at_sets_one_cell_open() {
    let mut f = Field::new(2, 2, 0);
    f.open_at(1, 0);
    assert_eq!(f.cells[1][0].state, State::Open);
    assert_eq!(f.cells[0][0].state, State::Closed);
}
