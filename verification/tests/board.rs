use minesweeper::board::Board;

const MINE_CODE: u8 = 11;
const FLAG_CODE: u8 = 9;
const HIDDEN_CODE: u8 = 10;

/// All player-visible codes, row major.
fn show_codes(b: &Board, size: usize) -> Vec<u8> {
    let mut v = Vec::new();
    for y in 0..size {
        for x in 0..size {
            v.push(b.get_show_code(x, y));
        }
    }
    v
}

/// All underlying codes, row major.
fn final_codes(b: &Board, size: usize) -> Vec<u8> {
    let mut v = Vec::new();
    for y in 0..size {
        for x in 0..size {
            v.push(b.get_final_code(x, y));
        }
    }
    v
}

/// Count of mines among the in-bounds 8-neighbors of (x, y), recomputed
/// from the underlying codes alone.
fn recount_neighbors(finals: &[u8], size: usize, x: usize, y: usize) -> u8 {
    let mut cnt = 0;
    for dy in -1i64..=1 {
        for dx in -1i64..=1 {
            if dx == 0 && dy == 0 {
                continue;
            }
            let nx = x as i64 + dx;
            let ny = y as i64 + dy;
            if nx >= 0 && ny >= 0 && (nx as usize) < size && (ny as usize) < size {
                if finals[ny as usize * size + nx as usize] == MINE_CODE {
                    cnt += 1;
                }
            }
        }
    }
    cnt
}

fn count_mines(b: &Board, size: usize) -> usize {
    final_codes(b, size).iter().filter(|&&c| c == MINE_CODE).count()
}

fn count_shown(b: &Board, size: usize) -> usize {
    show_codes(b, size).iter().filter(|&&c| c <= 8).count()
}

/// Some coordinate whose show code satisfies `pred`, if any.
fn find_by_show_code(b: &Board, size: usize, pred: impl Fn(u8) -> bool) -> Option<(usize, usize)> {
    for y in 0..size {
        for x in 0..size {
            if pred(b.get_show_code(x, y)) {
                return Some((x, y));
            }
        }
    }
    None
}

#[test]
fn mine_count_is_exact() {
    let b = Board::new(5, 3);
    assert_eq!(count_mines(&b, 5), 3);
    let b2 = Board::create_level(4, 15);
    assert_eq!(count_mines(&b2, 4), 15);
    let b3 = Board::new(6, 0);
    assert_eq!(count_mines(&b3, 6), 0);
}

#[test]
fn final_codes_match_recomputed_neighbor_counts() {
    let b = Board::new(5, 3);
    let finals = final_codes(&b, 5);
    for y in 0..5 {
        for x in 0..5 {
            let code = finals[y * 5 + x];
            if code != MINE_CODE {
                let recomputed = recount_neighbors(&finals, 5, x, y);
                assert!(code <= 8);
                assert_eq!(code, recomputed);
            }
        }
    }
}

#[test]
fn toggle_flag_round_trip_on_hidden_cell() {
    let b = &mut Board::new(3, 1);
    let (x, y) = find_by_show_code(b, 3, |c| c == HIDDEN_CODE).expect("some cell is hidden");
    b.toggle_flag(x, y);
    assert_eq!(b.get_show_code(x, y), FLAG_CODE);
    b.toggle_flag(x, y);
    assert_eq!(b.get_show_code(x, y), HIDDEN_CODE);
}

#[test]
fn dig_on_shown_cell_is_noop() {
    let b = &mut Board::new(5, 3);
    let (x, y) = find_by_show_code(b, 5, |c| c <= 8).expect("some cell is pre-revealed");
    let before = show_codes(b, 5);
    assert!(b.dig_cell(x, y));
    assert_eq!(show_codes(b, 5), before);
}

#[test]
fn dig_on_flagged_cell_is_noop() {
    let b = &mut Board::new(5, 3);
    let (x, y) = find_by_show_code(b, 5, |c| c == HIDDEN_CODE).expect("some cell is hidden");
    b.toggle_flag(x, y);
    let before = show_codes(b, 5);
    assert!(b.dig_cell(x, y));
    assert_eq!(b.get_show_code(x, y), FLAG_CODE);
    assert_eq!(show_codes(b, 5), before);
}

#[test]
fn dig_on_hidden_safe_cell_reveals_it() {
    let b = &mut Board::new(5, 3);
    let finals = final_codes(b, 5);
    let mut target = None;
    for y in 0..5 {
        for x in 0..5 {
            if b.get_show_code(x, y) == HIDDEN_CODE && finals[y * 5 + x] != MINE_CODE {
                target = Some((x, y));
            }
        }
    }
    let (x, y) = target.expect("some hidden safe cell exists");
    assert!(b.dig_cell(x, y));
    assert_eq!(b.get_show_code(x, y), finals[y * 5 + x]);
}

#[test]
fn dig_on_hidden_mine_reports_hit_and_leaves_it_hidden() {
    let b = &mut Board::new(5, 3);
    let finals = final_codes(b, 5);
    let mut dug = 0;
    for y in 0..5 {
        for x in 0..5 {
            if finals[y * 5 + x] == MINE_CODE {
                assert_eq!(b.get_show_code(x, y), HIDDEN_CODE);
                assert!(!b.dig_cell(x, y));
                assert_eq!(b.get_show_code(x, y), HIDDEN_CODE);
                dug += 1;
            }
        }
    }
    assert_eq!(dug, 3);
}

#[test]
fn completed_iff_mines_flagged_and_safe_cells_revealed() {
    let b = &mut Board::create_level(3, 1);
    // five of the eight safe cells are pre-revealed, so not yet complete
    assert!(!b.is_completed());
    let finals = final_codes(b, 3);
    for y in 0..3 {
        for x in 0..3 {
            if finals[y * 3 + x] == MINE_CODE {
                b.toggle_flag(x, y);
            } else if b.get_show_code(x, y) == HIDDEN_CODE {
                assert!(b.dig_cell(x, y));
            }
        }
    }
    assert!(b.is_completed());
    // a hidden mine (unflagged) blocks completion again
    for y in 0..3 {
        for x in 0..3 {
            if finals[y * 3 + x] == MINE_CODE {
                b.toggle_flag(x, y);
            }
        }
    }
    assert!(!b.is_completed());
}

#[test]
fn flagged_safe_cell_does_not_block_completion() {
    let b = &mut Board::create_level(2, 1);
    let finals = final_codes(b, 2);
    // reveal or flag every cell appropriately, then flag one extra safe cell
    let mut flagged_safe = false;
    for y in 0..2 {
        for x in 0..2 {
            if finals[y * 2 + x] == MINE_CODE {
                b.toggle_flag(x, y);
            } else if b.get_show_code(x, y) == HIDDEN_CODE && !flagged_safe {
                // a safe cell that is flagged (not hidden) must not block
                b.toggle_flag(x, y);
                flagged_safe = true;
            } else if b.get_show_code(x, y) == HIDDEN_CODE {
                assert!(b.dig_cell(x, y));
            }
        }
    }
    assert!(b.is_completed());
}

#[test]
fn single_cell_board_is_immediately_completed() {
    let b = Board::new(1, 0);
    assert_eq!(b.get_final_code(0, 0), 0);
    assert_eq!(b.get_show_code(0, 0), 0);
    assert!(b.is_completed());
}

#[test]
fn shown_codes_match_independently_recomputed_counts() {
    let b = Board::new(5, 3);
    let shows = show_codes(&b, 5);
    let finals = final_codes(&b, 5);
    let mut sum_shown: u64 = 0;
    let mut sum_expected: u64 = 0;
    for y in 0..5 {
        for x in 0..5 {
            let code = shows[y * 5 + x];
            if code <= 8 {
                let recomputed = recount_neighbors(&finals, 5, x, y);
                assert_eq!(code, recomputed);
                assert_eq!(code, finals[y * 5 + x]);
                sum_shown += code as u64;
                sum_expected += recomputed as u64;
            }
        }
    }
    assert_eq!(sum_shown, sum_expected);
}

#[test]
fn out_of_bounds_dig_changes_nothing() {
    let b = &mut Board::new(4, 2);
    let before = show_codes(b, 4);
    assert!(b.dig_cell(4, 0));
    assert!(b.dig_cell(0, 4));
    assert!(b.dig_cell(usize::MAX, usize::MAX));
    assert_eq!(show_codes(b, 4), before);
}

#[test]
fn out_of_bounds_toggle_changes_nothing() {
    let b = &mut Board::new(4, 2);
    let before = show_codes(b, 4);
    b.toggle_flag(4, 0);
    b.toggle_flag(0, 4);
    assert_eq!(show_codes(b, 4), before);
}

#[test]
fn toggle_on_shown_cell_keeps_it_shown() {
    let b = &mut Board::new(5, 3);
    let (x, y) = find_by_show_code(b, 5, |c| c <= 8).expect("some cell is pre-revealed");
    let code = b.get_show_code(x, y);
    b.toggle_flag(x, y);
    assert_eq!(b.get_show_code(x, y), code);
}

#[test]
fn scaled_reveal_policy_counts() {
    // round(0.12 * 1) = 0, clamped up to 3, capped by the single safe cell
    assert_eq!(count_shown(&Board::new(1, 0), 1), 1);
    // round(0.12 * 4) = 0, clamped up to 3
    assert_eq!(count_shown(&Board::new(2, 0), 2), 3);
    // round(0.12 * 25) = 3
    assert_eq!(count_shown(&Board::new(5, 3), 5), 3);
    // round(0.12 * 900) = 108, clamped down to 50
    assert_eq!(count_shown(&Board::new(30, 10), 30), 50);
}

#[test]
fn fixed_reveal_policy_counts() {
    // five safe cells, or all of them when fewer exist
    assert_eq!(count_shown(&Board::create_level(3, 0), 3), 5);
    assert_eq!(count_shown(&Board::create_level(2, 0), 2), 4);
    assert_eq!(count_shown(&Board::create_level(2, 3), 2), 1);
}

#[test]
fn board_with_almost_all_mines() {
    let b = &mut Board::new(2, 3);
    assert_eq!(count_mines(b, 2), 3);
    // the lone safe cell is pre-revealed; the mines are not flagged yet
    assert_eq!(count_shown(b, 2), 1);
    assert!(!b.is_completed());
    let finals = final_codes(b, 2);
    for y in 0..2 {
        for x in 0..2 {
            if finals[y * 2 + x] == MINE_CODE {
                b.toggle_flag(x, y);
            } else {
                assert_eq!(b.get_show_code(x, y), 3);
            }
        }
    }
    assert!(b.is_completed());
}
