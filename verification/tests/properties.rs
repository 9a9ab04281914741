use tetris::tetris::{Tetris, UserAction};

/// The seven catalog preview patterns, in the catalog's order.
fn catalog_patterns() -> Vec<[[bool; 4]; 4]> {
    let pats: [[[u8; 4]; 4]; 7] = [
        [[0, 0, 0, 0], [1, 1, 1, 1], [0, 0, 0, 0], [0, 0, 0, 0]],
        [[0, 0, 0, 0], [1, 1, 1, 0], [1, 0, 0, 0], [0, 0, 0, 0]],
        [[0, 0, 0, 0], [1, 1, 1, 0], [0, 0, 1, 0], [0, 0, 0, 0]],
        [[0, 0, 0, 0], [0, 1, 1, 0], [0, 1, 1, 0], [0, 0, 0, 0]],
        [[0, 0, 0, 0], [1, 1, 0, 0], [0, 1, 1, 0], [0, 0, 0, 0]],
        [[0, 0, 0, 0], [0, 1, 1, 0], [1, 1, 0, 0], [0, 0, 0, 0]],
        [[0, 1, 0, 0], [1, 1, 1, 0], [0, 0, 0, 0], [0, 0, 0, 0]],
    ];
    pats.iter()
        .map(|p| {
            let mut b = [[false; 4]; 4];
            for i in 0..4 {
                for j in 0..4 {
                    b[i][j] = p[i][j] != 0;
                }
            }
            b
        })
        .collect()
}

fn occupied_cells(t: &Tetris) -> Vec<(usize, usize)> {
    let (grid, _, _) = t.view();
    let mut v = Vec::new();
    for y in 0..20 {
        for x in 0..10 {
            if grid[y][x] {
                v.push((x, y));
            }
        }
    }
    v
}

/// Keep starting games until the active piece spawns with the given cells.
fn game_with_spawn(cells: &[(usize, usize); 4]) -> Tetris {
    for _ in 0..400 {
        let t = Tetris::new();
        let mut occ = occupied_cells(&t);
        occ.sort();
        let mut want = cells.to_vec();
        want.sort();
        if occ == want {
            return t;
        }
    }
    panic!("the random catalog draw never produced the wanted shape");
}

#[test]
fn init_invariant() {
    for _ in 0..25 {
        let t = Tetris::new();
        let (_, score, preview) = t.view();
        assert_eq!(score, 0);
        assert!(!t.is_game_over());
        assert_eq!(occupied_cells(&t).len(), 4);
        assert!(catalog_patterns().contains(&preview));
    }
}

#[test]
fn left_at_wall_is_noop() {
    let mut t = Tetris::new();
    // Every shape spawns with its leftmost cell at column 3 or 4, so six
    // moves left put some cell at column 0, with room to spare.
    for _ in 0..6 {
        t.next(UserAction::Left);
    }
    assert!(occupied_cells(&t).iter().any(|&(x, _)| x == 0));
    let before = t.view();
    t.next(UserAction::Left);
    assert_eq!(t.view(), before);
}

#[test]
fn right_moves_piece_one_column() {
    let t0 = Tetris::new();
    let before = occupied_cells(&t0);
    let mut t = t0;
    t.next(UserAction::Right);
    let mut shifted: Vec<(usize, usize)> = before.iter().map(|&(x, y)| (x + 1, y)).collect();
    shifted.sort();
    let mut after = occupied_cells(&t);
    after.sort();
    assert_eq!(after, shifted);
}

#[test]
fn rotation_into_locked_cells_is_rejected() {
    let mut t = Tetris::new();
    // Settle every free cell of the top five rows: any rotated layout either
    // leaves the board or lands on a settled cell, so nothing may change.
    for y in 0..5 {
        for x in 0..10 {
            t.set_locked(x, y);
        }
    }
    let before = t.view();
    t.rotate();
    assert_eq!(t.view(), before);
}

#[test]
fn square_rotation_is_identity() {
    let mut t = game_with_spawn(&[(4, 0), (5, 0), (4, 1), (5, 1)]);
    let before = t.view();
    for _ in 0..5 {
        t.rotate();
        assert_eq!(t.view(), before);
    }
}

#[test]
fn single_line_clear_scores_nothing() {
    let mut t = Tetris::new();
    for x in 0..10 {
        t.set_locked(x, 19);
    }
    t.next(UserAction::Down);
    let active_before: Vec<(usize, usize)> = occupied_cells(&t)
        .into_iter()
        .filter(|&(_, y)| y != 19)
        .collect();
    assert_eq!(active_before.len(), 4);
    t.next(UserAction::Idle);
    // The full bottom row went away, the locking piece slid one row down
    // into it, a fresh piece spawned, and a lone row is worth 0 points.
    let after = occupied_cells(&t);
    assert_eq!(t.view().1, 0);
    assert_eq!(after.len(), 8);
    for &(x, y) in &active_before {
        assert!(after.contains(&(x, y + 1)));
    }
    assert!(!t.is_game_over());
}

/// Steer the 4-wide piece into a vertical bar in column 4, rows 0 to 3.
fn vertical_bar_game() -> Tetris {
    let mut t = game_with_spawn(&[(3, 0), (4, 0), (5, 0), (6, 0)]);
    t.next(UserAction::Idle);
    t.next(UserAction::Idle);
    t.rotate();
    let mut occ = occupied_cells(&t);
    occ.sort();
    assert_eq!(occ, vec![(4, 0), (4, 1), (4, 2), (4, 3)]);
    t
}

#[test]
fn triple_line_clear_scores_eighty() {
    let mut t = vertical_bar_game();
    // Rows 18 and 19 fully settled; row 17 settled but for column 4.
    for x in 0..10 {
        if x != 4 {
            t.set_locked(x, 17);
        }
        t.set_locked(x, 18);
        t.set_locked(x, 19);
    }
    t.next(UserAction::Down);
    t.next(UserAction::Idle);
    assert_eq!(t.view().1, 80);
    let after = occupied_cells(&t);
    assert_eq!(after.len(), 7);
    for y in [17, 18, 19] {
        assert!(after.contains(&(4, y)));
    }
    assert!(!t.is_game_over());
}

#[test]
fn double_line_clear_scores_thirty() {
    let mut t = vertical_bar_game();
    for x in 0..10 {
        if x != 4 {
            t.set_locked(x, 18);
            t.set_locked(x, 19);
        }
    }
    t.next(UserAction::Down);
    t.next(UserAction::Idle);
    assert_eq!(t.view().1, 30);
}

#[test]
fn blocked_spawn_sets_game_over() {
    let mut t = Tetris::new();
    t.next(UserAction::Down);
    // The piece rests at the bottom; settle every spawn cell of every
    // catalog shape before the lock draws the next piece in.
    for y in 0..2 {
        for x in 3..7 {
            t.set_locked(x, y);
        }
    }
    assert!(!t.is_game_over());
    t.next(UserAction::Idle);
    assert!(t.is_game_over());
    // The settled spawn cells were not modified by the failed spawn.
    let occ = occupied_cells(&t);
    for y in 0..2 {
        for x in 3..7 {
            assert!(occ.contains(&(x, y)));
        }
    }
    assert_eq!(t.view().1, 0);
}

#[test]
fn gravity_moves_one_row_then_locks() {
    let mut t = Tetris::new();
    let mut previous = occupied_cells(&t);
    for _ in 0..3 {
        t.next(UserAction::Idle);
        let mut expected: Vec<(usize, usize)> =
            previous.iter().map(|&(x, y)| (x, y + 1)).collect();
        expected.sort();
        let mut now = occupied_cells(&t);
        now.sort();
        assert_eq!(now, expected);
        previous = now;
    }
    t.next(UserAction::Down);
    let resting = occupied_cells(&t);
    assert_eq!(resting.len(), 4);
    t.next(UserAction::Idle);
    // The resting piece locked in place and a fresh piece spawned.
    let after = occupied_cells(&t);
    assert_eq!(after.len(), 8);
    for cell in &resting {
        assert!(after.contains(cell));
    }
    assert_eq!(t.view().1, 0);
}

#[test]
fn actions_after_game_over_change_nothing() {
    let mut t = Tetris::new();
    let mut ticks = 0;
    while !t.is_game_over() {
        t.next(UserAction::Idle);
        ticks += 1;
        assert!(ticks < 10000, "the stack never reached the spawn rows");
    }
    let frozen = t.view();
    for _ in 0..3 {
        t.next(UserAction::Idle);
        t.next(UserAction::Left);
        t.next(UserAction::Right);
        t.next(UserAction::Rotate);
        t.next(UserAction::Down);
        assert!(t.is_game_over());
        assert_eq!(t.view(), frozen);
    }
}
