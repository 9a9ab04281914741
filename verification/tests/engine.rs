use tetris::tetris::{Tetris, UserAction};

#[test]
fn test_new() {
    let tetris = Tetris::new();
    println!("{:?}", tetris);
    assert_eq!(tetris.view().1, 0);
}

#[test]
fn test_rotate() {
    let mut tetris = Tetris::new();
    println!("{:?}", tetris);
    tetris.next(UserAction::Idle);
    println!("{:?}", tetris);
    tetris.next(UserAction::Idle);
    println!("{:?}", tetris);
    tetris.next(UserAction::Idle);
    println!("{:?}", tetris);
    tetris.rotate();
    println!("{:?}", tetris);
}

#[test]
fn test_quick_down() {
    let mut tetris = Tetris::new();
    println!("{:?}", tetris);
    tetris.quick_down();
    println!("{:?}", tetris);
    tetris.next(UserAction::Idle);
    println!("{:?}", tetris);
}

#[test]
fn test_check_full_row() {
    let mut tetris = Tetris::new();
    // Row 17 has two holes, rows 18 and 19 are completely settled.
    for x in [0usize, 1, 2, 3, 5, 7, 8, 9] {
        tetris.set_locked(x, 17);
    }
    for x in 0..10usize {
        tetris.set_locked(x, 18);
        tetris.set_locked(x, 19);
    }
    let full_rows = tetris.check_full_rows();
    assert_eq!(full_rows, 2);
    println!("{:?}", tetris);
}
