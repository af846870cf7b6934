use dinomite::Dinomite;
use dinomite::Position;
use dinomite::PositionResult;

#[test]
fn test_repr() {
    let expected = 5;
    let dinomite = Dinomite::new(10, 10, expected);
    assert_eq!(dinomite.get_num_dinos(), expected);
}

#[test]
fn test_repr2() {
    let expected = 100;
    let dinomite = Dinomite::new(10, 10, expected);
    assert_eq!(dinomite.get_num_dinos(), expected);
}

#[test]
fn test_neighbors() {
    let expected: Vec<(usize, usize)> = vec![(0, 1), (1, 0), (1, 1)];
    let dinomite = Dinomite::new(10, 10, 5);
    let mut got: Vec<(usize, usize)> = dinomite
        .get_neighbors(&Position(0, 0))
        .iter()
        .map(|p| (p.0, p.1))
        .collect();
    got.sort();
    assert_eq!(got, expected);
}

#[test]
fn test_surrounding() {
    let expected: PositionResult = PositionResult::DinosInSurrounding(3);
    let mut dinomite = Dinomite::new(10, 10, 0);
    dinomite.add_dino(&Position(0, 0));
    dinomite.add_dino(&Position(1, 0));
    dinomite.add_dino(&Position(1, 1));
    let pos = Position(0, 1);
    assert_eq!(dinomite.check_position(&pos), expected);
}

#[test]
fn test_toggle_flag() {
    let expected = 2;
    let mut dinomite = Dinomite::new(10, 10, 0);
    dinomite.add_dino(&Position(9, 9));
    dinomite.add_dino(&Position(8, 8));

    dinomite.toggle_flag(&Position(0, 0));
    dinomite.check_position(&Position(0, 0));

    dinomite.toggle_flag(&Position(0, 0));
    dinomite.toggle_flag(&Position(1, 0));
    dinomite.toggle_flag(&Position(1, 1));

    assert_eq!(dinomite.get_num_flags(), expected);
}

#[test]
fn test_check_pos_clear() {
    let expected = 24;
    let mut dinomite = Dinomite::new(5, 5, 0);
    dinomite.add_dino(&Position(0, 0));
    dinomite.check_position(&Position(4, 4));
    assert_eq!(dinomite.get_num_seen(), expected);
}

#[test]
fn test_check_get_dino_count() {
    let pos = Position(1, 1);
    let expected = 2;
    let mut dinomite = Dinomite::new(5, 5, 0);
    dinomite.add_dino(&Position(0, 0));
    dinomite.add_dino(&Position(0, 1));

    dinomite.check_position(&pos);

    assert_eq!(dinomite.get_neighboring_dino_count(&pos), expected);
}

#[test]
fn test_check_loose() {
    let pos = Position(1, 1);
    let mut dinomite = Dinomite::new(3, 3, 0);
    dinomite.add_dino(&pos);
    dinomite.check_position(&pos);

    assert!(!dinomite.won);
    assert!(dinomite.game_over);
}

#[test]
fn test_check_win() {
    let pos = Position(1, 1);
    let mut dinomite = Dinomite::new(3, 3, 0);
    dinomite.add_dino(&pos);
    dinomite.toggle_flag(&pos);
    dinomite.check_position(&Position(0, 0));
    dinomite.check_position(&Position(0, 1));
    dinomite.check_position(&Position(0, 2));

    dinomite.check_position(&Position(1, 0));
    dinomite.check_position(&Position(1, 2));

    dinomite.check_position(&Position(2, 0));
    dinomite.check_position(&Position(2, 1));
    dinomite.check_position(&Position(2, 2));

    assert!(dinomite.won);
    assert!(dinomite.game_over);
}

#[test]
fn test_check_flag_click_protection() {
    let flag = Position(0, 0);
    let dino = Position(0, 0);
    let mut dinomite = Dinomite::new(5, 5, 0);
    dinomite.add_dino(&dino);
    dinomite.toggle_flag(&flag);
    dinomite.check_position(&flag); // this should not do anything
    assert!(!dinomite.game_over);
}

#[test]
fn test_num_dinos() {
    let expected = 6;
    let d = Dinomite::new(10, 10, expected);
    assert_eq!(d.get_num_dinos(), expected)
}
