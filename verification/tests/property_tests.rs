use dinomite::CellInfo;
use dinomite::Cli;
use dinomite::Dinomite;
use dinomite::Position;
use dinomite::PositionResult;

#[test]
fn fresh_board_is_blank() {
    let b = Dinomite::new(7, 4, 9);
    assert_eq!(b.get_width(), 7);
    assert_eq!(b.get_height(), 4);
    assert_eq!(b.get_num_dinos(), 9);
    assert_eq!(b.get_num_seen(), 0);
    assert_eq!(b.get_num_flags(), 0);
    assert!(!b.is_game_over());
    assert!(!b.is_won());
    for x in 0..7 {
        for y in 0..4 {
            assert_eq!(b.cell_info(&Position(x, y)), CellInfo::Hidden);
        }
    }
}

#[test]
fn mine_count_clamps_to_board_size() {
    let b = Dinomite::new(3, 3, 20);
    assert_eq!(b.get_num_dinos(), 9);
    let b2 = Dinomite::new(4, 5, 21);
    assert_eq!(b2.get_num_dinos(), 20);
}

#[test]
fn fully_mined_board_loses_at_once() {
    let mut b = Dinomite::new(4, 4, 16);
    assert_eq!(b.get_num_dinos(), 16);
    assert_eq!(b.check_position(&Position(2, 3)), PositionResult::Dino);
    assert!(b.is_game_over());
    assert!(!b.is_won());
}

#[test]
fn neighbor_counts_by_category() {
    let b = Dinomite::new(10, 8, 0);
    // corners
    for p in [
        Position(0, 0),
        Position(9, 0),
        Position(0, 7),
        Position(9, 7),
    ] {
        assert_eq!(b.get_neighbors(&p).len(), 3);
    }
    // edges
    for p in [
        Position(4, 0),
        Position(4, 7),
        Position(0, 3),
        Position(9, 3),
    ] {
        assert_eq!(b.get_neighbors(&p).len(), 5);
    }
    // interior
    assert_eq!(b.get_neighbors(&Position(5, 4)).len(), 8);
    // no neighbor set holds the cell itself or a duplicate
    for x in 0..10usize {
        for y in 0..8usize {
            let ns = b.get_neighbors(&Position(x, y));
            let mut coords: Vec<(usize, usize)> = ns.iter().map(|p| (p.0, p.1)).collect();
            coords.sort();
            let before = coords.len();
            coords.dedup();
            assert_eq!(coords.len(), before);
            assert!(!coords.contains(&(x, y)));
        }
    }
}

#[test]
fn cascade_reveals_region_and_border() {
    // one dino in a corner: the cascade from the far corner reveals
    // every other cell, numbered border included, and never the dino
    let mut b = Dinomite::new(5, 5, 0);
    b.add_dino(&Position(0, 0));
    let r = b.check_position(&Position(4, 4));
    assert_eq!(r, PositionResult::Clear);
    assert_eq!(b.get_num_seen(), 24);
    assert!(!b.is_revealed(&Position(0, 0)));
    assert!(b.is_revealed(&Position(1, 0)));
    assert!(b.is_revealed(&Position(1, 1)));
    assert_eq!(b.get_neighboring_dino_count(&Position(1, 1)), 1);
}

#[test]
fn cascade_skips_flagged_cells() {
    let mut b = Dinomite::new(4, 1, 0);
    b.add_dino(&Position(0, 0));
    b.toggle_flag(&Position(2, 0));
    let r = b.check_position(&Position(3, 0));
    assert_eq!(r, PositionResult::Clear);
    // the flag stops the cascade: only the revealed cell itself
    assert_eq!(b.get_num_seen(), 1);
    assert!(!b.is_revealed(&Position(2, 0)));
}

#[test]
fn loss_freezes_the_board() {
    let mut b = Dinomite::new(3, 3, 0);
    b.add_dino(&Position(1, 1));
    assert_eq!(b.check_position(&Position(1, 1)), PositionResult::Dino);
    assert!(b.is_game_over());
    assert!(!b.is_won());
    // no further reveal or flag toggle moves anything
    assert_eq!(b.check_position(&Position(0, 0)), PositionResult::Over);
    assert_eq!(b.get_num_seen(), 0);
    b.toggle_flag(&Position(0, 0));
    assert_eq!(b.get_num_flags(), 0);
    assert!(!b.is_revealed(&Position(1, 1)));
}

#[test]
fn last_reveal_wins_in_same_call() {
    let mut b = Dinomite::new(2, 2, 0);
    b.add_dino(&Position(0, 0));
    assert_eq!(
        b.check_position(&Position(0, 1)),
        PositionResult::DinosInSurrounding(1)
    );
    assert_eq!(
        b.check_position(&Position(1, 0)),
        PositionResult::DinosInSurrounding(1)
    );
    assert!(!b.is_won());
    assert!(!b.is_game_over());
    // the third non-dino cell is the last one: its reveal wins
    assert_eq!(
        b.check_position(&Position(1, 1)),
        PositionResult::DinosInSurrounding(1)
    );
    assert!(b.is_won());
    assert!(b.is_game_over());
    assert_eq!(b.get_num_seen(), 3);
}

#[test]
fn flag_rules() {
    let mut b = Dinomite::new(3, 3, 0);
    b.add_dino(&Position(2, 2));
    // flagging a revealed cell is a no-op; the reveal of (1, 1) shows
    // a count, so it does not cascade
    assert_eq!(
        b.check_position(&Position(1, 1)),
        PositionResult::DinosInSurrounding(1)
    );
    b.toggle_flag(&Position(1, 1));
    assert_eq!(b.get_num_flags(), 0);
    // toggling twice returns a cell to unflagged
    b.toggle_flag(&Position(0, 1));
    assert_eq!(b.get_num_flags(), 1);
    b.toggle_flag(&Position(0, 1));
    assert_eq!(b.get_num_flags(), 0);
    // at the flag budget (one dino, one flag) a new flag is refused
    b.toggle_flag(&Position(0, 1));
    b.toggle_flag(&Position(0, 2));
    assert_eq!(b.get_num_flags(), 1);
    assert_eq!(b.cell_info(&Position(0, 1)), CellInfo::Flagged);
    assert_eq!(b.cell_info(&Position(0, 2)), CellInfo::Hidden);
}

#[test]
fn flag_protects_harmless_cell() {
    let mut b = Dinomite::new(3, 3, 0);
    b.add_dino(&Position(2, 2));
    b.toggle_flag(&Position(0, 0));
    // the flagged cell hides no dino, yet stays protected
    assert_eq!(b.check_position(&Position(0, 0)), PositionResult::Flagged);
    assert_eq!(b.get_num_seen(), 0);
    assert!(!b.is_revealed(&Position(0, 0)));
    assert!(!b.is_game_over());
}

#[test]
fn re_reveal_is_idempotent() {
    let mut b = Dinomite::new(3, 3, 0);
    b.add_dino(&Position(0, 0));
    assert_eq!(
        b.check_position(&Position(1, 1)),
        PositionResult::DinosInSurrounding(1)
    );
    let seen = b.get_num_seen();
    for _ in 0..3 {
        assert_eq!(b.check_position(&Position(1, 1)), PositionResult::Clear);
        assert_eq!(b.get_num_seen(), seen);
    }
}

#[test]
fn scenario_flagged_mine_win() {
    // 3 x 3 board, one dino at (1, 1), flagged before any reveal;
    // revealing the 8 other cells wins and never uncovers the dino
    let mut b = Dinomite::new(3, 3, 0);
    b.add_dino(&Position(1, 1));
    b.toggle_flag(&Position(1, 1));
    let order = [
        (2, 1),
        (0, 0),
        (2, 2),
        (1, 0),
        (0, 2),
        (2, 0),
        (1, 2),
        (0, 1),
    ];
    for (x, y) in order {
        let r = b.check_position(&Position(x, y));
        assert_eq!(r, PositionResult::DinosInSurrounding(1));
    }
    assert!(b.is_won());
    assert!(b.is_game_over());
    assert!(!b.is_revealed(&Position(1, 1)));
    assert_eq!(b.cell_info(&Position(1, 1)), CellInfo::FlagCorrect);
}

#[test]
fn scenario_empty_board_full_cascade() {
    // 5 x 5 board without dinos: one reveal uncovers all 25 cells
    let mut b = Dinomite::new(5, 5, 0);
    let r = b.check_position(&Position(4, 4));
    assert_eq!(r, PositionResult::Clear);
    assert_eq!(b.get_num_seen(), 25);
    assert!(b.is_won());
    assert!(b.is_game_over());
    for x in 0..5 {
        for y in 0..5 {
            assert_eq!(b.get_neighboring_dino_count(&Position(x, y)), 0);
            assert_eq!(b.cell_info(&Position(x, y)), CellInfo::Revealed(0));
        }
    }
}

#[test]
fn lost_board_classification() {
    let mut b = Dinomite::new(3, 1, 0);
    b.add_dino(&Position(0, 0));
    b.add_dino(&Position(2, 0));
    b.toggle_flag(&Position(1, 0)); // a wrong guess
    b.toggle_flag(&Position(2, 0)); // a right guess
    let mut b2 = b;
    assert_eq!(b2.check_position(&Position(0, 0)), PositionResult::Dino);
    assert!(b2.is_game_over());
    assert_eq!(b2.cell_info(&Position(0, 0)), CellInfo::Dino);
    assert_eq!(b2.cell_info(&Position(1, 0)), CellInfo::FlagWrong);
    assert_eq!(b2.cell_info(&Position(2, 0)), CellInfo::FlagCorrect);
}

#[test]
fn random_boards_stay_in_bounds() {
    // the sampled layout always fits the board and hits the requested
    // count, whatever the generator returned
    for _ in 0..20 {
        let mut b = Dinomite::new(6, 3, 7);
        assert_eq!(b.get_num_dinos(), 7);
        'reveal: for x in 0..6 {
            for y in 0..3 {
                b.check_position(&Position(x, y));
                if b.is_game_over() {
                    break 'reveal;
                }
            }
        }
        assert!(b.is_game_over());
        // once the game has ended, every dino cell classifies as such
        let mut dinos = 0;
        for x in 0..6 {
            for y in 0..3 {
                match b.cell_info(&Position(x, y)) {
                    CellInfo::Dino | CellInfo::FlagCorrect => dinos += 1,
                    _ => {}
                }
            }
        }
        assert_eq!(dinos, 7);
    }
}

#[test]
fn cli_defaults() {
    let c = Cli::default();
    assert_eq!(c.num_dinos, 10);
    assert_eq!(c.height, 9);
    assert_eq!(c.width, 9);
}
