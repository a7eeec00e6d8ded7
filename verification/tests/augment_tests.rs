use doubutsu_nnue::augment::{flip_horizontal, rotate_180};
use doubutsu_nnue::board::Board;
use doubutsu_nnue::board::{PieceKind, Player};
use doubutsu_nnue::make_move::get_board_feature;

#[test]
fn flip_mirrors_board_squares() {
    // Sente's lion on B4 stays on B4; Gote's giraffe on A1 goes to C1.
    assert_eq!(flip_horizontal(10), 10);
    assert_eq!(flip_horizontal(get_board_feature(Player::Gote, PieceKind::Giraffe, 0)), get_board_feature(Player::Gote, PieceKind::Giraffe, 2));
    assert_eq!(flip_horizontal(12 * 3 + 6), 12 * 3 + 8);
    assert_eq!(flip_horizontal(119), 117);
}

#[test]
fn flip_keeps_hand_and_side_features() {
    for f in 120..134 {
        assert_eq!(flip_horizontal(f), f);
    }
}

#[test]
fn rotate_swaps_players() {
    // Sente's chick on B3 becomes Gote's chick on B2.
    assert_eq!(rotate_180(get_board_feature(Player::Sente, PieceKind::Chick, 7)), get_board_feature(Player::Gote, PieceKind::Chick, 4));
    assert_eq!(rotate_180(0), 71);
    assert_eq!(rotate_180(119), 48);
    assert_eq!(rotate_180(120), 126);
    assert_eq!(rotate_180(131), 125);
    assert_eq!(rotate_180(132), 133);
    assert_eq!(rotate_180(133), 132);
}

#[test]
fn symmetries_are_involutions_that_commute() {
    for f in 0..134 {
        assert_eq!(flip_horizontal(flip_horizontal(f)), f);
        assert_eq!(rotate_180(rotate_180(f)), f);
        assert_eq!(flip_horizontal(rotate_180(f)), rotate_180(flip_horizontal(f)));
        assert!(rotate_180(f) < 134 && flip_horizontal(f) < 134);
    }
}

#[test]
fn rotating_the_initial_position_gives_it_back() {
    // The starting position is symmetric: only the side-to-move feature changes.
    let features = Board::initial_position().extract_all_features();
    assert_eq!(features.last(), Some(&132));
    let mut rotated: Vec<usize> = features.iter().map(|&f| rotate_180(f)).collect();
    let mut expected = features.clone();
    *expected.last_mut().unwrap() = 133;
    expected.sort();
    rotated.sort();
    assert_eq!(rotated, expected);
}
