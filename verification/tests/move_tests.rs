use doubutsu_nnue::board::{Board, Hand, PieceKind, Player, PIECE_TYPE_COUNT};
use doubutsu_nnue::move_gen::{generate_moves, Move};

#[test]
fn move_packing_round_trip() {
    let m = Move::new(7, 4, PieceKind::Chick, false, false);
    assert_eq!(m.0, 7 | (4 << 4) | (3 << 8));
    assert_eq!(m.sq_from(), 7);
    assert_eq!(m.sq_to(), 4);
    assert_eq!(m.piece_kind(), PieceKind::Chick);
    assert!(!m.is_promote());
    assert!(!m.is_drop());
    let p = Move::new(4, 1, PieceKind::Chick, true, false);
    assert!(p.is_promote());
    assert!(!p.is_drop());
}

#[test]
fn drops_are_not_promotions() {
    let d = Move::new(15, 6, PieceKind::Elephant, false, true);
    assert_eq!(d.sq_from(), 15);
    assert_eq!(d.sq_to(), 6);
    assert_eq!(d.piece_kind(), PieceKind::Elephant);
    assert!(d.is_drop());
    assert!(!d.is_promote());
    assert!(!Move::new(15, 4, PieceKind::Chick, false, true).is_promote());
    assert!(Move::new(3, 0, PieceKind::Chick, true, false).is_promote());
}

#[test]
fn squares_are_kept_to_four_bits() {
    let m = Move::new(0x1F, 0x2A, PieceKind::Hen, false, false);
    assert_eq!(m.sq_from(), 0x0F);
    assert_eq!(m.sq_to(), 0x0A);
    assert_eq!(m.piece_kind(), PieceKind::Hen);
}

#[test]
fn moves_from_the_initial_position() {
    let b = Board::initial_position();
    let mut moves = Vec::new();
    generate_moves(&b, &mut moves);
    let expected = vec![
        Move::new(10, 6, PieceKind::Lion, false, false),
        Move::new(10, 8, PieceKind::Lion, false, false),
        Move::new(11, 8, PieceKind::Giraffe, false, false),
        Move::new(7, 4, PieceKind::Chick, false, false),
    ];
    assert_eq!(moves, expected);
}

#[test]
fn moves_are_appended() {
    let b = Board::initial_position();
    let mut moves = vec![Move(0)];
    generate_moves(&b, &mut moves);
    assert_eq!(moves.len(), 5);
    assert_eq!(moves[0], Move(0));
}

#[test]
fn gote_moves_from_the_initial_position() {
    let mut b = Board::initial_position();
    b.side_to_move = Player::Gote;
    let mut moves = Vec::new();
    generate_moves(&b, &mut moves);
    let expected = vec![
        Move::new(1, 3, PieceKind::Lion, false, false),
        Move::new(1, 5, PieceKind::Lion, false, false),
        Move::new(0, 3, PieceKind::Giraffe, false, false),
        Move::new(4, 7, PieceKind::Chick, false, false),
    ];
    assert_eq!(moves, expected);
}

#[test]
fn chick_promotes_on_the_far_row() {
    let mut b = Board {
        piece_bbs: [0; PIECE_TYPE_COUNT],
        hands: [Hand::default(), Hand::default()],
        side_to_move: Player::Sente,
    };
    b.piece_bbs[0] = 1 << 10;
    b.piece_bbs[3] = 1 << 4;
    b.piece_bbs[5] = 1 << 0;
    let mut moves = Vec::new();
    generate_moves(&b, &mut moves);
    assert!(moves.contains(&Move::new(4, 1, PieceKind::Chick, true, false)));
    assert!(!moves.contains(&Move::new(4, 1, PieceKind::Chick, false, false)));
}

#[test]
fn drops_on_every_empty_square() {
    let mut b = Board {
        piece_bbs: [0; PIECE_TYPE_COUNT],
        hands: [Hand { chicks: 1, giraffes: 1, elephants: 0 }, Hand::default()],
        side_to_move: Player::Sente,
    };
    b.piece_bbs[0] = 1 << 10;
    b.piece_bbs[5] = 1 << 1;
    let mut moves = Vec::new();
    generate_moves(&b, &mut moves);
    let drops: Vec<Move> = moves.iter().copied().filter(|m| m.is_drop()).collect();
    // ten empty squares, for the chick and then the giraffe
    assert_eq!(drops.len(), 20);
    assert_eq!(drops[0], Move::new(15, 0, PieceKind::Chick, false, true));
    assert_eq!(drops[10], Move::new(15, 0, PieceKind::Giraffe, false, true));
    assert!(!drops.iter().any(|m| m.sq_to() == 10 || m.sq_to() == 1));
}
