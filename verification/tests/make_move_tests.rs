use doubutsu_nnue::board::{Board, Hand, PieceKind, Player};
use doubutsu_nnue::make_move::{get_board_feature, get_hand_feature, FeatureUpdate};
use doubutsu_nnue::move_gen::Move;
use doubutsu_nnue::zobrist::ZobristTable;

#[test]
fn feature_indices() {
    assert_eq!(get_board_feature(Player::Sente, PieceKind::Lion, 0), 0);
    assert_eq!(get_board_feature(Player::Sente, PieceKind::Chick, 7), 43);
    assert_eq!(get_board_feature(Player::Gote, PieceKind::Chick, 4), 100);
    assert_eq!(get_board_feature(Player::Gote, PieceKind::Hen, 11), 119);
    assert_eq!(get_hand_feature(Player::Sente, PieceKind::Chick, 1), 120);
    assert_eq!(get_hand_feature(Player::Sente, PieceKind::Elephant, 2), 125);
    assert_eq!(get_hand_feature(Player::Gote, PieceKind::Giraffe, 1), 128);
    assert_eq!(get_hand_feature(Player::Gote, PieceKind::Elephant, 2), 131);
}

#[test]
fn feature_update_records_in_order() {
    let mut u = FeatureUpdate::new();
    assert_eq!(u.added_count, 0);
    assert_eq!(u.removed_count, 0);
    u.add(5);
    u.add(9);
    u.remove(7);
    assert_eq!(&u.added[..u.added_count], &[5, 9]);
    assert_eq!(&u.removed[..u.removed_count], &[7]);
}

#[test]
fn capture_goes_to_the_hand() {
    let z = ZobristTable::new();
    let mut b = Board::initial_position();
    let h0 = b.compute_initial_hash(&z);
    let (u, h1) = b.make_move(Move::new(7, 4, PieceKind::Chick, false, false), &z, h0);
    assert_eq!(b.piece_bbs[3], 1 << 4);
    assert_eq!(b.piece_bbs[8], 0);
    assert_eq!(b.hands[0], Hand { chicks: 1, giraffes: 0, elephants: 0 });
    assert_eq!(b.side_to_move, Player::Gote);
    assert_eq!(&u.removed[..u.removed_count], &[43, 100]);
    assert_eq!(&u.added[..u.added_count], &[120, 40]);
    let expected = h0 ^ z.features[43] ^ z.features[100] ^ z.features[120] ^ z.features[40] ^ z.side_to_move;
    assert_eq!(h1, expected);
}

#[test]
fn drop_from_the_hand() {
    let z = ZobristTable::new();
    let mut b = Board::initial_position();
    b.hands[0].chicks = 2;
    let (u, _) = b.make_move(Move::new(15, 6, PieceKind::Chick, false, true), &z, 0);
    assert_eq!(b.hands[0].chicks, 1);
    assert_eq!(b.piece_bbs[3], (1 << 7) | (1 << 6));
    assert_eq!(&u.removed[..u.removed_count], &[121]);
    assert_eq!(&u.added[..u.added_count], &[120, 42]);
}

#[test]
fn promotion_places_a_hen() {
    let z = ZobristTable::new();
    let mut b = Board::initial_position();
    b.piece_bbs[3] = 1 << 3;
    b.piece_bbs[8] = 0;
    b.piece_bbs[6] = 0; // no Gote giraffe on square 0
    let (u, _) = b.make_move(Move::new(3, 0, PieceKind::Chick, true, false), &z, 0);
    assert_eq!(b.piece_bbs[3], 0);
    assert_eq!(b.piece_bbs[4], 1 << 0);
    assert_eq!(&u.removed[..u.removed_count], &[get_board_feature(Player::Sente, PieceKind::Chick, 3)]);
    assert_eq!(&u.added[..u.added_count], &[get_board_feature(Player::Sente, PieceKind::Hen, 0)]);
}

#[test]
fn captured_hen_becomes_a_chick() {
    let z = ZobristTable::new();
    let mut b = Board::initial_position();
    b.piece_bbs[9] = 1 << 6; // Gote hen on 6
    let (u, _) = b.make_move(Move::new(10, 6, PieceKind::Lion, false, false), &z, 0);
    assert_eq!(b.piece_bbs[9], 0);
    assert_eq!(b.hands[0].chicks, 1);
    assert_eq!(&u.removed[..u.removed_count], &[10, get_board_feature(Player::Gote, PieceKind::Hen, 6)]);
    assert_eq!(&u.added[..u.added_count], &[120, 6]);
}

#[test]
fn capturing_the_lion_adds_nothing_to_the_hand() {
    let z = ZobristTable::new();
    let mut b = Board::initial_position();
    b.piece_bbs[5] = 1 << 6; // Gote lion on 6
    let (u, _) = b.make_move(Move::new(10, 6, PieceKind::Lion, false, false), &z, 0);
    assert_eq!(b.piece_bbs[5], 0);
    assert_eq!(b.hands[0], Hand::default());
    assert_eq!(&u.removed[..u.removed_count], &[10, 66]);
    assert_eq!(&u.added[..u.added_count], &[6]);
}

#[test]
fn can_make_move_checks_what_make_move_needs() {
    let b = Board::initial_position();
    assert!(b.can_make_move(Move::new(7, 4, PieceKind::Chick, false, false)));
    // no chick in hand to drop
    assert!(!b.can_make_move(Move::new(15, 6, PieceKind::Chick, false, true)));
    // a lion cannot be dropped
    let mut h = Board::initial_position();
    h.hands[0].chicks = 1;
    assert!(!h.can_make_move(Move::new(15, 6, PieceKind::Lion, false, true)));
    assert!(h.can_make_move(Move::new(15, 6, PieceKind::Chick, false, true)));
    // destination off the board
    assert!(!b.can_make_move(Move::new(7, 12, PieceKind::Chick, false, false)));
    // kind bits out of range
    assert!(!b.can_make_move(Move(7 | (4 << 4) | (6 << 8))));
    // a third chick in hand is refused
    let mut c = Board::initial_position();
    c.hands[0].chicks = 2;
    assert!(!c.can_make_move(Move::new(7, 4, PieceKind::Chick, false, false)));
}

#[test]
fn carried_hash_drifts_by_the_side_keys() {
    let z = ZobristTable::new();
    let mut b = Board::initial_position();
    let h0 = b.compute_initial_hash(&z);
    let (_, h1) = b.make_move(Move::new(7, 4, PieceKind::Chick, false, false), &z, h0);
    assert_eq!(h1 ^ z.features[132] ^ z.features[133], b.compute_initial_hash(&z));
    assert_ne!(h1, b.compute_initial_hash(&z));
    let (_, h2) = b.make_move(Move::new(1, 4, PieceKind::Lion, false, false), &z, h1);
    assert_eq!(h2, b.compute_initial_hash(&z));
    let (_, h3) = b.make_move(Move::new(15, 7, PieceKind::Chick, false, true), &z, h2);
    assert_eq!(h3 ^ z.features[132] ^ z.features[133], b.compute_initial_hash(&z));
}

#[test]
fn moves_keep_the_pieces() {
    let z = ZobristTable::new();
    let mut b = Board::initial_position();
    let h = b.compute_initial_hash(&z);
    let count = |b: &Board| -> [u32; 3] {
        let bb = &b.piece_bbs;
        [
            bb[3].count_ones() + bb[4].count_ones() + bb[8].count_ones() + bb[9].count_ones()
                + (b.hands[0].chicks + b.hands[1].chicks) as u32,
            bb[1].count_ones() + bb[6].count_ones() + (b.hands[0].giraffes + b.hands[1].giraffes) as u32,
            bb[2].count_ones() + bb[7].count_ones() + (b.hands[0].elephants + b.hands[1].elephants) as u32,
        ]
    };
    for m in [
        Move::new(7, 4, PieceKind::Chick, false, false),
        Move::new(1, 4, PieceKind::Lion, false, false),
        Move::new(15, 7, PieceKind::Chick, false, true),
    ] {
        let before = b;
        let (u, _) = b.make_move(m, &z, h);
        assert_eq!(count(&b), [2, 2, 2]);
        for i in 0..10 {
            for j in 0..10 {
                if i != j {
                    assert_eq!(b.piece_bbs[i] & b.piece_bbs[j], 0);
                }
            }
        }
        for sq in 0..12u16 {
            if sq != m.sq_to() as u16 && (m.is_drop() || sq != m.sq_from() as u16) {
                for i in 0..10 {
                    assert_eq!(b.piece_bbs[i] & (1 << sq), before.piece_bbs[i] & (1 << sq));
                }
            }
        }
        assert!(u.added[u.added_count..].iter().all(|&x| x == 0));
        assert!(u.removed[u.removed_count..].iter().all(|&x| x == 0));
    }
}
