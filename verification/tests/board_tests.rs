use doubutsu_nnue::board::{get_piece_index, Board, Hand, PieceKind, Player, PIECE_TYPE_COUNT};
use doubutsu_nnue::move_gen::attack_bitboard;

fn empty_board() -> Board {
    Board {
        piece_bbs: [0; PIECE_TYPE_COUNT],
        hands: [Hand { chicks: 0, giraffes: 0, elephants: 0 }, Hand { chicks: 0, giraffes: 0, elephants: 0 }],
        side_to_move: Player::Sente,
    }
}

#[test]
fn opponent_swaps_players() {
    assert_eq!(Player::Sente.opponent(), Player::Gote);
    assert_eq!(Player::Gote.opponent(), Player::Sente);
    assert_eq!(Player::Sente.opponent().opponent(), Player::Sente);
}

#[test]
fn piece_ids_and_indices() {
    assert_eq!(PieceKind::Lion.piece_id(), 0);
    assert_eq!(PieceKind::Hen.piece_id(), 4);
    assert_eq!(PieceKind::from_id(3), PieceKind::Chick);
    assert_eq!(get_piece_index(Player::Sente, PieceKind::Lion), 0);
    assert_eq!(get_piece_index(Player::Sente, PieceKind::Hen), 4);
    assert_eq!(get_piece_index(Player::Gote, PieceKind::Lion), 5);
    assert_eq!(get_piece_index(Player::Gote, PieceKind::Chick), 8);
}

#[test]
fn initial_position_layout() {
    let b = Board::initial_position();
    assert_eq!(b.piece_bbs, [1 << 10, 1 << 11, 1 << 9, 1 << 7, 0, 1 << 1, 1 << 0, 1 << 2, 1 << 4, 0]);
    assert_eq!(b.hands[0], Hand::default());
    assert_eq!(b.hands[1], Hand::default());
    assert_eq!(b.side_to_move, Player::Sente);
}

#[test]
fn square_bits() {
    assert_eq!(Board::square_bit(0), 1);
    assert_eq!(Board::square_bit(11), 1 << 11);
}

#[test]
fn occupancy_of_initial_position() {
    let b = Board::initial_position();
    assert_eq!(b.occupied_by(Player::Sente), (1 << 10) | (1 << 11) | (1 << 9) | (1 << 7));
    assert_eq!(b.occupied_by(Player::Gote), (1 << 1) | (1 << 0) | (1 << 2) | (1 << 4));
    assert_eq!(b.occupied(Player::Gote), 0b0000_1110_1001_0111);
    assert_eq!(b.occupied(Player::Sente), b.occupied(Player::Gote));
}

#[test]
fn attack_bitboards_follow_the_rules() {
    // Sente's chick moves up one row, Gote's down one row.
    assert_eq!(attack_bitboard(Player::Sente, PieceKind::Chick, 7), 1 << 4);
    assert_eq!(attack_bitboard(Player::Gote, PieceKind::Chick, 4), 1 << 7);
    assert_eq!(attack_bitboard(Player::Sente, PieceKind::Chick, 1), 0);
    // A lion in the middle of the board attacks all eight neighbours.
    assert_eq!(attack_bitboard(Player::Sente, PieceKind::Lion, 4), (1 << 0) | (1 << 1) | (1 << 2) | (1 << 3) | (1 << 5) | (1 << 6) | (1 << 7) | (1 << 8));
    // A giraffe in a corner attacks two squares, an elephant one.
    assert_eq!(attack_bitboard(Player::Sente, PieceKind::Giraffe, 0), (1 << 1) | (1 << 3));
    assert_eq!(attack_bitboard(Player::Gote, PieceKind::Elephant, 0), 1 << 4);
    // A hen does not move diagonally backwards.
    assert_eq!(attack_bitboard(Player::Sente, PieceKind::Hen, 4), (1 << 1) | (1 << 3) | (1 << 5) | (1 << 7) | (1 << 0) | (1 << 2));
    assert_eq!(attack_bitboard(Player::Gote, PieceKind::Hen, 4), (1 << 1) | (1 << 3) | (1 << 5) | (1 << 7) | (1 << 6) | (1 << 8));
}

#[test]
fn attackers_of_a_square() {
    let b = Board::initial_position();
    // Gote's chick on 4 attacks 7; Sente's chick on 7 attacks 4.
    assert!(b.any_attacker(7, Player::Gote));
    assert!(b.any_attacker(4, Player::Sente));
    // Nothing attacks square 5 from Sente's side except nothing: lion on 10 reaches 6, 7, 8 only.
    assert!(!b.any_attacker(5, Player::Sente));
    assert!(b.any_attacker(6, Player::Sente));
}

#[test]
fn no_winner_at_start() {
    assert_eq!(Board::initial_position().winner(), None);
}

#[test]
fn winner_when_a_lion_is_taken() {
    let mut b = Board::initial_position();
    b.piece_bbs[0] = 0;
    assert_eq!(b.winner(), Some(Player::Gote));
    let mut b = Board::initial_position();
    b.piece_bbs[5] = 0;
    assert_eq!(b.winner(), Some(Player::Sente));
}

#[test]
fn winner_by_reaching_the_far_row() {
    let mut b = empty_board();
    b.piece_bbs[0] = 1 << 1; // Sente lion on the top row
    b.piece_bbs[5] = 1 << 9; // Gote lion far away (bottom row, its own goal)
    assert_eq!(b.winner(), Some(Player::Sente));
    // If a Gote piece attacks the lion, the try does not count; Gote's lion is on Sente's
    // home row and unattacked, so Gote wins.
    b.piece_bbs[get_piece_index(Player::Gote, PieceKind::Giraffe)] = 1 << 0;
    assert_eq!(b.winner(), Some(Player::Gote));
    // With both tries attacked there is no winner.
    b.piece_bbs[get_piece_index(Player::Sente, PieceKind::Giraffe)] = 1 << 10;
    assert_eq!(b.winner(), None);
}

#[test]
fn boards_compare_by_position() {
    let a = Board::initial_position();
    let mut b = Board::initial_position();
    assert!(a == b);
    b.side_to_move = Player::Gote;
    assert!(a != b);
    let mut c = Board::initial_position();
    c.hands[1].chicks = 1;
    assert!(a != c);
}

#[test]
fn validity_of_positions() {
    assert!(Board::initial_position().is_valid());
    assert!(empty_board().is_valid());
    let mut b = Board::initial_position();
    b.hands[0].chicks = 1;
    assert!(!b.is_valid());
    let mut b = Board::initial_position();
    b.piece_bbs[4] = 1 << 12;
    assert!(!b.is_valid());
    let mut b = empty_board();
    b.piece_bbs[1] = 0b11;
    assert!(b.is_valid());
    b.hands[1].giraffes = 1;
    assert!(!b.is_valid());
    let mut b = empty_board();
    b.hands[0].elephants = 2;
    assert!(b.is_valid());
    b.piece_bbs[7] = 1;
    assert!(!b.is_valid());
}

#[test]
fn gote_attacks_mirror_sente_attacks() {
    for k in [PieceKind::Lion, PieceKind::Giraffe, PieceKind::Elephant, PieceKind::Chick, PieceKind::Hen] {
        for sq in 0..12usize {
            let gote = attack_bitboard(Player::Gote, k, sq);
            let sente = attack_bitboard(Player::Sente, k, 11 - sq);
            for to in 0..12u32 {
                assert_eq!(gote & (1 << to) != 0, sente & (1 << (11 - to)) != 0);
            }
            assert_eq!(gote >> 12, 0);
        }
    }
}

#[test]
fn every_kind_at_its_id() {
    for (i, k) in PieceKind::ALL.iter().enumerate() {
        assert_eq!(k.piece_id(), i);
        assert_eq!(PieceKind::from_id(i as u8), *k);
    }
}

#[test]
fn attacker_found_before_a_piece_off_the_board() {
    // A Sente giraffe on square 4 attacks square 1; a Sente hen bit past the board (square 13)
    // is never reached, since the giraffe is scanned first.
    let mut b = empty_board();
    b.piece_bbs[get_piece_index(Player::Sente, PieceKind::Giraffe)] = 1 << 4;
    b.piece_bbs[get_piece_index(Player::Sente, PieceKind::Hen)] = 1 << 13;
    assert!(b.any_attacker(1, Player::Sente));
    // Lion missing: the result comes before any scan, whatever stands off the board.
    b.piece_bbs[5] = 1 << 14;
    b.piece_bbs[0] = 0;
    assert_eq!(b.winner(), Some(Player::Gote));
}
