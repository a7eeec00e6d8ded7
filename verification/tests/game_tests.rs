use doubutsu_nnue::board::{Board, PieceKind, Player};
use doubutsu_nnue::game::{board_string, move_to_string, sq_to_string, GameManager, MAX_MOVES};
use doubutsu_nnue::move_gen::{generate_moves, Move};
use doubutsu_nnue::zobrist::ZobristTable;

/// Plays the board move from `from` to `to` among the moves of the side to move.
fn play(g: &mut GameManager, from: u8, to: u8) {
    let m = *g
        .moves()
        .iter()
        .find(|m| !m.is_drop() && m.sq_from() == from && m.sq_to() == to)
        .expect("the move should be legal");
    assert!(g.make_move(m).is_some());
}

#[test]
fn square_names() {
    assert_eq!(sq_to_string(0), "A1");
    assert_eq!(sq_to_string(2), "C1");
    assert_eq!(sq_to_string(4), "B2");
    assert_eq!(sq_to_string(11), "C4");
}

#[test]
fn move_texts() {
    assert_eq!(move_to_string(Move::new(7, 4, PieceKind::Chick, false, false)), "B3 から B2 へ移動 (ひよこ)");
    assert_eq!(move_to_string(Move::new(4, 1, PieceKind::Chick, true, false)), "B2 から B1 へ移動 (ひよこ成)");
    assert_eq!(move_to_string(Move::new(10, 6, PieceKind::Lion, false, false)), "B4 から A3 へ移動 (ライオン)");
    assert_eq!(move_to_string(Move::new(0, 3, PieceKind::Giraffe, false, false)), "A1 から A2 へ移動 (きりん)");
    assert_eq!(move_to_string(Move::new(15, 6, PieceKind::Chick, false, true)), "A3 に ひよこ を打つ");
    assert_eq!(move_to_string(Move::new(15, 5, PieceKind::Elephant, false, true)), "C2 に ぞう を打つ");
    assert_eq!(move_to_string(Move::new(3, 0, PieceKind::Hen, false, false)), "A2 から A1 へ移動 (にわとり)");
    // kind bits 5..=7 name no piece
    assert_eq!(move_to_string(Move(0x0500)), "A1 から A1 へ移動 (?)");
}

#[test]
fn initial_board_text() {
    let expected = "後手持駒: ひよこ0, きりん0, ぞう0\n  A  B  C\n1  g  l  e \n2  .  c  . \n3  .  C  . \n4  E  L  G \n先手持駒: ひよこ0, きりん0, ぞう0\n";
    assert_eq!(board_string(&Board::initial_position()), expected);
}

#[test]
fn board_text_after_a_capture() {
    let z = ZobristTable::new();
    let mut b = Board::initial_position();
    let h = b.compute_initial_hash(&z);
    b.make_move(Move::new(7, 4, PieceKind::Chick, false, false), &z, h);
    let expected = "後手持駒: ひよこ0, きりん0, ぞう0\n  A  B  C\n1  g  l  e \n2  .  C  . \n3  .  .  . \n4  E  L  G \n先手持駒: ひよこ1, きりん0, ぞう0\n";
    assert_eq!(board_string(&b), expected);
}

#[test]
fn new_game_state() {
    let z = ZobristTable::new();
    let g = GameManager::new(&z);
    let b = Board::initial_position();
    assert_eq!(*g.board(), b);
    assert!(g.history().is_empty());
    assert_eq!(g.winner(), None);
    assert_eq!(g.side_to_move(), Some(Player::Sente));
    assert!(!g.is_finished());
    assert!(!g.is_draw());
    assert_eq!(g.move_count(), 0);
    assert_eq!(g.current_hash(), b.compute_initial_hash(&z));
    let mut expected = Vec::new();
    generate_moves(&b, &mut expected);
    assert_eq!(g.moves(), &expected[..]);
    assert_eq!(g.moves().len(), 4);
}

#[test]
fn a_move_is_recorded() {
    let z = ZobristTable::new();
    let mut g = GameManager::new(&z);
    let h0 = g.current_hash();
    let m = Move::new(7, 4, PieceKind::Chick, false, false);
    let u = g.make_move(m).expect("the game goes on");
    assert_eq!(&u.removed[..u.removed_count], &[43, 100]);
    assert_eq!(g.history().len(), 1);
    assert_eq!(g.history()[0], (h0, Board::initial_position()));
    assert_eq!(g.move_count(), 1);
    assert_eq!(g.side_to_move(), Some(Player::Gote));
    assert_eq!(g.board().side_to_move, Player::Gote);
    assert_eq!(g.board().hands[0].chicks, 1);
    let mut b = Board::initial_position();
    let (_, h1) = b.make_move(m, &z, h0);
    assert_eq!(g.current_hash(), h1);
    let mut expected = Vec::new();
    generate_moves(&b, &mut expected);
    assert_eq!(g.moves(), &expected[..]);
}

#[test]
fn capturing_the_lion_wins() {
    let z = ZobristTable::new();
    let mut g = GameManager::new(&z);
    play(&mut g, 7, 4); // Sente's chick takes Gote's chick
    play(&mut g, 0, 3); // Gote's giraffe steps down
    play(&mut g, 4, 1); // the chick takes the lion
    assert_eq!(g.winner(), Some(Player::Sente));
    assert_eq!(g.side_to_move(), None);
    assert!(g.is_finished());
    assert!(!g.is_draw());
    assert!(g.moves().is_empty());
    assert_eq!(g.move_count(), 3);
}

#[test]
fn a_finished_game_ignores_moves() {
    let z = ZobristTable::new();
    let mut g = GameManager::new(&z);
    play(&mut g, 7, 4);
    play(&mut g, 0, 3);
    play(&mut g, 4, 1);
    let hash = g.current_hash();
    let board = *g.board();
    let history_len = g.history().len();
    assert!(g.make_move(Move::new(10, 7, PieceKind::Lion, false, false)).is_none());
    assert_eq!(g.current_hash(), hash);
    assert_eq!(*g.board(), board);
    assert_eq!(g.history().len(), history_len);
    assert_eq!(g.move_count(), 3);
    assert_eq!(g.winner(), Some(Player::Sente));
}

#[test]
fn third_occurrence_is_a_draw() {
    let z = ZobristTable::new();
    let mut g = GameManager::new(&z);
    for round in 0..2 {
        play(&mut g, 11, 8); // Sente's giraffe up
        play(&mut g, 0, 3); // Gote's giraffe down
        play(&mut g, 8, 11); // and back
        if round == 1 {
            assert!(!g.is_finished());
        }
        play(&mut g, 3, 0);
    }
    assert_eq!(*g.board(), Board::initial_position());
    assert_eq!(g.move_count(), 8);
    assert!(g.is_finished());
    assert!(g.is_draw());
    assert_eq!(g.winner(), None);
    assert!(g.moves().is_empty());
}

#[test]
fn second_occurrence_goes_on() {
    let z = ZobristTable::new();
    let mut g = GameManager::new(&z);
    play(&mut g, 11, 8);
    play(&mut g, 0, 3);
    play(&mut g, 8, 11);
    play(&mut g, 3, 0);
    assert_eq!(*g.board(), Board::initial_position());
    assert_eq!(g.side_to_move(), Some(Player::Sente));
    assert!(!g.is_draw());
}

#[test]
fn move_limit_constant() {
    assert_eq!(MAX_MOVES, 200);
}

#[test]
fn game_hash_tracks_the_position() {
    let z = ZobristTable::new();
    let mut g = GameManager::new(&z);
    let side_keys = z.features[132] ^ z.features[133];
    play(&mut g, 7, 4);
    assert_eq!(g.current_hash(), g.board().compute_initial_hash(&z) ^ side_keys);
    play(&mut g, 0, 3);
    assert_eq!(g.current_hash(), g.board().compute_initial_hash(&z));
}
