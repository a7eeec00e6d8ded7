use doubutsu_nnue::board::PieceKind;
use doubutsu_nnue::engine::{find_board_move, find_drop, go_reply, parse_choice, parse_command, Command, GoReply};
use doubutsu_nnue::game::GameManager;
use doubutsu_nnue::move_gen::Move;
use doubutsu_nnue::zobrist::ZobristTable;

fn chars(s: &str) -> Vec<char> {
    s.chars().collect()
}

fn position(s: &str) -> Vec<Move> {
    match parse_command(&chars(s)) {
        Command::Position(ms) => ms,
        _ => panic!("a position command was expected"),
    }
}

#[test]
fn simple_commands() {
    assert!(matches!(parse_command(&chars("quit\n")), Command::Quit));
    assert!(matches!(parse_command(&chars("  isready \r\n")), Command::IsReady));
    assert!(matches!(parse_command(&chars("go")), Command::Go));
    assert!(matches!(parse_command(&chars("\tgo\u{3000}")), Command::Go));
    assert!(matches!(parse_command(&chars("go on")), Command::Other));
    assert!(matches!(parse_command(&chars("Quit")), Command::Other));
    assert!(matches!(parse_command(&chars("")), Command::Other));
    assert!(matches!(parse_command(&chars("   \n")), Command::Other));
}

#[test]
fn position_moves_are_read_after_two_words() {
    assert_eq!(position("position moves 71 30 4096\n"), vec![Move(71), Move(30), Move(4096)]);
    assert_eq!(position("position moves"), Vec::<Move>::new());
    assert_eq!(position("  position moves  +12 x 65535 65536 -3 007 +\n"), vec![Move(12), Move(65535), Move(7)]);
    // the prefix is matched on the line, the moves on its words
    assert_eq!(position("position movesX 5 6"), vec![Move(5), Move(6)]);
    assert!(matches!(parse_command(&chars("position  moves 5")), Command::Other));
}

#[test]
fn choices_of_a_move() {
    assert_eq!(parse_choice(&chars("3\n"), 4), Some(3));
    assert_eq!(parse_choice(&chars(" +0 "), 4), Some(0));
    assert_eq!(parse_choice(&chars("4"), 4), None);
    assert_eq!(parse_choice(&chars("-1"), 4), None);
    assert_eq!(parse_choice(&chars("1 2"), 4), None);
    assert_eq!(parse_choice(&chars(""), 4), None);
    assert_eq!(parse_choice(&chars("99999999999999999999999999"), usize::MAX), None);
}

#[test]
fn replies_to_go() {
    let z = ZobristTable::new();
    let mut g = GameManager::new(&z);
    assert_eq!(go_reply(&g), GoReply::Search);
    for (from, to) in [(7u8, 4u8), (0, 3), (4, 1)] {
        let m = *g.moves().iter().find(|m| !m.is_drop() && m.sq_from() == from && m.sq_to() == to).unwrap();
        g.make_move(m);
    }
    assert_eq!(go_reply(&g), GoReply::Loss);
    let mut g = GameManager::new(&z);
    for _ in 0..2 {
        for (from, to) in [(11u8, 8u8), (0, 3), (8, 11), (3, 0)] {
            let m = *g.moves().iter().find(|m| !m.is_drop() && m.sq_from() == from && m.sq_to() == to).unwrap();
            g.make_move(m);
        }
    }
    assert_eq!(go_reply(&g), GoReply::Draw);
}

#[test]
fn moves_named_by_their_squares() {
    let moves = vec![
        Move::new(7, 4, PieceKind::Chick, false, false),
        Move::new(15, 4, PieceKind::Chick, false, true),
        Move::new(15, 4, PieceKind::Giraffe, false, true),
        Move::new(10, 6, PieceKind::Lion, false, false),
    ];
    assert_eq!(find_board_move(&moves, 7, 4), Some(moves[0]));
    assert_eq!(find_board_move(&moves, 10, 6), Some(moves[3]));
    assert_eq!(find_board_move(&moves, 15, 4), None);
    assert_eq!(find_drop(&moves, 1, 4), Some(moves[2]));
    assert_eq!(find_drop(&moves, 3, 4), Some(moves[1]));
    assert_eq!(find_drop(&moves, 2, 4), None);
    assert_eq!(find_drop(&moves, 3, 5), None);
}
