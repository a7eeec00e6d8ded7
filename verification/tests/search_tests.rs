use std::sync::atomic::{AtomicBool, Ordering};

use doubutsu_nnue::board::{Board, Hand, PieceKind, Player, PIECE_TYPE_COUNT};
use doubutsu_nnue::move_gen::{generate_moves, Move};
use doubutsu_nnue::nnue::{Accumulator, NnueWeights, FEATURE_SIZE};
use doubutsu_nnue::search::{deepening_step, search_thread, SearchLimits, SCORE_LIMIT};
use doubutsu_nnue::zobrist::{TranspositionTable, ZobristTable};
use web_time::{Duration, Instant};

struct Run {
    result: (Move, u8, i32),
    moves: Vec<Move>,
    aborted: bool,
}

fn run(board: &Board, max_depth: u8, thread_id: usize) -> Run {
    let z = ZobristTable::new();
    let tt = TranspositionTable::new(1 << 12);
    let weights = NnueWeights::new_dummy();
    let limits = SearchLimits { max_time: Duration::from_secs(10), max_depth };
    let mut moves = Vec::new();
    generate_moves(board, &mut moves);
    let default_move = moves.first().copied().unwrap_or(Move(0));
    let features: Vec<usize> = board.extract_all_features().into_iter().filter(|&f| f < FEATURE_SIZE).collect();
    let acc = Accumulator::refresh(&weights, &features);
    let abort = AtomicBool::new(false);
    let result = search_thread(
        board,
        &z,
        &tt,
        &weights,
        &limits,
        &[],
        Instant::now(),
        &abort,
        &acc,
        board.compute_initial_hash(&z),
        default_move,
        thread_id,
    );
    Run { result, moves, aborted: abort.load(Ordering::Relaxed) }
}

#[test]
fn main_thread_finds_a_legal_move() {
    let b = Board::initial_position();
    let r = run(&b, 3, 0);
    assert!(r.moves.contains(&r.result.0));
    assert_eq!(r.result.1, 3);
    assert!(-SCORE_LIMIT <= r.result.2 && r.result.2 <= SCORE_LIMIT);
    assert!(!r.aborted);
}

#[test]
fn helper_threads_report_the_default_move() {
    let b = Board::initial_position();
    let r = run(&b, 3, 1);
    assert_eq!(r.result, (r.moves[0], 0, 0));
    let r = run(&b, 3, 2);
    assert_eq!(r.result, (r.moves[0], 0, 0));
}

#[test]
fn depth_zero_searches_nothing() {
    let b = Board::initial_position();
    let r = run(&b, 0, 0);
    assert_eq!(r.result, (r.moves[0], 0, 0));
}

#[test]
fn a_lion_capture_is_found_and_stops_the_search() {
    // Sente's chick on B2 can take Gote's lion on B1.
    let mut bbs = [0u16; PIECE_TYPE_COUNT];
    bbs[0] = 1 << 10; // Sente lion on B4
    bbs[3] = 1 << 4; // Sente chick on B2
    bbs[5] = 1 << 1; // Gote lion on B1
    let b = Board {
        piece_bbs: bbs,
        hands: [Hand::default(), Hand::default()],
        side_to_move: Player::Sente,
    };
    let r = run(&b, 4, 0);
    let m = r.result.0;
    assert_eq!((m.sq_from(), m.sq_to(), m.piece_kind()), (4, 1, PieceKind::Chick));
    assert!(r.result.2 >= 19000);
    assert_eq!(r.result.1, 1);
    assert!(r.aborted);
}

#[test]
fn a_finished_position_reports_the_mate_score() {
    // Gote has no lion left: Sente has won.
    let mut bbs = [0u16; PIECE_TYPE_COUNT];
    bbs[0] = 1 << 10;
    let b = Board { piece_bbs: bbs, hands: [Hand::default(), Hand::default()], side_to_move: Player::Sente };
    let r = run(&b, 5, 0);
    assert_eq!(r.result, (Move(0), 1, 20000));
    assert!(r.aborted);
    let b = Board { side_to_move: Player::Gote, ..b };
    let r = run(&b, 5, 0);
    assert_eq!(r.result, (Move(0), 1, -20000));
}

#[test]
fn deepening_keeps_the_last_finished_iteration() {
    let a = Move(0x47);
    let b = Move(0x74);
    // a finished iteration gives the main thread its result
    assert_eq!(deepening_step((a, 2, 10), 0, 3, false, 25, b), ((b, 3, 25), false));
    // a mate score ends the deepening
    assert_eq!(deepening_step((a, 2, 10), 0, 3, false, 19995, b), ((b, 3, 19995), true));
    assert_eq!(deepening_step((a, 2, 10), 0, 3, false, -19000, b), ((b, 3, -19000), true));
    // a stopped iteration keeps the last move and score; the depth before it counts
    assert_eq!(deepening_step((a, 2, 10), 0, 5, true, 0, b), ((a, 4, 10), true));
    assert_eq!(deepening_step((a, 0, 0), 0, 1, true, 0, b), ((a, 0, 0), true));
    // helper threads keep what they had
    assert_eq!(deepening_step((a, 0, 0), 2, 3, false, 40, b), ((a, 0, 0), false));
    assert_eq!(deepening_step((a, 0, 0), 1, 3, true, 40, b), ((a, 0, 0), true));
}
