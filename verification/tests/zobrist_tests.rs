use doubutsu_nnue::board::{Board, Player};
use doubutsu_nnue::move_gen::Move;
use doubutsu_nnue::zobrist::{TTEntry, TTEntryAtomic, TranspositionTable, ZobristTable};

#[test]
fn zobrist_keys_are_the_xorshift_sequence() {
    let z = ZobristTable::new();
    assert_eq!(z.side_to_move, 0xfe800d6569fa1b4d);
    assert_eq!(z.features[0], 0x0ce7c497a6b09c3b);
    assert_eq!(z.features[1], 0x41dfb69a11db93c3);
    assert_eq!(z.features[133], 0x031d0a5322dec6fc);
    let z2 = ZobristTable::new();
    assert_eq!(z.features, z2.features);
}

#[test]
fn features_of_the_initial_position() {
    let b = Board::initial_position();
    assert_eq!(b.extract_all_features(), vec![10, 23, 33, 43, 61, 72, 86, 100, 132]);
    let mut g = b;
    g.side_to_move = Player::Gote;
    g.hands[1].elephants = 2;
    let f = g.extract_all_features();
    assert_eq!(f[f.len() - 2], 131);
    assert_eq!(f[f.len() - 1], 133);
}

#[test]
fn initial_hash_xors_all_features() {
    let z = ZobristTable::new();
    let b = Board::initial_position();
    let mut h = 0;
    for f in [10, 23, 33, 43, 61, 72, 86, 100, 132] {
        h ^= z.features[f];
    }
    h ^= z.side_to_move;
    assert_eq!(b.compute_initial_hash(&z), h);
    let mut g = b;
    g.side_to_move = Player::Gote;
    assert_eq!(g.compute_initial_hash(&z), h ^ z.side_to_move ^ z.features[132] ^ z.features[133]);
}

#[test]
fn table_read_after_write() {
    let tt = TranspositionTable::new(5);
    let e = TTEntry { key: 0xDEAD_BEEF_0000_0003, depth: 7, score: -1234, best_move: Move(0x1234), node_type: 2 };
    assert_eq!(tt.probe(e.key), None);
    tt.store(e);
    assert_eq!(tt.probe(e.key), Some(e));
    // another key in the same slot (8 slots: same low three bits) misses
    assert_eq!(tt.probe(0x0000_0000_0000_000B), None);
}

#[test]
fn table_keeps_deeper_entries() {
    let tt = TranspositionTable::new(1);
    let deep = TTEntry { key: 42, depth: 9, score: 10, best_move: Move(1), node_type: 1 };
    let shallow = TTEntry { key: 42, depth: 3, score: 20, best_move: Move(2), node_type: 2 };
    let exact = TTEntry { key: 42, depth: 1, score: 30, best_move: Move(3), node_type: 0 };
    tt.store(deep);
    tt.store(shallow);
    assert_eq!(tt.probe(42), Some(deep));
    tt.store(exact);
    assert_eq!(tt.probe(42), Some(exact));
}

#[test]
fn scores_are_kept_to_sixteen_bits() {
    let tt = TranspositionTable::new(4);
    let e = TTEntry { key: 1, depth: 1, score: 70000, best_move: Move(5), node_type: 0 };
    tt.store(e);
    let got = tt.probe(1).unwrap();
    assert_eq!(got.score, 70000i32 as i16 as i32);
    assert_eq!(got.best_move, Move(5));
}

#[test]
fn slot_checks() {
    assert_eq!(TranspositionTable::check_slot(5, 5 ^ 9, 8), None);
    let e = TranspositionTable::check_slot(5, 5 ^ 0x0000_0203_0004_FFFF, 0x0000_0203_0004_FFFF).unwrap();
    assert_eq!(e, TTEntry { key: 5, depth: 3, score: -1, best_move: Move(4), node_type: 2 });
    let stored = TTEntry { key: 0, depth: 4, score: 0, best_move: Move(0), node_type: 1 };
    assert!(TranspositionTable::should_replace(3u64 << 32, &stored));
    assert!(!TranspositionTable::should_replace(5u64 << 32, &stored));
    let exact = TTEntry { node_type: 0, ..stored };
    assert!(TranspositionTable::should_replace(5u64 << 32, &exact));
}

#[test]
fn zobrist_keys_are_nonzero_and_distinct() {
    let z = ZobristTable::new();
    let mut keys: Vec<u64> = z.features.to_vec();
    keys.push(z.side_to_move);
    assert!(keys.iter().all(|&k| k != 0));
    let n = keys.len();
    keys.sort();
    keys.dedup();
    assert_eq!(keys.len(), n);
    assert_eq!(n, 135);
}

#[test]
fn pack_lays_out_fields_and_unpack_restores_them() {
    let e = TTEntry { key: 77, depth: 6, score: -2, best_move: Move(0x0A31), node_type: 1 };
    let d = TTEntryAtomic::pack(&e);
    assert_eq!(d, 0xFFFE | (0x0A31 << 16) | (6u64 << 32) | (1u64 << 40));
    assert!(d < 1u64 << 48);
    assert_eq!(TTEntryAtomic::unpack(77, d), e);
    let wide = TTEntry { key: 3, depth: 1, score: 70000, best_move: Move(9), node_type: 0 };
    let back = TTEntryAtomic::unpack(3, TTEntryAtomic::pack(&wide));
    assert_eq!(back.score, 70000i32 as i16 as i32);
    assert_eq!(back.best_move, Move(9));
}

#[test]
fn standard_keys_are_nonzero_distinct_and_reproducible() {
    let a = ZobristTable::new();
    let b = ZobristTable::new();
    assert_eq!(a.features, b.features);
    assert_eq!(a.side_to_move, b.side_to_move);
    let mut keys: Vec<u64> = a.features.to_vec();
    keys.push(a.side_to_move);
    assert!(keys.iter().all(|&k| k != 0));
    let n = keys.len();
    keys.sort();
    keys.dedup();
    assert_eq!(keys.len(), n);
}
