use doubutsu_nnue::board::{Board, PieceKind};
use doubutsu_nnue::move_gen::Move;
use doubutsu_nnue::nnue::{Accumulator, LoadError, NnueWeights, HIDDEN_SIZE, WEIGHTS_BYTES};
use doubutsu_nnue::zobrist::ZobristTable;

fn weights_bytes() -> Vec<u8> {
    let mut bytes = Vec::new();
    for f in 0..132u32 {
        for h in 0..128u32 {
            let v = ((f * 7 + h) % 50) as i16 - 25;
            bytes.extend_from_slice(&v.to_le_bytes());
        }
    }
    for h in 0..128i16 {
        bytes.extend_from_slice(&(h - 64).to_le_bytes());
    }
    for h in 0..128i32 {
        bytes.extend_from_slice(&(h * 1000 - 50000).to_le_bytes());
    }
    bytes.extend_from_slice(&(-123456i32).to_le_bytes());
    bytes
}

#[test]
fn weights_file_length() {
    assert_eq!(weights_bytes().len(), WEIGHTS_BYTES);
}

#[test]
fn load_reads_every_part() {
    let bytes = weights_bytes();
    let w = match NnueWeights::load_from_slice(&bytes) {
        Ok(w) => w,
        Err(_) => panic!("weights should load"),
    };
    assert_eq!(w.feature_weights[0][0], -25);
    assert_eq!(w.feature_weights[1][3], ((7 + 3) % 50) as i16 - 25);
    assert_eq!(w.feature_weights[131][127], ((131 * 7 + 127) % 50) as i16 - 25);
    assert_eq!(w.feature_biases[0], -64);
    assert_eq!(w.feature_biases[127], 63);
    assert_eq!(w.output_weights[0], -50000);
    assert_eq!(w.output_weights[127], 77000);
    assert_eq!(w.output_bias, -123456);
}

#[test]
fn load_ignores_trailing_bytes() {
    let mut bytes = weights_bytes();
    bytes.push(0xAB);
    assert!(NnueWeights::load_from_slice(&bytes).is_ok());
}

#[test]
fn load_fails_on_a_short_file() {
    let bytes = weights_bytes();
    assert!(matches!(NnueWeights::load_from_slice(&bytes[..WEIGHTS_BYTES - 1]), Err(LoadError::UnexpectedEof)));
    assert!(matches!(NnueWeights::load_from_slice(&[]), Err(LoadError::UnexpectedEof)));
}

#[test]
fn dummy_weights_are_zero() {
    let w = NnueWeights::new_dummy();
    assert!(w.feature_weights.iter().all(|r| r.iter().all(|&v| v == 0)));
    assert_eq!(w.output_bias, 0);
    let acc = Accumulator::refresh(&w, &[1, 2, 3]);
    assert_eq!(acc.values, [0; HIDDEN_SIZE]);
    assert_eq!(acc.evaluate(&w), 0);
}

#[test]
fn refresh_adds_weights_to_biases() {
    let mut w = NnueWeights::new_dummy();
    w.feature_biases[0] = 10;
    w.feature_weights[3][0] = 5;
    w.feature_weights[7][0] = -2;
    w.feature_weights[3][1] = i16::MAX;
    w.feature_weights[7][1] = i16::MAX;
    let acc = Accumulator::refresh(&w, &[3, 7]);
    assert_eq!(acc.values[0], 13);
    assert_eq!(acc.values[1], i16::MAX);
    assert_eq!(acc.values[2], 0);
}

#[test]
fn update_removes_then_adds() {
    let mut w = NnueWeights::new_dummy();
    w.feature_weights[3][0] = 5;
    w.feature_weights[7][0] = 11;
    let mut acc = Accumulator::refresh(&w, &[3]);
    acc.update(&w, &[7], &[3]);
    assert_eq!(acc.values, Accumulator::refresh(&w, &[7]).values);
    // saturation: removing first keeps the result in range
    w.feature_weights[9][0] = i16::MIN;
    let mut low = Accumulator::refresh(&w, &[]);
    low.update(&w, &[], &[9]);
    assert_eq!(low.values[0], i16::MAX);
}

#[test]
fn evaluate_scales_the_squared_activations() {
    let mut w = NnueWeights::new_dummy();
    w.output_weights[0] = 1 << 14;
    w.output_bias = 3 << 7;
    let mut acc = Accumulator { values: [0; HIDDEN_SIZE] };
    acc.values[0] = 10;
    // (100 * 2^14 >> 14) + 384 = 484; 484 >> 7 = 3
    assert_eq!(acc.evaluate(&w), 3);
    // activations are clipped to 0..=127
    acc.values[0] = 500;
    acc.values[1] = -40;
    w.output_weights[1] = 1 << 20;
    assert_eq!(acc.evaluate(&w), ((127 * 127) + 384) >> 7);
    // negative sums round down
    w.output_weights[0] = -(1 << 14);
    w.output_bias = 0;
    acc.values[0] = 1;
    assert_eq!(acc.evaluate(&w), -1);
}

#[test]
fn evaluate_stays_in_range() {
    let mut w = NnueWeights::new_dummy();
    for h in 0..HIDDEN_SIZE {
        w.output_weights[h] = i32::MAX;
    }
    w.output_bias = i32::MAX;
    let acc = Accumulator { values: [i16::MAX; HIDDEN_SIZE] };
    assert_eq!(acc.evaluate(&w), 2130837503);
}

#[test]
fn update_along_a_move_matches_refresh() {
    let bytes = weights_bytes();
    let w = NnueWeights::load_from_slice(&bytes).ok().unwrap();
    let pieces = |b: &Board| -> Vec<usize> { b.extract_all_features().into_iter().filter(|&f| f < 132).collect() };
    let z = ZobristTable::new();
    let mut b = Board::initial_position();
    let mut acc = Accumulator::refresh(&w, &pieces(&b));
    let h = b.compute_initial_hash(&z);
    for m in [
        Move::new(7, 4, PieceKind::Chick, false, false),
        Move::new(1, 4, PieceKind::Lion, false, false),
        Move::new(15, 7, PieceKind::Chick, false, true),
    ] {
        let (u, _) = b.make_move(m, &z, h);
        acc.update(&w, &u.added[..u.added_count], &u.removed[..u.removed_count]);
        assert_eq!(acc.values, Accumulator::refresh(&w, &pieces(&b)).values);
    }
}

#[test]
fn an_update_is_undone_by_its_reverse() {
    let bytes = weights_bytes();
    let w = NnueWeights::load_from_slice(&bytes).ok().unwrap();
    let start = Accumulator::refresh(&w, &[3, 40, 77]);
    let mut acc = start;
    acc.update(&w, &[5, 90], &[40]);
    assert_eq!(acc.values, Accumulator::refresh(&w, &[3, 77, 5, 90]).values);
    acc.update(&w, &[40], &[5, 90]);
    assert_eq!(acc.values, start.values);
}

#[test]
fn evaluation_grows_with_the_neurons() {
    let mut w = NnueWeights::new_dummy();
    for h in 0..HIDDEN_SIZE {
        w.output_weights[h] = (h as i32) * 1000;
    }
    let mut low = Accumulator { values: [0; HIDDEN_SIZE] };
    let mut high = low;
    for h in 0..HIDDEN_SIZE {
        low.values[h] = (h as i16) - 60;
        high.values[h] = (h as i16) - 50;
    }
    assert!(low.evaluate(&w) <= high.evaluate(&w));
    assert!(low.evaluate(&w) < high.evaluate(&w));
}
