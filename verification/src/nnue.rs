use vstd::prelude::*;

verus! {

pub const FEATURE_SIZE: usize = 132;
pub const HIDDEN_SIZE: usize = 128;
pub const WEIGHT_SCALE_BITS: i32 = 7;
pub const ACTIVATION_MAX: i16 = 127;

/// Length of a weights file: the feature weights and biases as 16-bit words, then the output
/// weights and bias as 32-bit words, all little-endian.
pub const WEIGHTS_BYTES: usize = 34564;

/// Network weights.
pub struct NnueWeights {
    pub feature_weights: [[i16; HIDDEN_SIZE]; FEATURE_SIZE],
    pub feature_biases: [i16; HIDDEN_SIZE],
    pub output_weights: [i32; HIDDEN_SIZE],
    pub output_bias: i32,
}

/// A weights file ended before all weights were read.
#[derive(Clone, Copy, Debug, PartialEq, Eq, Structural)]
pub enum LoadError {
    UnexpectedEof,
}

/// The little-endian 16-bit word at `off`.
pub open spec fn le_i16(bytes: Seq<u8>, off: int) -> i16 {
    ((bytes[off] as u16) | ((bytes[off + 1] as u16) << 8u16)) as i16
}

/// The little-endian 32-bit word at `off`.
pub open spec fn le_i32(bytes: Seq<u8>, off: int) -> i32 {
    ((bytes[off] as u32) | ((bytes[off + 1] as u32) << 8u32) | ((bytes[off + 2] as u32) << 16u32)
        | ((bytes[off + 3] as u32) << 24u32)) as i32
}

/// Offsets of the parts of a weights file.
pub open spec fn feature_weight_offset(f: int, h: int) -> int {
    2 * (f * 128 + h)
}

pub open spec fn bias_offset(h: int) -> int {
    33792 + 2 * h
}

pub open spec fn output_weight_offset(h: int) -> int {
    34048 + 4 * h
}

pub const OUTPUT_BIAS_OFFSET: usize = 34560;

/// The weights that a file holds.
pub open spec fn weights_from(w: NnueWeights, bytes: Seq<u8>) -> bool {
    &&& forall|f: int, h: int| 0 <= f < 132 && 0 <= h < 128 ==>
        #[trigger] w.feature_weights@[f]@[h] == le_i16(bytes, feature_weight_offset(f, h))
    &&& forall|h: int| 0 <= h < 128 ==> #[trigger] w.feature_biases@[h] == le_i16(bytes, bias_offset(h))
    &&& forall|h: int| 0 <= h < 128 ==> #[trigger] w.output_weights@[h] == le_i32(bytes, output_weight_offset(h))
    &&& w.output_bias == le_i32(bytes, OUTPUT_BIAS_OFFSET as int)
}

fn read_i16(bytes: &[u8], off: usize) -> (r: i16)
    requires
        off + 2 <= bytes@.len(),
    ensures
        r == le_i16(bytes@, off as int),
{
    ((bytes[off] as u16) | ((bytes[off + 1] as u16) << 8)) as i16
}

fn read_i32(bytes: &[u8], off: usize) -> (r: i32)
    requires
        off + 4 <= bytes@.len(),
    ensures
        r == le_i32(bytes@, off as int),
{
    ((bytes[off] as u32) | ((bytes[off + 1] as u32) << 8) | ((bytes[off + 2] as u32) << 16)
        | ((bytes[off + 3] as u32) << 24)) as i32
}

impl NnueWeights {
    pub open spec fn is_zero(self) -> bool {
        &&& forall|f: int, h: int| 0 <= f < 132 && 0 <= h < 128 ==> #[trigger] self.feature_weights@[f]@[h] == 0
        &&& forall|h: int| 0 <= h < 128 ==> #[trigger] self.feature_biases@[h] == 0
        &&& forall|h: int| 0 <= h < 128 ==> #[trigger] self.output_weights@[h] == 0
        &&& self.output_bias == 0
    }

    /// All-zero weights, for use when no weights file is at hand.
    pub fn new_dummy() -> (r: Self)
        ensures
            r.is_zero(),
    {
        Self {
            feature_weights: [[0; HIDDEN_SIZE]; FEATURE_SIZE],
            feature_biases: [0; HIDDEN_SIZE],
            output_weights: [0; HIDDEN_SIZE],
            output_bias: 0,
        }
    }

    /// Reads weights from the bytes of a weights file; bytes after the weights are ignored.
    pub fn load_from_slice(bytes: &[u8]) -> (r: Result<Self, LoadError>)
        ensures
            r is Ok <==> bytes@.len() >= WEIGHTS_BYTES,
            r matches Ok(w) ==> weights_from(w, bytes@),
            r matches Err(e) ==> e == LoadError::UnexpectedEof,
    {
        if bytes.len() < WEIGHTS_BYTES {
            return Err(LoadError::UnexpectedEof);
        }
        let mut weights = NnueWeights {
            feature_weights: [[0; HIDDEN_SIZE]; FEATURE_SIZE],
            feature_biases: [0; HIDDEN_SIZE],
            output_weights: [0; HIDDEN_SIZE],
            output_bias: 0,
        };
        let mut off: usize = 0;
        let mut feat_idx: usize = 0;
        while feat_idx < FEATURE_SIZE
            invariant
                bytes@.len() >= WEIGHTS_BYTES,
                feat_idx <= 132,
                off == 256 * feat_idx,
                forall|f: int, h: int| 0 <= f < feat_idx && 0 <= h < 128 ==>
                    #[trigger] weights.feature_weights@[f]@[h] == le_i16(bytes@, feature_weight_offset(f, h)),
            decreases 132 - feat_idx,
        {
            let mut row = [0i16; HIDDEN_SIZE];
            let mut hid_idx: usize = 0;
            while hid_idx < HIDDEN_SIZE
                invariant
                    bytes@.len() >= WEIGHTS_BYTES,
                    feat_idx < 132,
                    hid_idx <= 128,
                    off == 256 * feat_idx + 2 * hid_idx,
                    forall|h: int| 0 <= h < hid_idx ==>
                        #[trigger] row@[h] == le_i16(bytes@, feature_weight_offset(feat_idx as int, h)),
                decreases 128 - hid_idx,
            {
                row[hid_idx] = read_i16(bytes, off);
                off += 2;
                hid_idx += 1;
            }
            weights.feature_weights[feat_idx] = row;
            feat_idx += 1;
        }
        let mut hid_idx: usize = 0;
        while hid_idx < HIDDEN_SIZE
            invariant
                bytes@.len() >= WEIGHTS_BYTES,
                hid_idx <= 128,
                off == 33792 + 2 * hid_idx,
                forall|f: int, h: int| 0 <= f < 132 && 0 <= h < 128 ==>
                    #[trigger] weights.feature_weights@[f]@[h] == le_i16(bytes@, feature_weight_offset(f, h)),
                forall|h: int| 0 <= h < hid_idx ==> #[trigger] weights.feature_biases@[h] == le_i16(bytes@, bias_offset(h)),
            decreases 128 - hid_idx,
        {
            weights.feature_biases[hid_idx] = read_i16(bytes, off);
            off += 2;
            hid_idx += 1;
        }
        let mut hid_idx: usize = 0;
        while hid_idx < HIDDEN_SIZE
            invariant
                bytes@.len() >= WEIGHTS_BYTES,
                hid_idx <= 128,
                off == 34048 + 4 * hid_idx,
                forall|f: int, h: int| 0 <= f < 132 && 0 <= h < 128 ==>
                    #[trigger] weights.feature_weights@[f]@[h] == le_i16(bytes@, feature_weight_offset(f, h)),
                forall|h: int| 0 <= h < 128 ==> #[trigger] weights.feature_biases@[h] == le_i16(bytes@, bias_offset(h)),
                forall|h: int| 0 <= h < hid_idx ==> #[trigger] weights.output_weights@[h] == le_i32(bytes@, output_weight_offset(h)),
            decreases 128 - hid_idx,
        {
            weights.output_weights[hid_idx] = read_i32(bytes, off);
            off += 4;
            hid_idx += 1;
        }
        weights.output_bias = read_i32(bytes, off);
        Ok(weights)
    }
}

/// `a + b`, clamped to the range of `i16`.
pub open spec fn sat_add(a: i16, b: i16) -> i16 {
    let s = a as int + b as int;
    if s > i16::MAX { i16::MAX } else if s < i16::MIN { i16::MIN } else { s as i16 }
}

/// `a - b`, clamped to the range of `i16`.
pub open spec fn sat_sub(a: i16, b: i16) -> i16 {
    let s = a as int - b as int;
    if s > i16::MAX { i16::MAX } else if s < i16::MIN { i16::MIN } else { s as i16 }
}

fn saturating_add_i16(a: i16, b: i16) -> (r: i16)
    ensures
        r == sat_add(a, b),
{
    let s = a as i32 + b as i32;
    if s > i16::MAX as i32 {
        i16::MAX
    } else if s < i16::MIN as i32 {
        i16::MIN
    } else {
        s as i16
    }
}

fn saturating_sub_i16(a: i16, b: i16) -> (r: i16)
    ensures
        r == sat_sub(a, b),
{
    let s = a as i32 - b as i32;
    if s > i16::MAX as i32 {
        i16::MAX
    } else if s < i16::MIN as i32 {
        i16::MIN
    } else {
        s as i16
    }
}

/// Neuron `i` starting from `v` after the weights of the features `fs` are added one by one.
pub open spec fn add_features(w: NnueWeights, v: i16, fs: Seq<usize>, i: int) -> i16
    decreases fs.len(),
{
    if fs.len() == 0 {
        v
    } else {
        sat_add(add_features(w, v, fs.drop_last(), i), w.feature_weights@[fs.last() as int]@[i])
    }
}

/// Neuron `i` starting from `v` after the weights of the features `fs` are taken away one by one.
pub open spec fn sub_features(w: NnueWeights, v: i16, fs: Seq<usize>, i: int) -> i16
    decreases fs.len(),
{
    if fs.len() == 0 {
        v
    } else {
        sat_sub(sub_features(w, v, fs.drop_last(), i), w.feature_weights@[fs.last() as int]@[i])
    }
}

pub open spec fn features_in_range(fs: Seq<usize>) -> bool {
    forall|j: int| 0 <= j < fs.len() ==> #[trigger] fs[j] < FEATURE_SIZE
}

/// Clipped activation of a neuron: its value clamped to 0..=127.
pub open spec fn clipped(v: i16) -> int {
    if v < 0 { 0 } else if v > 127 { 127 } else { v as int }
}

/// Sum over the first `n` neurons of the squared activation times the output weight.
pub open spec fn weighted_sum(values: Seq<i16>, ow: Seq<i32>, n: int) -> int
    decreases n,
{
    if n <= 0 {
        0
    } else {
        weighted_sum(values, ow, n - 1) + clipped(values[n - 1]) * clipped(values[n - 1]) * ow[n - 1]
    }
}

/// The evaluation: the weighted sum scaled down by 2^14 (rounding down), the output bias
/// added, and the result scaled down by 2^7 (rounding down).
pub open spec fn eval_spec(values: Seq<i16>, w: NnueWeights) -> int {
    (weighted_sum(values, w.output_weights@, 128) / 16384 + w.output_bias) / 128
}

/// Largest magnitude of an evaluation.
pub const EVAL_BOUND: i32 = 2130851584;

proof fn lemma_term_bound(a: int, ow: int)
    requires
        0 <= a <= 127,
        -2147483648 <= ow <= 2147483647,
    ensures
        -34636763758592 <= a * a * ow <= 34636763758592,
{
    assert(0 <= a * a <= 16129) by (nonlinear_arith)
        requires 0 <= a <= 127;
    assert(-34636763758592 <= a * a * ow <= 34636763758592) by (nonlinear_arith)
        requires 0 <= a * a <= 16129, -2147483648 <= ow <= 2147483647;
}

proof fn lemma_weighted_sum_bound(values: Seq<i16>, ow: Seq<i32>, n: int)
    requires
        0 <= n <= values.len(),
        n <= ow.len(),
    ensures
        -34636763758592 * n <= weighted_sum(values, ow, n) <= 34636763758592 * n,
    decreases n,
{
    if n > 0 {
        lemma_weighted_sum_bound(values, ow, n - 1);
        let a = clipped(values[n - 1]);
        let o = ow[n - 1] as int;
        lemma_term_bound(a, o);
        assert(weighted_sum(values, ow, n) == weighted_sum(values, ow, n - 1) + a * a * o);
    }
}

proof fn lemma_weighted_sum_monotone(a: Seq<i16>, b: Seq<i16>, ow: Seq<i32>, n: int)
    requires
        0 <= n <= a.len(),
        n <= b.len(),
        n <= ow.len(),
        forall|k: int| 0 <= k < n ==> #[trigger] a[k] <= b[k] && ow[k] >= 0,
    ensures
        weighted_sum(a, ow, n) <= weighted_sum(b, ow, n),
    decreases n,
{
    if n > 0 {
        lemma_weighted_sum_monotone(a, b, ow, n - 1);
        let x = clipped(a[n - 1]);
        let y = clipped(b[n - 1]);
        let o = ow[n - 1] as int;
        assert(a[n - 1] <= b[n - 1] && o >= 0);
        assert(0 <= x <= y);
        assert(x * x * o <= y * y * o) by (nonlinear_arith)
            requires
                0 <= x <= y,
                o >= 0,
        ;
    }
}

/// The evaluation grows with every neuron when the output weights are not negative.
pub proof fn lemma_evaluate_monotone(a: Seq<i16>, b: Seq<i16>, w: NnueWeights)
    requires
        a.len() == 128,
        b.len() == 128,
        forall|k: int| 0 <= k < 128 ==> #[trigger] a[k] <= b[k] && w.output_weights@[k] >= 0,
    ensures
        eval_spec(a, w) <= eval_spec(b, w),
{
    lemma_weighted_sum_monotone(a, b, w.output_weights@, 128);
    let sa = weighted_sum(a, w.output_weights@, 128);
    let sb = weighted_sum(b, w.output_weights@, 128);
    let c = w.output_bias as int;
    assert(sa / 16384 <= sb / 16384) by (nonlinear_arith)
        requires
            sa <= sb,
    ;
    assert((sa / 16384 + c) / 128 <= (sb / 16384 + c) / 128) by (nonlinear_arith)
        requires
            sa / 16384 <= sb / 16384,
    ;
}

/// The hidden layer of the network for one position.
#[derive(Clone, Copy)]
pub struct Accumulator {
    pub values: [i16; HIDDEN_SIZE],
}

impl Accumulator {
    /// The hidden layer of a position with the given features: the biases with the weights of
    /// each feature added in turn, saturating at the range of `i16`.
    pub fn refresh(weights: &NnueWeights, active_features: &[usize]) -> (r: Self)
        requires
            features_in_range(active_features@),
        ensures
            forall|i: int| 0 <= i < 128 ==> #[trigger] r.values@[i]
                == add_features(*weights, weights.feature_biases@[i], active_features@, i),
    {
        let mut acc = Accumulator { values: weights.feature_biases };
        let mut j: usize = 0;
        while j < active_features.len()
            invariant
                features_in_range(active_features@),
                j <= active_features@.len(),
                forall|i: int| 0 <= i < 128 ==> #[trigger] acc.values@[i]
                    == add_features(*weights, weights.feature_biases@[i], active_features@.take(j as int), i),
            decreases active_features@.len() - j,
        {
            let feature_idx = active_features[j];
            let ghost before = acc.values@;
            let mut i: usize = 0;
            while i < HIDDEN_SIZE
                invariant
                    feature_idx < 132,
                    i <= 128,
                    forall|k: int| 0 <= k < i ==> #[trigger] acc.values@[k]
                        == sat_add(before[k], weights.feature_weights@[feature_idx as int]@[k]),
                    forall|k: int| i <= k < 128 ==> #[trigger] acc.values@[k] == before[k],
                decreases 128 - i,
            {
                acc.values[i] = saturating_add_i16(acc.values[i], weights.feature_weights[feature_idx][i]);
                i += 1;
            }
            proof {
                assert(active_features@.take(j + 1).drop_last() =~= active_features@.take(j as int));
            }
            j += 1;
        }
        proof {
            assert(active_features@.take(j as int) =~= active_features@);
        }
        acc
    }

    /// Takes away the weights of `removed`, then adds those of `added`, saturating at the
    /// range of `i16`.
    pub fn update(&mut self, weights: &NnueWeights, added: &[usize], removed: &[usize])
        requires
            features_in_range(added@),
            features_in_range(removed@),
        ensures
            forall|i: int| 0 <= i < 128 ==> #[trigger] final(self).values@[i] == add_features(
                *weights,
                sub_features(*weights, old(self).values@[i], removed@, i),
                added@,
                i,
            ),
    {
        let ghost start = self.values@;
        let mut j: usize = 0;
        while j < removed.len()
            invariant
                features_in_range(removed@),
                j <= removed@.len(),
                forall|i: int| 0 <= i < 128 ==> #[trigger] self.values@[i]
                    == sub_features(*weights, start[i], removed@.take(j as int), i),
            decreases removed@.len() - j,
        {
            let feature_idx = removed[j];
            let ghost before = self.values@;
            let mut i: usize = 0;
            while i < HIDDEN_SIZE
                invariant
                    feature_idx < 132,
                    i <= 128,
                    forall|k: int| 0 <= k < i ==> #[trigger] self.values@[k]
                        == sat_sub(before[k], weights.feature_weights@[feature_idx as int]@[k]),
                    forall|k: int| i <= k < 128 ==> #[trigger] self.values@[k] == before[k],
                decreases 128 - i,
            {
                self.values[i] = saturating_sub_i16(self.values[i], weights.feature_weights[feature_idx][i]);
                i += 1;
            }
            proof {
                assert(removed@.take(j + 1).drop_last() =~= removed@.take(j as int));
            }
            j += 1;
        }
        proof {
            assert(removed@.take(j as int) =~= removed@);
        }
        let ghost mid = self.values@;
        let mut j: usize = 0;
        while j < added.len()
            invariant
                features_in_range(added@),
                j <= added@.len(),
                forall|i: int| 0 <= i < 128 ==> #[trigger] self.values@[i]
                    == add_features(*weights, mid[i], added@.take(j as int), i),
            decreases added@.len() - j,
        {
            let feature_idx = added[j];
            let ghost before = self.values@;
            let mut i: usize = 0;
            while i < HIDDEN_SIZE
                invariant
                    feature_idx < 132,
                    i <= 128,
                    forall|k: int| 0 <= k < i ==> #[trigger] self.values@[k]
                        == sat_add(before[k], weights.feature_weights@[feature_idx as int]@[k]),
                    forall|k: int| i <= k < 128 ==> #[trigger] self.values@[k] == before[k],
                decreases 128 - i,
            {
                self.values[i] = saturating_add_i16(self.values[i], weights.feature_weights[feature_idx][i]);
                i += 1;
            }
            proof {
                assert(added@.take(j + 1).drop_last() =~= added@.take(j as int));
            }
            j += 1;
        }
        proof {
            assert(added@.take(j as int) =~= added@);
        }
    }

    /// The evaluation of the position from the side to move's point of view.
    pub fn evaluate(&self, weights: &NnueWeights) -> (r: i32)
        ensures
            r == eval_spec(self.values@, *weights),
            -EVAL_BOUND <= r <= EVAL_BOUND,
    {
        let mut sum: i64 = 0;
        let mut i: usize = 0;
        while i < HIDDEN_SIZE
            invariant
                i <= 128,
                sum == weighted_sum(self.values@, weights.output_weights@, i as int),
            decreases 128 - i,
        {
            proof {
                lemma_weighted_sum_bound(self.values@, weights.output_weights@, i as int);
                lemma_term_bound(clipped(self.values@[i as int]), weights.output_weights@[i as int] as int);
            }
            let v = self.values[i];
            let activation: i64 = if v < 0 { 0 } else if v > ACTIVATION_MAX { ACTIVATION_MAX as i64 } else { v as i64 };
            assert(activation == clipped(v));
            proof {
                assert(0 <= activation * activation <= 16129) by (nonlinear_arith)
                    requires 0 <= activation <= 127;
            }
            let squared_activation = activation * activation;
            let ow = weights.output_weights[i] as i64;
            assert(squared_activation * ow == clipped(v) * clipped(v) * (ow as int)) by (nonlinear_arith)
                requires squared_activation == activation * activation, activation == clipped(v);
            sum += squared_activation * ow;
            i += 1;
        }
        proof {
            lemma_weighted_sum_bound(self.values@, weights.output_weights@, 128);
        }
        let s0 = sum;
        proof {
            assert(s0 >> 14i64 == s0 / 16384i64) by (bit_vector);
        }
        sum >>= WEIGHT_SCALE_BITS * 2;
        sum += weights.output_bias as i64;
        let s1 = sum;
        proof {
            assert(s1 >> 7i64 == s1 / 128i64) by (bit_vector);
        }
        (sum >> WEIGHT_SCALE_BITS) as i32
    }
}

} // verus!
