use vstd::prelude::*;

verus! {

use crate::board::Board;
use crate::hash_update::{in_seq, single, within, piece_features, lemma_piece_features, lemma_update_lists};
use crate::make_move::{removed_features, added_features, next_bbs, next_hands};
use crate::move_gen::{Move, move_list};
use crate::nnue::{NnueWeights, add_features, sub_features, features_in_range};
use vstd::multiset::Multiset;
use crate::zobrist::side_feature;

/// Sum of the weights that the features `fs` give neuron `i`.
pub open spec fn weight_sum(w: NnueWeights, fs: Seq<usize>, i: int) -> int
    decreases fs.len(),
{
    if fs.len() == 0 {
        0
    } else {
        weight_sum(w, fs.drop_last(), i) + w.feature_weights@[fs.last() as int]@[i]
    }
}

/// Adding the weights of `fs` to `v` one at a time never leaves the range of `i16`.
pub open spec fn adds_in_range(w: NnueWeights, v: i16, fs: Seq<usize>, i: int) -> bool {
    forall|k: int| 0 <= k <= fs.len() ==> i16::MIN <= v + #[trigger] weight_sum(w, fs.take(k), i) <= i16::MAX
}

/// Taking the weights of `fs` from `v` one at a time never leaves the range of `i16`.
pub open spec fn subs_in_range(w: NnueWeights, v: i16, fs: Seq<usize>, i: int) -> bool {
    forall|k: int| 0 <= k <= fs.len() ==> i16::MIN <= v - #[trigger] weight_sum(w, fs.take(k), i) <= i16::MAX
}

/// Adding weights without leaving the range of `i16` adds their sum.
pub proof fn lemma_add_exact(w: NnueWeights, v: i16, fs: Seq<usize>, i: int)
    requires
        adds_in_range(w, v, fs, i),
    ensures
        add_features(w, v, fs, i) == v + weight_sum(w, fs, i),
    decreases fs.len(),
{
    if fs.len() > 0 {
        let t = fs.drop_last();
        assert forall|k: int| 0 <= k <= t.len() implies i16::MIN <= v + #[trigger] weight_sum(w, t.take(k), i)
            <= i16::MAX by {
            assert(t.take(k) =~= fs.take(k));
        }
        lemma_add_exact(w, v, t, i);
        assert(fs.take(fs.len() as int) =~= fs);
        assert(i16::MIN <= v + weight_sum(w, fs.take(fs.len() as int), i) <= i16::MAX);
    } else {
        assert(fs.take(0) =~= fs);
    }
}

/// Taking weights away without leaving the range of `i16` subtracts their sum.
pub proof fn lemma_sub_exact(w: NnueWeights, v: i16, fs: Seq<usize>, i: int)
    requires
        subs_in_range(w, v, fs, i),
    ensures
        sub_features(w, v, fs, i) == v - weight_sum(w, fs, i),
    decreases fs.len(),
{
    if fs.len() > 0 {
        let t = fs.drop_last();
        assert forall|k: int| 0 <= k <= t.len() implies i16::MIN <= v - #[trigger] weight_sum(w, t.take(k), i)
            <= i16::MAX by {
            assert(t.take(k) =~= fs.take(k));
        }
        lemma_sub_exact(w, v, t, i);
        assert(fs.take(fs.len() as int) =~= fs);
        assert(i16::MIN <= v - weight_sum(w, fs.take(fs.len() as int), i) <= i16::MAX);
    } else {
        assert(fs.take(0) =~= fs);
    }
}

/// Sum of the weights that the features in `0..n` selected by `has` give neuron `i`.
pub open spec fn weight_over(w: NnueWeights, has: spec_fn(int) -> bool, i: int, n: int) -> int
    decreases n,
{
    if n <= 0 {
        0
    } else {
        weight_over(w, has, i, n - 1) + if has(n - 1) { w.feature_weights@[n - 1]@[i] as int } else { 0 }
    }
}

/// One if `p` holds, else zero.
pub open spec fn ind(p: bool) -> int {
    if p { 1 } else { 0 }
}

proof fn lemma_weight_over_linear(
    w: NnueWeights,
    p: spec_fn(int) -> bool,
    q: spec_fn(int) -> bool,
    a: spec_fn(int) -> bool,
    r: spec_fn(int) -> bool,
    i: int,
    n: int,
)
    requires
        forall|j: int| 0 <= j < n ==> #[trigger] ind(p(j)) == ind(q(j)) + ind(a(j)) - ind(r(j)),
    ensures
        weight_over(w, p, i, n) == weight_over(w, q, i, n) + weight_over(w, a, i, n) - weight_over(w, r, i, n),
    decreases n,
{
    if n > 0 {
        lemma_weight_over_linear(w, p, q, a, r, i, n - 1);
        assert(ind(p(n - 1)) == ind(q(n - 1)) + ind(a(n - 1)) - ind(r(n - 1)));
    }
}

proof fn lemma_weight_over_single(w: NnueWeights, x: int, i: int, n: int)
    requires
        0 <= x < n,
    ensures
        weight_over(w, single(x), i, n) == w.feature_weights@[x]@[i],
    decreases n,
{
    if n - 1 > x {
        lemma_weight_over_single(w, x, i, n - 1);
    } else {
        lemma_weight_over_none(w, x, i, x);
    }
}

proof fn lemma_weight_over_none(w: NnueWeights, x: int, i: int, n: int)
    requires
        n <= x || x < 0,
    ensures
        weight_over(w, single(x), i, n) == 0,
    decreases n,
{
    if n > 0 {
        lemma_weight_over_none(w, x, i, n - 1);
    }
}

/// The weight sum over a sequence without repeats is the sum over the features it holds.
pub proof fn lemma_weight_sum_set(w: NnueWeights, fs: Seq<usize>, i: int, n: int)
    requires
        fs.no_duplicates(),
        within(fs, 0, n),
        n <= usize::MAX,
    ensures
        weight_sum(w, fs, i) == weight_over(w, in_seq(fs), i, n),
    decreases fs.len(),
{
    if fs.len() == 0 {
        assert forall|j: int| 0 <= j < n implies #[trigger] ind(in_seq(fs)(j)) == ind(single(-1)(j))
            + ind(single(-1)(j)) - ind(single(-1)(j)) by {}
        lemma_weight_over_linear(w, in_seq(fs), single(-1), single(-1), single(-1), i, n);
        lemma_weight_over_none(w, -1, i, n);
    } else {
        let t = fs.drop_last();
        let x = fs.last();
        assert(t.no_duplicates());
        assert(fs[fs.len() - 1] < n);
        lemma_weight_sum_set(w, t, i, n);
        assert forall|j: int| 0 <= j < n implies #[trigger] ind(in_seq(fs)(j)) == ind(in_seq(t)(j))
            + ind(single(x as int)(j)) - ind(single(-1)(j)) by {
            let u = j as usize;
            assert(u as int == j);
            assert(fs[fs.len() - 1] == x);
            assert(fs.contains(x));
            if t.contains(u) {
                let k = choose|k: int| 0 <= k < t.len() && t[k] == u;
                assert(fs[k] == u);
                assert(fs.contains(u));
                assert(fs[k] != fs[fs.len() - 1]);
            } else if fs.contains(u) {
                let k = choose|k: int| 0 <= k < fs.len() && fs[k] == u;
                if k < fs.len() - 1 {
                    assert(t[k] == u);
                }
            }
        }
        lemma_weight_over_linear(w, in_seq(fs), in_seq(t), single(x as int), single(-1), i, n);
        lemma_weight_over_single(w, x as int, i, n);
        lemma_weight_over_none(w, -1, i, n);
    }
}

/// The hidden layer of a position built from its piece features, one neuron at a time.
pub open spec fn neuron(w: NnueWeights, b: Board, i: int) -> i16 {
    add_features(w, w.feature_biases@[i], piece_features(b), i)
}

/// Accumulators follow the moves: taking the weights of the features a generated move removes
/// from a neuron of a position, then adding those of the features it adds, gives the neuron of
/// the new position, as long as no sum on either way leaves the range of `i16` (where the
/// saturating arithmetic would cut it off).
pub proof fn lemma_incremental_accumulator(w: NnueWeights, b: Board, m: Move, nb: Board, i: int)
    requires
        b.valid(),
        move_list(b).contains(m),
        nb.piece_bbs@ == next_bbs(b, m),
        nb.hands@ == next_hands(b, m),
        nb.side_to_move == b.side_to_move.other(),
        adds_in_range(w, w.feature_biases@[i], piece_features(b), i),
        subs_in_range(w, neuron(w, b, i), removed_features(b, m), i),
        adds_in_range(w, sub_features(w, neuron(w, b, i), removed_features(b, m), i), added_features(b, m), i),
        adds_in_range(w, w.feature_biases@[i], piece_features(nb), i),
    ensures
        add_features(w, sub_features(w, neuron(w, b, i), removed_features(b, m), i), added_features(b, m), i)
            == neuron(w, nb, i),
{
    let fa = piece_features(b);
    let fb = piece_features(nb);
    let r = removed_features(b, m);
    let d = added_features(b, m);
    crate::position::lemma_move_list_valid(b, m);
    crate::position::lemma_valid_playable(b);
    assert(nb.valid());
    crate::position::lemma_valid_playable(nb);
    lemma_piece_features(b);
    lemma_piece_features(nb);
    lemma_update_lists(b, m);
    let bias = w.feature_biases@[i];
    lemma_add_exact(w, bias, fa, i);
    lemma_sub_exact(w, neuron(w, b, i), r, i);
    lemma_add_exact(w, sub_features(w, neuron(w, b, i), r, i), d, i);
    lemma_add_exact(w, bias, fb, i);
    lemma_weight_sum_set(w, fa, i, 132);
    lemma_weight_sum_set(w, fb, i, 132);
    lemma_weight_sum_set(w, r, i, 132);
    lemma_weight_sum_set(w, d, i, 132);
    assert forall|j: int| 0 <= j < 132 implies #[trigger] ind(in_seq(fb)(j)) == ind(in_seq(fa)(j))
        + ind(in_seq(d)(j)) - ind(in_seq(r)(j)) by {
        let f = j as usize;
        assert(f as int == j);
        crate::features::lemma_feature_update(b, m, nb, f);
        let s0 = side_feature(b.side_to_move);
        let s1 = side_feature(nb.side_to_move);
        crate::position::lemma_concat_contains(fa, seq![s0], f);
        crate::position::lemma_concat_contains(fb, seq![s1], f);
    }
    lemma_weight_over_linear(w, in_seq(fb), in_seq(fa), in_seq(d), in_seq(r), i, 132);
}

/// A neuron after an update that takes away the weights of `removed`, then adds those of
/// `added` (what `Accumulator::update` does to each neuron).
pub open spec fn updated(w: NnueWeights, v: i16, added: Seq<usize>, removed: Seq<usize>, i: int) -> i16 {
    add_features(w, sub_features(w, v, removed, i), added, i)
}

/// No sum along the update leaves the range of `i16`.
pub open spec fn update_in_range(w: NnueWeights, v: i16, added: Seq<usize>, removed: Seq<usize>, i: int) -> bool {
    subs_in_range(w, v, removed, i) && adds_in_range(w, sub_features(w, v, removed, i), added, i)
}

/// An update undone: updating with `added` and `removed`, then with the two swapped, gives the
/// neuron back, as long as neither update leaves the range of `i16`.
pub proof fn lemma_update_undone(w: NnueWeights, v: i16, added: Seq<usize>, removed: Seq<usize>, i: int)
    requires
        update_in_range(w, v, added, removed, i),
        update_in_range(w, updated(w, v, added, removed, i), removed, added, i),
    ensures
        updated(w, updated(w, v, added, removed, i), removed, added, i) == v,
{
    lemma_sub_exact(w, v, removed, i);
    lemma_add_exact(w, sub_features(w, v, removed, i), added, i);
    let v1 = updated(w, v, added, removed, i);
    lemma_sub_exact(w, v1, added, i);
    lemma_add_exact(w, sub_features(w, v1, added, i), removed, i);
}

/// Sum over the features `0..n` of how often each occurs in `ms` times the weight it gives
/// neuron `i`.
pub open spec fn count_sum(w: NnueWeights, ms: Multiset<usize>, i: int, n: int) -> int
    decreases n,
{
    if n <= 0 {
        0
    } else {
        count_sum(w, ms, i, n - 1) + ms.count((n - 1) as usize) * w.feature_weights@[n - 1]@[i]
    }
}

proof fn lemma_count_sum_insert(w: NnueWeights, ms: Multiset<usize>, x: usize, i: int, n: int)
    requires
        0 <= n <= usize::MAX + 1,
    ensures
        count_sum(w, ms.insert(x), i, n) == count_sum(w, ms, i, n) + (if x < n { w.feature_weights@[x as int]@[i]
            as int } else { 0 }),
    decreases n,
{
    broadcast use vstd::multiset::group_multiset_axioms;

    if n > 0 {
        lemma_count_sum_insert(w, ms, x, i, n - 1);
        let k = (n - 1) as usize;
        let wk = w.feature_weights@[n - 1]@[i] as int;
        if k == x {
            assert(ms.insert(x).count(k) == ms.count(k) + 1);
            assert((ms.count(k) + 1) * wk == ms.count(k) * wk + wk) by (nonlinear_arith);
        } else {
            assert(ms.insert(x).count(k) == ms.count(k));
        }
    }
}

proof fn lemma_weight_sum_counts(w: NnueWeights, fs: Seq<usize>, i: int, n: int)
    requires
        within(fs, 0, n),
        n <= usize::MAX,
    ensures
        weight_sum(w, fs, i) == count_sum(w, fs.to_multiset(), i, n),
    decreases fs.len(),
{
    broadcast use vstd::multiset::group_multiset_axioms;

    if fs.len() == 0 {
        assert forall|x: usize| 0 <= x < n implies #[trigger] fs.to_multiset().count(x) == 0 by {
            vstd::seq_lib::to_multiset_contains(fs, x);
        }
        lemma_count_sum_empty(w, fs.to_multiset(), i, n);
    } else {
        let t = fs.drop_last();
        let x = fs.last();
        assert(fs[fs.len() - 1] < n);
        assert(within(t, 0, n)) by {
            assert forall|j: int| 0 <= j < t.len() implies 0 <= #[trigger] t[j] < n by {
                assert(t[j] == fs[j]);
            }
        }
        lemma_weight_sum_counts(w, t, i, n);
        assert(fs =~= t.push(x));
        vstd::seq_lib::to_multiset_build(t, x);
        lemma_count_sum_insert(w, t.to_multiset(), x, i, n);
    }
}

proof fn lemma_count_sum_empty(w: NnueWeights, ms: Multiset<usize>, i: int, n: int)
    requires
        forall|x: usize| 0 <= x < n ==> #[trigger] ms.count(x) == 0,
    ensures
        count_sum(w, ms, i, n) == 0,
    decreases n,
{
    if n > 0 {
        lemma_count_sum_empty(w, ms, i, n - 1);
        assert(ms.count((n - 1) as usize) == 0);
    }
}

proof fn lemma_count_sum_linear(
    w: NnueWeights,
    m2: Multiset<usize>,
    m1: Multiset<usize>,
    r: Multiset<usize>,
    a: Multiset<usize>,
    i: int,
    n: int,
)
    requires
        forall|f: usize| 0 <= f < n ==> #[trigger] m2.count(f) == m1.count(f) - r.count(f) + a.count(f),
    ensures
        count_sum(w, m2, i, n) == count_sum(w, m1, i, n) - count_sum(w, r, i, n) + count_sum(w, a, i, n),
    decreases n,
{
    if n > 0 {
        lemma_count_sum_linear(w, m2, m1, r, a, i, n - 1);
        let k = (n - 1) as usize;
        let wk = w.feature_weights@[n - 1]@[i] as int;
        let c2 = m2.count(k) as int;
        let c1 = m1.count(k) as int;
        let cr = r.count(k) as int;
        let ca = a.count(k) as int;
        assert(c2 == c1 - cr + ca);
        assert(c2 * wk == c1 * wk - cr * wk + ca * wk) by (nonlinear_arith)
            requires
                c2 == c1 - cr + ca,
        ;
    }
}

/// Incremental updates agree with recomputation: refreshing with features `f`, then updating
/// with `added` and `removed` (where `removed` is part of `f`) gives the neuron that refreshing
/// with `f2` gives, for every `f2` holding the features of `f` less `removed` plus `added` in any
/// order, as long as no sum on either way leaves the range of `i16`.
pub proof fn lemma_update_is_refresh(
    w: NnueWeights,
    f: Seq<usize>,
    removed: Seq<usize>,
    added: Seq<usize>,
    f2: Seq<usize>,
    i: int,
)
    requires
        features_in_range(f),
        features_in_range(removed),
        features_in_range(added),
        features_in_range(f2),
        removed.to_multiset().subset_of(f.to_multiset()),
        f2.to_multiset() == f.to_multiset().sub(removed.to_multiset()).add(added.to_multiset()),
        adds_in_range(w, w.feature_biases@[i], f, i),
        update_in_range(w, add_features(w, w.feature_biases@[i], f, i), added, removed, i),
        adds_in_range(w, w.feature_biases@[i], f2, i),
    ensures
        updated(w, add_features(w, w.feature_biases@[i], f, i), added, removed, i) == add_features(
            w,
            w.feature_biases@[i],
            f2,
            i,
        ),
{
    broadcast use vstd::multiset::group_multiset_axioms;

    let bias = w.feature_biases@[i];
    let v = add_features(w, bias, f, i);
    lemma_add_exact(w, bias, f, i);
    lemma_sub_exact(w, v, removed, i);
    lemma_add_exact(w, sub_features(w, v, removed, i), added, i);
    lemma_add_exact(w, bias, f2, i);
    lemma_weight_sum_counts(w, f, i, 132);
    lemma_weight_sum_counts(w, removed, i, 132);
    lemma_weight_sum_counts(w, added, i, 132);
    lemma_weight_sum_counts(w, f2, i, 132);
    let mf = f.to_multiset();
    let mr = removed.to_multiset();
    let ma = added.to_multiset();
    assert forall|k: usize| 0 <= k < 132 implies #[trigger] f2.to_multiset().count(k) == mf.count(k) - mr.count(k)
        + ma.count(k) by {
        assert(mr.count(k) <= mf.count(k));
    }
    lemma_count_sum_linear(w, f2.to_multiset(), mf, mr, ma, i, 132);
}

} // verus!
