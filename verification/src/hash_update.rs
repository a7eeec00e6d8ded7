use vstd::prelude::*;

verus! {

use crate::bitboard::{has_bit, on_board, squares, lowest, clear_lowest, lemma_squares, lemma_lowest,
    lemma_clear_lowest_smaller, lemma_on_board};
use crate::board::{Board, Hand, Player, PieceKind, piece_index};
use crate::make_move::{move_ok, xor_keys, board_feature, hand_feature, removed_features, added_features, next_hash,
    next_bbs, next_hands, piece_at, placed_kind};
use crate::move_gen::{Move, move_list};
use crate::zobrist::{ZobristTable, position_hash, all_features, bb_features, player_board_features,
    hand_features, side_feature};
use vstd::seq_lib::lemma_no_dup_in_concat;

/// XOR of `keys[i]` over the indices `i` in `0..n` that `has` selects.
pub open spec fn xor_over(keys: Seq<u64>, has: spec_fn(int) -> bool, n: int) -> u64
    decreases n,
{
    if n <= 0 {
        0
    } else {
        xor_over(keys, has, n - 1) ^ (if has(n - 1) { keys[n - 1] } else { 0u64 })
    }
}

/// The indices selected by exactly one of `p` and `q`.
pub open spec fn sym_diff(p: spec_fn(int) -> bool, q: spec_fn(int) -> bool) -> spec_fn(int) -> bool {
    |i: int| p(i) != q(i)
}

/// The single index `x`.
pub open spec fn single(x: int) -> spec_fn(int) -> bool {
    |i: int| i == x
}

/// The indices that occur in `s`.
pub open spec fn in_seq(s: Seq<usize>) -> spec_fn(int) -> bool {
    |i: int| 0 <= i && s.contains(i as usize)
}

proof fn lemma_xor_over_ext(keys: Seq<u64>, p: spec_fn(int) -> bool, q: spec_fn(int) -> bool, n: int)
    requires
        forall|i: int| 0 <= i < n ==> #[trigger] p(i) == q(i),
    ensures
        xor_over(keys, p, n) == xor_over(keys, q, n),
    decreases n,
{
    if n > 0 {
        lemma_xor_over_ext(keys, p, q, n - 1);
        assert(p(n - 1) == q(n - 1));
    }
}

proof fn lemma_xor_over_sym_diff(keys: Seq<u64>, p: spec_fn(int) -> bool, q: spec_fn(int) -> bool, n: int)
    ensures
        xor_over(keys, sym_diff(p, q), n) == xor_over(keys, p, n) ^ xor_over(keys, q, n),
    decreases n,
{
    if n > 0 {
        lemma_xor_over_sym_diff(keys, p, q, n - 1);
        let a = xor_over(keys, p, n - 1);
        let b = xor_over(keys, q, n - 1);
        let k = keys[n - 1];
        let kp: u64 = if p(n - 1) { k } else { 0u64 };
        let kq: u64 = if q(n - 1) { k } else { 0u64 };
        let kd: u64 = if sym_diff(p, q)(n - 1) { k } else { 0u64 };
        assert(kd == kp ^ kq) by {
            assert(k ^ 0u64 == k && 0u64 ^ k == k && k ^ k == 0u64 && 0u64 ^ 0u64 == 0u64) by (bit_vector);
        }
        assert((a ^ b) ^ (kp ^ kq) == (a ^ kp) ^ (b ^ kq)) by (bit_vector);
    } else {
        assert(0u64 ^ 0u64 == 0u64) by (bit_vector);
    }
}

proof fn lemma_xor_over_single(keys: Seq<u64>, x: int, n: int)
    requires
        0 <= x,
    ensures
        xor_over(keys, single(x), n) == (if x < n { keys[x] } else { 0u64 }),
    decreases n,
{
    if n > 0 {
        lemma_xor_over_single(keys, x, n - 1);
        let k = keys[n - 1];
        let kx = keys[x];
        assert(0u64 ^ 0u64 == 0u64 && 0u64 ^ k == k && kx ^ 0u64 == kx) by (bit_vector);
    }
}

/// Starting the fold from `h` xors `h` into the result.
pub proof fn lemma_xor_keys_shift(h: u64, keys: Seq<u64>, s: Seq<usize>)
    ensures
        xor_keys(h, keys, s) == h ^ xor_keys(0, keys, s),
    decreases s.len(),
{
    if s.len() == 0 {
        assert(h ^ 0u64 == h) by (bit_vector);
    } else {
        lemma_xor_keys_shift(h, keys, s.drop_last());
        let x0 = xor_keys(0, keys, s.drop_last());
        let k = keys[s.last() as int];
        assert((h ^ x0) ^ k == h ^ (x0 ^ k)) by (bit_vector);
    }
}

/// The fold over a sequence without repeats is the XOR over the indices it holds.
pub proof fn lemma_xor_keys_set(keys: Seq<u64>, s: Seq<usize>, n: int)
    requires
        s.no_duplicates(),
        forall|j: int| 0 <= j < s.len() ==> #[trigger] s[j] < n,
        n <= usize::MAX,
    ensures
        xor_keys(0, keys, s) == xor_over(keys, in_seq(s), n),
    decreases s.len(),
{
    if s.len() == 0 {
        assert(xor_over(keys, in_seq(s), n) == xor_over(keys, single(-1), n)) by {
            lemma_xor_over_ext(keys, in_seq(s), single(-1), n);
        }
        lemma_xor_over_zero(keys, n);
    } else {
        let t = s.drop_last();
        let x = s.last();
        assert(t.no_duplicates());
        lemma_xor_keys_set(keys, t, n);
        assert forall|i: int| 0 <= i < n implies #[trigger] in_seq(s)(i) == sym_diff(in_seq(t), single(x as int))(i) by {
            let u = i as usize;
            assert(u as int == i);
            assert(s[s.len() - 1] == x);
            assert(s.contains(x));
            if t.contains(u) {
                let j = choose|j: int| 0 <= j < t.len() && t[j] == u;
                assert(s[j] == u);
                assert(s.contains(u));
                assert(s[j] != s[s.len() - 1]);
                assert(i != x as int);
            } else if s.contains(u) {
                let j = choose|j: int| 0 <= j < s.len() && s[j] == u;
                if j < s.len() - 1 {
                    assert(t[j] == u);
                }
                assert(i == x as int);
            } else {
                assert(i != x as int);
            }
        }
        lemma_xor_over_ext(keys, in_seq(s), sym_diff(in_seq(t), single(x as int)), n);
        lemma_xor_over_sym_diff(keys, in_seq(t), single(x as int), n);
        assert(s[s.len() - 1] < n);
        lemma_xor_over_single(keys, x as int, n);
    }
}

proof fn lemma_xor_over_zero(keys: Seq<u64>, n: int)
    ensures
        xor_over(keys, single(-1), n) == 0,
    decreases n,
{
    if n > 0 {
        lemma_xor_over_zero(keys, n - 1);
        assert(0u64 ^ 0u64 == 0u64) by (bit_vector);
    }
}

/// Every element of `s` lies in `lo..hi`.
pub open spec fn within(s: Seq<usize>, lo: int, hi: int) -> bool {
    forall|j: int| 0 <= j < s.len() ==> lo <= #[trigger] s[j] < hi
}

proof fn lemma_concat_within(a: Seq<usize>, b: Seq<usize>, lo: int, mid: int, hi: int)
    requires
        a.no_duplicates(),
        b.no_duplicates(),
        within(a, lo, mid),
        within(b, mid, hi),
        lo <= mid <= hi,
    ensures
        (a + b).no_duplicates(),
        within(a + b, lo, hi),
{
    assert forall|i: int, j: int| 0 <= i < a.len() && 0 <= j < b.len() implies a[i] != b[j] by {
        assert(a[i] < mid);
        assert(mid <= b[j]);
    }
    lemma_no_dup_in_concat(a, b);
    assert forall|j: int| 0 <= j < (a + b).len() implies lo <= #[trigger] (a + b)[j] < hi by {
        if j < a.len() {
            assert((a + b)[j] == a[j]);
        } else {
            assert((a + b)[j] == b[j - a.len()]);
        }
    }
}

proof fn lemma_squares_no_dup(bb: u16)
    ensures
        squares(bb).no_duplicates(),
    decreases bb,
{
    if bb != 0 {
        lemma_lowest(bb);
        lemma_clear_lowest_smaller(bb);
        lemma_squares_no_dup(clear_lowest(bb));
        lemma_squares(clear_lowest(bb));
        let rest = squares(clear_lowest(bb));
        let x = lowest(bb);
        assert(!rest.contains(x));
        assert forall|i: int, j: int| 0 <= i < 1 && 0 <= j < rest.len() implies seq![x][i] != rest[j] by {
            assert(rest.contains(rest[j]));
        }
        lemma_no_dup_in_concat(seq![x], rest);
        assert(squares(bb) == seq![x].add(rest));
    }
}

proof fn lemma_bb_features(p: Player, k: PieceKind, bb: u16)
    requires
        on_board(bb),
    ensures
        bb_features(p, k, bb).no_duplicates(),
        within(bb_features(p, k, bb), board_feature(p, k, 0), board_feature(p, k, 0) + 12),
{
    crate::board::lemma_kind_id(k);
    lemma_squares(bb);
    lemma_squares_no_dup(bb);
    lemma_on_board(bb);
    let sq = squares(bb);
    let f = bb_features(p, k, bb);
    assert forall|j: int| 0 <= j < sq.len() implies 0 <= #[trigger] sq[j] < 12 by {
        assert(sq.contains(sq[j]));
        assert(has_bit(bb, sq[j]));
    }
    assert forall|j: int| 0 <= j < f.len() implies board_feature(p, k, 0) <= #[trigger] f[j] < board_feature(p, k, 0) + 12 by {
        assert(0 <= sq[j] < 12);
        assert(f[j] == board_feature(p, k, sq[j]) as usize);
    }
    assert forall|i: int, j: int| 0 <= i < f.len() && 0 <= j < f.len() && i != j implies f[i] != f[j] by {
        assert(0 <= sq[i] < 12 && 0 <= sq[j] < 12);
        assert(sq[i] != sq[j]);
        assert(f[i] == board_feature(p, k, sq[i]) as usize);
        assert(f[j] == board_feature(p, k, sq[j]) as usize);
    }
}

proof fn lemma_player_board_features_no_dup(b: Board, p: Player, n: int)
    requires
        0 <= n <= 5,
        b.bitboards_on_board(),
        b.piece_bbs@.len() == 10,
    ensures
        player_board_features(b, p, n).no_duplicates(),
        within(player_board_features(b, p, n), p.index() * 60, p.index() * 60 + n * 12),
    decreases n,
{
    if n > 0 {
        lemma_player_board_features_no_dup(b, p, n - 1);
        let k = PieceKind::from_int(n - 1);
        assert(k.id() == n - 1);
        let bb = b.piece_bbs@[piece_index(p, k)];
        assert(on_board(bb));
        lemma_bb_features(p, k, bb);
        lemma_concat_within(player_board_features(b, p, n - 1), bb_features(p, k, bb),
            p.index() * 60, p.index() * 60 + (n - 1) * 12, p.index() * 60 + n * 12);
    } else {
        assert(player_board_features(b, p, n) =~= Seq::<usize>::empty());
    }
}

proof fn lemma_hand_features_no_dup(p: Player, h: Hand)
    requires
        h.chicks <= 2,
        h.giraffes <= 2,
        h.elephants <= 2,
    ensures
        hand_features(p, h).no_duplicates(),
        within(hand_features(p, h), 120 + p.index() * 6, 126 + p.index() * 6),
{
    let base = 120 + p.index() * 6;
    let c = if h.chicks > 0 { seq![hand_feature(p, PieceKind::Chick, h.chicks as int) as usize] } else { Seq::empty() };
    let g = if h.giraffes > 0 { seq![hand_feature(p, PieceKind::Giraffe, h.giraffes as int) as usize] } else { Seq::empty() };
    let e = if h.elephants > 0 { seq![hand_feature(p, PieceKind::Elephant, h.elephants as int) as usize] } else { Seq::empty() };
    assert(within(c, base, base + 2));
    assert(within(g, base + 2, base + 4));
    assert(within(e, base + 4, base + 6));
    lemma_concat_within(c, g, base, base + 2, base + 4);
    lemma_concat_within(c + g, e, base, base + 4, base + 6);
}

/// The features of a position other than the side to move: pieces on the board, then pieces
/// in hand.
pub open spec fn piece_features(b: Board) -> Seq<usize> {
    player_board_features(b, Player::Sente, 5) + player_board_features(b, Player::Gote, 5)
        + hand_features(Player::Sente, b.hands@[0]) + hand_features(Player::Gote, b.hands@[1])
}

/// The piece features of a position are all different and below 132, and the side-to-move
/// feature follows them.
pub proof fn lemma_piece_features(b: Board)
    requires
        b.is_playable(),
    ensures
        piece_features(b).no_duplicates(),
        within(piece_features(b), 0, 132),
        all_features(b) == piece_features(b) + seq![side_feature(b.side_to_move)],
{
    lemma_player_board_features_no_dup(b, Player::Sente, 5);
    lemma_player_board_features_no_dup(b, Player::Gote, 5);
    assert(b.hands@[0].chicks <= 2 && b.hands@[0].giraffes <= 2 && b.hands@[0].elephants <= 2);
    assert(b.hands@[1].chicks <= 2 && b.hands@[1].giraffes <= 2 && b.hands@[1].elephants <= 2);
    lemma_hand_features_no_dup(Player::Sente, b.hands@[0]);
    lemma_hand_features_no_dup(Player::Gote, b.hands@[1]);
    let a = player_board_features(b, Player::Sente, 5);
    let g = player_board_features(b, Player::Gote, 5);
    let hs = hand_features(Player::Sente, b.hands@[0]);
    let hg = hand_features(Player::Gote, b.hands@[1]);
    lemma_concat_within(a, g, 0, 60, 120);
    lemma_concat_within(a + g, hs, 0, 120, 126);
    lemma_concat_within(a + g + hs, hg, 0, 126, 132);
}

/// The features of a position are all different and below 134.
pub proof fn lemma_all_features_no_dup(b: Board)
    requires
        b.is_playable(),
    ensures
        all_features(b).no_duplicates(),
        within(all_features(b), 0, 134),
{
    lemma_piece_features(b);
    let sd = seq![side_feature(b.side_to_move)];
    assert(within(sd, 132, 134));
    lemma_concat_within(piece_features(b), sd, 0, 132, 134);
}

/// The features a generated move removes, and those it adds, are all different and below 132.
pub proof fn lemma_update_lists(b: Board, m: Move)
    requires
        b.valid(),
        move_list(b).contains(m),
    ensures
        removed_features(b, m).no_duplicates(),
        within(removed_features(b, m), 0, 132),
        added_features(b, m).no_duplicates(),
        within(added_features(b, m), 0, 132),
{
    crate::search::lemma_update_in_range(b, m);
    let r = removed_features(b, m);
    let a = added_features(b, m);
    assert(within(r, 0, 132));
    assert(within(a, 0, 132));
    crate::board::lemma_kind_id(m.kind());
    crate::board::lemma_kind_id(placed_kind(m));
    let me = b.side_to_move;
    let opp = me.other();
    if !m.drops() {
        assert(move_ok(b, m));
        match piece_at(b, opp, m.to_sq()) {
            Some(c) => {
                crate::board::lemma_kind_id(c);
                lemma_distinct_removed_capture(b, m, c);
            },
            None => {
                assert(r.len() == 1);
            },
        }
    } else {
        assert(r.len() == 1);
    }
    assert forall|i: int, j: int| 0 <= i < a.len() && 0 <= j < a.len() && i != j implies a[i] != a[j] by {
        assert(a.len() <= 2);
        if a.len() == 2 {
            assert(a[0] >= 120 || a[1] >= 120);
        }
    }
}

proof fn lemma_distinct_removed_capture(b: Board, m: Move, c: PieceKind)
    requires
        move_ok(b, m),
        !m.drops(),
        piece_at(b, b.side_to_move.other(), m.to_sq()) == Some(c),
        0 <= m.kind().id() < 5,
        0 <= c.id() < 5,
        within(removed_features(b, m), 0, 132),
    ensures
        removed_features(b, m).no_duplicates(),
{
    let r = removed_features(b, m);
    let me = b.side_to_move;
    let opp = me.other();
    assert(r[0] == board_feature(me, m.kind(), m.from_sq() as int) as usize);
    assert(r[1] == board_feature(opp, c, m.to_sq() as int) as usize);
    assert(me.index() != opp.index());
    assert(r[0] != r[1]);
    assert(r.len() <= 3);
    if r.len() == 3 {
        assert(r[2] >= 120);
    }
}

/// Zobrist hashing after a move: the hash `Board::make_move` carries forward from the hash of
/// a position is the hash computed afresh for the new position, except for the keys of the two
/// side-to-move features (132 and 133), which the update leaves out.
pub proof fn lemma_incremental_hash(z: ZobristTable, b: Board, m: Move, nb: Board)
    requires
        b.valid(),
        move_list(b).contains(m),
        nb.piece_bbs@ == next_bbs(b, m),
        nb.hands@ == next_hands(b, m),
        nb.side_to_move == b.side_to_move.other(),
    ensures
        position_hash(z, nb) == next_hash(position_hash(z, b), z, b, m) ^ z.features@[132]
            ^ z.features@[133],
{
    let keys = z.features@;
    let fa = all_features(b);
    let fb = all_features(nb);
    let r = removed_features(b, m);
    let d = added_features(b, m);
    let s0 = side_feature(b.side_to_move);
    let s1 = side_feature(nb.side_to_move);
    crate::position::lemma_move_list_valid(b, m);
    crate::position::lemma_valid_playable(b);
    assert(nb.valid());
    crate::position::lemma_valid_playable(nb);
    lemma_all_features_no_dup(b);
    lemma_all_features_no_dup(nb);
    lemma_update_lists(b, m);
    assert(fa[fa.len() - 1] == s0);
    assert(fa.contains(s0));
    crate::features::lemma_all_features(b, s1);
    // The new features are the old ones with the removed ones, the old side, the added ones
    // and the new side toggled.
    let p1 = sym_diff(in_seq(fa), in_seq(r));
    let p2 = sym_diff(p1, single(s0 as int));
    let p3 = sym_diff(p2, in_seq(d));
    let p4 = sym_diff(p3, single(s1 as int));
    assert forall|i: int| 0 <= i < 134 implies #[trigger] in_seq(fb)(i) == p4(i) by {
        let f = i as usize;
        crate::features::lemma_feature_update(b, m, nb, f);
        if r.contains(f) {
            let j = choose|j: int| 0 <= j < r.len() && r[j] == f;
            assert(r[j] < 132);
        }
        if d.contains(f) {
            let j = choose|j: int| 0 <= j < d.len() && d[j] == f;
            assert(d[j] < 132);
        }
    }
    lemma_xor_over_ext(keys, in_seq(fb), p4, 134);
    lemma_xor_over_sym_diff(keys, p3, single(s1 as int), 134);
    lemma_xor_over_sym_diff(keys, p2, in_seq(d), 134);
    lemma_xor_over_sym_diff(keys, p1, single(s0 as int), 134);
    lemma_xor_over_sym_diff(keys, in_seq(fa), in_seq(r), 134);
    lemma_xor_over_single(keys, s0 as int, 134);
    lemma_xor_over_single(keys, s1 as int, 134);
    lemma_xor_keys_set(keys, fa, 134);
    lemma_xor_keys_set(keys, fb, 134);
    lemma_xor_keys_set(keys, r, 134);
    lemma_xor_keys_set(keys, d, 134);
    let xa = xor_keys(0, keys, fa);
    let xb = xor_keys(0, keys, fb);
    let xr = xor_keys(0, keys, r);
    let xd = xor_keys(0, keys, d);
    let k0 = keys[s0 as int];
    let k1 = keys[s1 as int];
    assert(xb == (((xa ^ xr) ^ k0) ^ xd) ^ k1);
    let ha = position_hash(z, b);
    lemma_xor_keys_shift(ha, keys, r);
    lemma_xor_keys_shift(xor_keys(ha, keys, r), keys, d);
    let sk = z.side_to_move;
    let k132 = keys[132];
    let k133 = keys[133];
    if b.side_to_move == Player::Sente {
        assert(k0 == k132 && k1 == k133);
        assert(ha == xa ^ sk);
        assert(position_hash(z, nb) == xb);
        assert((((xa ^ xr) ^ k132) ^ xd) ^ k133 == ((((xa ^ sk) ^ xr) ^ xd) ^ sk) ^ k132 ^ k133)
            by (bit_vector);
    } else {
        assert(k0 == k133 && k1 == k132);
        assert(ha == xa);
        assert(position_hash(z, nb) == xb ^ sk);
        assert(((((xa ^ xr) ^ k133) ^ xd) ^ k132) ^ sk == (((xa ^ xr) ^ xd) ^ sk) ^ k132 ^ k133)
            by (bit_vector);
    }
}

/// What the hash carried from move to move differs by from the hash of the position after
/// `n` moves: the keys of both side-to-move features after an odd number of moves.
pub open spec fn hash_drift(z: ZobristTable, n: nat) -> u64 {
    if n % 2 == 1 { z.features@[132] ^ z.features@[133] } else { 0 }
}

/// Carrying a hash along a generated move keeps its drift from the position's hash in step
/// with the number of moves.
pub proof fn lemma_hash_drift_step(z: ZobristTable, b: Board, m: Move, nb: Board, h: u64, n: nat)
    requires
        b.valid(),
        move_list(b).contains(m),
        nb.piece_bbs@ == next_bbs(b, m),
        nb.hands@ == next_hands(b, m),
        nb.side_to_move == b.side_to_move.other(),
        h == position_hash(z, b) ^ hash_drift(z, n),
    ensures
        next_hash(h, z, b, m) == position_hash(z, nb) ^ hash_drift(z, n + 1),
{
    lemma_incremental_hash(z, b, m, nb);
    let keys = z.features@;
    let r = removed_features(b, m);
    let d = added_features(b, m);
    let h0 = position_hash(z, b);
    lemma_xor_keys_shift(h, keys, r);
    lemma_xor_keys_shift(xor_keys(h, keys, r), keys, d);
    lemma_xor_keys_shift(h0, keys, r);
    lemma_xor_keys_shift(xor_keys(h0, keys, r), keys, d);
    let xr = xor_keys(0, keys, r);
    let xd = xor_keys(0, keys, d);
    let sk = z.side_to_move;
    let k = keys[132] ^ keys[133];
    let k132 = keys[132];
    let k133 = keys[133];
    let off = hash_drift(z, n);
    if n % 2 == 1 {
        assert(off == k && hash_drift(z, n + 1) == 0);
        assert((((h0 ^ k) ^ xr) ^ xd) ^ sk == ((((h0 ^ xr) ^ xd) ^ sk) ^ k132 ^ k133) ^ 0u64)
            by (bit_vector)
            requires k == k132 ^ k133;
    } else {
        assert(off == 0 && hash_drift(z, n + 1) == k);
        assert((((h0 ^ 0u64) ^ xr) ^ xd) ^ sk == ((((h0 ^ xr) ^ xd) ^ sk) ^ k132 ^ k133) ^ k)
            by (bit_vector)
            requires k == k132 ^ k133;
    }
}

} // verus!
