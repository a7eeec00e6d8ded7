use vstd::prelude::*;

verus! {

use crate::bitboard::{has_bit, sq_bit, lemma_on_board};
use crate::board::{Board, Hand, Player, PieceKind, piece_index, lemma_kind_id};
use crate::make_move::{board_feature, hand_feature, hand_count, is_hand_kind, hand_kind, hand_set, piece_at, next_bbs, next_hands, removed_features, added_features, placed_kind};
use crate::move_gen::{Move, move_list};
use crate::position::{lemma_concat_contains, lemma_map_contains, lemma_add_square, lemma_remove_square};
use crate::zobrist::{all_features, bb_features, player_board_features, hand_features, side_feature};

/// Hand count that a hand feature offset (0..6) stands for, and its kind.
pub open spec fn hand_kind_of(off: int) -> PieceKind {
    if off < 2 { PieceKind::Chick } else if off < 4 { PieceKind::Giraffe } else { PieceKind::Elephant }
}

/// Whether the position has feature `f`: a piece on a square (`f < 120`, bitboard `f / 12`,
/// square `f % 12`), a count of a kind in hand (`120 <= f < 132`), or the side to move
/// (132 Sente, 133 Gote).
pub open spec fn has_feature(bbs: Seq<u16>, hands: Seq<Hand>, side: Player, f: int) -> bool {
    if 0 <= f < 120 {
        has_bit(bbs[f / 12], f % 12)
    } else if 120 <= f < 132 {
        let g = f - 120;
        hand_count(hands[g / 6], hand_kind_of(g % 6)) == g % 2 + 1
    } else if f == 132 {
        side == Player::Sente
    } else if f == 133 {
        side == Player::Gote
    } else {
        false
    }
}

proof fn lemma_player_board_features(b: Board, p: Player, n: int, f: usize)
    requires
        0 <= n <= 5,
    ensures
        player_board_features(b, p, n).contains(f) <==> exists|k: int, s: int|
            0 <= k < n && #[trigger] has_bit(b.piece_bbs@[piece_index(p, PieceKind::from_int(k))], s)
                && f == board_feature(p, PieceKind::from_int(k), s) as usize,
    decreases n,
{
    if n > 0 {
        lemma_player_board_features(b, p, n - 1, f);
        let k = PieceKind::from_int(n - 1);
        let bb = b.piece_bbs@[piece_index(p, k)];
        lemma_concat_contains(player_board_features(b, p, n - 1), bb_features(p, k, bb), f);
        lemma_map_contains(bb, |sq: int| board_feature(p, k, sq) as usize, f);
    }
}

proof fn lemma_board_part(b: Board, p: Player, f: usize)
    requires
        b.is_playable(),
    ensures
        player_board_features(b, p, 5).contains(f) <==> (
            (p.index() * 60 <= f < p.index() * 60 + 60) && has_feature(b.piece_bbs@, b.hands@, b.side_to_move, f as int)),
{
    lemma_player_board_features(b, p, 5, f);
    if player_board_features(b, p, 5).contains(f) {
        let (k, s) = choose|k: int, s: int|
            0 <= k < 5 && #[trigger] has_bit(b.piece_bbs@[piece_index(p, PieceKind::from_int(k))], s)
                && f == board_feature(p, PieceKind::from_int(k), s) as usize;
        let kind = PieceKind::from_int(k);
        lemma_kind_id(kind);
        lemma_on_board(b.piece_bbs@[piece_index(p, kind)]);
        assert(0 <= s < 12);
        assert(f as int == (p.index() * 5 + k) * 12 + s);
        assert((f as int) / 12 == p.index() * 5 + k);
        assert((f as int) % 12 == s);
    }
    if (p.index() * 60 <= f < p.index() * 60 + 60) && has_feature(b.piece_bbs@, b.hands@, b.side_to_move, f as int) {
        let fi = f as int;
        let k = (fi / 12) % 5;
        let s = fi % 12;
        assert(fi / 12 == p.index() * 5 + k);
        let kind = PieceKind::from_int(k);
        assert(kind.id() == k);
        assert(piece_index(p, kind) == fi / 12);
        assert(has_bit(b.piece_bbs@[piece_index(p, kind)], s));
        assert(fi == board_feature(p, kind, s));
    }
}

proof fn lemma_singleton_contains<A>(x: A, y: A)
    ensures
        seq![x].contains(y) <==> y == x,
{
    if y == x {
        assert(seq![x][0] == y);
    }
}

proof fn lemma_hand_part(b: Board, p: Player, h: Hand, f: usize)
    requires
        b.is_playable(),
        h == b.hands@[p.index()],
    ensures
        hand_features(p, h).contains(f) <==> (
            (120 + p.index() * 6 <= f < 126 + p.index() * 6) && has_feature(b.piece_bbs@, b.hands@, b.side_to_move, f as int)),
{
    let c = if h.chicks > 0 { seq![hand_feature(p, PieceKind::Chick, h.chicks as int) as usize] } else { Seq::empty() };
    let g = if h.giraffes > 0 { seq![hand_feature(p, PieceKind::Giraffe, h.giraffes as int) as usize] } else { Seq::empty() };
    let e = if h.elephants > 0 { seq![hand_feature(p, PieceKind::Elephant, h.elephants as int) as usize] } else { Seq::empty() };
    lemma_concat_contains(c + g, e, f);
    lemma_concat_contains(c, g, f);
    lemma_singleton_contains(hand_feature(p, PieceKind::Chick, h.chicks as int) as usize, f);
    lemma_singleton_contains(hand_feature(p, PieceKind::Giraffe, h.giraffes as int) as usize, f);
    lemma_singleton_contains(hand_feature(p, PieceKind::Elephant, h.elephants as int) as usize, f);
    assert(c.contains(f) <==> (h.chicks > 0 && f == hand_feature(p, PieceKind::Chick, h.chicks as int) as usize));
    assert(g.contains(f) <==> (h.giraffes > 0 && f == hand_feature(p, PieceKind::Giraffe, h.giraffes as int) as usize));
    assert(e.contains(f) <==> (h.elephants > 0 && f == hand_feature(p, PieceKind::Elephant, h.elephants as int) as usize));
    let fi = f as int;
    if 120 + p.index() * 6 <= fi < 126 + p.index() * 6 {
        let gg = fi - 120;
        assert(gg / 6 == p.index());
    }
}

/// The features that `extract_all_features` lists are exactly those the position has.
pub proof fn lemma_all_features(b: Board, f: usize)
    requires
        b.is_playable(),
    ensures
        all_features(b).contains(f) <==> has_feature(b.piece_bbs@, b.hands@, b.side_to_move, f as int),
{
    let a = player_board_features(b, Player::Sente, 5);
    let g = player_board_features(b, Player::Gote, 5);
    let hs = hand_features(Player::Sente, b.hands@[0]);
    let hg = hand_features(Player::Gote, b.hands@[1]);
    let sd = seq![side_feature(b.side_to_move)];
    lemma_concat_contains(a + g + hs + hg, sd, f);
    lemma_concat_contains(a + g + hs, hg, f);
    lemma_concat_contains(a + g, hs, f);
    lemma_concat_contains(a, g, f);
    lemma_singleton_contains(side_feature(b.side_to_move), f);
    lemma_board_part(b, Player::Sente, f);
    lemma_board_part(b, Player::Gote, f);
    lemma_hand_part(b, Player::Sente, b.hands@[0], f);
    lemma_hand_part(b, Player::Gote, b.hands@[1], f);
}

/// How the features of a position change with a move: every removed feature was there, no
/// added feature was there, and the features after the move are those before, less the removed
/// ones and the old side-to-move flag, plus the added ones and the new side-to-move flag.
pub open spec fn update_exact(b: Board, m: Move, f: usize) -> bool {
    let before = has_feature(b.piece_bbs@, b.hands@, b.side_to_move, f as int);
    let after = has_feature(next_bbs(b, m), next_hands(b, m), b.side_to_move.other(), f as int);
    let removed = removed_features(b, m).contains(f);
    let added = added_features(b, m).contains(f);
    &&& removed ==> before
    &&& added ==> !before
    &&& after <==> ((before && !removed && f != side_feature(b.side_to_move))
        || added || f == side_feature(b.side_to_move.other()))
}

proof fn lemma_hand_set_count(h: Hand, k: PieceKind, v: u8, j: PieceKind)
    requires
        is_hand_kind(k),
    ensures
        hand_count(hand_set(h, k, v), j) == if j == k { v as int } else { hand_count(h, j) },
{
}

proof fn lemma_board_feature_decode(p: Player, k: PieceKind, sq: int)
    requires
        0 <= sq < 12,
    ensures
        0 <= board_feature(p, k, sq) < 120,
        board_feature(p, k, sq) / 12 == piece_index(p, k),
        board_feature(p, k, sq) % 12 == sq,
{
    lemma_kind_id(k);
    assert(board_feature(p, k, sq) == piece_index(p, k) * 12 + sq);
}

proof fn lemma_hand_feature_decode(p: Player, k: PieceKind, c: int)
    requires
        is_hand_kind(k),
        1 <= c <= 2,
    ensures
        120 <= hand_feature(p, k, c) < 132,
        (hand_feature(p, k, c) - 120) / 6 == p.index(),
        hand_kind_of((hand_feature(p, k, c) - 120) % 6) == k,
        (hand_feature(p, k, c) - 120) % 2 + 1 == c,
{
}

proof fn lemma_drop_features(b: Board, k: PieceKind, to: int, f: usize)
    requires
        b.valid(),
        is_hand_kind(k),
        hand_count(b.hands@[b.side_to_move.index()], k) > 0,
        has_bit(crate::move_gen::empty_squares(b), to),
    ensures
        update_exact(b, crate::move_gen::drop_move(k, to), f),
{
    let me = b.side_to_move;
    let m = crate::move_gen::drop_move(k, to);
    crate::position::lemma_valid_facts(b);
    crate::move_gen::lemma_move_roundtrip(15, to as u8, k, false, true);
    assert(0 <= to < 12) by {
        let o = b.occupied_spec(Player::Sente) | b.occupied_spec(Player::Gote);
        crate::bitboard::lemma_bit_and(!o, 0x0FFFu16);
        lemma_on_board(0x0FFFu16);
    }
    let bbs = b.piece_bbs@;
    let i = piece_index(me, k);
    lemma_kind_id(k);
    lemma_add_square(bbs[i], to);
    let h = b.hands@[me.index()];
    let cnt = hand_count(h, k);
    lemma_hand_set_count(h, k, (cnt - 1) as u8, PieceKind::Chick);
    lemma_hand_set_count(h, k, (cnt - 1) as u8, PieceKind::Giraffe);
    lemma_hand_set_count(h, k, (cnt - 1) as u8, PieceKind::Elephant);
    lemma_board_feature_decode(me, k, to);
    lemma_hand_feature_decode(me, k, cnt);
    if cnt - 1 > 0 {
        lemma_hand_feature_decode(me, k, cnt - 1);
    }
    let rm = removed_features(b, m);
    let ad = added_features(b, m);
    let x = f;
    lemma_singleton_contains(hand_feature(me, k, cnt) as usize, x);
    lemma_singleton_contains(hand_feature(me, k, cnt - 1) as usize, x);
    lemma_singleton_contains(board_feature(me, k, to) as usize, x);
    let a1 = if cnt - 1 > 0 { seq![hand_feature(me, k, cnt - 1) as usize] } else { Seq::<usize>::empty() };
    lemma_concat_contains(a1, seq![board_feature(me, k, to) as usize], x);
    assert(rm =~= seq![hand_feature(me, k, cnt) as usize]);
    assert(ad =~= a1 + seq![board_feature(me, k, to) as usize]);
    let fi = f as int;
    let nb = next_bbs(b, m);
    let nh = next_hands(b, m);
    assert(nb == bbs.update(i, bbs[i] | sq_bit(to)));
    assert(nh == b.hands@.update(me.index(), hand_set(h, k, (cnt - 1) as u8)));
    if fi < 120 {
        if fi / 12 == i {
            assert(has_bit(nb[fi / 12], fi % 12) == (has_bit(bbs[i], fi % 12) || fi % 12 == to));
            if fi % 12 == to {
                assert(fi == board_feature(me, k, to));
                assert(!has_bit(bbs[i], to)) by {
                    crate::position::lemma_empty_square(b, to);
                    crate::position::lemma_not_occupied(b, me, to);
                }
            }
        } else {
            assert(nb[fi / 12] == bbs[fi / 12]);
        }
        assert(update_exact(b, m, f));
    } else if fi < 132 {
        assert(update_exact(b, m, f));
    } else {
        assert(update_exact(b, m, f));
    }
}

proof fn lemma_step_quiet_features(b: Board, k: PieceKind, from: int, to: int, f: usize)
    requires
        b.valid(),
        has_bit(b.piece_bbs@[piece_index(b.side_to_move, k)], from),
        has_bit(crate::move_gen::destinations(b, k, from), to),
        piece_at(b, b.side_to_move.other(), to) is None,
    ensures
        update_exact(b, crate::move_gen::step_move(b.side_to_move, k, from, to), f),
{
    let me = b.side_to_move;
    let m = crate::move_gen::step_move(me, k, from, to);
    crate::position::lemma_step_facts(b, k, from, to);
    let bbs = b.piece_bbs@;
    lemma_kind_id(k);
    let ik = piece_index(me, k);
    let pk = placed_kind(m);
    lemma_kind_id(pk);
    let ip = piece_index(me, pk);
    lemma_remove_square(bbs[ik], from);
    let b1 = bbs.update(ik, bbs[ik] & !sq_bit(from));
    lemma_add_square(b1[ip], to);
    let nb = b1.update(ip, b1[ip] | sq_bit(to));
    assert(nb == next_bbs(b, m));
    assert(next_hands(b, m) == b.hands@);
    assert(!has_bit(bbs[ip], to));
    assert(from != to);
    lemma_board_feature_decode(me, k, from);
    lemma_board_feature_decode(me, pk, to);
    let rf = board_feature(me, k, from) as usize;
    let af = board_feature(me, pk, to) as usize;
    lemma_singleton_contains(rf, f);
    lemma_singleton_contains(af, f);
    assert(removed_features(b, m) =~= seq![rf]);
    assert(added_features(b, m) =~= seq![af]);
    let fi = f as int;
    if fi < 120 {
        let j = fi / 12;
        let q = fi % 12;
        if j == ip {
            assert(has_bit(nb[j], q) == (has_bit(b1[ip], q) || q == to));
        } else {
            assert(nb[j] == b1[j]);
        }
        if j == ik {
            assert(has_bit(b1[ik], q) == (has_bit(bbs[ik], q) && q != from));
        } else {
            assert(b1[j] == bbs[j]);
        }
        assert((f == rf) == (j == ik && q == from));
        assert((f == af) == (j == ip && q == to));
        assert(update_exact(b, m, f));
    } else {
        assert(update_exact(b, m, f));
    }
}

/// The lists of a capture, spelled out.
proof fn lemma_capture_lists(b: Board, k: PieceKind, from: int, to: int, c: PieceKind)
    requires
        b.valid(),
        has_bit(b.piece_bbs@[piece_index(b.side_to_move, k)], from),
        has_bit(crate::move_gen::destinations(b, k, from), to),
        piece_at(b, b.side_to_move.other(), to) == Some(c),
    ensures
        ({
            let me = b.side_to_move;
            let m = crate::move_gen::step_move(me, k, from, to);
            let h = b.hands@[me.index()];
            let hk = hand_kind(c);
            let cnt = hand_count(h, hk);
            let rf = board_feature(me, k, from) as usize;
            let cf = board_feature(me.other(), c, to) as usize;
            let af = board_feature(me, placed_kind(m), to) as usize;
            &&& removed_features(b, m) == seq![rf] + (seq![cf] + (if hk != PieceKind::Lion && cnt > 0 {
                seq![hand_feature(me, hk, cnt) as usize] } else { Seq::<usize>::empty() }))
            &&& added_features(b, m) == (if hk != PieceKind::Lion { seq![hand_feature(me, hk, cnt + 1) as usize] }
                else { Seq::<usize>::empty() }) + seq![af]
            &&& hk != PieceKind::Lion ==> cnt <= 1
        }),
{
    let me = b.side_to_move;
    let m = crate::move_gen::step_move(me, k, from, to);
    crate::position::lemma_step_facts(b, k, from, to);
    crate::position::lemma_step_ok(b, k, from, to);
    let h = b.hands@[me.index()];
    let hk = hand_kind(c);
    let cnt = hand_count(h, hk);
    let rf = board_feature(me, k, from) as usize;
    let cf = board_feature(me.other(), c, to) as usize;
    let af = board_feature(me, placed_kind(m), to) as usize;
    let hr = if hk != PieceKind::Lion && cnt > 0 { seq![hand_feature(me, hk, cnt) as usize] } else { Seq::<usize>::empty() };
    let ha = if hk != PieceKind::Lion { seq![hand_feature(me, hk, cnt + 1) as usize] } else { Seq::<usize>::empty() };
    assert(removed_features(b, m) =~= seq![rf] + (seq![cf] + hr));
    assert(added_features(b, m) =~= ha + seq![af]);
}

#[verifier::spinoff_prover]
#[verifier::rlimit(30)]
proof fn lemma_step_capture_board(b: Board, k: PieceKind, from: int, to: int, c: PieceKind, f: usize)
    requires
        b.valid(),
        has_bit(b.piece_bbs@[piece_index(b.side_to_move, k)], from),
        has_bit(crate::move_gen::destinations(b, k, from), to),
        piece_at(b, b.side_to_move.other(), to) == Some(c),
        f < 120,
    ensures
        update_exact(b, crate::move_gen::step_move(b.side_to_move, k, from, to), f),
{
    let me = b.side_to_move;
    let opp = me.other();
    let m = crate::move_gen::step_move(me, k, from, to);
    crate::position::lemma_step_facts(b, k, from, to);
    lemma_capture_lists(b, k, from, to, c);
    let bbs = b.piece_bbs@;
    lemma_kind_id(k);
    lemma_kind_id(c);
    let ik = piece_index(me, k);
    let ic = piece_index(opp, c);
    let pk = placed_kind(m);
    lemma_kind_id(pk);
    let ip = piece_index(me, pk);
    lemma_remove_square(bbs[ik], from);
    let b1 = bbs.update(ik, bbs[ik] & !sq_bit(from));
    lemma_remove_square(b1[ic], to);
    let b2 = b1.update(ic, b1[ic] & !sq_bit(to));
    lemma_add_square(b2[ip], to);
    let nb = b2.update(ip, b2[ip] | sq_bit(to));
    assert(nb == next_bbs(b, m));
    assert(!has_bit(bbs[ip], to));
    assert(has_bit(bbs[ic], to));
    lemma_board_feature_decode(me, k, from);
    lemma_board_feature_decode(me, pk, to);
    lemma_board_feature_decode(opp, c, to);
    let rf = board_feature(me, k, from) as usize;
    let cf = board_feature(opp, c, to) as usize;
    let af = board_feature(me, pk, to) as usize;
    let h = b.hands@[me.index()];
    let hk = hand_kind(c);
    let cnt = hand_count(h, hk);
    let hr = if hk != PieceKind::Lion && cnt > 0 { seq![hand_feature(me, hk, cnt) as usize] } else { Seq::<usize>::empty() };
    let ha = if hk != PieceKind::Lion { seq![hand_feature(me, hk, cnt + 1) as usize] } else { Seq::<usize>::empty() };
    lemma_concat_contains(seq![rf], seq![cf] + hr, f);
    lemma_concat_contains(seq![cf], hr, f);
    lemma_concat_contains(ha, seq![af], f);
    lemma_singleton_contains(rf, f);
    lemma_singleton_contains(cf, f);
    lemma_singleton_contains(af, f);
    if hk != PieceKind::Lion {
        lemma_singleton_contains(hand_feature(me, hk, cnt) as usize, f);
        lemma_singleton_contains(hand_feature(me, hk, cnt + 1) as usize, f);
        lemma_hand_feature_decode(me, hk, cnt + 1);
        if cnt > 0 {
            lemma_hand_feature_decode(me, hk, cnt);
        }
    }
    assert(!hr.contains(f) && !ha.contains(f));
    let fi = f as int;
    let j = fi / 12;
    let q = fi % 12;
    if j == ip {
        assert(has_bit(nb[j], q) == (has_bit(b2[ip], q) || q == to));
    } else {
        assert(nb[j] == b2[j]);
    }
    if j == ic {
        assert(has_bit(b2[ic], q) == (has_bit(b1[ic], q) && q != to));
    } else {
        assert(b2[j] == b1[j]);
    }
    if j == ik {
        assert(has_bit(b1[ik], q) == (has_bit(bbs[ik], q) && q != from));
    } else {
        assert(b1[j] == bbs[j]);
    }
    assert((f == rf) == (j == ik && q == from));
    assert((f == af) == (j == ip && q == to));
    assert((f == cf) == (j == ic && q == to));
}

proof fn lemma_step_capture_hand(b: Board, k: PieceKind, from: int, to: int, c: PieceKind, f: usize)
    requires
        b.valid(),
        has_bit(b.piece_bbs@[piece_index(b.side_to_move, k)], from),
        has_bit(crate::move_gen::destinations(b, k, from), to),
        piece_at(b, b.side_to_move.other(), to) == Some(c),
        f >= 120,
    ensures
        update_exact(b, crate::move_gen::step_move(b.side_to_move, k, from, to), f),
{
    let me = b.side_to_move;
    let opp = me.other();
    let m = crate::move_gen::step_move(me, k, from, to);
    crate::position::lemma_step_facts(b, k, from, to);
    crate::position::lemma_valid_facts(b);
    lemma_capture_lists(b, k, from, to, c);
    lemma_kind_id(k);
    lemma_kind_id(c);
    let pk = placed_kind(m);
    lemma_kind_id(pk);
    lemma_board_feature_decode(me, k, from);
    lemma_board_feature_decode(me, pk, to);
    lemma_board_feature_decode(opp, c, to);
    let rf = board_feature(me, k, from) as usize;
    let cf = board_feature(opp, c, to) as usize;
    let af = board_feature(me, pk, to) as usize;
    let h = b.hands@[me.index()];
    let hk = hand_kind(c);
    let cnt = hand_count(h, hk);
    let hr = if hk != PieceKind::Lion && cnt > 0 { seq![hand_feature(me, hk, cnt) as usize] } else { Seq::<usize>::empty() };
    let ha = if hk != PieceKind::Lion { seq![hand_feature(me, hk, cnt + 1) as usize] } else { Seq::<usize>::empty() };
    lemma_concat_contains(seq![rf], seq![cf] + hr, f);
    lemma_concat_contains(seq![cf], hr, f);
    lemma_concat_contains(ha, seq![af], f);
    lemma_singleton_contains(rf, f);
    lemma_singleton_contains(cf, f);
    lemma_singleton_contains(af, f);
    if hk != PieceKind::Lion {
        lemma_singleton_contains(hand_feature(me, hk, cnt) as usize, f);
        lemma_singleton_contains(hand_feature(me, hk, cnt + 1) as usize, f);
        lemma_hand_feature_decode(me, hk, cnt + 1);
        if cnt > 0 {
            lemma_hand_feature_decode(me, hk, cnt);
        }
        lemma_hand_set_count(h, hk, (cnt + 1) as u8, PieceKind::Chick);
        lemma_hand_set_count(h, hk, (cnt + 1) as u8, PieceKind::Giraffe);
        lemma_hand_set_count(h, hk, (cnt + 1) as u8, PieceKind::Elephant);
        assert(next_hands(b, m) == b.hands@.update(me.index(), hand_set(h, hk, (cnt + 1) as u8)));
    } else {
        assert(next_hands(b, m) == b.hands@);
    }
}

proof fn lemma_step_capture_features(b: Board, k: PieceKind, from: int, to: int, c: PieceKind, f: usize)
    requires
        b.valid(),
        has_bit(b.piece_bbs@[piece_index(b.side_to_move, k)], from),
        has_bit(crate::move_gen::destinations(b, k, from), to),
        piece_at(b, b.side_to_move.other(), to) == Some(c),
    ensures
        update_exact(b, crate::move_gen::step_move(b.side_to_move, k, from, to), f),
{
    if f < 120 {
        lemma_step_capture_board(b, k, from, to, c, f);
    } else {
        lemma_step_capture_hand(b, k, from, to, c, f);
    }
}

/// What `Board::make_move` reports matches what it does: after a generated move of a valid
/// position, every removed feature was a feature of the old position, no added feature was,
/// and the features of the new position are the old ones less the removed ones and the old
/// side-to-move flag, plus the added ones and the new side-to-move flag.
pub proof fn lemma_feature_update(b: Board, m: Move, nb: Board, f: usize)
    requires
        b.valid(),
        move_list(b).contains(m),
        nb.piece_bbs@ == next_bbs(b, m),
        nb.hands@ == next_hands(b, m),
        nb.side_to_move == b.side_to_move.other(),
    ensures
        removed_features(b, m).contains(f) ==> all_features(b).contains(f),
        added_features(b, m).contains(f) ==> !all_features(b).contains(f),
        all_features(nb).contains(f) <==> (
            (all_features(b).contains(f) && !removed_features(b, m).contains(f) && f != side_feature(b.side_to_move))
            || added_features(b, m).contains(f) || f == side_feature(nb.side_to_move)),
{
    crate::position::lemma_move_list_valid(b, m);
    crate::position::lemma_valid_playable(b);
    crate::position::lemma_valid_playable(nb);
    lemma_all_features(b, f);
    lemma_all_features(nb, f);
    crate::position::lemma_move_list_rules(b, m);
    if crate::position::is_drop_move(b, m) {
        let (k, to) = choose|k: PieceKind, to: int|
            is_hand_kind(k) && hand_count(b.hands@[b.side_to_move.index()], k) > 0
                && #[trigger] has_bit(crate::move_gen::empty_squares(b), to) && m == #[trigger] crate::move_gen::drop_move(k, to);
        lemma_drop_features(b, k, to, f);
    } else {
        let (k, from, to) = choose|k: int, from: int, to: int|
            0 <= k < 5
                && #[trigger] has_bit(b.piece_bbs@[piece_index(b.side_to_move, PieceKind::from_int(k))], from)
                && #[trigger] has_bit(crate::move_gen::destinations(b, PieceKind::from_int(k), from), to)
                && m == crate::move_gen::step_move(b.side_to_move, PieceKind::from_int(k), from, to);
        match piece_at(b, b.side_to_move.other(), to) {
            Some(c) => lemma_step_capture_features(b, PieceKind::from_int(k), from, to, c, f),
            None => lemma_step_quiet_features(b, PieceKind::from_int(k), from, to, f),
        }
    }
}

} // verus!
