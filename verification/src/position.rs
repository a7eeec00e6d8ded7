use vstd::prelude::*;

verus! {

use crate::bitboard::{has_bit, on_board, sq_bit, lemma_bit_or, lemma_bit_and, lemma_bit_not, lemma_sq_bit, lemma_on_board};
use crate::board::{Board, Hand, Player, PieceKind, piece_index, lemma_kind_id};
use crate::bitboard::{squares, lemma_squares, lowest, clear_lowest, lemma_lowest, lemma_clear_lowest_smaller};
use crate::move_gen::{Move, step_move, drop_move, target_moves, kind_moves, board_moves, drop_moves, move_list,
    destinations, empty_squares, attack_bb, lemma_attack_bb_rules, lemma_move_roundtrip, in_promotion_zone};
use crate::make_move::{is_hand_kind, hand_count, move_ok, piece_at, next_bbs, next_hands, placed_kind, hand_kind,
    lemma_occupied_piece_at};

/// Number of set bits among bits `0..n`.
pub open spec fn bit_count(bb: u16, n: int) -> int
    decreases n,
{
    if n <= 0 {
        0
    } else {
        bit_count(bb, n - 1) + if has_bit(bb, n - 1) { 1int } else { 0int }
    }
}

/// Number of squares of a bitboard.
pub open spec fn popcount(bb: u16) -> int {
    bit_count(bb, 16)
}

proof fn lemma_bit_count_change(a: u16, b: u16, t: int, n: int)
    requires
        0 <= t < 16,
        forall|i: int| i != t ==> #[trigger] has_bit(a, i) == has_bit(b, i),
        0 <= n <= 16,
    ensures
        bit_count(b, n) - bit_count(a, n) == if t < n {
            (if has_bit(b, t) { 1int } else { 0int }) - (if has_bit(a, t) { 1int } else { 0int })
        } else {
            0int
        },
    decreases n,
{
    if n > 0 {
        lemma_bit_count_change(a, b, t, n - 1);
        assert(has_bit(a, n - 1) == has_bit(b, n - 1) || n - 1 == t);
    }
}

proof fn lemma_bit_count_nonneg(a: u16, n: int)
    ensures
        0 <= bit_count(a, n),
    decreases n,
{
    if n > 0 {
        lemma_bit_count_nonneg(a, n - 1);
    }
}

/// Adding a square to a bitboard adds one to its count unless it was there already.
pub proof fn lemma_add_square(bb: u16, t: int)
    requires
        0 <= t < 12,
    ensures
        popcount(bb | sq_bit(t)) == popcount(bb) + if has_bit(bb, t) { 0int } else { 1int },
        forall|i: int| #[trigger] has_bit(bb | sq_bit(t), i) == (has_bit(bb, i) || i == t),
        on_board(bb) ==> on_board(bb | sq_bit(t)),
{
    lemma_sq_bit(t);
    lemma_bit_or(bb, sq_bit(t));
    lemma_bit_count_change(bb, bb | sq_bit(t), t, 16);
    lemma_on_board(bb);
    lemma_on_board(bb | sq_bit(t));
}

/// Taking a square off a bitboard takes one from its count when it was there.
pub proof fn lemma_remove_square(bb: u16, t: int)
    requires
        0 <= t < 12,
    ensures
        popcount(bb & !sq_bit(t)) == popcount(bb) - if has_bit(bb, t) { 1int } else { 0int },
        forall|i: int| #[trigger] has_bit(bb & !sq_bit(t), i) == (has_bit(bb, i) && i != t),
        on_board(bb) ==> on_board(bb & !sq_bit(t)),
{
    lemma_sq_bit(t);
    lemma_bit_not(sq_bit(t));
    lemma_bit_and(bb, !sq_bit(t));
    assert forall|i: int| #[trigger] has_bit(bb & !sq_bit(t), i) == (has_bit(bb, i) && i != t) by {
        if !(0 <= i < 16) {
            assert(!has_bit(bb, i));
        }
    }
    lemma_bit_count_change(bb, bb & !sq_bit(t), t, 16);
    lemma_on_board(bb);
    lemma_on_board(bb & !sq_bit(t));
}

/// A bitboard with a square on it counts at least one.
pub proof fn lemma_popcount_pos(bb: u16, t: int)
    requires
        0 <= t < 12,
        has_bit(bb, t),
    ensures
        popcount(bb) >= 1,
{
    lemma_remove_square(bb, t);
    lemma_bit_count_nonneg(bb & !sq_bit(t), 16);
}

pub(crate) proof fn lemma_popcount_nonneg(bb: u16)
    ensures
        popcount(bb) >= 0,
{
    lemma_bit_count_nonneg(bb, 16);
}

/// Chicks and hens on the board of both players plus chicks in both hands.
pub open spec fn chick_total(bbs: Seq<u16>, hands: Seq<Hand>) -> int {
    popcount(bbs[3]) + popcount(bbs[4]) + popcount(bbs[8]) + popcount(bbs[9])
        + hands[0].chicks + hands[1].chicks
}

pub open spec fn giraffe_total(bbs: Seq<u16>, hands: Seq<Hand>) -> int {
    popcount(bbs[1]) + popcount(bbs[6]) + hands[0].giraffes + hands[1].giraffes
}

pub open spec fn elephant_total(bbs: Seq<u16>, hands: Seq<Hand>) -> int {
    popcount(bbs[2]) + popcount(bbs[7]) + hands[0].elephants + hands[1].elephants
}

/// A position of animal shogi: every piece is on one of the twelve squares, and there are at
/// most two chicks (counting hens), two giraffes and two elephants on the board and in hand.
pub open spec fn valid_parts(bbs: Seq<u16>, hands: Seq<Hand>) -> bool {
    &&& bbs.len() == 10
    &&& hands.len() == 2
    &&& forall|i: int| 0 <= i < 10 ==> on_board(#[trigger] bbs[i])
    &&& chick_total(bbs, hands) <= 2
    &&& giraffe_total(bbs, hands) <= 2
    &&& elephant_total(bbs, hands) <= 2
}

/// The two positions have the same number of chicks (hens included), giraffes and elephants,
/// on the board and in hand together.
pub open spec fn same_totals(bbs1: Seq<u16>, hands1: Seq<Hand>, bbs2: Seq<u16>, hands2: Seq<Hand>) -> bool {
    &&& chick_total(bbs1, hands1) == chick_total(bbs2, hands2)
    &&& giraffe_total(bbs1, hands1) == giraffe_total(bbs2, hands2)
    &&& elephant_total(bbs1, hands1) == elephant_total(bbs2, hands2)
}

impl Board {
    pub open spec fn valid(self) -> bool {
        valid_parts(self.piece_bbs@, self.hands@)
    }
}

/// Number of squares of a bitboard.
fn count_squares(bb: u16) -> (r: u32)
    ensures
        r == popcount(bb),
        r <= 16,
{
    let mut n: u32 = 0;
    let mut i: u16 = 0;
    while i < 16
        invariant
            i <= 16,
            n == bit_count(bb, i as int),
            n <= i,
        decreases 16 - i,
    {
        if (bb >> i) & 1u16 == 1u16 {
            n += 1;
        }
        i += 1;
    }
    n
}

impl Board {
    /// Whether the position is valid: every bitboard on the board and at most two chicks
    /// (hens included), giraffes and elephants each, on the board and in hand together.
    pub fn is_valid(&self) -> (r: bool)
        ensures
            r == self.valid(),
    {
        let mut i: usize = 0;
        while i < 10
            invariant
                i <= 10,
                forall|j: int| 0 <= j < i ==> on_board(#[trigger] self.piece_bbs@[j]),
            decreases 10 - i,
        {
            if self.piece_bbs[i] >= 0x1000 {
                return false;
            }
            i += 1;
        }
        let bbs = &self.piece_bbs;
        let h0 = self.hands[0];
        let h1 = self.hands[1];
        let chicks = count_squares(bbs[3]) + count_squares(bbs[4]) + count_squares(bbs[8])
            + count_squares(bbs[9]) + h0.chicks as u32 + h1.chicks as u32;
        let giraffes = count_squares(bbs[1]) + count_squares(bbs[6]) + h0.giraffes as u32
            + h1.giraffes as u32;
        let elephants = count_squares(bbs[2]) + count_squares(bbs[7]) + h0.elephants as u32
            + h1.elephants as u32;
        chicks <= 2 && giraffes <= 2 && elephants <= 2
    }
}

/// In a valid position no hand holds more than two pieces of a kind, and every bitboard is on
/// the board.
pub proof fn lemma_valid_facts(b: Board)
    requires
        b.valid(),
    ensures
        b.bitboards_on_board(),
        crate::zobrist::hands_ok(b),
        forall|i: int| 0 <= i < 10 ==> 0 <= #[trigger] popcount(b.piece_bbs@[i]) <= 2 || i == 0 || i == 5,
{
    let bbs = b.piece_bbs@;
    lemma_popcount_nonneg(bbs[1]);
    lemma_popcount_nonneg(bbs[2]);
    lemma_popcount_nonneg(bbs[3]);
    lemma_popcount_nonneg(bbs[4]);
    lemma_popcount_nonneg(bbs[6]);
    lemma_popcount_nonneg(bbs[7]);
    lemma_popcount_nonneg(bbs[8]);
    lemma_popcount_nonneg(bbs[9]);
}

/// The starting position is valid.
pub proof fn lemma_initial_valid()
    ensures
        Board::initial_spec().valid(),
{
    let b = Board::initial_spec();
    let bbs = b.piece_bbs@;
    assert(bbs[0] == 1u16 << 10u16 && bbs[1] == 1u16 << 11u16 && bbs[2] == 1u16 << 9u16 && bbs[3] == 1u16 << 7u16);
    assert(bbs[5] == 1u16 << 1u16 && bbs[6] == 1u16 << 0u16 && bbs[7] == 1u16 << 2u16 && bbs[8] == 1u16 << 4u16);
    assert(bbs[4] == 0 && bbs[9] == 0);
    lemma_sq_bit(10);
    lemma_sq_bit(11);
    lemma_sq_bit(9);
    lemma_sq_bit(7);
    lemma_sq_bit(1);
    lemma_sq_bit(0);
    lemma_sq_bit(2);
    lemma_sq_bit(4);
    crate::bitboard::lemma_zero_has_no_bit();
    lemma_single_count(11);
    lemma_single_count(9);
    lemma_single_count(7);
    lemma_single_count(0);
    lemma_single_count(2);
    lemma_single_count(4);
    lemma_bit_count_zero(16);
    assert(bbs[1] == sq_bit(11) && bbs[2] == sq_bit(9) && bbs[3] == sq_bit(7));
    assert(bbs[6] == sq_bit(0) && bbs[7] == sq_bit(2) && bbs[8] == sq_bit(4));
    assert(bbs[0] == sq_bit(10) && bbs[5] == sq_bit(1));
    assert(forall|i: int| 0 <= i < 10 ==> on_board(#[trigger] bbs[i]));
}

proof fn lemma_bit_count_zero(n: int)
    ensures
        bit_count(0u16, n) == 0,
    decreases n,
{
    crate::bitboard::lemma_zero_has_no_bit();
    if n > 0 {
        lemma_bit_count_zero(n - 1);
    }
}

proof fn lemma_single_count(t: int)
    requires
        0 <= t < 12,
    ensures
        popcount(sq_bit(t)) == 1,
{
    lemma_add_square(0, t);
    crate::bitboard::lemma_zero_has_no_bit();
    lemma_bit_count_zero(16);
    let z = sq_bit(t);
    assert(0u16 | z == z) by (bit_vector);
}

/// A move of a piece of the side to move along its movement rules to a square that holds no
/// piece of its own side.
pub open spec fn is_step_move(b: Board, m: Move) -> bool {
    exists|k: int, from: int, to: int|
        0 <= k < 5
            && #[trigger] has_bit(b.piece_bbs@[piece_index(b.side_to_move, PieceKind::from_int(k))], from)
            && #[trigger] has_bit(destinations(b, PieceKind::from_int(k), from), to)
            && m == step_move(b.side_to_move, PieceKind::from_int(k), from, to)
}

/// A drop of a chick, elephant or giraffe that the side to move holds, on an empty square.
pub open spec fn is_drop_move(b: Board, m: Move) -> bool {
    exists|k: PieceKind, to: int|
        is_hand_kind(k) && hand_count(b.hands@[b.side_to_move.index()], k) > 0
            && #[trigger] has_bit(empty_squares(b), to) && m == #[trigger] drop_move(k, to)
}

pub(crate) proof fn lemma_concat_contains<A>(a: Seq<A>, b: Seq<A>, x: A)
    ensures
        (a + b).contains(x) <==> (a.contains(x) || b.contains(x)),
{
    if (a + b).contains(x) {
        let i = choose|i: int| 0 <= i < (a + b).len() && (a + b)[i] == x;
        if i >= a.len() {
            assert(b[i - a.len()] == x);
        }
    }
    if a.contains(x) {
        let i = choose|i: int| 0 <= i < a.len() && a[i] == x;
        assert((a + b)[i] == x);
    }
    if b.contains(x) {
        let i = choose|i: int| 0 <= i < b.len() && b[i] == x;
        assert((a + b)[a.len() + i] == x);
    }
}

pub(crate) proof fn lemma_map_contains<B>(bb: u16, f: spec_fn(int) -> B, x: B)
    ensures
        squares(bb).map_values(f).contains(x) <==> exists|s: int| #[trigger] has_bit(bb, s) && f(s) == x,
{
    lemma_squares(bb);
    let sm = squares(bb).map_values(f);
    if sm.contains(x) {
        let i = choose|i: int| 0 <= i < sm.len() && sm[i] == x;
        let s = squares(bb)[i];
        assert(squares(bb).contains(s));
        assert(has_bit(bb, s) && f(s) == x);
    }
    if exists|s: int| #[trigger] has_bit(bb, s) && f(s) == x {
        let s = choose|s: int| #[trigger] has_bit(bb, s) && f(s) == x;
        assert(squares(bb).contains(s));
        let i = choose|i: int| 0 <= i < squares(bb).len() && squares(bb)[i] == s;
        assert(sm[i] == x);
    }
}

proof fn lemma_kind_moves_contains(b: Board, k: PieceKind, froms: u16, m: Move)
    ensures
        kind_moves(b, k, froms).contains(m) <==> exists|from: int, to: int|
            #[trigger] has_bit(froms, from) && #[trigger] has_bit(destinations(b, k, from), to)
                && m == step_move(b.side_to_move, k, from, to),
    decreases froms,
{
    let me = b.side_to_move;
    if froms == 0 {
        crate::bitboard::lemma_zero_has_no_bit();
    } else {
        lemma_lowest(froms);
        lemma_clear_lowest_smaller(froms);
        lemma_kind_moves_contains(b, k, clear_lowest(froms), m);
        let low = lowest(froms);
        let f = |to: int| step_move(me, k, low, to);
        lemma_concat_contains(
            target_moves(me, k, low, destinations(b, k, low)),
            kind_moves(b, k, clear_lowest(froms)),
            m,
        );
        lemma_map_contains(destinations(b, k, low), f, m);
        if exists|from: int, to: int|
            #[trigger] has_bit(froms, from) && #[trigger] has_bit(destinations(b, k, from), to)
                && m == step_move(me, k, from, to) {
            let (from, to) = choose|from: int, to: int|
                #[trigger] has_bit(froms, from) && #[trigger] has_bit(destinations(b, k, from), to)
                    && m == step_move(me, k, from, to);
            if from == low {
                assert(has_bit(destinations(b, k, low), to) && f(to) == m);
            } else {
                assert(has_bit(clear_lowest(froms), from));
            }
        }
    }
}

proof fn lemma_board_moves_contains(b: Board, n: int, m: Move)
    requires
        0 <= n <= 5,
    ensures
        board_moves(b, n).contains(m) <==> exists|k: int, from: int, to: int|
            0 <= k < n
                && #[trigger] has_bit(b.piece_bbs@[piece_index(b.side_to_move, PieceKind::from_int(k))], from)
                && #[trigger] has_bit(destinations(b, PieceKind::from_int(k), from), to)
                && m == step_move(b.side_to_move, PieceKind::from_int(k), from, to),
    decreases n,
{
    if n > 0 {
        lemma_board_moves_contains(b, n - 1, m);
        let k = PieceKind::from_int(n - 1);
        let bb = b.piece_bbs@[piece_index(b.side_to_move, k)];
        lemma_concat_contains(board_moves(b, n - 1), kind_moves(b, k, bb), m);
        lemma_kind_moves_contains(b, k, bb, m);
    }
}

proof fn lemma_drop_moves_contains(k: PieceKind, e: u16, m: Move)
    ensures
        drop_moves(k, e).contains(m) <==> exists|to: int| #[trigger] has_bit(e, to) && m == drop_move(k, to),
{
    lemma_map_contains(e, |to: int| drop_move(k, to), m);
}

/// The generated moves are exactly the moves that the rules allow: a piece of the side to move
/// stepping to a square it attacks that holds no piece of its own side (a chick promoting on
/// the far row), or a drop from the hand on an empty square.
pub proof fn lemma_move_list_rules(b: Board, m: Move)
    ensures
        move_list(b).contains(m) <==> (is_step_move(b, m) || is_drop_move(b, m)),
{
    let me = b.side_to_move;
    let hand = b.hands@[me.index()];
    let e = empty_squares(b);
    let a = board_moves(b, 5);
    let c = if hand.chicks > 0 { drop_moves(PieceKind::Chick, e) } else { Seq::empty() };
    let el = if hand.elephants > 0 { drop_moves(PieceKind::Elephant, e) } else { Seq::empty() };
    let g = if hand.giraffes > 0 { drop_moves(PieceKind::Giraffe, e) } else { Seq::empty() };
    lemma_concat_contains(a + c + el, g, m);
    lemma_concat_contains(a + c, el, m);
    lemma_concat_contains(a, c, m);
    lemma_board_moves_contains(b, 5, m);
    lemma_drop_moves_contains(PieceKind::Chick, e, m);
    lemma_drop_moves_contains(PieceKind::Elephant, e, m);
    lemma_drop_moves_contains(PieceKind::Giraffe, e, m);
    if is_drop_move(b, m) {
        let (k, to) = choose|k: PieceKind, to: int|
            is_hand_kind(k) && hand_count(b.hands@[b.side_to_move.index()], k) > 0
                && #[trigger] has_bit(empty_squares(b), to) && m == #[trigger] drop_move(k, to);
        assert(has_bit(e, to) && m == drop_move(k, to));
    }
    if exists|to: int| #[trigger] has_bit(e, to) && m == drop_move(PieceKind::Chick, to) {
        let to = choose|to: int| #[trigger] has_bit(e, to) && m == drop_move(PieceKind::Chick, to);
        if hand.chicks > 0 {
            assert(is_hand_kind(PieceKind::Chick) && hand_count(hand, PieceKind::Chick) > 0);
        }
    }
    if exists|to: int| #[trigger] has_bit(e, to) && m == drop_move(PieceKind::Elephant, to) {
        let to = choose|to: int| #[trigger] has_bit(e, to) && m == drop_move(PieceKind::Elephant, to);
        if hand.elephants > 0 {
            assert(is_hand_kind(PieceKind::Elephant) && hand_count(hand, PieceKind::Elephant) > 0);
        }
    }
    if exists|to: int| #[trigger] has_bit(e, to) && m == drop_move(PieceKind::Giraffe, to) {
        let to = choose|to: int| #[trigger] has_bit(e, to) && m == drop_move(PieceKind::Giraffe, to);
        if hand.giraffes > 0 {
            assert(is_hand_kind(PieceKind::Giraffe) && hand_count(hand, PieceKind::Giraffe) > 0);
        }
    }
}

/// A generated move promotes exactly when it is a board move of a chick that lands on the
/// mover's far row: squares 0-2 for Sente, 9-11 for Gote. Drops and other pieces never promote.
pub proof fn lemma_chick_promotion(b: Board, m: Move)
    requires
        b.valid(),
        move_list(b).contains(m),
    ensures
        m.promotes() <==> (!m.drops() && m.kind() == PieceKind::Chick && (if b.side_to_move == Player::Sente {
            m.to_sq() <= 2
        } else {
            9 <= m.to_sq() <= 11
        })),
        m.drops() ==> !m.promotes(),
{
    lemma_move_list_rules(b, m);
    if is_drop_move(b, m) {
        let (k, to) = choose|k: PieceKind, to: int|
            is_hand_kind(k) && hand_count(b.hands@[b.side_to_move.index()], k) > 0
                && #[trigger] has_bit(empty_squares(b), to) && m == #[trigger] drop_move(k, to);
        crate::move_gen::lemma_move_roundtrip(15, to as u8, k, false, true);
    } else {
        let (k, from, to) = choose|k: int, from: int, to: int|
            0 <= k < 5
                && #[trigger] has_bit(b.piece_bbs@[piece_index(b.side_to_move, PieceKind::from_int(k))], from)
                && #[trigger] has_bit(destinations(b, PieceKind::from_int(k), from), to)
                && m == step_move(b.side_to_move, PieceKind::from_int(k), from, to);
        let kind = PieceKind::from_int(k);
        crate::move_gen::lemma_move_roundtrip(
            from as u8,
            to as u8,
            kind,
            kind == PieceKind::Chick && crate::move_gen::in_promotion_zone(b.side_to_move, to),
            false,
        );
        lemma_valid_facts(b);
        lemma_kind_id(kind);
        lemma_on_board(b.piece_bbs@[piece_index(b.side_to_move, kind)]);
        lemma_attack_bb_rules(b.side_to_move, kind, from);
        lemma_bit_and(attack_bb(b.side_to_move, kind, from), !b.occupied_spec(b.side_to_move));
        assert(has_bit(attack_bb(b.side_to_move, kind, from), to));
    }
}

/// No bitboard of a player holds a square that the player does not occupy.
pub proof fn lemma_not_occupied(b: Board, p: Player, t: int)
    requires
        !has_bit(b.occupied_spec(p), t),
    ensures
        forall|k: PieceKind| !#[trigger] has_bit(b.piece_bbs@[piece_index(p, k)], t),
{
    lemma_occupied_piece_at(b, p, t);
}

pub(crate) proof fn lemma_empty_square(b: Board, t: int)
    requires
        has_bit(empty_squares(b), t),
    ensures
        0 <= t < 12,
        !has_bit(b.occupied_spec(Player::Sente), t),
        !has_bit(b.occupied_spec(Player::Gote), t),
{
    let o = b.occupied_spec(Player::Sente) | b.occupied_spec(Player::Gote);
    lemma_bit_and(!o, 0x0FFFu16);
    lemma_bit_not(o);
    lemma_bit_or(b.occupied_spec(Player::Sente), b.occupied_spec(Player::Gote));
    lemma_on_board(0x0FFFu16);
}

/// A drop of a held piece on an empty square of a valid position can be made, and the
/// position after it is valid.
proof fn lemma_drop_valid(b: Board, k: PieceKind, to: int)
    requires
        b.valid(),
        is_hand_kind(k),
        hand_count(b.hands@[b.side_to_move.index()], k) > 0,
        has_bit(empty_squares(b), to),
    ensures
        move_ok(b, drop_move(k, to)),
        valid_parts(next_bbs(b, drop_move(k, to)), next_hands(b, drop_move(k, to))),
        same_totals(next_bbs(b, drop_move(k, to)), next_hands(b, drop_move(k, to)), b.piece_bbs@,
            b.hands@),
{
    let me = b.side_to_move;
    let m = drop_move(k, to);
    lemma_empty_square(b, to);
    lemma_move_roundtrip(15, to as u8, k, false, true);
    lemma_valid_facts(b);
    lemma_not_occupied(b, me, to);
    lemma_not_occupied(b, me.other(), to);
    let bbs = b.piece_bbs@;
    let i = piece_index(me, k);
    lemma_add_square(bbs[i], to);
    assert(!has_bit(bbs[i], to));
    let nb = next_bbs(b, m);
    assert(nb == bbs.update(i, bbs[i] | sq_bit(to)));
    assert(forall|j: int| 0 <= j < 10 ==> on_board(#[trigger] nb[j]));
}

proof fn lemma_update_totals(bbs: Seq<u16>, hands: Seq<Hand>, i: int, v: u16)
    requires
        bbs.len() == 10,
        hands.len() == 2,
        0 <= i < 10,
    ensures
        chick_total(bbs.update(i, v), hands) == chick_total(bbs, hands)
            + if i == 3 || i == 4 || i == 8 || i == 9 { popcount(v) - popcount(bbs[i]) } else { 0 },
        giraffe_total(bbs.update(i, v), hands) == giraffe_total(bbs, hands)
            + if i == 1 || i == 6 { popcount(v) - popcount(bbs[i]) } else { 0 },
        elephant_total(bbs.update(i, v), hands) == elephant_total(bbs, hands)
            + if i == 2 || i == 7 { popcount(v) - popcount(bbs[i]) } else { 0 },
{
}

proof fn lemma_hand_totals(bbs: Seq<u16>, hands: Seq<Hand>, p: int, h: Hand)
    requires
        bbs.len() == 10,
        hands.len() == 2,
        0 <= p < 2,
    ensures
        chick_total(bbs, hands.update(p, h)) == chick_total(bbs, hands) - hands[p].chicks + h.chicks,
        giraffe_total(bbs, hands.update(p, h)) == giraffe_total(bbs, hands) - hands[p].giraffes + h.giraffes,
        elephant_total(bbs, hands.update(p, h)) == elephant_total(bbs, hands) - hands[p].elephants + h.elephants,
{
}

/// Facts on a step move: its parts, and that its destination holds no piece of the mover.
pub proof fn lemma_step_facts(b: Board, k: PieceKind, from: int, to: int)
    requires
        b.valid(),
        has_bit(b.piece_bbs@[piece_index(b.side_to_move, k)], from),
        has_bit(destinations(b, k, from), to),
    ensures
        0 <= from < 12,
        0 <= to < 12,
        step_move(b.side_to_move, k, from, to).from_sq() == from,
        step_move(b.side_to_move, k, from, to).to_sq() == to,
        step_move(b.side_to_move, k, from, to).kind() == k,
        step_move(b.side_to_move, k, from, to).kind_bits() == k.id(),
        !step_move(b.side_to_move, k, from, to).drops(),
        placed_kind(step_move(b.side_to_move, k, from, to)) == k
            || (k == PieceKind::Chick && placed_kind(step_move(b.side_to_move, k, from, to)) == PieceKind::Hen),
        forall|j: PieceKind| !#[trigger] has_bit(b.piece_bbs@[piece_index(b.side_to_move, j)], to),
{
    let me = b.side_to_move;
    lemma_valid_facts(b);
    lemma_kind_id(k);
    let ik = piece_index(me, k);
    lemma_on_board(b.piece_bbs@[ik]);
    let att = attack_bb(me, k, from);
    let own = b.occupied_spec(me);
    lemma_bit_and(att, !own);
    lemma_bit_not(own);
    lemma_attack_bb_rules(me, k, from);
    lemma_not_occupied(b, me, to);
    let promote = k == PieceKind::Chick && in_promotion_zone(me, to);
    lemma_move_roundtrip(from as u8, to as u8, k, promote, false);
}

pub(crate) proof fn lemma_step_ok(b: Board, k: PieceKind, from: int, to: int)
    requires
        b.valid(),
        has_bit(b.piece_bbs@[piece_index(b.side_to_move, k)], from),
        has_bit(destinations(b, k, from), to),
    ensures
        move_ok(b, step_move(b.side_to_move, k, from, to)),
{
    lemma_step_facts(b, k, from, to);
    lemma_valid_facts(b);
    let opp = b.side_to_move.other();
    let bbs = b.piece_bbs@;
    match piece_at(b, opp, to) {
        Some(c) => {
            let ic = piece_index(opp, c);
            lemma_popcount_pos(bbs[ic], to);
            lemma_popcount_nonneg(bbs[1]);
            lemma_popcount_nonneg(bbs[2]);
            lemma_popcount_nonneg(bbs[3]);
            lemma_popcount_nonneg(bbs[4]);
            lemma_popcount_nonneg(bbs[6]);
            lemma_popcount_nonneg(bbs[7]);
            lemma_popcount_nonneg(bbs[8]);
            lemma_popcount_nonneg(bbs[9]);
        },
        None => {},
    }
}

proof fn lemma_update_on_board(bbs: Seq<u16>, i: int, v: u16)
    requires
        bbs.len() == 10,
        0 <= i < 10,
        forall|j: int| 0 <= j < 10 ==> on_board(#[trigger] bbs[j]),
        on_board(v),
    ensures
        forall|j: int| 0 <= j < 10 ==> on_board(#[trigger] bbs.update(i, v)[j]),
{
}

/// The bitboards after lifting the moving piece.
spec fn lifted(b: Board, k: PieceKind, from: int) -> Seq<u16> {
    b.piece_bbs@.update(piece_index(b.side_to_move, k), b.piece_bbs@[piece_index(b.side_to_move, k)] & !sq_bit(from))
}

proof fn lemma_lifted(b: Board, k: PieceKind, from: int)
    requires
        b.valid(),
        0 <= from < 12,
        has_bit(b.piece_bbs@[piece_index(b.side_to_move, k)], from),
    ensures
        lifted(b, k, from).len() == 10,
        forall|j: int| 0 <= j < 10 ==> on_board(#[trigger] lifted(b, k, from)[j]),
        chick_total(lifted(b, k, from), b.hands@) + 1 == chick_total(b.piece_bbs@, b.hands@)
            || k == PieceKind::Lion || k == PieceKind::Giraffe || k == PieceKind::Elephant,
        giraffe_total(lifted(b, k, from), b.hands@) + 1 == giraffe_total(b.piece_bbs@, b.hands@)
            || k != PieceKind::Giraffe,
        elephant_total(lifted(b, k, from), b.hands@) + 1 == elephant_total(b.piece_bbs@, b.hands@)
            || k != PieceKind::Elephant,
        k == PieceKind::Lion || k == PieceKind::Giraffe ==> chick_total(lifted(b, k, from), b.hands@) == chick_total(b.piece_bbs@, b.hands@),
        k == PieceKind::Elephant ==> chick_total(lifted(b, k, from), b.hands@) == chick_total(b.piece_bbs@, b.hands@),
        k != PieceKind::Giraffe ==> giraffe_total(lifted(b, k, from), b.hands@) == giraffe_total(b.piece_bbs@, b.hands@),
        k != PieceKind::Elephant ==> elephant_total(lifted(b, k, from), b.hands@) == elephant_total(b.piece_bbs@, b.hands@),
        forall|j: int, t: int| 0 <= j < 10 && #[trigger] has_bit(lifted(b, k, from)[j], t) ==> has_bit(b.piece_bbs@[j], t),
{
    let bbs = b.piece_bbs@;
    let ik = piece_index(b.side_to_move, k);
    lemma_kind_id(k);
    lemma_remove_square(bbs[ik], from);
    lemma_update_totals(bbs, b.hands@, ik, bbs[ik] & !sq_bit(from));
    lemma_update_on_board(bbs, ik, bbs[ik] & !sq_bit(from));
}

proof fn lemma_step_after_quiet(b: Board, k: PieceKind, from: int, to: int)
    requires
        b.valid(),
        has_bit(b.piece_bbs@[piece_index(b.side_to_move, k)], from),
        has_bit(destinations(b, k, from), to),
        piece_at(b, b.side_to_move.other(), to) is None,
    ensures
        valid_parts(next_bbs(b, step_move(b.side_to_move, k, from, to)),
            next_hands(b, step_move(b.side_to_move, k, from, to))),
        same_totals(next_bbs(b, step_move(b.side_to_move, k, from, to)),
            next_hands(b, step_move(b.side_to_move, k, from, to)), b.piece_bbs@, b.hands@),
{
    let me = b.side_to_move;
    let m = step_move(me, k, from, to);
    lemma_step_facts(b, k, from, to);
    lemma_lifted(b, k, from);
    let b1 = lifted(b, k, from);
    let pk = placed_kind(m);
    lemma_kind_id(pk);
    let ip = piece_index(me, pk);
    assert(!has_bit(b.piece_bbs@[ip], to));
    assert(!has_bit(b1[ip], to));
    lemma_add_square(b1[ip], to);
    lemma_update_totals(b1, b.hands@, ip, b1[ip] | sq_bit(to));
    lemma_update_on_board(b1, ip, b1[ip] | sq_bit(to));
    assert(b1.update(ip, b1[ip] | sq_bit(to)) == next_bbs(b, m));
}

#[verifier::spinoff_prover]
#[verifier::rlimit(60)]
proof fn lemma_step_after_capture(b: Board, k: PieceKind, from: int, to: int, c: PieceKind)
    requires
        b.valid(),
        has_bit(b.piece_bbs@[piece_index(b.side_to_move, k)], from),
        has_bit(destinations(b, k, from), to),
        piece_at(b, b.side_to_move.other(), to) == Some(c),
    ensures
        valid_parts(next_bbs(b, step_move(b.side_to_move, k, from, to)),
            next_hands(b, step_move(b.side_to_move, k, from, to))),
        same_totals(next_bbs(b, step_move(b.side_to_move, k, from, to)),
            next_hands(b, step_move(b.side_to_move, k, from, to)), b.piece_bbs@, b.hands@),
{
    let me = b.side_to_move;
    let opp = me.other();
    let hands = b.hands@;
    let m = step_move(me, k, from, to);
    lemma_step_facts(b, k, from, to);
    lemma_lifted(b, k, from);
    let b1 = lifted(b, k, from);
    lemma_kind_id(c);
    let ic = piece_index(opp, c);
    assert(has_bit(b.piece_bbs@[ic], to));
    assert(b1[ic] == b.piece_bbs@[ic]);
    lemma_remove_square(b1[ic], to);
    lemma_update_totals(b1, hands, ic, b1[ic] & !sq_bit(to));
    lemma_update_on_board(b1, ic, b1[ic] & !sq_bit(to));
    let b2 = b1.update(ic, b1[ic] & !sq_bit(to));
    let pk = placed_kind(m);
    lemma_kind_id(pk);
    let ip = piece_index(me, pk);
    assert(!has_bit(b.piece_bbs@[ip], to));
    assert(!has_bit(b2[ip], to));
    lemma_add_square(b2[ip], to);
    lemma_update_totals(b2, hands, ip, b2[ip] | sq_bit(to));
    lemma_update_on_board(b2, ip, b2[ip] | sq_bit(to));
    let nb = b2.update(ip, b2[ip] | sq_bit(to));
    assert(nb == next_bbs(b, m));
    let hk = hand_kind(c);
    let bbs = b.piece_bbs@;
    assert(popcount(b1[ic] & !sq_bit(to)) == popcount(b1[ic]) - 1);
    assert(popcount(b2[ip] | sq_bit(to)) == popcount(b2[ip]) + 1);
    assert(pk == k || (k == PieceKind::Chick && pk == PieceKind::Hen));
    let in_chicks = |q: PieceKind| if q == PieceKind::Chick || q == PieceKind::Hen { 1int } else { 0int };
    let in_giraffes = |q: PieceKind| if q == PieceKind::Giraffe { 1int } else { 0int };
    let in_elephants = |q: PieceKind| if q == PieceKind::Elephant { 1int } else { 0int };
    assert(chick_total(b1, hands) == chick_total(bbs, hands) - in_chicks(k));
    assert(giraffe_total(b1, hands) == giraffe_total(bbs, hands) - in_giraffes(k));
    assert(elephant_total(b1, hands) == elephant_total(bbs, hands) - in_elephants(k));
    assert(chick_total(b2, hands) == chick_total(b1, hands) - in_chicks(c));
    assert(giraffe_total(b2, hands) == giraffe_total(b1, hands) - in_giraffes(c));
    assert(elephant_total(b2, hands) == elephant_total(b1, hands) - in_elephants(c));
    assert(chick_total(nb, hands) == chick_total(b2, hands) + in_chicks(pk));
    assert(giraffe_total(nb, hands) == giraffe_total(b2, hands) + in_giraffes(pk));
    assert(elephant_total(nb, hands) == elephant_total(b2, hands) + in_elephants(pk));
    if hk != PieceKind::Lion {
        let h = hands[me.index()];
        lemma_valid_facts(b);
        assert(h.chicks <= 2 && h.giraffes <= 2 && h.elephants <= 2);
        assert(hand_count(h, hk) <= 2);
        let nh = hands.update(me.index(), crate::make_move::hand_set(h, hk, (hand_count(h, hk) + 1) as u8));
        assert(nh == next_hands(b, m));
        lemma_hand_totals(nb, hands, me.index(), crate::make_move::hand_set(h, hk, (hand_count(h, hk) + 1) as u8));
    } else {
        assert(hands == next_hands(b, m));
    }
}

proof fn lemma_step_after(b: Board, k: PieceKind, from: int, to: int)
    requires
        b.valid(),
        has_bit(b.piece_bbs@[piece_index(b.side_to_move, k)], from),
        has_bit(destinations(b, k, from), to),
    ensures
        valid_parts(next_bbs(b, step_move(b.side_to_move, k, from, to)),
            next_hands(b, step_move(b.side_to_move, k, from, to))),
        same_totals(next_bbs(b, step_move(b.side_to_move, k, from, to)),
            next_hands(b, step_move(b.side_to_move, k, from, to)), b.piece_bbs@, b.hands@),
{
    match piece_at(b, b.side_to_move.other(), to) {
        Some(c) => lemma_step_after_capture(b, k, from, to, c),
        None => lemma_step_after_quiet(b, k, from, to),
    }
}

/// A step of a piece to a square it may move to in a valid position can be made, and the
/// position after it is valid.
proof fn lemma_step_valid(b: Board, k: PieceKind, from: int, to: int)
    requires
        b.valid(),
        has_bit(b.piece_bbs@[piece_index(b.side_to_move, k)], from),
        has_bit(destinations(b, k, from), to),
    ensures
        move_ok(b, step_move(b.side_to_move, k, from, to)),
        valid_parts(next_bbs(b, step_move(b.side_to_move, k, from, to)),
            next_hands(b, step_move(b.side_to_move, k, from, to))),
        same_totals(next_bbs(b, step_move(b.side_to_move, k, from, to)),
            next_hands(b, step_move(b.side_to_move, k, from, to)), b.piece_bbs@, b.hands@),
{
    lemma_step_ok(b, k, from, to);
    lemma_step_after(b, k, from, to);
}

/// Every generated move of a valid position can be made, and leaves a valid position.
pub proof fn lemma_move_list_valid(b: Board, m: Move)
    requires
        b.valid(),
        move_list(b).contains(m),
    ensures
        move_ok(b, m),
        valid_parts(next_bbs(b, m), next_hands(b, m)),
        same_totals(next_bbs(b, m), next_hands(b, m), b.piece_bbs@, b.hands@),
{
    lemma_move_list_rules(b, m);
    if is_drop_move(b, m) {
        let (k, to) = choose|k: PieceKind, to: int|
            is_hand_kind(k) && hand_count(b.hands@[b.side_to_move.index()], k) > 0
                && #[trigger] has_bit(empty_squares(b), to) && m == #[trigger] drop_move(k, to);
        lemma_drop_valid(b, k, to);
    } else {
        let (k, from, to) = choose|k: int, from: int, to: int|
            0 <= k < 5
                && #[trigger] has_bit(b.piece_bbs@[piece_index(b.side_to_move, PieceKind::from_int(k))], from)
                && #[trigger] has_bit(destinations(b, PieceKind::from_int(k), from), to)
                && m == step_move(b.side_to_move, PieceKind::from_int(k), from, to);
        lemma_step_valid(b, PieceKind::from_int(k), from, to);
    }
}

/// No square holds two pieces.
pub open spec fn disjoint_bbs(bbs: Seq<u16>) -> bool {
    forall|j1: int, j2: int, sq: int|
        0 <= j1 < 10 && 0 <= j2 < 10 && j1 != j2 && #[trigger] has_bit(bbs[j1], sq) ==> !#[trigger] has_bit(bbs[j2], sq)
}

/// What a generated move of a valid position keeps: the position stays valid with the same
/// number of chicks (hens included), giraffes and elephants on the board and in hand; the
/// opponent's hand is unchanged; every square other than the destination (and the origin of a
/// board move) holds what it held; the destination holds a piece of the mover; and when no
/// square held two pieces, none does after the move.
pub proof fn lemma_move_keeps(b: Board, m: Move, nb: Board)
    requires
        b.valid(),
        move_list(b).contains(m),
        nb.piece_bbs@ == next_bbs(b, m),
        nb.hands@ == next_hands(b, m),
        nb.side_to_move == b.side_to_move.other(),
    ensures
        nb.valid(),
        same_totals(nb.piece_bbs@, nb.hands@, b.piece_bbs@, b.hands@),
        nb.hands@[b.side_to_move.other().index()] == b.hands@[b.side_to_move.other().index()],
        forall|j: int, sq: int|
            0 <= j < 10 && 0 <= sq < 12 && sq != m.to_sq() && (m.drops() || sq != m.from_sq()) ==> #[trigger] has_bit(
                nb.piece_bbs@[j],
                sq,
            ) == has_bit(b.piece_bbs@[j], sq),
        exists|k: int| 0 <= k < 5 && #[trigger] has_bit(nb.piece_bbs@[b.side_to_move.index() * 5 + k], m.to_sq()),
        disjoint_bbs(b.piece_bbs@) ==> disjoint_bbs(nb.piece_bbs@),
{
    lemma_move_list_valid(b, m);
    lemma_move_list_rules(b, m);
    let me = b.side_to_move;
    let bbs = b.piece_bbs@;
    if is_drop_move(b, m) {
        let (k, to) = choose|k: PieceKind, to: int|
            is_hand_kind(k) && hand_count(b.hands@[b.side_to_move.index()], k) > 0
                && #[trigger] has_bit(empty_squares(b), to) && m == #[trigger] drop_move(k, to);
        lemma_empty_square(b, to);
        lemma_move_roundtrip(15, to as u8, k, false, true);
        lemma_kind_id(k);
        let i = piece_index(me, k);
        lemma_add_square(bbs[i], to);
        assert(nb.piece_bbs@ == bbs.update(i, bbs[i] | sq_bit(to)));
        assert(has_bit(nb.piece_bbs@[me.index() * 5 + k.id()], m.to_sq()));
        lemma_not_occupied(b, me, to);
        lemma_not_occupied(b, me.other(), to);
        if disjoint_bbs(bbs) {
            let nbb = nb.piece_bbs@;
            assert forall|j1: int, j2: int, sq: int|
                0 <= j1 < 10 && 0 <= j2 < 10 && j1 != j2 && #[trigger] has_bit(nbb[j1], sq) implies !#[trigger] has_bit(
                nbb[j2],
                sq,
            ) by {
                if sq == to {
                    let p2 = if j2 < 5 { Player::Sente } else { Player::Gote };
                    assert(j2 == piece_index(p2, PieceKind::from_int(j2 - p2.index() * 5)));
                    if j2 != i {
                        assert(!has_bit(bbs[j2], sq));
                    }
                    let p1 = if j1 < 5 { Player::Sente } else { Player::Gote };
                    assert(j1 == piece_index(p1, PieceKind::from_int(j1 - p1.index() * 5)));
                } else if has_bit(nbb[j2], sq) {
                    assert(has_bit(bbs[j1], sq) && has_bit(bbs[j2], sq));
                }
            }
        }
    } else {
        let (ki, from, to) = choose|ki: int, from: int, to: int|
            0 <= ki < 5
                && #[trigger] has_bit(b.piece_bbs@[piece_index(b.side_to_move, PieceKind::from_int(ki))], from)
                && #[trigger] has_bit(destinations(b, PieceKind::from_int(ki), from), to)
                && m == step_move(b.side_to_move, PieceKind::from_int(ki), from, to);
        let k = PieceKind::from_int(ki);
        lemma_step_facts(b, k, from, to);
        lemma_kind_id(k);
        let ik = piece_index(me, k);
        lemma_remove_square(bbs[ik], from);
        let b1 = bbs.update(ik, bbs[ik] & !sq_bit(from));
        let pk = placed_kind(m);
        lemma_kind_id(pk);
        let ip = piece_index(me, pk);
        match piece_at(b, me.other(), to) {
            Some(c) => {
                lemma_kind_id(c);
                let ic = piece_index(me.other(), c);
                lemma_remove_square(b1[ic], to);
                let b2 = b1.update(ic, b1[ic] & !sq_bit(to));
                lemma_add_square(b2[ip], to);
                assert(nb.piece_bbs@ == b2.update(ip, b2[ip] | sq_bit(to)));
            },
            None => {
                lemma_add_square(b1[ip], to);
                assert(nb.piece_bbs@ == b1.update(ip, b1[ip] | sq_bit(to)));
            },
        }
        assert(has_bit(nb.piece_bbs@[me.index() * 5 + pk.id()], m.to_sq()));
        if disjoint_bbs(bbs) {
            lemma_step_disjoint(b, m, nb, k, from, to);
        }
    }
}

proof fn lemma_step_disjoint(b: Board, m: Move, nb: Board, k: PieceKind, from: int, to: int)
    requires
        b.valid(),
        disjoint_bbs(b.piece_bbs@),
        has_bit(b.piece_bbs@[piece_index(b.side_to_move, k)], from),
        has_bit(destinations(b, k, from), to),
        m == step_move(b.side_to_move, k, from, to),
        nb.piece_bbs@ == next_bbs(b, m),
    ensures
        disjoint_bbs(nb.piece_bbs@),
{
    let me = b.side_to_move;
    let opp = me.other();
    let bbs = b.piece_bbs@;
    lemma_step_facts(b, k, from, to);
    lemma_kind_id(k);
    let ik = piece_index(me, k);
    lemma_remove_square(bbs[ik], from);
    let b1 = bbs.update(ik, bbs[ik] & !sq_bit(from));
    let pk = placed_kind(m);
    lemma_kind_id(pk);
    let ip = piece_index(me, pk);
    let nbb = nb.piece_bbs@;
    let cap = piece_at(b, opp, to);
    let ic: int = match cap {
        Some(c) => piece_index(opp, c),
        None => -1,
    };
    match cap {
        Some(c) => {
            lemma_kind_id(c);
            lemma_remove_square(b1[ic], to);
            let b2 = b1.update(ic, b1[ic] & !sq_bit(to));
            lemma_add_square(b2[ip], to);
            assert(nbb == b2.update(ip, b2[ip] | sq_bit(to)));
        },
        None => {
            lemma_add_square(b1[ip], to);
            assert(nbb == b1.update(ip, b1[ip] | sq_bit(to)));
        },
    }
    // How each bitboard reads after the move.
    assert forall|j: int, sq: int| 0 <= j < 10 implies #[trigger] has_bit(nbb[j], sq) == (if j == ip && sq == to {
        true
    } else if j == ik && sq == from {
        false
    } else if j == ic && sq == to {
        false
    } else {
        has_bit(bbs[j], sq)
    }) by {}
    assert forall|j1: int, j2: int, sq: int|
        0 <= j1 < 10 && 0 <= j2 < 10 && j1 != j2 && #[trigger] has_bit(nbb[j1], sq) implies !#[trigger] has_bit(
        nbb[j2],
        sq,
    ) by {
        if has_bit(nbb[j2], sq) {
            if sq == to {
                let jo = if j1 == ip { j2 } else { j1 };
                assert(jo != ip);
                assert(has_bit(bbs[jo], to));
                let po = if jo < 5 { Player::Sente } else { Player::Gote };
                assert(jo == piece_index(po, PieceKind::from_int(jo - po.index() * 5)));
                if po == me {
                    assert(!has_bit(bbs[piece_index(me, PieceKind::from_int(jo - po.index() * 5))], to));
                } else {
                    assert(jo != ic);
                    assert(cap is Some);
                    assert(has_bit(bbs[ic], to));
                }
            } else if sq == from {
                assert(has_bit(bbs[j1], from) && has_bit(bbs[j2], from));
                assert(j1 == ik || j2 == ik);
            } else {
                assert(has_bit(bbs[j1], sq) && has_bit(bbs[j2], sq));
            }
        }
    }
}

/// A position that moves can be made on: every piece on the twelve squares and at most two
/// pieces of a kind in each hand.
pub open spec fn playable(bbs: Seq<u16>, hands: Seq<Hand>) -> bool {
    &&& bbs.len() == 10
    &&& hands.len() == 2
    &&& forall|i: int| 0 <= i < 10 ==> on_board(#[trigger] bbs[i])
    &&& forall|i: int| 0 <= i < 2 ==> {
        &&& (#[trigger] hands[i]).chicks <= 2
        &&& hands[i].giraffes <= 2
        &&& hands[i].elephants <= 2
    }
}

impl Board {
    pub open spec fn is_playable(self) -> bool {
        playable(self.piece_bbs@, self.hands@)
    }
}

pub(crate) proof fn lemma_valid_playable(b: Board)
    requires
        b.valid(),
    ensures
        b.is_playable(),
{
    lemma_valid_facts(b);
}

/// A move that can be made on a playable position leaves a playable position.
pub proof fn lemma_move_ok_playable(b: Board, m: Move)
    requires
        b.is_playable(),
        move_ok(b, m),
    ensures
        playable(next_bbs(b, m), next_hands(b, m)),
{
    let me = b.side_to_move;
    let opp = me.other();
    let bbs = b.piece_bbs@;
    let to = m.to_sq();
    let k = m.kind();
    lemma_kind_id(k);
    if m.drops() {
        let i = piece_index(me, k);
        lemma_add_square(bbs[i], to);
        lemma_update_on_board(bbs, i, bbs[i] | sq_bit(to));
    } else {
        let from = m.from_sq();
        let ik = piece_index(me, k);
        lemma_remove_square(bbs[ik], from);
        lemma_update_on_board(bbs, ik, bbs[ik] & !sq_bit(from));
        let b1 = bbs.update(ik, bbs[ik] & !sq_bit(from));
        let pk = placed_kind(m);
        lemma_kind_id(pk);
        let ip = piece_index(me, pk);
        match piece_at(b, opp, to) {
            Some(c) => {
                lemma_kind_id(c);
                let ic = piece_index(opp, c);
                lemma_remove_square(b1[ic], to);
                lemma_update_on_board(b1, ic, b1[ic] & !sq_bit(to));
                let b2 = b1.update(ic, b1[ic] & !sq_bit(to));
                lemma_add_square(b2[ip], to);
                lemma_update_on_board(b2, ip, b2[ip] | sq_bit(to));
            },
            None => {
                lemma_add_square(b1[ip], to);
                lemma_update_on_board(b1, ip, b1[ip] | sq_bit(to));
            },
        }
    }
}

} // verus!
