use vstd::prelude::*;

verus! {

use vstd::std_specs::bits::{u16_trailing_zeros, axiom_u16_trailing_zeros};

/// The board has 3 columns and 4 rows; square `s` is column `s % 3`, row `s / 3`.
pub const NUM_SQUARES: usize = 12;

/// Bit `sq` of a bitboard.
pub open spec fn has_bit(bb: u16, sq: int) -> bool {
    0 <= sq < 16 && (bb >> (sq as u16)) & 1u16 == 1u16
}

/// A bitboard that only uses the twelve squares of the board.
pub open spec fn on_board(bb: u16) -> bool {
    bb < 0x1000
}

/// The bitboard with the single square `s`, or no square when `s` is off the board.
pub open spec fn sq_bit(s: int) -> u16 {
    if 0 <= s < 12 { 1u16 << (s as u16) } else { 0u16 }
}

/// Lowest square of a non-empty bitboard.
pub open spec fn lowest(bb: u16) -> int {
    u16_trailing_zeros(bb) as int
}

/// The bitboard without its lowest square.
pub open spec fn clear_lowest(bb: u16) -> u16 {
    bb & ((bb - 1) as u16)
}

/// Clearing the lowest square of a non-empty bitboard makes it smaller.
pub proof fn lemma_clear_lowest_smaller(bb: u16)
    requires
        bb != 0,
    ensures
        clear_lowest(bb) < bb,
{
    assert(bb != 0 ==> bb & ((bb - 1) as u16) < bb) by (bit_vector);
}

/// The squares of a bitboard, lowest first.
pub open spec fn squares(bb: u16) -> Seq<int>
    decreases bb,
{
    if bb == 0 {
        Seq::empty()
    } else {
        proof {
            lemma_clear_lowest_smaller(bb);
        }
        seq![lowest(bb)].add(squares(clear_lowest(bb)))
    }
}

pub(crate) proof fn lemma_bit_or(a: u16, b: u16)
    ensures
        forall|i: int| #[trigger] has_bit(a | b, i) == (has_bit(a, i) || has_bit(b, i)),
{
    assert forall|i: int| #[trigger] has_bit(a | b, i) == (has_bit(a, i) || has_bit(b, i)) by {
        if 0 <= i < 16 {
            let j = i as u16;
            assert(((a | b) >> j) & 1u16 == 1u16 <==> ((a >> j) & 1u16 == 1u16 || (b >> j) & 1u16
                == 1u16)) by (bit_vector);
        }
    }
}

pub(crate) proof fn lemma_bit_and(a: u16, b: u16)
    ensures
        forall|i: int| #[trigger] has_bit(a & b, i) == (has_bit(a, i) && has_bit(b, i)),
{
    assert forall|i: int| #[trigger] has_bit(a & b, i) == (has_bit(a, i) && has_bit(b, i)) by {
        if 0 <= i < 16 {
            let j = i as u16;
            assert(((a & b) >> j) & 1u16 == 1u16 <==> ((a >> j) & 1u16 == 1u16 && (b >> j) & 1u16
                == 1u16)) by (bit_vector);
        }
    }
}

pub(crate) proof fn lemma_bit_not(a: u16)
    ensures
        forall|i: int| 0 <= i < 16 ==> #[trigger] has_bit(!a, i) == !has_bit(a, i),
{
    assert forall|i: int| 0 <= i < 16 implies #[trigger] has_bit(!a, i) == !has_bit(a, i) by {
        let j = i as u16;
        assert(j < 16 ==> (((!a) >> j) & 1u16 == 1u16 <==> !((a >> j) & 1u16 == 1u16))) by (bit_vector);
    }
}

pub(crate) proof fn lemma_sq_bit(s: int)
    ensures
        forall|i: int| #[trigger] has_bit(sq_bit(s), i) == (0 <= s < 12 && i == s),
        on_board(sq_bit(s)),
{
    if 0 <= s < 12 {
        let t = s as u16;
        assert(t < 12 ==> (1u16 << t) < 0x1000u16) by (bit_vector);
        assert forall|i: int| #[trigger] has_bit(sq_bit(s), i) == (i == s) by {
            if 0 <= i < 16 {
                let j = i as u16;
                assert(t < 16 && j < 16 ==> ((((1u16 << t) >> j) & 1u16 == 1u16) <==> j == t)) by (bit_vector);
            }
        }
    } else {
        lemma_zero_has_no_bit();
    }
}

pub(crate) proof fn lemma_zero_has_no_bit()
    ensures
        forall|i: int| !#[trigger] has_bit(0u16, i),
{
    assert forall|i: int| !#[trigger] has_bit(0u16, i) by {
        if 0 <= i < 16 {
            let j = i as u16;
            assert((0u16 >> j) & 1u16 == 0u16) by (bit_vector);
        }
    }
}

/// A bitboard is on the board exactly when it has no square from 12 upward.
pub proof fn lemma_on_board(bb: u16)
    ensures
        on_board(bb) <==> (forall|i: int| 12 <= i < 16 ==> !#[trigger] has_bit(bb, i)),
{
    if !on_board(bb) {
        assert(bb >= 0x1000u16 ==> ((bb >> 12u16) & 1u16 == 1u16 || (bb >> 13u16) & 1u16 == 1u16 || (bb >> 14u16) & 1u16 == 1u16 || (bb >> 15u16) & 1u16 == 1u16)) by (bit_vector);
        assert(has_bit(bb, 12) || has_bit(bb, 13) || has_bit(bb, 14) || has_bit(bb, 15));
    } else {
        assert forall|i: int| 12 <= i < 16 implies !#[trigger] has_bit(bb, i) by {
            let j = i as u16;
            assert(bb < 0x1000u16 && 12 <= j < 16 ==> (bb >> j) & 1u16 == 0u16) by (bit_vector);
        }
    }
}

/// Facts on the lowest square of a non-empty bitboard.
pub proof fn lemma_lowest(bb: u16)
    requires
        bb != 0,
    ensures
        0 <= lowest(bb) < 16,
        has_bit(bb, lowest(bb)),
        forall|i: int| 0 <= i < lowest(bb) ==> !#[trigger] has_bit(bb, i),
        forall|i: int| #[trigger] has_bit(clear_lowest(bb), i) == (has_bit(bb, i) && i != lowest(bb)),
{
    axiom_u16_trailing_zeros(bb);
    let t = u16_trailing_zeros(bb) as u16;
    assert forall|i: int| 0 <= i < lowest(bb) implies !#[trigger] has_bit(bb, i) by {
        let j = i as u16;
        assert((bb >> j) & 1u16 == 0u16);
    }
    assert(bb << ((16 - t) as u16) == 0);
    assert forall|i: int| #[trigger] has_bit(clear_lowest(bb), i) == (has_bit(bb, i) && i != lowest(bb)) by {
        if 0 <= i < 16 {
            let j = i as u16;
            assert(bb != 0 && t < 16 && (bb >> t) & 1u16 == 1u16 && bb << ((16 - t) as u16) == 0 && j < 16
                ==> (((bb & ((bb - 1) as u16)) >> j) & 1u16 == 1u16 <==> ((bb >> j) & 1u16 == 1u16 && j != t))) by (bit_vector);
        }
    }
}

/// The squares of a bitboard are exactly its set bits.
pub proof fn lemma_squares(bb: u16)
    ensures
        forall|i: int| #[trigger] squares(bb).contains(i) == has_bit(bb, i),
        forall|k: int| 0 <= k < squares(bb).len() ==> 0 <= #[trigger] squares(bb)[k] < 16,
    decreases bb,
{
    if bb == 0 {
        lemma_zero_has_no_bit();
        assert(squares(bb) =~= Seq::<int>::empty());
    } else {
        lemma_lowest(bb);
        lemma_clear_lowest_smaller(bb);
        lemma_squares(clear_lowest(bb));
        let s = squares(bb);
        assert(s == seq![lowest(bb)].add(squares(clear_lowest(bb))));
        assert forall|i: int| #[trigger] squares(bb).contains(i) == has_bit(bb, i) by {
            if has_bit(bb, i) {
                if i == lowest(bb) {
                    assert(s[0] == i);
                } else {
                    assert(squares(clear_lowest(bb)).contains(i));
                    let k = choose|k: int| 0 <= k < squares(clear_lowest(bb)).len() && squares(clear_lowest(bb))[k] == i;
                    assert(s[k + 1] == i);
                }
            }
            if s.contains(i) {
                let k = choose|k: int| 0 <= k < s.len() && s[k] == i;
                if k > 0 {
                    assert(squares(clear_lowest(bb))[k - 1] == i);
                    assert(squares(clear_lowest(bb)).contains(i));
                    assert(has_bit(clear_lowest(bb), i));
                } else {
                    assert(i == lowest(bb));
                }
                assert(has_bit(bb, i));
            }
        }
        assert forall|k: int| 0 <= k < squares(bb).len() implies 0 <= #[trigger] squares(bb)[k] < 16 by {
            if k > 0 {
                assert(s[k] == squares(clear_lowest(bb))[k - 1]);
            }
        }
    }
}

} // verus!
