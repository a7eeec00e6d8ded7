use vstd::prelude::*;

verus! {

use crate::board::{Player, PieceKind};
use crate::make_move::{board_feature, hand_feature, is_hand_kind};
use crate::zobrist::side_feature;

/// The square in the same row, mirrored left to right.
pub open spec fn mirror_sq(sq: int) -> int {
    (sq / 3) * 3 + (2 - sq % 3)
}

/// A feature of the position mirrored left to right: board features move to the mirrored
/// square; hand and side-to-move features stay.
pub open spec fn flip_spec(f: int) -> int {
    if f < 120 {
        f - f % 12 + mirror_sq(f % 12)
    } else {
        f
    }
}

/// A feature of the position turned half a turn, which also swaps the players: board features
/// go to the other player and square `11 - s`; hand features go to the other player; the
/// side-to-move features swap.
pub open spec fn rotate_spec(f: int) -> int {
    if f < 120 {
        (1 - f / 60) * 60 + ((f / 12) % 5) * 12 + (11 - f % 12)
    } else if f < 132 {
        if f < 126 { f + 6 } else { f - 6 }
    } else if f == 132 {
        133
    } else {
        132
    }
}

pub fn flip_horizontal(f: usize) -> (r: usize)
    ensures
        r == flip_spec(f as int),
{
    if f < 120 {
        let sq = f % 12;
        let x = sq % 3;
        let y = sq / 3;
        let new_sq = y * 3 + (2 - x);
        f - sq + new_sq
    } else {
        f
    }
}

pub fn rotate_180(f: usize) -> (r: usize)
    ensures
        r == rotate_spec(f as int),
{
    if f < 120 {
        let sq = f % 12;
        let kind_idx = (f / 12) % 5;
        let player_idx = f / 60;
        let new_sq = 11 - sq;
        let new_player_idx = 1 - player_idx;
        new_player_idx * 60 + kind_idx * 12 + new_sq
    } else if f < 132 {
        if f < 126 { f + 6 } else { f - 6 }
    } else {
        if f == 132 { 133 } else { 132 }
    }
}

/// Mirroring moves a piece to the mirrored square of its row.
pub proof fn lemma_flip_board_feature(p: Player, k: PieceKind, sq: int)
    requires
        0 <= sq < 12,
    ensures
        flip_spec(board_feature(p, k, sq)) == board_feature(p, k, mirror_sq(sq)),
        0 <= mirror_sq(sq) < 12,
{
    crate::board::lemma_kind_id(k);
    let f = board_feature(p, k, sq);
    assert(f % 12 == sq && f - f % 12 == p.index() * 60 + k.id() * 12) by {
        assert(f == (p.index() * 5 + k.id()) * 12 + sq);
    }
}

/// Turning the board half a turn gives the piece to the other player, on square `11 - sq`.
pub proof fn lemma_rotate_board_feature(p: Player, k: PieceKind, sq: int)
    requires
        0 <= sq < 12,
    ensures
        rotate_spec(board_feature(p, k, sq)) == board_feature(p.other(), k, 11 - sq),
{
    crate::board::lemma_kind_id(k);
    let f = board_feature(p, k, sq);
    assert(f == (p.index() * 5 + k.id()) * 12 + sq);
    assert(f % 12 == sq);
    assert(f / 12 == p.index() * 5 + k.id());
    assert((f / 12) % 5 == k.id());
    assert(f / 60 == p.index());
}

/// Turning the board half a turn gives the pieces in hand to the other player and swaps the
/// side to move.
pub proof fn lemma_rotate_hand_and_side(p: Player, k: PieceKind, count: int)
    requires
        is_hand_kind(k),
        1 <= count <= 2,
    ensures
        rotate_spec(hand_feature(p, k, count)) == hand_feature(p.other(), k, count),
        rotate_spec(side_feature(p) as int) == side_feature(p.other()) as int,
{
}

/// Mirroring twice, or turning twice, gives every feature back; and the two commute.
pub proof fn lemma_symmetries(f: int)
    requires
        0 <= f < 134,
    ensures
        flip_spec(flip_spec(f)) == f,
        rotate_spec(rotate_spec(f)) == f,
        flip_spec(rotate_spec(f)) == rotate_spec(flip_spec(f)),
{
    if f < 120 {
        let sq = f % 12;
        let base = f - sq;
        assert(base % 12 == 0);
        assert(0 <= mirror_sq(sq) < 12);
        assert((base + mirror_sq(sq)) % 12 == mirror_sq(sq));
        assert(mirror_sq(mirror_sq(sq)) == sq);
        let r = rotate_spec(f);
        assert(r % 12 == 11 - sq);
        assert(r / 12 == (1 - f / 60) * 5 + (f / 12) % 5);
        assert(rotate_spec(r) == f);
    }
}

} // verus!
