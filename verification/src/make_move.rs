use vstd::prelude::*;

verus! {

use crate::bitboard::{has_bit, sq_bit, lemma_bit_or};
use crate::board::{Board, Hand, Player, PieceKind, piece_index, get_piece_index};
use crate::move_gen::Move;
use crate::zobrist::ZobristTable;

/// Feature of a piece on the board: 0..120 (player, kind, square).
pub open spec fn board_feature(player: Player, kind: PieceKind, sq: int) -> int {
    player.index() * 60 + kind.id() * 12 + sq
}

/// Offset of a kind that can be held in hand: chick 0, giraffe 2, elephant 4.
pub open spec fn hand_offset(kind: PieceKind) -> int {
    match kind {
        PieceKind::Chick => 0,
        PieceKind::Giraffe => 2,
        PieceKind::Elephant => 4,
        _ => 0,
    }
}

pub open spec fn is_hand_kind(kind: PieceKind) -> bool {
    kind == PieceKind::Chick || kind == PieceKind::Giraffe || kind == PieceKind::Elephant
}

/// Feature of holding `count` (1 or 2) pieces of a kind in hand: 120..132.
pub open spec fn hand_feature(player: Player, kind: PieceKind, count: int) -> int {
    120 + player.index() * 6 + hand_offset(kind) + (count - 1)
}

pub fn get_board_feature(player: Player, kind: PieceKind, sq: usize) -> (r: usize)
    requires
        sq <= usize::MAX - 120,
    ensures
        r == board_feature(player, kind, sq as int),
{
    let p_idx: usize = match player {
        Player::Sente => 0,
        Player::Gote => 1,
    };
    let k_idx = kind.piece_id();
    p_idx * 60 + k_idx * 12 + sq
}

pub fn get_hand_feature(player: Player, kind: PieceKind, count: u8) -> (r: usize)
    requires
        0 < count <= 2,
        is_hand_kind(kind),
    ensures
        r == hand_feature(player, kind, count as int),
        120 <= r < 132,
{
    let p_offset: usize = match player {
        Player::Sente => 0,
        Player::Gote => 6,
    };
    let k_offset: usize = match kind {
        PieceKind::Chick => 0,
        PieceKind::Giraffe => 2,
        _ => 4,
    };
    120 + p_offset + k_offset + (count as usize - 1)
}

/// The features that one move removes and adds, at most four of each.
pub struct FeatureUpdate {
    pub added: [usize; 4],
    pub added_count: usize,
    pub removed: [usize; 4],
    pub removed_count: usize,
}

impl FeatureUpdate {
    pub open spec fn wf(self) -> bool {
        self.added_count <= 4 && self.removed_count <= 4
    }

    pub open spec fn added_list(self) -> Seq<usize> {
        self.added@.take(self.added_count as int)
    }

    pub open spec fn removed_list(self) -> Seq<usize> {
        self.removed@.take(self.removed_count as int)
    }

    /// The unused ends of both arrays hold zeros.
    pub open spec fn tails_zero(self) -> bool {
        &&& forall|j: int| self.added_count <= j < 4 ==> #[trigger] self.added@[j] == 0
        &&& forall|j: int| self.removed_count <= j < 4 ==> #[trigger] self.removed@[j] == 0
    }

    pub fn new() -> (r: Self)
        ensures
            r.wf(),
            r.added_count == 0,
            r.removed_count == 0,
            r.added_list() == Seq::<usize>::empty(),
            r.removed_list() == Seq::<usize>::empty(),
            r.added@ == seq![0usize, 0usize, 0usize, 0usize],
            r.removed@ == seq![0usize, 0usize, 0usize, 0usize],
    {
        let r = Self { added: [0; 4], added_count: 0, removed: [0; 4], removed_count: 0 };
        proof {
            assert(r.added_list() =~= Seq::<usize>::empty());
            assert(r.removed_list() =~= Seq::<usize>::empty());
            assert(r.added@ =~= seq![0usize, 0usize, 0usize, 0usize]);
            assert(r.removed@ =~= seq![0usize, 0usize, 0usize, 0usize]);
        }
        r
    }

    pub fn add(&mut self, feature: usize)
        requires
            old(self).wf(),
            old(self).added_count < 4,
        ensures
            final(self).wf(),
            final(self).added_list() == old(self).added_list().push(feature),
            final(self).removed_list() == old(self).removed_list(),
            final(self).added_count == old(self).added_count + 1,
            final(self).removed_count == old(self).removed_count,
            final(self).added@ == old(self).added@.update(old(self).added_count as int, feature),
            final(self).removed@ == old(self).removed@,
    {
        self.added[self.added_count] = feature;
        self.added_count += 1;
        proof {
            assert(self.added_list() =~= old(self).added_list().push(feature));
            assert(self.removed_list() =~= old(self).removed_list());
        }
    }

    pub fn remove(&mut self, feature: usize)
        requires
            old(self).wf(),
            old(self).removed_count < 4,
        ensures
            final(self).wf(),
            final(self).removed_list() == old(self).removed_list().push(feature),
            final(self).added_list() == old(self).added_list(),
            final(self).removed_count == old(self).removed_count + 1,
            final(self).added_count == old(self).added_count,
            final(self).removed@ == old(self).removed@.update(old(self).removed_count as int, feature),
            final(self).added@ == old(self).added@,
    {
        self.removed[self.removed_count] = feature;
        self.removed_count += 1;
        proof {
            assert(self.removed_list() =~= old(self).removed_list().push(feature));
            assert(self.added_list() =~= old(self).added_list());
        }
    }
}

/// A feature update is fixed by its two lists once the unused array ends are zero: so the update
/// that `GameManager::make_move` returns is, field for field, the one `Board::make_move` gives
/// for the same position and move.
pub proof fn lemma_feature_update_determined(u1: FeatureUpdate, u2: FeatureUpdate)
    requires
        u1.wf(),
        u2.wf(),
        u1.tails_zero(),
        u2.tails_zero(),
        u1.added_list() == u2.added_list(),
        u1.removed_list() == u2.removed_list(),
    ensures
        u1 == u2,
{
    assert(u1.added_list().len() == u1.added_count);
    assert(u2.added_list().len() == u2.added_count);
    assert(u1.removed_list().len() == u1.removed_count);
    assert(u2.removed_list().len() == u2.removed_count);
    assert forall|j: int| 0 <= j < 4 implies u1.added@[j] == u2.added@[j] by {
        if j < u1.added_count {
            assert(u1.added_list()[j] == u1.added@[j]);
            assert(u2.added_list()[j] == u2.added@[j]);
        } else {
            assert(u1.added_count <= j && u2.added_count <= j);
            assert(u1.added@[j] == 0 && u2.added@[j] == 0);
        }
    }
    assert forall|j: int| 0 <= j < 4 implies u1.removed@[j] == u2.removed@[j] by {
        if j < u1.removed_count {
            assert(u1.removed_list()[j] == u1.removed@[j]);
            assert(u2.removed_list()[j] == u2.removed@[j]);
        } else {
            assert(u1.removed_count <= j && u2.removed_count <= j);
            assert(u1.removed@[j] == 0 && u2.removed@[j] == 0);
        }
    }
    assert(u1.added =~= u2.added);
    assert(u1.removed =~= u2.removed);
}

pub open spec fn hand_count(h: Hand, k: PieceKind) -> int {
    match k {
        PieceKind::Chick => h.chicks as int,
        PieceKind::Giraffe => h.giraffes as int,
        PieceKind::Elephant => h.elephants as int,
        _ => 0,
    }
}

pub open spec fn hand_set(h: Hand, k: PieceKind, v: u8) -> Hand {
    match k {
        PieceKind::Chick => Hand { chicks: v, ..h },
        PieceKind::Giraffe => Hand { giraffes: v, ..h },
        PieceKind::Elephant => Hand { elephants: v, ..h },
        _ => h,
    }
}

/// A captured hen goes to the hand as a chick.
pub open spec fn hand_kind(k: PieceKind) -> PieceKind {
    if k == PieceKind::Hen { PieceKind::Chick } else { k }
}

/// The kind of `player`'s piece on `sq`, looking at Lion, Giraffe, Elephant, Chick, Hen in turn.
pub open spec fn piece_at(b: Board, player: Player, sq: int) -> Option<PieceKind> {
    if has_bit(b.piece_bbs@[piece_index(player, PieceKind::Lion)], sq) {
        Some(PieceKind::Lion)
    } else if has_bit(b.piece_bbs@[piece_index(player, PieceKind::Giraffe)], sq) {
        Some(PieceKind::Giraffe)
    } else if has_bit(b.piece_bbs@[piece_index(player, PieceKind::Elephant)], sq) {
        Some(PieceKind::Elephant)
    } else if has_bit(b.piece_bbs@[piece_index(player, PieceKind::Chick)], sq) {
        Some(PieceKind::Chick)
    } else if has_bit(b.piece_bbs@[piece_index(player, PieceKind::Hen)], sq) {
        Some(PieceKind::Hen)
    } else {
        None
    }
}

/// The moves that `Board::make_move` carries out without failing: the destination is on the
/// board and the kind bits name a kind; a drop takes a chick, giraffe or elephant of which the
/// mover holds one or two; a board move starts on the board, and a capture of a non-lion piece
/// leaves the mover at most two of that kind in hand.
pub open spec fn move_ok(b: Board, m: Move) -> bool {
    let me = b.side_to_move;
    let hand = b.hands@[me.index()];
    &&& m.to_sq() < 12
    &&& m.kind_bits() < 5
    &&& if m.drops() {
        &&& is_hand_kind(m.kind())
        &&& 1 <= hand_count(hand, m.kind()) <= 2
    } else {
        &&& m.from_sq() < 12
        &&& match piece_at(b, me.other(), m.to_sq()) {
            Some(c) => hand_kind(c) != PieceKind::Lion ==> hand_count(hand, hand_kind(c)) <= 1,
            None => true,
        }
    }
}

/// The kind placed on the destination: a promoting move places a hen.
pub open spec fn placed_kind(m: Move) -> PieceKind {
    if m.promotes() { PieceKind::Hen } else { m.kind() }
}

/// Bitboards after the move.
pub open spec fn next_bbs(b: Board, m: Move) -> Seq<u16> {
    let me = b.side_to_move;
    let opp = me.other();
    let to = m.to_sq();
    let k = m.kind();
    let bbs = b.piece_bbs@;
    if m.drops() {
        bbs.update(piece_index(me, k), bbs[piece_index(me, k)] | sq_bit(to))
    } else {
        let b1 = bbs.update(piece_index(me, k), bbs[piece_index(me, k)] & !sq_bit(m.from_sq()));
        let b2 = match piece_at(b, opp, to) {
            Some(c) => b1.update(piece_index(opp, c), b1[piece_index(opp, c)] & !sq_bit(to)),
            None => b1,
        };
        let pk = placed_kind(m);
        b2.update(piece_index(me, pk), b2[piece_index(me, pk)] | sq_bit(to))
    }
}

/// Hands after the move.
pub open spec fn next_hands(b: Board, m: Move) -> Seq<Hand> {
    let me = b.side_to_move;
    let hand = b.hands@[me.index()];
    let k = m.kind();
    if m.drops() {
        b.hands@.update(me.index(), hand_set(hand, k, (hand_count(hand, k) - 1) as u8))
    } else {
        match piece_at(b, me.other(), m.to_sq()) {
            Some(c) => if hand_kind(c) != PieceKind::Lion {
                b.hands@.update(
                    me.index(),
                    hand_set(hand, hand_kind(c), (hand_count(hand, hand_kind(c)) + 1) as u8),
                )
            } else {
                b.hands@
            },
            None => b.hands@,
        }
    }
}

/// The features that the move removes, in the order they are recorded.
pub open spec fn removed_features(b: Board, m: Move) -> Seq<usize> {
    let me = b.side_to_move;
    let opp = me.other();
    let hand = b.hands@[me.index()];
    let k = m.kind();
    let to = m.to_sq();
    if m.drops() {
        seq![hand_feature(me, k, hand_count(hand, k)) as usize]
    } else {
        seq![board_feature(me, k, m.from_sq()) as usize] + match piece_at(b, opp, to) {
            Some(c) => seq![board_feature(opp, c, to) as usize] + (
                if hand_kind(c) != PieceKind::Lion && hand_count(hand, hand_kind(c)) > 0 {
                    seq![hand_feature(me, hand_kind(c), hand_count(hand, hand_kind(c))) as usize]
                } else {
                    Seq::empty()
                }),
            None => Seq::empty(),
        }
    }
}

/// The features that the move adds, in the order they are recorded.
pub open spec fn added_features(b: Board, m: Move) -> Seq<usize> {
    let me = b.side_to_move;
    let opp = me.other();
    let hand = b.hands@[me.index()];
    let k = m.kind();
    let to = m.to_sq();
    if m.drops() {
        (if hand_count(hand, k) - 1 > 0 {
            seq![hand_feature(me, k, hand_count(hand, k) - 1) as usize]
        } else {
            Seq::empty()
        }) + seq![board_feature(me, k, to) as usize]
    } else {
        (match piece_at(b, opp, to) {
            Some(c) => if hand_kind(c) != PieceKind::Lion {
                seq![hand_feature(me, hand_kind(c), hand_count(hand, hand_kind(c)) + 1) as usize]
            } else {
                Seq::empty()
            },
            None => Seq::empty(),
        }) + seq![board_feature(me, placed_kind(m), to) as usize]
    }
}

/// The hash `h` with the keys of the features `fs` xored in, one after another.
pub open spec fn xor_keys(h: u64, keys: Seq<u64>, fs: Seq<usize>) -> u64
    decreases fs.len(),
{
    if fs.len() == 0 {
        h
    } else {
        xor_keys(h, keys, fs.drop_last()) ^ keys[fs.last() as int]
    }
}

/// The hash after a move: the keys of removed and added features xored in, then the
/// side-to-move key.
pub open spec fn next_hash(h: u64, z: ZobristTable, b: Board, m: Move) -> u64 {
    xor_keys(xor_keys(h, z.features@, removed_features(b, m)), z.features@, added_features(b, m))
        ^ z.side_to_move
}

fn xor_in(h: u64, z: &ZobristTable, fs: &[usize; 4], n: usize) -> (r: u64)
    requires
        n <= 4,
        forall|i: int| 0 <= i < n ==> #[trigger] fs@[i] < 134,
    ensures
        r == xor_keys(h, z.features@, fs@.take(n as int)),
{
    let mut r = h;
    let mut i: usize = 0;
    while i < n
        invariant
            i <= n <= 4,
            forall|i: int| 0 <= i < n ==> #[trigger] fs@[i] < 134,
            r == xor_keys(h, z.features@, fs@.take(i as int)),
        decreases n - i,
    {
        proof {
            assert(fs@.take(i + 1).drop_last() =~= fs@.take(i as int));
        }
        r ^= z.features[fs[i]];
        i += 1;
    }
    r
}

proof fn lemma_and_single(a: u16, t: int)
    requires
        0 <= t < 12,
    ensures
        ((a & sq_bit(t)) != 0) == has_bit(a, t),
{
    let s = t as u16;
    assert(s < 12 ==> ((a & (1u16 << s)) != 0 <==> (a >> s) & 1u16 == 1u16)) by (bit_vector);
}

/// A square holds some piece of `player` exactly when `piece_at` finds one there.
pub proof fn lemma_occupied_piece_at(b: Board, player: Player, sq: int)
    ensures
        has_bit(b.occupied_spec(player), sq) <==> piece_at(b, player, sq).is_some(),
{
    let bbs = b.piece_bbs@;
    let st = player.index() * 5;
    lemma_bit_or(bbs[st], bbs[st + 1]);
    lemma_bit_or(bbs[st] | bbs[st + 1], bbs[st + 2]);
    lemma_bit_or(bbs[st] | bbs[st + 1] | bbs[st + 2], bbs[st + 3]);
    lemma_bit_or(bbs[st] | bbs[st + 1] | bbs[st + 2] | bbs[st + 3], bbs[st + 4]);
}

/// Count of a kind in a hand, read from the hand.
fn hand_count_of(h: Hand, k: PieceKind) -> (r: u8)
    requires
        is_hand_kind(k),
    ensures
        r == hand_count(h, k),
{
    match k {
        PieceKind::Chick => h.chicks,
        PieceKind::Giraffe => h.giraffes,
        _ => h.elephants,
    }
}

/// The hand with the count of a kind replaced.
fn hand_with(h: Hand, k: PieceKind, v: u8) -> (r: Hand)
    requires
        is_hand_kind(k),
    ensures
        r == hand_set(h, k, v),
{
    match k {
        PieceKind::Chick => Hand { chicks: v, ..h },
        PieceKind::Giraffe => Hand { giraffes: v, ..h },
        _ => Hand { elephants: v, ..h },
    }
}

impl Board {
    /// Applies a move, giving back the features it removed and added and the hash of the
    /// position after it, computed from `current_hash` by xoring in the keys of those features
    /// and the side-to-move key.
    #[verifier::spinoff_prover]
    #[verifier::rlimit(40)]
    pub fn make_move(&mut self, m: Move, z_table: &ZobristTable, current_hash: u64) -> (r: (FeatureUpdate, u64))
        requires
            move_ok(*old(self), m),
        ensures
            final(self).piece_bbs@ == next_bbs(*old(self), m),
            final(self).hands@ == next_hands(*old(self), m),
            final(self).side_to_move == old(self).side_to_move.other(),
            r.0.wf(),
            r.0.tails_zero(),
            r.0.removed_list() == removed_features(*old(self), m),
            r.0.added_list() == added_features(*old(self), m),
            r.1 == next_hash(current_hash, *z_table, *old(self), m),
    {
        let ghost b0 = *self;
        let me = self.side_to_move;
        let opponent = me.opponent();
        let mi = me.idx();
        let to_sq = m.sq_to() as usize;
        let to_bit = Board::square_bit(to_sq);
        let piece_kind = m.piece_kind();
        let mut update = FeatureUpdate::new();
        if m.is_drop() {
            let old_count = hand_count_of(self.hands[mi], piece_kind);
            update.remove(get_hand_feature(me, piece_kind, old_count));
            if old_count - 1 > 0 {
                update.add(get_hand_feature(me, piece_kind, old_count - 1));
            }
            let h = hand_with(self.hands[mi], piece_kind, old_count - 1);
            self.hands[mi] = h;
            let p_idx = get_piece_index(me, piece_kind);
            self.piece_bbs[p_idx] = self.piece_bbs[p_idx] | to_bit;
            update.add(get_board_feature(me, piece_kind, to_sq));
            proof {
                assert(self.piece_bbs@ =~= next_bbs(b0, m));
                assert(self.hands@ =~= next_hands(b0, m));
                assert(update.removed_list() =~= removed_features(b0, m));
                assert(update.added_list() =~= added_features(b0, m));
            }
        } else {
            let from_sq = m.sq_from() as usize;
            let from_bit = Board::square_bit(from_sq);
            let p_idx = get_piece_index(me, piece_kind);
            self.piece_bbs[p_idx] = self.piece_bbs[p_idx] & !from_bit;
            update.remove(get_board_feature(me, piece_kind, from_sq));
            let ghost b1 = self.piece_bbs@;
            let opponent_occupied = self.occupied_by(opponent);
            proof {
                lemma_and_single(opponent_occupied, to_sq as int);
                lemma_occupied_piece_at(*self, opponent, to_sq as int);
                assert(piece_at(*self, opponent, to_sq as int) == piece_at(b0, opponent, to_sq as int));
            }
            if (opponent_occupied & to_bit) != 0 {
                let found = self.find_piece(opponent, to_sq);
                if let Some(kind) = found {
                    let opp_idx = get_piece_index(opponent, kind);
                    self.piece_bbs[opp_idx] = self.piece_bbs[opp_idx] & !to_bit;
                    update.remove(get_board_feature(opponent, kind, to_sq));
                    let captured_kind = if kind == PieceKind::Hen { PieceKind::Chick } else { kind };
                    if captured_kind != PieceKind::Lion {
                        let old_count = hand_count_of(self.hands[mi], captured_kind);
                        if old_count > 0 {
                            update.remove(get_hand_feature(me, captured_kind, old_count));
                        }
                        update.add(get_hand_feature(me, captured_kind, old_count + 1));
                        let h = hand_with(self.hands[mi], captured_kind, old_count + 1);
                        self.hands[mi] = h;
                    }
                }
            }
            let place_kind = if m.is_promote() { PieceKind::Hen } else { piece_kind };
            let place_idx = get_piece_index(me, place_kind);
            self.piece_bbs[place_idx] = self.piece_bbs[place_idx] | to_bit;
            update.add(get_board_feature(me, place_kind, to_sq));
            proof {
                assert(self.piece_bbs@ =~= next_bbs(b0, m));
                assert(self.hands@ =~= next_hands(b0, m));
                assert(update.removed_list() =~= removed_features(b0, m));
                assert(update.added_list() =~= added_features(b0, m));
            }
        }
        self.side_to_move = opponent;
        proof {
            assert forall|i: int| 0 <= i < update.removed_count implies #[trigger] update.removed@[i] < 134 by {
                assert(update.removed@[i] == update.removed_list()[i]);
            }
            assert forall|i: int| 0 <= i < update.added_count implies #[trigger] update.added@[i] < 134 by {
                assert(update.added@[i] == update.added_list()[i]);
            }
        }
        let mut next_hash = xor_in(current_hash, z_table, &update.removed, update.removed_count);
        next_hash = xor_in(next_hash, z_table, &update.added, update.added_count);
        next_hash ^= z_table.side_to_move;
        (update, next_hash)
    }

    /// Whether `make_move` can carry out the move on this board (see `move_ok`).
    pub fn can_make_move(&self, m: Move) -> (r: bool)
        ensures
            r == move_ok(*self, m),
    {
        let to = m.sq_to();
        if to >= 12 {
            return false;
        }
        let v = m.0;
        proof {
            assert((v >> 8u16) & 0x07u16 < 8) by (bit_vector);
        }
        if (m.0 >> 8) & 0x07 >= 5 {
            return false;
        }
        let k = m.piece_kind();
        let me = self.side_to_move;
        let hand = self.hands[me.idx()];
        if m.is_drop() {
            match k {
                PieceKind::Chick | PieceKind::Giraffe | PieceKind::Elephant => {
                    let count = hand_count_of(hand, k);
                    1 <= count && count <= 2
                },
                _ => false,
            }
        } else {
            if m.sq_from() >= 12 {
                return false;
            }
            match self.find_piece(me.opponent(), to as usize) {
                Some(c) => {
                    let hk = if c == PieceKind::Hen { PieceKind::Chick } else { c };
                    if hk != PieceKind::Lion {
                        hand_count_of(hand, hk) <= 1
                    } else {
                        true
                    }
                },
                None => true,
            }
        }
    }

    /// The kind of `player`'s piece on `sq`, as `piece_at` defines it.
    pub fn find_piece(&self, player: Player, sq: usize) -> (r: Option<PieceKind>)
        requires
            sq < 12,
        ensures
            r == piece_at(*self, player, sq as int),
    {
        let to_bit = Board::square_bit(sq);
        let mut i: u8 = 0;
        while i < 5
            invariant
                i <= 5,
                sq < 12,
                to_bit == sq_bit(sq as int),
                forall|j: int| 0 <= j < i ==> !has_bit(
                    self.piece_bbs@[piece_index(player, PieceKind::from_int(j))], sq as int),
            decreases 5 - i,
        {
            let kind = PieceKind::from_id(i);
            let idx = get_piece_index(player, kind);
            proof {
                lemma_and_single(self.piece_bbs@[idx as int], sq as int);
            }
            if (self.piece_bbs[idx] & to_bit) != 0 {
                proof {
                    if i > 0 {
                        assert(!has_bit(self.piece_bbs@[piece_index(player, PieceKind::from_int(0))], sq as int));
                    }
                    if i > 1 {
                        assert(!has_bit(self.piece_bbs@[piece_index(player, PieceKind::from_int(1))], sq as int));
                    }
                    if i > 2 {
                        assert(!has_bit(self.piece_bbs@[piece_index(player, PieceKind::from_int(2))], sq as int));
                    }
                    if i > 3 {
                        assert(!has_bit(self.piece_bbs@[piece_index(player, PieceKind::from_int(3))], sq as int));
                    }
                }
                return Some(kind);
            }
            i += 1;
        }
        assert(!has_bit(self.piece_bbs@[piece_index(player, PieceKind::from_int(0))], sq as int));
        assert(!has_bit(self.piece_bbs@[piece_index(player, PieceKind::from_int(1))], sq as int));
        assert(!has_bit(self.piece_bbs@[piece_index(player, PieceKind::from_int(2))], sq as int));
        assert(!has_bit(self.piece_bbs@[piece_index(player, PieceKind::from_int(3))], sq as int));
        assert(!has_bit(self.piece_bbs@[piece_index(player, PieceKind::from_int(4))], sq as int));
        None
    }
}

} // verus!
