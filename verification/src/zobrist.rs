use vstd::prelude::*;

verus! {

use std::sync::atomic::AtomicU64;
use vstd::arithmetic::power2::{pow2, lemma_pow2_unfold};
use crate::bitboard::{squares, lowest, clear_lowest};
use crate::board::{Board, Hand, Player, PieceKind, piece_index, get_piece_index};
use crate::make_move::{board_feature, hand_feature, get_board_feature, get_hand_feature, xor_keys};
use crate::move_gen::Move;
use crate::search::EXACT;
use crate::sync::{load_word, store_word};

/// One step of the xorshift64 generator.
pub open spec fn xorshift(s: u64) -> u64 {
    let a = s ^ (s << 13u64);
    let b = a ^ (a >> 7u64);
    b ^ (b << 17u64)
}

/// The generator state after `n` steps from `seed`.
pub open spec fn xorshift_iter(seed: u64, n: nat) -> u64
    decreases n,
{
    if n == 0 {
        seed
    } else {
        xorshift(xorshift_iter(seed, (n - 1) as nat))
    }
}

/// xorshift64 never takes a nonzero state to zero.
proof fn lemma_xorshift_nonzero(s: u64)
    by (bit_vector)
    requires
        s != 0,
    ensures
        xorshift(s) != 0,
{
}

proof fn lemma_iter_nonzero(seed: u64, n: nat)
    requires
        seed != 0,
    ensures
        xorshift_iter(seed, n) != 0,
    decreases n,
{
    if n > 0 {
        lemma_iter_nonzero(seed, (n - 1) as nat);
        lemma_xorshift_nonzero(xorshift_iter(seed, (n - 1) as nat));
    }
}

struct XorShift64 {
    state: u64,
}

impl XorShift64 {
    fn new(seed: u64) -> (r: Self)
        ensures
            r.state == (if seed == 0 { 1 } else { seed }),
    {
        Self { state: if seed == 0 { 1 } else { seed } }
    }

    fn next(&mut self) -> (r: u64)
        ensures
            final(self).state == xorshift(old(self).state),
            r == final(self).state,
    {
        self.state ^= self.state << 13;
        self.state ^= self.state >> 7;
        self.state ^= self.state << 17;
        self.state
    }
}

pub const ZOBRIST_SEED: u64 = 0x123456789ABCDEF0;

/// Number of feature keys: 120 board features, 12 hand features and 2 side-to-move flags.
pub const NUM_ZOBRIST_FEATURES: usize = 134;

/// Random keys for hashing positions.
pub struct ZobristTable {
    pub features: [u64; NUM_ZOBRIST_FEATURES],
    pub side_to_move: u64,
}

impl ZobristTable {
    /// The keys drawn from xorshift64 seeded with `ZOBRIST_SEED`: the first number is the
    /// side-to-move key, the next 134 are the feature keys in order.
    pub open spec fn is_standard(self) -> bool {
        &&& self.side_to_move == xorshift_iter(ZOBRIST_SEED, 1)
        &&& forall|i: int| 0 <= i < 134 ==> #[trigger] self.features@[i] == xorshift_iter(ZOBRIST_SEED, (i + 2) as nat)
    }

    pub fn new() -> (r: Self)
        ensures
            r.is_standard(),
    {
        let mut rng = XorShift64::new(ZOBRIST_SEED);
        let first = rng.next();
        proof {
            assert(xorshift_iter(ZOBRIST_SEED, 1) == xorshift(xorshift_iter(ZOBRIST_SEED, 0)));
        }
        let mut table = Self { features: [0; NUM_ZOBRIST_FEATURES], side_to_move: first };
        let mut i: usize = 0;
        while i < NUM_ZOBRIST_FEATURES
            invariant
                i <= 134,
                table.side_to_move == xorshift_iter(ZOBRIST_SEED, 1),
                rng.state == xorshift_iter(ZOBRIST_SEED, (i + 1) as nat),
                forall|j: int| 0 <= j < i ==> #[trigger] table.features@[j] == xorshift_iter(ZOBRIST_SEED, (j + 2) as nat),
            decreases 134 - i,
        {
            let v = rng.next();
            table.features[i] = v;
            i += 1;
        }
        table
    }
}

/// Every key of the standard table is nonzero, and the standard table is one: two tables
/// drawn from the seed hold the same keys.
pub proof fn lemma_standard_keys(a: ZobristTable, b: ZobristTable)
    requires
        a.is_standard(),
        b.is_standard(),
    ensures
        a.side_to_move != 0,
        forall|i: int| 0 <= i < 134 ==> #[trigger] a.features@[i] != 0,
        a.side_to_move == b.side_to_move,
        a.features@ == b.features@,
{
    lemma_iter_nonzero(ZOBRIST_SEED, 1);
    assert forall|i: int| 0 <= i < 134 implies #[trigger] a.features@[i] != 0 by {
        lemma_iter_nonzero(ZOBRIST_SEED, (i + 2) as nat);
    }
    assert(a.features@ =~= b.features@);
}

/// Features of `player`'s pieces of kind `k` on the squares of `bb`, lowest square first.
pub open spec fn bb_features(player: Player, k: PieceKind, bb: u16) -> Seq<usize> {
    squares(bb).map_values(|sq: int| board_feature(player, k, sq) as usize)
}

/// Board features of `player` for the first `n` kinds.
pub open spec fn player_board_features(b: Board, player: Player, n: int) -> Seq<usize>
    decreases n,
{
    if n <= 0 {
        Seq::empty()
    } else {
        player_board_features(b, player, n - 1) + bb_features(
            player,
            PieceKind::from_int(n - 1),
            b.piece_bbs@[piece_index(player, PieceKind::from_int(n - 1))],
        )
    }
}

/// Hand features of a player: chicks, giraffes, elephants, each when held.
pub open spec fn hand_features(player: Player, h: Hand) -> Seq<usize> {
    (if h.chicks > 0 { seq![hand_feature(player, PieceKind::Chick, h.chicks as int) as usize] } else { Seq::empty() })
    + (if h.giraffes > 0 { seq![hand_feature(player, PieceKind::Giraffe, h.giraffes as int) as usize] } else { Seq::empty() })
    + (if h.elephants > 0 { seq![hand_feature(player, PieceKind::Elephant, h.elephants as int) as usize] } else { Seq::empty() })
}

/// Feature of the side to move: 132 for Sente, 133 for Gote.
pub open spec fn side_feature(p: Player) -> usize {
    match p {
        Player::Sente => 132,
        Player::Gote => 133,
    }
}

/// All features of a position: Sente's then Gote's pieces on the board, Sente's then Gote's
/// hand, and the side to move.
pub open spec fn all_features(b: Board) -> Seq<usize> {
    player_board_features(b, Player::Sente, 5) + player_board_features(b, Player::Gote, 5)
        + hand_features(Player::Sente, b.hands@[0]) + hand_features(Player::Gote, b.hands@[1])
        + seq![side_feature(b.side_to_move)]
}

/// No hand holds more than two pieces of a kind.
pub open spec fn hands_ok(b: Board) -> bool {
    forall|i: int| 0 <= i < 2 ==> {
        &&& (#[trigger] b.hands@[i]).chicks <= 2
        &&& b.hands@[i].giraffes <= 2
        &&& b.hands@[i].elephants <= 2
    }
}

/// The hash of a whole position: the keys of all its features xored together, and the
/// side-to-move key when Sente is to move.
pub open spec fn position_hash(z: ZobristTable, b: Board) -> u64 {
    let h = xor_keys(0, z.features@, all_features(b));
    if b.side_to_move == Player::Sente { h ^ z.side_to_move } else { h }
}

proof fn lemma_map_unfold_usize(x: int, rest: Seq<int>, f: spec_fn(int) -> usize)
    ensures
        (seq![x] + rest).map_values(f) == seq![f(x)] + rest.map_values(f),
{
    assert((seq![x] + rest).map_values(f) =~= seq![f(x)] + rest.map_values(f));
}

fn push_hand_features(player: Player, h: Hand, features: &mut Vec<usize>)
    requires
        h.chicks <= 2,
        h.giraffes <= 2,
        h.elephants <= 2,
    ensures
        final(features)@ == old(features)@ + hand_features(player, h),
{
    let ghost f0 = features@;
    let chicks = h.chicks;
    if chicks > 0 {
        features.push(get_hand_feature(player, PieceKind::Chick, chicks));
    }
    let giraffes = h.giraffes;
    if giraffes > 0 {
        features.push(get_hand_feature(player, PieceKind::Giraffe, giraffes));
    }
    let elephants = h.elephants;
    if elephants > 0 {
        features.push(get_hand_feature(player, PieceKind::Elephant, elephants));
    }
    proof {
        assert(features@ =~= f0 + hand_features(player, h));
    }
}

impl Board {
    /// The hash of the position computed from scratch.
    pub fn compute_initial_hash(&self, z_table: &ZobristTable) -> (r: u64)
        requires
            hands_ok(*self),
        ensures
            r == position_hash(*z_table, *self),
    {
        let mut h: u64 = 0;
        let active_features = self.extract_all_features();
        let mut i: usize = 0;
        while i < active_features.len()
            invariant
                active_features@ == all_features(*self),
                forall|j: int| 0 <= j < active_features@.len() ==> #[trigger] active_features@[j] < 134,
                i <= active_features@.len(),
                h == xor_keys(0, z_table.features@, active_features@.take(i as int)),
            decreases active_features@.len() - i,
        {
            proof {
                assert(active_features@.take(i + 1).drop_last() =~= active_features@.take(i as int));
            }
            h ^= z_table.features[active_features[i]];
            i += 1;
        }
        proof {
            assert(active_features@.take(active_features@.len() as int) =~= active_features@);
        }
        if self.side_to_move == Player::Sente {
            h ^= z_table.side_to_move;
        }
        h
    }

    /// All features of the position, in the order of `all_features`.
    pub fn extract_all_features(&self) -> (r: Vec<usize>)
        requires
            hands_ok(*self),
        ensures
            r@ == all_features(*self),
            forall|j: int| 0 <= j < r@.len() ==> #[trigger] r@[j] < 134,
    {
        let mut features: Vec<usize> = Vec::new();
        let mut pi: usize = 0;
        while pi < 2
            invariant
                pi <= 2,
                pi == 0 ==> features@ == Seq::<usize>::empty(),
                pi == 1 ==> features@ == player_board_features(*self, Player::Sente, 5),
                pi == 2 ==> features@ == player_board_features(*self, Player::Sente, 5)
                    + player_board_features(*self, Player::Gote, 5),
                forall|j: int| 0 <= j < features@.len() ==> #[trigger] features@[j] < 134,
            decreases 2 - pi,
        {
            let player = if pi == 0 { Player::Sente } else { Player::Gote };
            let ghost f0 = features@;
            let mut ki: usize = 0;
            while ki < 5
                invariant
                    ki <= 5,
                    pi < 2,
                    player.index() == pi,
                    features@ == f0 + player_board_features(*self, player, ki as int),
                    forall|j: int| 0 <= j < features@.len() ==> #[trigger] features@[j] < 134,
                decreases 5 - ki,
            {
                let kind = PieceKind::from_id(ki as u8);
                let p_idx = get_piece_index(player, kind);
                let bb0 = self.piece_bbs[p_idx];
                let mut bb = bb0;
                let ghost f1 = features@;
                while bb != 0
                    invariant
                        kind == PieceKind::from_int(ki as int),
                        features@ + bb_features(player, kind, bb) == f1 + bb_features(player, kind, bb0),
                        forall|j: int| 0 <= j < features@.len() ==> #[trigger] features@[j] < 134,
                    decreases bb,
                {
                    proof {
                        crate::bitboard::lemma_lowest(bb);
                        crate::bitboard::lemma_clear_lowest_smaller(bb);
                        lemma_map_unfold_usize(lowest(bb), squares(clear_lowest(bb)),
                            |sq: int| board_feature(player, kind, sq) as usize);
                    }
                    let sq = bb.trailing_zeros() as usize;
                    features.push(get_board_feature(player, kind, sq));
                    bb &= bb - 1;
                    proof {
                        assert(features@ + bb_features(player, kind, bb)
                            =~= f1 + bb_features(player, kind, bb0));
                    }
                }
                proof {
                    assert(bb_features(player, kind, 0) =~= Seq::<usize>::empty());
                    assert(features@ =~= f1 + bb_features(player, kind, bb0));
                }
                ki += 1;
                proof {
                    assert(features@ =~= f0 + player_board_features(*self, player, ki as int));
                }
            }
            pi += 1;
        }
        push_hand_features(Player::Sente, self.hands[0], &mut features);
        push_hand_features(Player::Gote, self.hands[1], &mut features);
        if self.side_to_move == Player::Sente {
            features.push(132);
        } else {
            features.push(133);
        }
        proof {
            assert(features@ =~= all_features(*self));
        }
        features
    }
}

/// A transposition table entry.
#[derive(Clone, Copy, Debug, PartialEq, Eq, Structural)]
pub struct TTEntry {
    pub key: u64,
    pub depth: u8,
    pub score: i32,
    pub best_move: Move,
    pub node_type: u8,
}

/// The data word of an entry: score (as 16 bits) in bits 0-15, move in 16-31, depth in
/// 32-39, node type in 40-47.
pub open spec fn pack_spec(e: TTEntry) -> u64 {
    ((e.score as i16 as u16 as u64) & 0xFFFFu64)
        | (((e.best_move.0 as u64) & 0xFFFFu64) << 16u64)
        | (((e.depth as u64) & 0xFFu64) << 32u64)
        | (((e.node_type as u64) & 0xFFu64) << 40u64)
}

/// The entry stored under `key` with data word `d`.
pub open spec fn unpack_spec(key: u64, d: u64) -> TTEntry {
    TTEntry {
        key,
        depth: ((d >> 32u64) & 0xFFu64) as u8,
        score: (d & 0xFFFFu64) as u16 as i16 as i32,
        best_move: Move(((d >> 16u64) & 0xFFFFu64) as u16),
        node_type: ((d >> 40u64) & 0xFFu64) as u8,
    }
}

/// One slot of the table: the data word and the key xored with it, so that a torn read from
/// two different writes fails the key check.
pub struct TTEntryAtomic {
    key_xor_data: AtomicU64,
    data: AtomicU64,
}

impl TTEntryAtomic {
    fn new() -> Self {
        Self { key_xor_data: AtomicU64::new(0), data: AtomicU64::new(0) }
    }

    /// The data word of an entry: score (16 bits, two's complement), move (16 bits), depth and
    /// node type (8 bits each), from the low bits up; the top 16 bits stay clear.
    pub fn pack(entry: &TTEntry) -> (r: u64)
        ensures
            r == pack_spec(*entry),
            r < 0x1_0000_0000_0000u64,
    {
        let mut d: u64 = 0;
        d |= (entry.score as i16 as u16 as u64) & 0xFFFF;
        d |= ((entry.best_move.0 as u64) & 0xFFFF) << 16;
        d |= ((entry.depth as u64) & 0xFF) << 32;
        d |= ((entry.node_type as u64) & 0xFF) << 40;
        proof {
            let a = (entry.score as i16 as u16 as u64) & 0xFFFFu64;
            assert(0u64 | a == a) by (bit_vector);
            let s = entry.score;
            let m = entry.best_move.0;
            let dp = entry.depth;
            let nt = entry.node_type;
            assert(((s as i16 as u16 as u64) & 0xFFFFu64) | (((m as u64) & 0xFFFFu64) << 16u64) | (((dp as u64)
                & 0xFFu64) << 32u64) | (((nt as u64) & 0xFFu64) << 40u64) < 0x1_0000_0000_0000u64) by (bit_vector);
        }
        d
    }

    /// The entry stored under `key` with data word `d`.
    pub fn unpack(key: u64, d: u64) -> (r: TTEntry)
        ensures
            r == unpack_spec(key, d),
    {
        let score = (d & 0xFFFF) as u16 as i16 as i32;
        let best_move = Move(((d >> 16) & 0xFFFF) as u16);
        let depth = ((d >> 32) & 0xFF) as u8;
        let node_type = ((d >> 40) & 0xFF) as u8;
        TTEntry { key, depth, score, best_move, node_type }
    }
}

/// Packing an entry and unpacking the word under the same key gives the entry back, for every
/// score that fits in 16 bits.
pub proof fn lemma_pack_unpack(e: TTEntry)
    requires
        i16::MIN <= e.score <= i16::MAX,
    ensures
        unpack_spec(e.key, pack_spec(e)) == e,
{
    let s = e.score;
    let m = e.best_move.0;
    let dp = e.depth;
    let nt = e.node_type;
    let d = pack_spec(e);
    assert(-32768 <= s <= 32767 ==> {
        let w = ((s as i16 as u16 as u64) & 0xFFFFu64) | (((m as u64) & 0xFFFFu64) << 16u64)
            | (((dp as u64) & 0xFFu64) << 32u64) | (((nt as u64) & 0xFFu64) << 40u64);
        &&& (w & 0xFFFFu64) as u16 as i16 as i32 == s
        &&& ((w >> 16u64) & 0xFFFFu64) as u16 == m
        &&& ((w >> 32u64) & 0xFFu64) as u8 == dp
        &&& ((w >> 40u64) & 0xFFu64) as u8 == nt
    }) by (bit_vector);
}

/// For every entry, the packed word fits in 48 bits, and unpacking it under any key gives that
/// key, the entry's depth, move and node type, and its score cut to 16 bits.
pub proof fn lemma_pack_unpack_any(e: TTEntry, key: u64)
    ensures
        pack_spec(e) < 0x1_0000_0000_0000u64,
        unpack_spec(key, pack_spec(e)).key == key,
        unpack_spec(key, pack_spec(e)).depth == e.depth,
        unpack_spec(key, pack_spec(e)).best_move == e.best_move,
        unpack_spec(key, pack_spec(e)).node_type == e.node_type,
        unpack_spec(key, pack_spec(e)).score == e.score as i16 as i32,
{
    let s = e.score;
    let m = e.best_move.0;
    let dp = e.depth;
    let nt = e.node_type;
    assert({
        let w = ((s as i16 as u16 as u64) & 0xFFFFu64) | (((m as u64) & 0xFFFFu64) << 16u64)
            | (((dp as u64) & 0xFFu64) << 32u64) | (((nt as u64) & 0xFFu64) << 40u64);
        &&& w < 0x1_0000_0000_0000u64
        &&& (w & 0xFFFFu64) as u16 as i16 as i32 == s as i16 as i32
        &&& ((w >> 16u64) & 0xFFFFu64) as u16 == m
        &&& ((w >> 32u64) & 0xFFu64) as u8 == dp
        &&& ((w >> 40u64) & 0xFFu64) as u8 == nt
    }) by (bit_vector);
}

/// What a slot holding `key_xor_data` and `data` answers for `key`: the entry unpacked from
/// `data` when the two words agree on the key, nothing otherwise.
pub open spec fn slot_answer(key: u64, key_xor_data: u64, data: u64) -> Option<TTEntry> {
    if key_xor_data ^ data == key { Some(unpack_spec(key, data)) } else { None }
}

/// A slot written completely by one store of `e` answers a probe for `e.key` with `e`, for
/// every score that fits in 16 bits.
pub proof fn lemma_slot_read_after_write(e: TTEntry)
    requires
        i16::MIN <= e.score <= i16::MAX,
    ensures
        slot_answer(e.key, e.key ^ pack_spec(e), pack_spec(e)) == Some(e),
{
    lemma_pack_unpack(e);
    let k = e.key;
    let d = pack_spec(e);
    assert((k ^ d) ^ d == k) by (bit_vector);
}

/// A slot whose two words come from different stores under the same key (a torn write) answers
/// a probe for that key with nothing.
pub proof fn lemma_torn_slot_rejected(key: u64, d1: u64, d2: u64)
    requires
        d1 != d2,
    ensures
        slot_answer(key, key ^ d1, d2) is None,
{
    assert(d1 != d2 ==> (key ^ d1) ^ d2 != key) by (bit_vector);
}

pub open spec fn is_pow2(n: int) -> bool {
    exists|k: nat| n == pow2(k)
}

/// The smallest power of two that is at least `n`.
fn next_power_of_two(n: usize) -> (r: usize)
    requires
        n <= usize::MAX / 2 + 1,
    ensures
        is_pow2(r as int),
        r >= n,
        r == 1 || r / 2 < n,
{
    let mut p: usize = 1;
    let ghost mut k: nat = 0;
    proof {
        assert(pow2(0) == 1) by {
            vstd::arithmetic::power2::lemma2_to64();
        }
    }
    while p < n
        invariant
            n <= usize::MAX / 2 + 1,
            p == pow2(k),
            p >= 1,
            p == 1 || p / 2 < n,
        decreases usize::MAX - p,
    {
        proof {
            lemma_pow2_unfold(k + 1);
        }
        p = p * 2;
        proof {
            k = k + 1;
        }
    }
    p
}

/// A hash table of search results shared by the search threads. Each slot is written and read
/// with relaxed atomic operations; a slot whose two words come from different writes fails the
/// key check and reads as empty.
pub struct TranspositionTable {
    entries: Vec<TTEntryAtomic>,
    mask: u64,
}

impl TranspositionTable {
    pub closed spec fn wf(self) -> bool {
        &&& self.entries@.len() == self.mask + 1
        &&& self.entries@.len() <= usize::MAX
        &&& is_pow2(self.entries@.len() as int)
    }

    /// Number of slots.
    pub closed spec fn size(self) -> int {
        self.entries@.len() as int
    }

    /// A table with `capacity` rounded up to a power of two slots, all empty.
    pub fn new(capacity: usize) -> (r: Self)
        requires
            capacity <= usize::MAX / 2 + 1,
        ensures
            r.wf(),
            is_pow2(r.size()),
            r.size() >= capacity,
            r.size() == 1 || r.size() / 2 < capacity,
    {
        let size = next_power_of_two(capacity);
        let mask = (size - 1) as u64;
        let mut entries: Vec<TTEntryAtomic> = Vec::with_capacity(size);
        let mut i: usize = 0;
        while i < size
            invariant
                i <= size,
                entries@.len() == i,
            decreases size - i,
        {
            entries.push(TTEntryAtomic::new());
            i += 1;
        }
        Self { entries, mask }
    }

    /// What a slot holding `key_xor_data` and `data` answers for `key` (see `slot_answer`).
    pub fn check_slot(key: u64, key_xor_data: u64, data: u64) -> (r: Option<TTEntry>)
        ensures
            r == slot_answer(key, key_xor_data, data),
    {
        if key_xor_data ^ data == key {
            Some(TTEntryAtomic::unpack(key, data))
        } else {
            None
        }
    }

    /// Whether an entry replaces the slot whose data word is `old_data`: when it was searched at
    /// least as deep as the stored one, or it is exact.
    pub fn should_replace(old_data: u64, entry: &TTEntry) -> (r: bool)
        ensures
            r == (entry.depth >= ((old_data >> 32u64) & 0xFFu64) as u8 || entry.node_type == EXACT),
    {
        let old_depth = ((old_data >> 32) & 0xFF) as u8;
        entry.depth >= old_depth || entry.node_type == EXACT
    }

    /// The slot of `key`: the key modulo the number of slots (its low bits).
    fn slot_index(&self, key: u64) -> (r: usize)
        requires
            self.wf(),
        ensures
            r < self.entries@.len(),
            r == key as int % self.entries@.len() as int,
    {
        let m = self.mask;
        proof {
            assert(key & m <= m) by (bit_vector);
            let k = choose|k: nat| self.entries@.len() as int == pow2(k);
            if k >= 64 {
                vstd::arithmetic::power2::lemma2_to64();
                if k > 64 {
                    vstd::arithmetic::power2::lemma_pow2_strictly_increases(64, k);
                }
                assert(false);
            }
            assert(vstd::bits::low_bits_mask(k) == m);
            vstd::bits::lemma_u64_low_bits_mask_is_mod(key, k);
            vstd::arithmetic::power2::lemma_pow2_pos(k);
        }
        (key & self.mask) as usize
    }

    /// Looks up `key`. What comes back depends on what the threads sharing the table wrote; an
    /// entry that comes back carries `key` and is the unpacking of some data word.
    pub fn probe(&self, key: u64) -> (r: Option<TTEntry>)
        requires
            self.wf(),
        ensures
            r matches Some(e) ==> e.key == key && exists|d: u64| e == unpack_spec(key, d),
    {
        let (r, _) = self.read_slot(key);
        proof {
            if r is Some {
                let (kx, d) = choose|kx: u64, d: u64| r == slot_answer(key, kx, d);
                assert(r->0 == unpack_spec(key, d));
            }
        }
        r
    }

    /// Reads the slot of `key` (the key modulo the number of slots, returned as a ghost value,
    /// the slot that `store` writes for that key) and answers with what its two words give for
    /// `key`.
    fn read_slot(&self, key: u64) -> (r: (Option<TTEntry>, Ghost<int>))
        requires
            self.wf(),
        ensures
            r.1@ == key as int % self.size(),
            exists|key_xor_data: u64, data: u64| r.0 == slot_answer(key, key_xor_data, data),
    {
        let index = self.slot_index(key);
        let entry = &self.entries[index];
        let data = load_word(&entry.data);
        let key_xor_data = load_word(&entry.key_xor_data);
        let r = Self::check_slot(key, key_xor_data, data);
        (r, Ghost(index as int))
    }

    /// Stores an entry in the slot of its key when `should_replace` allows it, writing the
    /// key xored with the data word and then the data word. What comes back (a ghost value)
    /// tells which slot was written and with which two words, or that nothing was written, which
    /// only a shallower entry that is not exact can meet.
    pub fn store(&self, entry: TTEntry) -> (written: Ghost<Option<(int, u64, u64)>>)
        requires
            self.wf(),
        ensures
            written@ matches Some((slot, key_xor_data, data)) ==> slot == entry.key as int % self.size()
                && key_xor_data == entry.key ^ pack_spec(entry) && data == pack_spec(entry),
            written@ is None ==> entry.node_type != EXACT && entry.depth < 255,
    {
        let index = self.slot_index(entry.key);
        let dest = &self.entries[index];
        let old_data = load_word(&dest.data);
        if Self::should_replace(old_data, &entry) {
            let new_data = TTEntryAtomic::pack(&entry);
            store_word(&dest.key_xor_data, entry.key ^ new_data);
            store_word(&dest.data, new_data);
            Ghost(Some((index as int, entry.key ^ new_data, new_data)))
        } else {
            proof {
                assert(((old_data >> 32u64) & 0xFFu64) as u8 <= 255);
            }
            Ghost(None)
        }
    }
}

} // verus!
