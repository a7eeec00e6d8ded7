use vstd::prelude::*;

verus! {

use crate::bitboard::{has_bit, on_board, squares, sq_bit, lowest};
use crate::move_gen::{attack_bb, attack_bitboard};


#[derive(Clone, Copy, Debug, PartialEq, Eq, Structural)]
pub enum Player {
    Sente,
    Gote,
}

impl Player {
    /// Index of the player in per-player arrays: 0 for Sente, 1 for Gote.
    pub open spec fn index(self) -> int {
        match self {
            Player::Sente => 0,
            Player::Gote => 1,
        }
    }

    pub open spec fn other(self) -> Player {
        match self {
            Player::Sente => Player::Gote,
            Player::Gote => Player::Sente,
        }
    }

    /// The other player.
    pub fn opponent(self) -> (r: Self)
        ensures
            r == self.other(),
            r != self,
    {
        match self {
            Player::Sente => Player::Gote,
            Player::Gote => Player::Sente,
        }
    }

    pub fn idx(self) -> (r: usize)
        ensures
            r == self.index(),
    {
        match self {
            Player::Sente => 0,
            Player::Gote => 1,
        }
    }
}

#[derive(Clone, Copy, Debug, PartialEq, Eq, Structural)]
pub enum PieceKind {
    Lion,
    Giraffe,
    Elephant,
    Chick,
    Hen,
}

impl PieceKind {
    /// Every kind, in the order of their ids.
    pub const ALL: [PieceKind; 5] = [
        PieceKind::Lion,
        PieceKind::Giraffe,
        PieceKind::Elephant,
        PieceKind::Chick,
        PieceKind::Hen,
    ];

    pub open spec fn id(self) -> int {
        match self {
            PieceKind::Lion => 0,
            PieceKind::Giraffe => 1,
            PieceKind::Elephant => 2,
            PieceKind::Chick => 3,
            PieceKind::Hen => 4,
        }
    }

    pub open spec fn from_int(v: int) -> PieceKind {
        if v == 0 {
            PieceKind::Lion
        } else if v == 1 {
            PieceKind::Giraffe
        } else if v == 2 {
            PieceKind::Elephant
        } else if v == 3 {
            PieceKind::Chick
        } else {
            PieceKind::Hen
        }
    }

    pub fn piece_id(self) -> (r: usize)
        ensures
            r == self.id(),
    {
        match self {
            PieceKind::Lion => 0,
            PieceKind::Giraffe => 1,
            PieceKind::Elephant => 2,
            PieceKind::Chick => 3,
            PieceKind::Hen => 4,
        }
    }

    /// The kind with the given id; ids run from 0 (Lion) to 4 (Hen).
    pub fn from_id(value: u8) -> (r: Self)
        requires
            value < 5,
        ensures
            r == Self::from_int(value as int),
            r.id() == value,
    {
        match value {
            0 => PieceKind::Lion,
            1 => PieceKind::Giraffe,
            2 => PieceKind::Elephant,
            3 => PieceKind::Chick,
            _ => PieceKind::Hen,
        }
    }
}

pub(crate) proof fn lemma_kind_id(k: PieceKind)
    ensures
        0 <= k.id() < 5,
        PieceKind::from_int(k.id()) == k,
{
}

/// `PieceKind::ALL` lists each kind at its id.
pub proof fn lemma_all_kinds(k: PieceKind)
    ensures
        PieceKind::ALL@.len() == 5,
        0 <= k.id() < 5,
        PieceKind::ALL@[k.id()] == k,
{
}

/// Number of (player, kind) bitboards.
pub const PIECE_TYPE_COUNT: usize = 10;

pub open spec fn piece_index(player: Player, kind: PieceKind) -> int {
    player.index() * 5 + kind.id()
}

pub fn get_piece_index(player: Player, kind: PieceKind) -> (r: usize)
    ensures
        r == piece_index(player, kind),
        r < 10,
{
    let p_idx: usize = match player {
        Player::Sente => 0,
        Player::Gote => 1,
    };
    let k_idx = kind.piece_id();
    p_idx * 5 + k_idx
}

/// Pieces in hand of one player.
#[derive(Clone, Copy, Debug, Default, PartialEq, Eq, Structural)]
pub struct Hand {
    pub chicks: u8,
    pub giraffes: u8,
    pub elephants: u8,
}

#[derive(Clone, Copy, Debug)]
pub struct Board {
    /// Bitboards indexed by `piece_index`: 0..5 Sente's Lion..Hen, 5..10 Gote's.
    pub piece_bbs: [u16; PIECE_TYPE_COUNT],
    /// Hands indexed by `Player::index`.
    pub hands: [Hand; 2],
    pub side_to_move: Player,
}

/// Union of the five bitboards of one player.
pub open spec fn union5(bbs: Seq<u16>, start: int) -> u16 {
    bbs[start] | bbs[start + 1] | bbs[start + 2] | bbs[start + 3] | bbs[start + 4]
}

/// Union of the first `n` of the five bitboards from `start` on.
pub open spec fn union_prefix(bbs: Seq<u16>, start: int, n: int) -> u16
    decreases n,
{
    if n <= 0 {
        0u16
    } else {
        union_prefix(bbs, start, n - 1) | bbs[start + n - 1]
    }
}

proof fn lemma_union_prefix_5(bbs: Seq<u16>, start: int)
    ensures
        union_prefix(bbs, start, 5) == union5(bbs, start),
{
    let a = bbs[start];
    assert((0u16 | a) == a) by (bit_vector);
    reveal_with_fuel(union_prefix, 6);
}

impl Board {
    /// All squares holding a piece of `player`.
    pub open spec fn occupied_spec(self, player: Player) -> u16 {
        union5(self.piece_bbs@, player.index() * 5)
    }

    /// Every bitboard keeps to the twelve squares of the board.
    pub open spec fn bitboards_on_board(self) -> bool {
        forall|i: int| 0 <= i < 10 ==> on_board(#[trigger] self.piece_bbs@[i])
    }

    /// Some piece of `turn` attacks square `target`.
    pub open spec fn attacked_by(self, target: int, turn: Player) -> bool {
        exists|k: int, s: int|
            0 <= k < 5 && #[trigger] has_bit(self.piece_bbs@[turn.index() * 5 + k], s)
                && #[trigger] has_bit(attack_bb(turn, PieceKind::from_int(k), s), target)
    }

    /// Among the pieces of `turn` scanned kind by kind and square by square upwards before the
    /// piece of kind `k` on square `s`, one on the board attacks `target`.
    pub open spec fn hit_before(self, target: int, turn: Player, k: int, s: int) -> bool {
        exists|k2: int, s2: int|
            0 <= k2 <= k && (k2 < k || s2 < s) && 0 <= s2 < 12 && #[trigger] has_bit(
                self.piece_bbs@[turn.index() * 5 + k2],
                s2,
            ) && #[trigger] has_bit(attack_bb(turn, PieceKind::from_int(k2), s2), target)
    }

    /// The scan for an attacker of `target` among the pieces of `turn` finds one before it
    /// meets a piece off the board.
    pub open spec fn scan_defined(self, target: int, turn: Player) -> bool {
        forall|k: int, s: int|
            0 <= k < 5 && 12 <= s && #[trigger] has_bit(self.piece_bbs@[turn.index() * 5 + k], s) ==> self.hit_before(
                target,
                turn,
                k,
                s,
            )
    }

    /// The result can be read off the board: with both lions present, each attacker scan that
    /// the rules reach (for a lion on its far row) is defined.
    pub open spec fn winner_defined(self) -> bool {
        let sl = self.piece_bbs@[0];
        let gl = self.piece_bbs@[5];
        sl != 0 && gl != 0 ==> {
            &&& lowest(sl) < 3 ==> self.scan_defined(lowest(sl), Player::Gote)
            &&& !(lowest(sl) < 3 && !self.attacked_by(lowest(sl), Player::Gote)) && lowest(gl) >= 9
                ==> self.scan_defined(lowest(gl), Player::Sente)
        }
    }

    /// The game result on this board: a player whose lion has been taken loses; a lion on
    /// the far row that no enemy piece attacks wins (Sente checked first).
    pub open spec fn winner_spec(self) -> Option<Player> {
        let sl = self.piece_bbs@[0];
        let gl = self.piece_bbs@[5];
        if sl == 0 {
            Some(Player::Gote)
        } else if gl == 0 {
            Some(Player::Sente)
        } else if lowest(sl) < 3 && !self.attacked_by(lowest(sl), Player::Gote) {
            Some(Player::Sente)
        } else if lowest(gl) >= 9 && !self.attacked_by(lowest(gl), Player::Sente) {
            Some(Player::Gote)
        } else {
            None
        }
    }

    pub open spec fn initial_spec() -> Board {
        Board {
            piece_bbs: [
                1u16 << 10u16,
                1u16 << 11u16,
                1u16 << 9u16,
                1u16 << 7u16,
                0,
                1u16 << 1u16,
                1u16 << 0u16,
                1u16 << 2u16,
                1u16 << 4u16,
                0,
            ],
            hands: [
                Hand { chicks: 0, giraffes: 0, elephants: 0 },
                Hand { chicks: 0, giraffes: 0, elephants: 0 },
            ],
            side_to_move: Player::Sente,
        }
    }

    /// The starting position: Sente's elephant, lion, giraffe on the bottom row with its chick
    /// in front; Gote's pieces mirrored on the top rows.
    pub fn initial_position() -> (r: Self)
        ensures
            r == Self::initial_spec(),
    {
        Self {
            piece_bbs: [
                1 << 10,
                1 << 11,
                1 << 9,
                1 << 7,
                0,
                1 << 1,
                1 << 0,
                1 << 2,
                1 << 4,
                0,
            ],
            hands: [
                Hand { chicks: 0, giraffes: 0, elephants: 0 },
                Hand { chicks: 0, giraffes: 0, elephants: 0 },
            ],
            side_to_move: Player::Sente,
        }
    }

    /// The bitboard of one square.
    pub fn square_bit(sq: usize) -> (r: u16)
        requires
            sq < 12,
        ensures
            r == sq_bit(sq as int),
    {
        1 << (sq as u16)
    }

    /// All squares holding a piece of `player`.
    pub fn occupied_by(&self, player: Player) -> (r: u16)
        ensures
            r == self.occupied_spec(player),
    {
        let start: usize = match player {
            Player::Sente => 0,
            Player::Gote => 5,
        };
        let mut bb = 0u16;
        let mut i = start;
        while i < start + 5
            invariant
                start == player.index() * 5,
                start <= i <= start + 5,
                bb == union_prefix(self.piece_bbs@, start as int, i - start),
            decreases start + 5 - i,
        {
            bb |= self.piece_bbs[i];
            i += 1;
        }
        proof {
            lemma_union_prefix_5(self.piece_bbs@, start as int);
        }
        bb
    }

    /// All squares holding a piece of either player; the argument plays no part.
    pub fn occupied(&self, _player: Player) -> (r: u16)
        ensures
            r == self.occupied_spec(Player::Sente) | self.occupied_spec(Player::Gote),
    {
        self.occupied_by(Player::Sente) | self.occupied_by(Player::Gote)
    }

    /// Whether some piece of `turn` attacks square `target_sq`.
    pub fn any_attacker(&self, target_sq: u32, turn: Player) -> (r: bool)
        requires
            target_sq < 16,
            self.scan_defined(target_sq as int, turn),
        ensures
            r == self.attacked_by(target_sq as int, turn),
    {
        let base: usize = if turn == Player::Sente { 0 } else { 5 };
        let mut kind_id: usize = 0;
        while kind_id < 5
            invariant
                base == turn.index() * 5,
                kind_id <= 5,
                target_sq < 16,
                self.scan_defined(target_sq as int, turn),
                forall|k: int, s: int| 0 <= k < kind_id ==> !(#[trigger] has_bit(self.piece_bbs@[base + k], s)
                    && #[trigger] has_bit(attack_bb(turn, PieceKind::from_int(k), s), target_sq as int)),
            decreases 5 - kind_id,
        {
            let kind = PieceKind::from_id(kind_id as u8);
            let orig = self.piece_bbs[base + kind_id];
            let mut bb = orig;
            while bb > 0
                invariant
                    base == turn.index() * 5,
                    kind_id < 5,
                    target_sq < 16,
                    kind == PieceKind::from_int(kind_id as int),
                    orig == self.piece_bbs@[base + kind_id],
                    self.scan_defined(target_sq as int, turn),
                    forall|k: int, s: int| 0 <= k < kind_id ==> !(#[trigger] has_bit(self.piece_bbs@[base + k], s)
                        && #[trigger] has_bit(attack_bb(turn, PieceKind::from_int(k), s), target_sq as int)),
                    forall|s: int| #[trigger] has_bit(bb, s) ==> has_bit(orig, s),
                    forall|s: int| #[trigger] has_bit(orig, s) && !has_bit(bb, s)
                        ==> !has_bit(attack_bb(turn, kind, s), target_sq as int),
                decreases bb,
            {
                proof {
                    crate::bitboard::lemma_lowest(bb);
                    crate::bitboard::lemma_clear_lowest_smaller(bb);
                    let low = lowest(bb);
                    if low >= 12 {
                        assert(has_bit(self.piece_bbs@[turn.index() * 5 + kind_id], low));
                        assert(self.hit_before(target_sq as int, turn, kind_id as int, low));
                        let (k2, s2) = choose|k2: int, s2: int|
                            0 <= k2 <= kind_id && (k2 < kind_id || s2 < low) && 0 <= s2 < 12 && #[trigger] has_bit(
                                self.piece_bbs@[turn.index() * 5 + k2],
                                s2,
                            ) && #[trigger] has_bit(attack_bb(turn, PieceKind::from_int(k2), s2), target_sq as int);
                        if k2 == kind_id {
                            assert(!has_bit(bb, s2));
                        }
                        assert(false);
                    }
                }
                let sq = bb.trailing_zeros() as usize;
                let att = attack_bitboard(turn, kind, sq);
                let t = target_sq as u16;
                proof {
                    assert(t < 16 ==> ((att & (1u16 << t)) != 0 <==> (att >> t) & 1u16 == 1u16)) by (bit_vector);
                }
                if (att & (1u16 << t)) != 0 {
                    assert(has_bit(self.piece_bbs@[turn.index() * 5 + kind_id as int], sq as int));
                    assert(has_bit(attack_bb(turn, PieceKind::from_int(kind_id as int), sq as int), target_sq as int));
                    return true;
                }
                bb &= bb - 1;
            }
            proof {
                crate::bitboard::lemma_zero_has_no_bit();
            }
            kind_id += 1;
        }
        false
    }

    /// The game result on this board, if any.
    pub fn winner(&self) -> (r: Option<Player>)
        requires
            self.winner_defined(),
        ensures
            r == self.winner_spec(),
    {
        let sente_lion = PieceKind::Lion.piece_id();
        let gote_lion = PieceKind::Lion.piece_id() + PIECE_TYPE_COUNT / 2;
        if self.piece_bbs[sente_lion] == 0 {
            return Some(Player::Gote);
        }
        if self.piece_bbs[gote_lion] == 0 {
            return Some(Player::Sente);
        }
        proof {
            crate::bitboard::lemma_lowest(self.piece_bbs@[0]);
            crate::bitboard::lemma_lowest(self.piece_bbs@[5]);
        }
        let sente_lion_sq = self.piece_bbs[sente_lion].trailing_zeros();
        if sente_lion_sq < 3 && !self.any_attacker(sente_lion_sq, Player::Gote) {
            return Some(Player::Sente);
        }
        let gote_lion_sq = self.piece_bbs[gote_lion].trailing_zeros();
        if gote_lion_sq >= 12 - 3 && !self.any_attacker(gote_lion_sq, Player::Sente) {
            return Some(Player::Gote);
        }
        None
    }
}

impl Board {
    /// Two boards are the same position: same bitboards, hands and side to move.
    pub open spec fn same(self, other: Board) -> bool {
        &&& self.piece_bbs@ == other.piece_bbs@
        &&& self.hands@ == other.hands@
        &&& self.side_to_move == other.side_to_move
    }
}

/// A square counts as attacked by `p` as soon as one piece of `p`, of any of the five kinds
/// (the hen included), attacks it from its square.
pub proof fn lemma_attacked_by_any_kind(b: Board, p: Player, k: int, s: int, t: int)
    requires
        0 <= k < 5,
        has_bit(b.piece_bbs@[p.index() * 5 + k], s),
        has_bit(attack_bb(p, PieceKind::from_int(k), s), t),
    ensures
        b.attacked_by(t, p),
{
}

/// With both lions on the board, a player's lion that some enemy piece of any kind attacks
/// does not win: the player is not the winner.
pub proof fn lemma_attacked_lion_does_not_win(b: Board, p: Player, k: int, s: int)
    requires
        b.piece_bbs@[0] != 0,
        b.piece_bbs@[5] != 0,
        0 <= k < 5,
        has_bit(b.piece_bbs@[p.other().index() * 5 + k], s),
        has_bit(attack_bb(p.other(), PieceKind::from_int(k), s), lowest(b.piece_bbs@[p.index() * 5])),
    ensures
        b.winner_spec() != Some(p),
{
    lemma_attacked_by_any_kind(b, p.other(), k, s, lowest(b.piece_bbs@[p.index() * 5]));
}

/// On a board whose pieces all stand on its twelve squares, every attacker scan is defined.
pub proof fn lemma_on_board_scans(b: Board)
    requires
        b.bitboards_on_board(),
    ensures
        b.winner_defined(),
        forall|t: int, p: Player| #[trigger] b.scan_defined(t, p),
{
    assert forall|t: int, p: Player| #[trigger] b.scan_defined(t, p) by {
        assert forall|k: int, s: int|
            0 <= k < 5 && 12 <= s && #[trigger] has_bit(b.piece_bbs@[p.index() * 5 + k], s) implies b.hit_before(
            t,
            p,
            k,
            s,
        ) by {
            crate::bitboard::lemma_on_board(b.piece_bbs@[p.index() * 5 + k]);
        }
    }
}

/// Boards compare equal exactly when they are the same value: same bitboards, same hands and
/// the same side to move.
pub proof fn lemma_same_is_eq(a: Board, b: Board)
    ensures
        a.same(b) <==> a == b,
{
    if a.same(b) {
        assert(a.piece_bbs =~= b.piece_bbs);
        assert(a.hands =~= b.hands);
    }
}

impl PartialEq for Board {
    fn eq(&self, other: &Board) -> (r: bool) {
        let mut i: usize = 0;
        while i < PIECE_TYPE_COUNT
            invariant
                i <= PIECE_TYPE_COUNT,
                forall|j: int| 0 <= j < i ==> self.piece_bbs@[j] == other.piece_bbs@[j],
            decreases PIECE_TYPE_COUNT - i,
        {
            if self.piece_bbs[i] != other.piece_bbs[i] {
                return false;
            }
            i += 1;
        }
        assert(self.piece_bbs@ =~= other.piece_bbs@);
        if self.hands[0] != other.hands[0] || self.hands[1] != other.hands[1] {
            return false;
        }
        assert(self.hands@ =~= other.hands@);
        self.side_to_move == other.side_to_move
    }
}

impl vstd::std_specs::cmp::PartialEqSpecImpl for Board {
    open spec fn obeys_eq_spec() -> bool {
        true
    }

    open spec fn eq_spec(&self, other: &Board) -> bool {
        self.same(*other)
    }
}

impl Eq for Board {
}

} // verus!
