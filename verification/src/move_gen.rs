use vstd::prelude::*;

verus! {

use crate::bitboard::{has_bit, on_board, squares, sq_bit, lowest, clear_lowest, lemma_bit_or, lemma_sq_bit};
use crate::board::{Player, PieceKind, Board, piece_index, get_piece_index};


// Neighbours of a square; 99 stands for "off the board".
pub open spec fn up(sq: int) -> int { if sq / 3 > 0 { sq - 3 } else { 99 } }
pub open spec fn down(sq: int) -> int { if sq / 3 < 3 { sq + 3 } else { 99 } }
pub open spec fn left(sq: int) -> int { if sq % 3 > 0 { sq - 1 } else { 99 } }
pub open spec fn right(sq: int) -> int { if sq % 3 < 2 { sq + 1 } else { 99 } }
pub open spec fn up_left(sq: int) -> int { if sq / 3 > 0 && sq % 3 > 0 { sq - 4 } else { 99 } }
pub open spec fn up_right(sq: int) -> int { if sq / 3 > 0 && sq % 3 < 2 { sq - 2 } else { 99 } }
pub open spec fn down_left(sq: int) -> int { if sq / 3 < 3 && sq % 3 > 0 { sq + 2 } else { 99 } }
pub open spec fn down_right(sq: int) -> int { if sq / 3 < 3 && sq % 3 < 2 { sq + 4 } else { 99 } }

pub open spec fn cross_bb(sq: int) -> u16 {
    sq_bit(up(sq)) | sq_bit(down(sq)) | sq_bit(left(sq)) | sq_bit(right(sq))
}

pub open spec fn diagonal_bb(sq: int) -> u16 {
    sq_bit(up_left(sq)) | sq_bit(up_right(sq)) | sq_bit(down_left(sq)) | sq_bit(down_right(sq))
}

/// The squares that a piece of kind `k` of player `p` on square `sq` attacks.
/// Sente moves up the board (towards square 0), Gote moves down.
pub open spec fn attack_bb(p: Player, k: PieceKind, sq: int) -> u16 {
    match k {
        PieceKind::Lion => cross_bb(sq) | diagonal_bb(sq),
        PieceKind::Giraffe => cross_bb(sq),
        PieceKind::Elephant => diagonal_bb(sq),
        PieceKind::Chick => match p {
            Player::Sente => sq_bit(up(sq)),
            Player::Gote => sq_bit(down(sq)),
        },
        PieceKind::Hen => match p {
            Player::Sente => cross_bb(sq) | sq_bit(up_left(sq)) | sq_bit(up_right(sq)),
            Player::Gote => cross_bb(sq) | sq_bit(down_left(sq)) | sq_bit(down_right(sq)),
        },
    }
}

/// Row step that counts as "forward" for a player.
pub open spec fn forward(p: Player) -> int {
    match p {
        Player::Sente => -1,
        Player::Gote => 1,
    }
}

pub open spec fn abs(x: int) -> int {
    if x < 0 { -x } else { x }
}

/// The movement rules of animal shogi, in column and row steps.
pub open spec fn reaches(p: Player, k: PieceKind, from: int, to: int) -> bool {
    let dx = to % 3 - from % 3;
    let dy = to / 3 - from / 3;
    match k {
        PieceKind::Lion => abs(dx) <= 1 && abs(dy) <= 1 && !(dx == 0 && dy == 0),
        PieceKind::Giraffe => abs(dx) + abs(dy) == 1,
        PieceKind::Elephant => abs(dx) == 1 && abs(dy) == 1,
        PieceKind::Chick => dx == 0 && dy == forward(p),
        PieceKind::Hen => abs(dx) + abs(dy) == 1 || (abs(dx) == 1 && dy == forward(p)),
    }
}

proof fn lemma_dirs(sq: int, to: int)
    requires
        0 <= sq < 12,
        0 <= to < 12,
    ensures
        (to == up(sq)) <==> (to % 3 - sq % 3 == 0 && to / 3 - sq / 3 == -1),
        (to == down(sq)) <==> (to % 3 - sq % 3 == 0 && to / 3 - sq / 3 == 1),
        (to == left(sq)) <==> (to % 3 - sq % 3 == -1 && to / 3 - sq / 3 == 0),
        (to == right(sq)) <==> (to % 3 - sq % 3 == 1 && to / 3 - sq / 3 == 0),
        (to == up_left(sq)) <==> (to % 3 - sq % 3 == -1 && to / 3 - sq / 3 == -1),
        (to == up_right(sq)) <==> (to % 3 - sq % 3 == 1 && to / 3 - sq / 3 == -1),
        (to == down_left(sq)) <==> (to % 3 - sq % 3 == -1 && to / 3 - sq / 3 == 1),
        (to == down_right(sq)) <==> (to % 3 - sq % 3 == 1 && to / 3 - sq / 3 == 1),
{
}

/// The attack bitboards follow the movement rules: a piece on a square of the board attacks
/// exactly the squares of the board that its kind reaches in one step.
pub proof fn lemma_attack_bb_rules(p: Player, k: PieceKind, from: int)
    requires
        0 <= from < 12,
    ensures
        on_board(attack_bb(p, k, from)),
        forall|to: int| #[trigger] has_bit(attack_bb(p, k, from), to)
            <==> (0 <= to < 12 && reaches(p, k, from, to)),
{
    let u = sq_bit(up(from));
    let d = sq_bit(down(from));
    let l = sq_bit(left(from));
    let r = sq_bit(right(from));
    let ul = sq_bit(up_left(from));
    let ur = sq_bit(up_right(from));
    let dl = sq_bit(down_left(from));
    let dr = sq_bit(down_right(from));
    lemma_sq_bit(up(from));
    lemma_sq_bit(down(from));
    lemma_sq_bit(left(from));
    lemma_sq_bit(right(from));
    lemma_sq_bit(up_left(from));
    lemma_sq_bit(up_right(from));
    lemma_sq_bit(down_left(from));
    lemma_sq_bit(down_right(from));
    lemma_bit_or(u, d);
    lemma_bit_or(u | d, l);
    lemma_bit_or(u | d | l, r);
    lemma_bit_or(ul, ur);
    lemma_bit_or(ul | ur, dl);
    lemma_bit_or(ul | ur | dl, dr);
    lemma_bit_or(cross_bb(from), diagonal_bb(from));
    lemma_bit_or(cross_bb(from), ul);
    lemma_bit_or(cross_bb(from) | ul, ur);
    lemma_bit_or(cross_bb(from), dl);
    lemma_bit_or(cross_bb(from) | dl, dr);
    crate::bitboard::lemma_on_board(attack_bb(p, k, from));
    assert forall|to: int| #[trigger] has_bit(attack_bb(p, k, from), to)
        <==> (0 <= to < 12 && reaches(p, k, from, to)) by {
        if 0 <= to < 12 {
            lemma_dirs(from, to);
        }
    }
}

/// Gote's pieces move as Sente's do on the board turned half a turn: a Gote piece on `sq`
/// attacks `to` exactly when a Sente piece of the same kind on `11 - sq` attacks `11 - to`.
pub proof fn lemma_attack_symmetry(k: PieceKind, sq: int, to: int)
    requires
        0 <= sq < 12,
    ensures
        has_bit(attack_bb(Player::Gote, k, sq), to) <==> (0 <= to < 12 && has_bit(attack_bb(Player::Sente, k, 11 - sq), 11 - to)),
{
    lemma_attack_bb_rules(Player::Gote, k, sq);
    lemma_attack_bb_rules(Player::Sente, k, 11 - sq);
    if 0 <= to < 12 {
        assert((11 - to) % 3 == 2 - to % 3 && (11 - to) / 3 == 3 - to / 3);
        assert((11 - sq) % 3 == 2 - sq % 3 && (11 - sq) / 3 == 3 - sq / 3);
    }
}

/// A bitboard with the single square `s`, or nothing when `s` is off the board.
fn bit(s: usize) -> (r: u16)
    ensures
        r == sq_bit(s as int),
{
    if s < 12 {
        1u16 << (s as u16)
    } else {
        0
    }
}

/// The attack bitboard of a piece, computed from the neighbouring squares.
pub fn attack_bitboard(p: Player, k: PieceKind, sq: usize) -> (r: u16)
    requires
        sq < 12,
    ensures
        r == attack_bb(p, k, sq as int),
        on_board(r),
{
    proof {
        lemma_attack_bb_rules(p, k, sq as int);
    }
    let x = sq % 3;
    let y = sq / 3;
    let up = if y > 0 { sq - 3 } else { 99 };
    let down = if y < 3 { sq + 3 } else { 99 };
    let left = if x > 0 { sq - 1 } else { 99 };
    let right = if x < 2 { sq + 1 } else { 99 };
    let up_left = if y > 0 && x > 0 { sq - 4 } else { 99 };
    let up_right = if y > 0 && x < 2 { sq - 2 } else { 99 };
    let down_left = if y < 3 && x > 0 { sq + 2 } else { 99 };
    let down_right = if y < 3 && x < 2 { sq + 4 } else { 99 };
    let cross = bit(up) | bit(down) | bit(left) | bit(right);
    let diagonal = bit(up_left) | bit(up_right) | bit(down_left) | bit(down_right);
    match k {
        PieceKind::Lion => cross | diagonal,
        PieceKind::Giraffe => cross,
        PieceKind::Elephant => diagonal,
        PieceKind::Chick => match p {
            Player::Sente => bit(up),
            Player::Gote => bit(down),
        },
        PieceKind::Hen => match p {
            Player::Sente => cross | bit(up_left) | bit(up_right),
            Player::Gote => cross | bit(down_left) | bit(down_right),
        },
    }
}

/// A move packed into 16 bits: bits 0-3 the origin square (15 for a drop), bits 4-7 the
/// destination, bits 8-10 the piece kind, bit 11 promotion, bit 12 drop.
#[derive(Clone, Copy, Debug, PartialEq, Eq, Structural)]
pub struct Move(pub u16);

pub open spec fn encode(from: u8, to: u8, kind: PieceKind, is_promote: bool, is_drop: bool) -> u16 {
    ((from as u16) & 0x0Fu16)
        | (((to as u16) & 0x0Fu16) << 4u16)
        | (((kind.id() as u16) & 0x07u16) << 8u16)
        | (if is_promote { 1u16 << 11u16 } else { 0u16 })
        | (if is_drop { 1u16 << 12u16 } else { 0u16 })
}

impl Move {
    pub open spec fn from_sq(self) -> int {
        (self.0 & 0x0Fu16) as int
    }

    pub open spec fn to_sq(self) -> int {
        ((self.0 >> 4u16) & 0x0Fu16) as int
    }

    pub open spec fn kind_bits(self) -> int {
        ((self.0 >> 8u16) & 0x07u16) as int
    }

    pub open spec fn kind(self) -> PieceKind {
        PieceKind::from_int(self.kind_bits())
    }

    /// The promotion flag, bit 11.
    pub open spec fn promotes(self) -> bool {
        (self.0 >> 11u16) & 1u16 == 1u16
    }

    pub open spec fn drops(self) -> bool {
        (self.0 >> 12u16) != 0
    }

    pub fn new(from: u8, to: u8, piece: PieceKind, is_promote: bool, is_drop: bool) -> (r: Self)
        ensures
            r.0 == encode(from, to, piece, is_promote, is_drop),
    {
        let mut m = 0u16;
        m |= (from as u16) & 0x0F;
        m |= ((to as u16) & 0x0F) << 4;
        m |= ((piece.piece_id() as u16) & 0x07) << 8;
        if is_promote {
            m |= 1 << 11;
        }
        if is_drop {
            m |= 1 << 12;
        }
        proof {
            let a = (from as u16) & 0x0Fu16;
            assert(0u16 | a == a) by (bit_vector);
            assert(a | 0u16 == a) by (bit_vector);
            let b = ((from as u16) & 0x0Fu16) | (((to as u16) & 0x0Fu16) << 4u16) | (((piece.id() as u16) & 0x07u16) << 8u16);
            assert(b | 0u16 == b) by (bit_vector);
            let c = b | (if is_promote { 1u16 << 11u16 } else { 0u16 });
            assert(c | 0u16 == c) by (bit_vector);
        }
        Move(m)
    }

    pub fn sq_from(self) -> (r: u8)
        ensures
            r == self.from_sq(),
            r < 16,
    {
        proof {
            let v = self.0;
            assert(v & 0x0Fu16 < 16) by (bit_vector);
        }
        (self.0 & 0x0F) as u8
    }

    pub fn sq_to(self) -> (r: u8)
        ensures
            r == self.to_sq(),
            r < 16,
    {
        proof {
            let v = self.0;
            assert((v >> 4u16) & 0x0Fu16 < 16) by (bit_vector);
        }
        ((self.0 >> 4) & 0x0F) as u8
    }

    /// The piece kind; the kind bits must name one of the five kinds.
    pub fn piece_kind(self) -> (r: PieceKind)
        requires
            self.kind_bits() < 5,
        ensures
            r == self.kind(),
    {
        PieceKind::from_id(((self.0 >> 8) & 0x07) as u8)
    }

    pub fn is_promote(self) -> (r: bool)
        ensures
            r == self.promotes(),
    {
        (self.0 >> 11) & 1 == 1
    }

    pub fn is_drop(self) -> (r: bool)
        ensures
            r == self.drops(),
    {
        (self.0 >> 12) != 0
    }
}

/// Unpacking a packed move gives back its parts: the squares modulo 16, the kind and the drop
/// and promotion flags.
pub proof fn lemma_move_roundtrip(from: u8, to: u8, kind: PieceKind, is_promote: bool, is_drop: bool)
    ensures
        Move(encode(from, to, kind, is_promote, is_drop)).from_sq() == from % 16,
        Move(encode(from, to, kind, is_promote, is_drop)).to_sq() == to % 16,
        Move(encode(from, to, kind, is_promote, is_drop)).kind_bits() == kind.id(),
        Move(encode(from, to, kind, is_promote, is_drop)).kind() == kind,
        Move(encode(from, to, kind, is_promote, is_drop)).drops() == is_drop,
        Move(encode(from, to, kind, is_promote, is_drop)).promotes() == is_promote,
{
    let f = from as u16;
    let t = to as u16;
    let k = kind.id() as u16;
    let p: u16 = if is_promote { 1u16 << 11u16 } else { 0u16 };
    let d: u16 = if is_drop { 1u16 << 12u16 } else { 0u16 };
    assert(1u16 << 11u16 == 0x800u16 && 1u16 << 12u16 == 0x1000u16) by (bit_vector);
    let e = (f & 0x0Fu16) | ((t & 0x0Fu16) << 4u16) | ((k & 0x07u16) << 8u16) | p | d;
    assert(e == encode(from, to, kind, is_promote, is_drop));
    assert(f < 256 && t < 256 && k < 5 && (p == 0u16 || p == 0x800u16) && (d == 0u16 || d == 0x1000u16) ==> {
        &&& ((f & 0x0Fu16) | ((t & 0x0Fu16) << 4u16) | ((k & 0x07u16) << 8u16) | p | d) & 0x0Fu16 == f % 16
        &&& ((((f & 0x0Fu16) | ((t & 0x0Fu16) << 4u16) | ((k & 0x07u16) << 8u16) | p | d) >> 4u16) & 0x0Fu16) == t % 16
        &&& ((((f & 0x0Fu16) | ((t & 0x0Fu16) << 4u16) | ((k & 0x07u16) << 8u16) | p | d) >> 8u16) & 0x07u16) == k
        &&& ((((f & 0x0Fu16) | ((t & 0x0Fu16) << 4u16) | ((k & 0x07u16) << 8u16) | p | d) >> 12u16) != 0) == (d != 0)
        &&& ((((f & 0x0Fu16) | ((t & 0x0Fu16) << 4u16) | ((k & 0x07u16) << 8u16) | p | d) >> 11u16) & 1u16 == 1u16) == (p != 0)
    }) by (bit_vector);
}

pub open spec fn in_promotion_zone(p: Player, to: int) -> bool {
    match p {
        Player::Sente => to < 3,
        Player::Gote => to > 8,
    }
}

/// The move of a piece from `from` to `to`; a chick entering the far row promotes.
pub open spec fn step_move(p: Player, k: PieceKind, from: int, to: int) -> Move {
    Move(encode(from as u8, to as u8, k, k == PieceKind::Chick && in_promotion_zone(p, to), false))
}

/// The moves of the piece on `from` to each square of `targets`, lowest square first.
pub open spec fn target_moves(p: Player, k: PieceKind, from: int, targets: u16) -> Seq<Move> {
    squares(targets).map_values(|to: int| step_move(p, k, from, to))
}

/// Squares a piece on `from` may move to: those it attacks that hold no piece of its own side.
pub open spec fn destinations(b: Board, k: PieceKind, from: int) -> u16 {
    attack_bb(b.side_to_move, k, from) & !b.occupied_spec(b.side_to_move)
}

/// The moves of the side to move's pieces of kind `k` standing on the squares of `froms`.
pub open spec fn kind_moves(b: Board, k: PieceKind, froms: u16) -> Seq<Move>
    decreases froms,
{
    if froms == 0 {
        Seq::empty()
    } else {
        proof {
            crate::bitboard::lemma_clear_lowest_smaller(froms);
        }
        target_moves(b.side_to_move, k, lowest(froms), destinations(b, k, lowest(froms)))
            + kind_moves(b, k, clear_lowest(froms))
    }
}

/// The board moves of the side to move for the first `n` kinds (Lion, Giraffe, ...).
pub open spec fn board_moves(b: Board, n: int) -> Seq<Move>
    decreases n,
{
    if n <= 0 {
        Seq::empty()
    } else {
        board_moves(b, n - 1) + kind_moves(
            b,
            PieceKind::from_int(n - 1),
            b.piece_bbs@[piece_index(b.side_to_move, PieceKind::from_int(n - 1))],
        )
    }
}

/// The empty squares of the board.
pub open spec fn empty_squares(b: Board) -> u16 {
    !(b.occupied_spec(Player::Sente) | b.occupied_spec(Player::Gote)) & 0x0FFFu16
}

pub open spec fn drop_move(k: PieceKind, to: int) -> Move {
    Move(encode(15, to as u8, k, false, true))
}

/// Drops of a piece of kind `k` on each square of `targets`, lowest square first.
pub open spec fn drop_moves(k: PieceKind, targets: u16) -> Seq<Move> {
    squares(targets).map_values(|to: int| drop_move(k, to))
}

/// The moves of the side to move, in the order they are generated: the board moves kind by
/// kind and square by square, then drops of a chick, an elephant and a giraffe from the hand.
pub open spec fn move_list(b: Board) -> Seq<Move> {
    let hand = b.hands@[b.side_to_move.index()];
    let e = empty_squares(b);
    board_moves(b, 5)
        + (if hand.chicks > 0 { drop_moves(PieceKind::Chick, e) } else { Seq::empty() })
        + (if hand.elephants > 0 { drop_moves(PieceKind::Elephant, e) } else { Seq::empty() })
        + (if hand.giraffes > 0 { drop_moves(PieceKind::Giraffe, e) } else { Seq::empty() })
}

proof fn lemma_map_unfold<A, B>(x: A, rest: Seq<A>, f: spec_fn(A) -> B)
    ensures
        (seq![x] + rest).map_values(f) == seq![f(x)] + rest.map_values(f),
{
    assert((seq![x] + rest).map_values(f) =~= seq![f(x)] + rest.map_values(f));
}

/// Appends the drops of a piece of kind `k` on the squares of `targets`.
fn push_drops(k: PieceKind, targets: u16, moves: &mut Vec<Move>)
    ensures
        final(moves)@ == old(moves)@ + drop_moves(k, targets),
{
    let ghost m0 = moves@;
    let mut target = targets;
    while target != 0
        invariant
            moves@ + drop_moves(k, target) == m0 + drop_moves(k, targets),
        decreases target,
    {
        proof {
            crate::bitboard::lemma_lowest(target);
            crate::bitboard::lemma_clear_lowest_smaller(target);
            lemma_map_unfold(lowest(target), squares(clear_lowest(target)), |to: int| drop_move(k, to));
        }
        let to_sq = target.trailing_zeros() as usize;
        moves.push(Move::new(15, to_sq as u8, k, false, true));
        target &= target - 1;
        proof {
            assert(moves@ + drop_moves(k, target) =~= m0 + drop_moves(k, targets));
        }
    }
    proof {
        assert(drop_moves(k, 0) =~= Seq::<Move>::empty());
        assert(moves@ =~= m0 + drop_moves(k, targets));
    }
}

/// Appends the moves of the side to move to `moves`, in the order of `move_list`.
pub fn generate_moves(board: &Board, moves: &mut Vec<Move>)
    requires
        forall|k: int| 0 <= k < 5 ==> on_board(#[trigger] board.piece_bbs@[board.side_to_move.index() * 5 + k]),
    ensures
        final(moves)@ == old(moves)@ + move_list(*board),
{
    let ghost m0 = moves@;
    let me = board.side_to_move;
    let my_pieces = board.occupied_by(me);
    let all_pieces = board.occupied(Player::Sente);
    let move_mask = !my_pieces;
    let mut ki: usize = 0;
    while ki < 5
        invariant
            me == board.side_to_move,
            my_pieces == board.occupied_spec(me),
            move_mask == !my_pieces,
            ki <= 5,
            forall|k: int| 0 <= k < 5 ==> on_board(#[trigger] board.piece_bbs@[board.side_to_move.index() * 5 + k]),
            moves@ == m0 + board_moves(*board, ki as int),
        decreases 5 - ki,
    {
        let kind = PieceKind::from_id(ki as u8);
        let p_idx = get_piece_index(me, kind);
        let bb0 = board.piece_bbs[p_idx];
        let mut bb = bb0;
        let ghost m1 = moves@;
        proof {
            crate::bitboard::lemma_on_board(bb0);
        }
        while bb != 0
            invariant
                me == board.side_to_move,
                my_pieces == board.occupied_spec(me),
                move_mask == !my_pieces,
                kind == PieceKind::from_int(ki as int),
                on_board(bb0),
                forall|s: int| #[trigger] has_bit(bb, s) ==> has_bit(bb0, s),
                moves@ + kind_moves(*board, kind, bb) == m1 + kind_moves(*board, kind, bb0),
            decreases bb,
        {
            proof {
                crate::bitboard::lemma_lowest(bb);
                crate::bitboard::lemma_clear_lowest_smaller(bb);
                crate::bitboard::lemma_on_board(bb0);
            }
            let from_sq = bb.trailing_zeros() as usize;
            let attacks = attack_bitboard(me, kind, from_sq);
            let valid0 = attacks & move_mask;
            let mut valid_moves = valid0;
            let ghost m2 = moves@;
            proof {
                crate::bitboard::lemma_bit_and(attacks, move_mask);
                crate::bitboard::lemma_on_board(attacks);
            }
            while valid_moves != 0
                invariant
                    me == board.side_to_move,
                    kind == PieceKind::from_int(ki as int),
                    from_sq < 12,
                    on_board(attacks),
                    forall|s: int| #[trigger] has_bit(valid0, s) ==> has_bit(attacks, s),
                    forall|s: int| #[trigger] has_bit(valid_moves, s) ==> has_bit(valid0, s),
                    moves@ + target_moves(me, kind, from_sq as int, valid_moves)
                        == m2 + target_moves(me, kind, from_sq as int, valid0),
                decreases valid_moves,
            {
                proof {
                    crate::bitboard::lemma_lowest(valid_moves);
                    crate::bitboard::lemma_clear_lowest_smaller(valid_moves);
                    crate::bitboard::lemma_on_board(attacks);
                    lemma_map_unfold(
                        lowest(valid_moves),
                        squares(clear_lowest(valid_moves)),
                        |to: int| step_move(me, kind, from_sq as int, to),
                    );
                }
                let to_sq = valid_moves.trailing_zeros() as usize;
                let is_promote_zone = match me {
                    Player::Sente => to_sq < 3,
                    Player::Gote => to_sq > 8,
                };
                let promote = kind == PieceKind::Chick && is_promote_zone;
                moves.push(Move::new(from_sq as u8, to_sq as u8, kind, promote, false));
                valid_moves &= valid_moves - 1;
                proof {
                    assert(moves@ + target_moves(me, kind, from_sq as int, valid_moves)
                        =~= m2 + target_moves(me, kind, from_sq as int, valid0));
                }
            }
            proof {
                assert(target_moves(me, kind, from_sq as int, 0) =~= Seq::<Move>::empty());
                assert(moves@ =~= m2 + target_moves(me, kind, from_sq as int, valid0));
            }
            bb &= bb - 1;
            proof {
                assert(moves@ + kind_moves(*board, kind, bb) =~= m1 + kind_moves(*board, kind, bb0));
            }
        }
        ki += 1;
        proof {
            assert(moves@ =~= m0 + board_moves(*board, ki as int));
        }
    }
    let empty_squares = !all_pieces & 0x0FFF;
    let hand = board.hands[me.idx()];
    let ghost mb = moves@;
    if hand.chicks > 0 {
        push_drops(PieceKind::Chick, empty_squares, moves);
    }
    let ghost mc = moves@;
    if hand.elephants > 0 {
        push_drops(PieceKind::Elephant, empty_squares, moves);
    }
    let ghost me2 = moves@;
    if hand.giraffes > 0 {
        push_drops(PieceKind::Giraffe, empty_squares, moves);
    }
    proof {
        assert(moves@ =~= m0 + move_list(*board));
    }
}

} // verus!
