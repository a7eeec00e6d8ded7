use vstd::prelude::*;

verus! {

use crate::board::{Board, Hand, PieceKind, Player};
use crate::make_move::{piece_at, move_ok, next_bbs, next_hands, next_hash, removed_features, added_features, FeatureUpdate};
use crate::move_gen::{generate_moves, move_list};
use crate::position::{playable, lemma_move_ok_playable, lemma_valid_playable, lemma_initial_valid, lemma_move_list_valid};
use crate::zobrist::{ZobristTable, position_hash};
use crate::hash_update::{hash_drift, lemma_hash_drift_step};
use crate::move_gen::Move;

/// `String::push` of std: appends one character.
#[verifier::external_body]
fn push_char(s: &mut String, c: char)
    ensures
        final(s)@ == old(s)@.push(c),
{
    s.push(c)
}

/// Name of a square: column letter A-C, then row number from 1.
pub open spec fn sq_name(sq: u8) -> Seq<char> {
    seq![(65 + sq % 3) as char, (49 + sq / 3) as char]
}

pub fn sq_to_string(sq: u8) -> (r: String)
    ensures
        r@ == sq_name(sq),
{
    let col = (65u8 + (sq % 3)) as char;
    let row = (49u8 + (sq / 3)) as char;
    let mut s = String::new();
    push_char(&mut s, col);
    push_char(&mut s, row);
    proof {
        assert(s@ =~= sq_name(sq));
    }
    s
}

/// Name of the kind with the given kind bits.
pub open spec fn kind_name(kind_bits: int) -> Seq<char> {
    if kind_bits == 0 {
        "ライオン"@
    } else if kind_bits == 1 {
        "きりん"@
    } else if kind_bits == 2 {
        "ぞう"@
    } else if kind_bits == 3 {
        "ひよこ"@
    } else if kind_bits == 4 {
        "にわとり"@
    } else {
        "?"@
    }
}

/// Text of a move: "<square> に <piece> を打つ" for a drop (bit 12), otherwise
/// "<from> から <to> へ移動 (<piece>)" with 成 after the piece when bit 11 is set.
pub open spec fn move_text(m: Move) -> Seq<char> {
    let from = (m.0 & 0x0Fu16) as u8;
    let to = ((m.0 >> 4u16) & 0x0Fu16) as u8;
    let k = ((m.0 >> 8u16) & 0x07u16) as int;
    if m.0 & 0x1000u16 != 0 {
        sq_name(to) + " に "@ + kind_name(k) + " を打つ"@
    } else {
        sq_name(from) + " から "@ + sq_name(to) + " へ移動 ("@ + kind_name(k)
            + (if m.0 & 0x0800u16 != 0 { "成"@ } else { ""@ }) + ")"@
    }
}

fn kind_str(kind_val: u16) -> (r: &'static str)
    ensures
        r@ == kind_name(kind_val as int),
{
    match kind_val {
        0 => "ライオン",
        1 => "きりん",
        2 => "ぞう",
        3 => "ひよこ",
        4 => "にわとり",
        _ => "?",
    }
}

pub fn move_to_string(m: Move) -> (r: String)
    ensures
        r@ == move_text(m),
{
    let v = m.0;
    proof {
        assert(v & 0x0Fu16 < 16 && (v >> 4u16) & 0x0Fu16 < 16) by (bit_vector);
        assert(1u16 << 11u16 == 0x0800u16 && 1u16 << 12u16 == 0x1000u16) by (bit_vector);
    }
    let from_sq = (m.0 & 0x0F) as u8;
    let to_sq = ((m.0 >> 4) & 0x0F) as u8;
    let kind_val = (m.0 >> 8) & 0x07;
    let is_promote = (m.0 & (1 << 11)) != 0;
    let is_drop = (m.0 & (1 << 12)) != 0;
    let piece_str = kind_str(kind_val);
    let mut s = String::new();
    if is_drop {
        let to = sq_to_string(to_sq);
        s.append(to.as_str());
        s.append(" に ");
        s.append(piece_str);
        s.append(" を打つ");
    } else {
        let prom = if is_promote { "成" } else { "" };
        let from = sq_to_string(from_sq);
        let to = sq_to_string(to_sq);
        s.append(from.as_str());
        s.append(" から ");
        s.append(to.as_str());
        s.append(" へ移動 (");
        s.append(piece_str);
        s.append(prom);
        s.append(")");
    }
    proof {
        assert(s@ =~= move_text(m));
    }
    s
}

/// Decimal digits of a number.
pub open spec fn decimal(n: nat) -> Seq<char>
    decreases n,
{
    if n < 10 {
        seq![(48 + n) as char]
    } else {
        decimal(n / 10).push((48 + n % 10) as char)
    }
}

fn digit(d: u8) -> (r: char)
    requires
        d < 10,
    ensures
        r == (48 + d) as char,
{
    (48u8 + d) as char
}

/// Appends the decimal digits of `n`.
fn push_decimal(s: &mut String, n: u8)
    ensures
        final(s)@ == old(s)@ + decimal(n as nat),
{
    proof {
        reveal_with_fuel(decimal, 3);
    }
    if n >= 100 {
        push_char(s, digit(n / 100));
    }
    if n >= 10 {
        push_char(s, digit((n / 10) % 10));
    }
    push_char(s, digit(n % 10));
    proof {
        if n >= 100 {
            assert(decimal((n / 10) as nat) == decimal((n / 100) as nat).push((48 + (n / 10) % 10) as char));
        }
        assert(s@ =~= old(s)@ + decimal(n as nat));
    }
}

/// Text of a piece on the board: Sente's in capitals, Gote's in small letters.
pub open spec fn piece_text(p: Player, k: PieceKind) -> Seq<char> {
    match (p, k) {
        (Player::Sente, PieceKind::Lion) => " L "@,
        (Player::Gote, PieceKind::Lion) => " l "@,
        (Player::Sente, PieceKind::Giraffe) => " G "@,
        (Player::Gote, PieceKind::Giraffe) => " g "@,
        (Player::Sente, PieceKind::Elephant) => " E "@,
        (Player::Gote, PieceKind::Elephant) => " e "@,
        (Player::Sente, PieceKind::Chick) => " C "@,
        (Player::Gote, PieceKind::Chick) => " c "@,
        (Player::Sente, PieceKind::Hen) => " H "@,
        (Player::Gote, PieceKind::Hen) => " h "@,
    }
}

fn piece_str(p: Player, k: PieceKind) -> (r: &'static str)
    ensures
        r@ == piece_text(p, k),
{
    match (p, k) {
        (Player::Sente, PieceKind::Lion) => " L ",
        (Player::Gote, PieceKind::Lion) => " l ",
        (Player::Sente, PieceKind::Giraffe) => " G ",
        (Player::Gote, PieceKind::Giraffe) => " g ",
        (Player::Sente, PieceKind::Elephant) => " E ",
        (Player::Gote, PieceKind::Elephant) => " e ",
        (Player::Sente, PieceKind::Chick) => " C ",
        (Player::Gote, PieceKind::Chick) => " c ",
        (Player::Sente, PieceKind::Hen) => " H ",
        (Player::Gote, PieceKind::Hen) => " h ",
    }
}

/// Text of a square: the first piece found on it (Sente's before Gote's, kinds in order), or " . ".
pub open spec fn cell_text(b: Board, sq: int) -> Seq<char> {
    match piece_at(b, Player::Sente, sq) {
        Some(k) => piece_text(Player::Sente, k),
        None => match piece_at(b, Player::Gote, sq) {
            Some(k) => piece_text(Player::Gote, k),
            None => " . "@,
        },
    }
}

/// The first `n` squares of row `y`.
pub open spec fn cells_text(b: Board, y: int, n: int) -> Seq<char>
    decreases n,
{
    if n <= 0 {
        Seq::empty()
    } else {
        cells_text(b, y, n - 1) + cell_text(b, y * 3 + n - 1)
    }
}

/// A row: its number, then its three squares.
pub open spec fn row_text(b: Board, y: int) -> Seq<char> {
    decimal((y + 1) as nat) + " "@ + cells_text(b, y, 3) + "\n"@
}

pub open spec fn rows_text(b: Board, n: int) -> Seq<char>
    decreases n,
{
    if n <= 0 {
        Seq::empty()
    } else {
        rows_text(b, n - 1) + row_text(b, n - 1)
    }
}

/// A line listing the pieces of a hand.
pub open spec fn hand_text(label: Seq<char>, h: Hand) -> Seq<char> {
    label + "ひよこ"@ + decimal(h.chicks as nat) + ", きりん"@ + decimal(h.giraffes as nat) + ", ぞう"@
        + decimal(h.elephants as nat) + "\n"@
}

/// The board as text: Gote's hand, the column letters, the four rows, Sente's hand.
pub open spec fn board_text(b: Board) -> Seq<char> {
    hand_text("後手持駒: "@, b.hands@[1]) + "  A  B  C\n"@ + rows_text(b, 4) + hand_text("先手持駒: "@, b.hands@[0])
}

/// The board text opens with Gote's hand line and closes with Sente's. In each, the chick label
/// is followed by the hand's chick count, the giraffe label by its giraffe count and the
/// elephant label by its elephant count.
pub proof fn lemma_board_text_hands(b: Board)
    ensures
        board_text(b) == "後手持駒: "@ + "ひよこ"@ + decimal(b.hands@[1].chicks as nat) + ", きりん"@ + decimal(
            b.hands@[1].giraffes as nat,
        ) + ", ぞう"@ + decimal(b.hands@[1].elephants as nat) + "\n"@ + "  A  B  C\n"@ + rows_text(b, 4)
            + "先手持駒: "@ + "ひよこ"@ + decimal(b.hands@[0].chicks as nat) + ", きりん"@ + decimal(
            b.hands@[0].giraffes as nat,
        ) + ", ぞう"@ + decimal(b.hands@[0].elephants as nat) + "\n"@,
{
}

fn push_hand(s: &mut String, label: &str, h: Hand)
    ensures
        final(s)@ == old(s)@ + hand_text(label@, h),
{
    s.append(label);
    s.append("ひよこ");
    push_decimal(s, h.chicks);
    s.append(", きりん");
    push_decimal(s, h.giraffes);
    s.append(", ぞう");
    push_decimal(s, h.elephants);
    s.append("\n");
    proof {
        assert(s@ =~= old(s)@ + hand_text(label@, h));
    }
}

fn push_cell(s: &mut String, board: &Board, sq: usize)
    requires
        sq < 12,
    ensures
        final(s)@ == old(s)@ + cell_text(*board, sq as int),
{
    match board.find_piece(Player::Sente, sq) {
        Some(k) => s.append(piece_str(Player::Sente, k)),
        None => match board.find_piece(Player::Gote, sq) {
            Some(k) => s.append(piece_str(Player::Gote, k)),
            None => s.append(" . "),
        },
    }
}

fn push_row(s: &mut String, board: &Board, y: usize)
    requires
        y < 4,
    ensures
        final(s)@ == old(s)@ + row_text(*board, y as int),
{
    push_decimal(s, (y + 1) as u8);
    s.append(" ");
    let ghost before = s@;
    let mut x: usize = 0;
    while x < 3
        invariant
            y < 4,
            x <= 3,
            s@ == before + cells_text(*board, y as int, x as int),
        decreases 3 - x,
    {
        push_cell(s, board, y * 3 + x);
        proof {
            assert(s@ =~= before + cells_text(*board, y as int, x + 1));
        }
        x += 1;
    }
    s.append("\n");
    proof {
        assert(s@ =~= old(s)@ + row_text(*board, y as int));
    }
}

pub fn board_string(board: &Board) -> (r: String)
    ensures
        r@ == board_text(*board),
{
    let mut s = String::new();
    push_hand(&mut s, "後手持駒: ", board.hands[1]);
    s.append("  A  B  C\n");
    let ghost prefix = s@;
    let mut y: usize = 0;
    while y < 4
        invariant
            y <= 4,
            s@ == prefix + rows_text(*board, y as int),
        decreases 4 - y,
    {
        push_row(&mut s, board, y);
        proof {
            assert(s@ =~= prefix + rows_text(*board, y + 1));
        }
        y += 1;
    }
    push_hand(&mut s, "先手持駒: ", board.hands[0]);
    proof {
        assert(s@ =~= board_text(*board));
    }
    s
}

/// Number of entries of the history with the given hash and position.
pub open spec fn occurrences(history: Seq<(u64, Board)>, hash: u64, b: Board) -> nat
    decreases history.len(),
{
    if history.len() == 0 {
        0
    } else {
        occurrences(history.drop_last(), hash, b) + if history.last().0 == hash && history.last().1.same(b) {
            1nat
        } else {
            0nat
        }
    }
}

/// Longest game: it ends in a draw once this many moves have been made.
pub const MAX_MOVES: usize = 200;

/// A game in progress: the position, its hash, the positions before it, the moves of the side
/// to move and the result once the game is over.
pub struct GameManager<'zt> {
    current_hash: u64,
    z_table: &'zt ZobristTable,
    board: Board,
    history: Vec<(u64, Board)>,
    winner: Option<Player>,
    side_to_move: Option<Player>,
    move_count: usize,
    moves: Vec<Move>,
}

impl<'zt> GameManager<'zt> {
    pub closed spec fn board_spec(self) -> Board {
        self.board
    }

    pub closed spec fn history_spec(self) -> Seq<(u64, Board)> {
        self.history@
    }

    pub closed spec fn winner_spec(self) -> Option<Player> {
        self.winner
    }

    pub closed spec fn turn_spec(self) -> Option<Player> {
        self.side_to_move
    }

    pub closed spec fn move_count_spec(self) -> nat {
        self.move_count as nat
    }

    pub closed spec fn hash_spec(self) -> u64 {
        self.current_hash
    }

    pub closed spec fn moves_spec(self) -> Seq<Move> {
        self.moves@
    }

    pub closed spec fn z_table_spec(self) -> ZobristTable {
        *self.z_table
    }

    /// The game's invariant: the position is playable, the move list is that of the position,
    /// the side to move (while the game goes on) is the position's, a game with a winner is
    /// over, and a game goes on for fewer than `MAX_MOVES` moves.
    pub closed spec fn wf(self) -> bool {
        &&& self.board.is_playable()
        &&& self.moves@ == move_list(self.board)
        &&& (self.side_to_move matches Some(p) ==> p == self.board.side_to_move && self.move_count < MAX_MOVES)
        &&& (self.winner is Some ==> self.side_to_move is None)
        &&& self.move_count <= MAX_MOVES
    }

    /// The position is valid and the game's hash is the Zobrist hash of the position, up to the
    /// drift that carrying the hash along the moves brings (`hash_drift`). This holds of a new
    /// game and is kept by every generated move.
    pub open spec fn tracks_position(self) -> bool {
        &&& self.board_spec().valid()
        &&& self.hash_spec() == position_hash(self.z_table_spec(), self.board_spec())
            ^ hash_drift(self.z_table_spec(), self.move_count_spec())
    }

    /// The game ends in a draw: the move limit is reached, or the position (with its hash) has
    /// occurred twice before.
    pub open spec fn draw_reached(self) -> bool {
        self.move_count_spec() >= MAX_MOVES || occurrences(self.history_spec(), self.hash_spec(), self.board_spec())
            >= 2
    }

    /// A new game from the starting position, Sente to move.
    pub fn new(z_table: &'zt ZobristTable) -> (r: Self)
        ensures
            r.wf(),
            r.board_spec() == Board::initial_spec(),
            r.board_spec().valid(),
            r.history_spec() == Seq::<(u64, Board)>::empty(),
            r.winner_spec() is None,
            r.turn_spec() == Some(Player::Sente),
            r.move_count_spec() == 0,
            r.hash_spec() == position_hash(*z_table, Board::initial_spec()),
            r.moves_spec() == move_list(Board::initial_spec()),
            r.z_table_spec() == *z_table,
            r.tracks_position(),
    {
        let board = Board::initial_position();
        proof {
            lemma_initial_valid();
            lemma_valid_playable(board);
            crate::position::lemma_valid_facts(board);
        }
        let mut moves: Vec<Move> = Vec::new();
        generate_moves(&board, &mut moves);
        proof {
            assert(moves@ =~= move_list(board));
        }
        let current_hash = board.compute_initial_hash(z_table);
        proof {
            assert(current_hash ^ 0u64 == current_hash) by (bit_vector);
        }
        Self {
            current_hash,
            z_table,
            board,
            moves,
            history: Vec::new(),
            winner: None,
            side_to_move: Some(Player::Sente),
            move_count: 0,
        }
    }

    pub fn board(&self) -> (r: &Board)
        ensures
            *r == self.board_spec(),
    {
        &self.board
    }

    pub fn history(&self) -> (r: &[(u64, Board)])
        ensures
            r@ == self.history_spec(),
    {
        self.history.as_slice()
    }

    pub fn winner(&self) -> (r: Option<Player>)
        ensures
            r == self.winner_spec(),
    {
        self.winner
    }

    /// The side to move, or `None` once the game is over.
    pub fn side_to_move(&self) -> (r: Option<Player>)
        ensures
            r == self.turn_spec(),
    {
        self.side_to_move
    }

    pub fn is_finished(&self) -> (r: bool)
        ensures
            r == self.turn_spec() is None,
    {
        self.side_to_move.is_none()
    }

    pub fn is_draw(&self) -> (r: bool)
        ensures
            r == (self.turn_spec() is None && self.winner_spec() is None),
    {
        self.is_finished() && self.winner.is_none()
    }

    pub fn move_count(&self) -> (r: usize)
        ensures
            r == self.move_count_spec(),
    {
        self.move_count
    }

    pub fn z_table(&self) -> (r: &'zt ZobristTable)
        ensures
            *r == self.z_table_spec(),
    {
        self.z_table
    }

    pub fn current_hash(&self) -> (r: u64)
        ensures
            r == self.hash_spec(),
    {
        self.current_hash
    }

    /// The moves of the side to move; none once the game is over.
    pub fn moves(&self) -> (r: &[Move])
        ensures
            r@ == (if self.turn_spec() is None { Seq::<Move>::empty() } else { self.moves_spec() }),
    {
        if self.is_finished() {
            let empty: &[Move] = &[];
            proof {
                assert(empty@ =~= Seq::<Move>::empty());
            }
            empty
        } else {
            self.moves.as_slice()
        }
    }

    fn check_draw(&self) -> (r: bool)
        ensures
            r == self.draw_reached(),
    {
        if self.move_count >= MAX_MOVES {
            return true;
        }
        let mut count: usize = 0;
        let mut i: usize = 0;
        while i < self.history.len()
            invariant
                i <= self.history@.len(),
                count == occurrences(self.history@.take(i as int), self.current_hash, self.board),
                count <= i,
            decreases self.history@.len() - i,
        {
            proof {
                assert(self.history@.take(i + 1).drop_last() =~= self.history@.take(i as int));
            }
            let entry = &self.history[i];
            if entry.0 == self.current_hash && entry.1 == self.board {
                count += 1;
            }
            i += 1;
        }
        proof {
            assert(self.history@.take(i as int) =~= self.history@);
        }
        count >= 2
    }

    /// Plays a move. Once the game is over nothing changes and `None` comes back. Otherwise the
    /// position and its hash go to the history, the move is made, and the game ends in a draw
    /// (move limit or third occurrence), in a win by the board's rule, or in a win for the
    /// mover when the opponent has no move; else the opponent is to move.
    pub fn make_move(&mut self, m: Move) -> (r: Option<FeatureUpdate>)
        requires
            old(self).wf(),
            old(self).turn_spec() is Some ==> move_ok(old(self).board_spec(), m),
        ensures
            final(self).wf(),
            final(self).z_table_spec() == old(self).z_table_spec(),
            old(self).tracks_position() && (old(self).turn_spec() is Some ==> move_list(
                old(self).board_spec(),
            ).contains(m)) ==> final(self).tracks_position(),
            old(self).turn_spec() is None ==> r is None && *final(self) == *old(self),
            old(self).turn_spec() is Some ==> {
                let b0 = old(self).board_spec();
                let b1 = final(self).board_spec();
                let turn = old(self).turn_spec()->0;
                &&& r matches Some(fu) && fu.removed_list() == removed_features(b0, m)
                    && fu.added_list() == added_features(b0, m) && fu.wf() && fu.tails_zero()
                &&& final(self).history_spec() == old(self).history_spec().push((old(self).hash_spec(), b0))
                &&& b1.piece_bbs@ == next_bbs(b0, m)
                &&& b1.hands@ == next_hands(b0, m)
                &&& b1.side_to_move == b0.side_to_move.other()
                &&& final(self).hash_spec() == next_hash(old(self).hash_spec(), old(self).z_table_spec(), b0, m)
                &&& final(self).move_count_spec() == old(self).move_count_spec() + 1
                &&& final(self).moves_spec() == move_list(b1)
                &&& if final(self).draw_reached() {
                    final(self).turn_spec() is None && final(self).winner_spec() is None
                } else if b1.winner_spec() is Some {
                    final(self).turn_spec() is None && final(self).winner_spec() == b1.winner_spec()
                } else if move_list(b1).len() == 0 {
                    final(self).turn_spec() is None && final(self).winner_spec() == Some(turn)
                } else {
                    final(self).turn_spec() == Some(turn.other()) && final(self).winner_spec() is None
                }
            },
    {
        let turn = match self.side_to_move {
            Some(t) => t,
            None => {
                return None;
            },
        };
        proof {
            lemma_move_ok_playable(self.board, m);
        }
        let ghost b0 = self.board;
        let ghost h0 = self.current_hash;
        let ghost n0 = self.move_count as nat;
        let ghost consistent_before = self.tracks_position();
        self.history.push((self.current_hash, self.board));
        let (feature_update, next_hash) = self.board.make_move(m, self.z_table, self.current_hash);
        proof {
            if consistent_before && move_list(b0).contains(m) {
                lemma_hash_drift_step(*self.z_table, b0, m, self.board, h0, n0);
                crate::position::lemma_move_list_valid(b0, m);
            }
        }
        self.current_hash = next_hash;
        self.move_count += 1;
        self.moves = Vec::new();
        generate_moves(&self.board, &mut self.moves);
        proof {
            assert(self.moves@ =~= move_list(self.board));
        }
        proof {
            crate::board::lemma_on_board_scans(self.board);
        }
        if self.check_draw() {
            self.side_to_move = None;
        } else if let Some(winner) = self.board.winner() {
            self.winner = Some(winner);
            self.side_to_move = None;
        } else if self.moves.len() == 0 {
            self.winner = Some(turn);
            self.side_to_move = None;
        } else {
            self.side_to_move = Some(turn.opponent());
        }
        Some(feature_update)
    }

    /// What a well-formed game holds of itself: the position is playable, the move list is that
    /// of the position, a game that goes on has the position's side to move and fewer than
    /// `MAX_MOVES` moves, and a game with a winner is over.
    pub proof fn lemma_wf_facts(self)
        requires
            self.wf(),
        ensures
            self.board_spec().is_playable(),
            self.moves_spec() == move_list(self.board_spec()),
            self.turn_spec() matches Some(p) ==> p == self.board_spec().side_to_move && self.move_count_spec()
                < MAX_MOVES,
            self.winner_spec() is Some ==> self.turn_spec() is None,
            self.move_count_spec() <= MAX_MOVES,
    {
    }

    /// A move that a game tracking its position offers can be played: it is a move of the
    /// position and meets what `make_move` requires of it.
    pub proof fn lemma_offered_move_ok(self, m: Move)
        requires
            self.wf(),
            self.tracks_position(),
            self.moves_spec().contains(m),
        ensures
            move_list(self.board_spec()).contains(m),
            move_ok(self.board_spec(), m),
    {
        lemma_move_list_valid(self.board_spec(), m);
    }
}

} // verus!
