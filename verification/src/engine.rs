use vstd::prelude::*;

verus! {

use crate::game::GameManager;
use crate::move_gen::Move;

/// Unicode white space (the property White_Space), the characters `char::is_whitespace`
/// accepts.
pub open spec fn white_space(c: char) -> bool {
    let u = c as u32;
    ||| 0x9 <= u <= 0xd
    ||| u == 0x20
    ||| u == 0x85
    ||| u == 0xa0
    ||| u == 0x1680
    ||| 0x2000 <= u <= 0x200a
    ||| u == 0x2028
    ||| u == 0x2029
    ||| u == 0x202f
    ||| u == 0x205f
    ||| u == 0x3000
}

fn is_white_space(c: char) -> (r: bool)
    ensures
        r == white_space(c),
{
    let u = c as u32;
    (0x9 <= u && u <= 0xd) || u == 0x20 || u == 0x85 || u == 0xa0 || u == 0x1680 || (0x2000 <= u && u
        <= 0x200a) || u == 0x2028 || u == 0x2029 || u == 0x202f || u == 0x205f || u == 0x3000
}

/// The first index at or after `i` whose character is not white space (the length if none).
pub open spec fn skip_space(s: Seq<char>, i: int) -> int
    decreases s.len() - i,
{
    if i >= s.len() || !white_space(s[i]) {
        i
    } else {
        skip_space(s, i + 1)
    }
}

/// The end of the text up to `j` without the white space at its end.
pub open spec fn trim_end(s: Seq<char>, j: int) -> int
    decreases j,
{
    if j <= 0 || !white_space(s[j - 1]) {
        j
    } else {
        trim_end(s, j - 1)
    }
}

/// The text without white space at either end.
pub open spec fn trim(s: Seq<char>) -> Seq<char> {
    let a = skip_space(s, 0);
    if a >= s.len() {
        Seq::empty()
    } else {
        s.subrange(a, trim_end(s, s.len() as int))
    }
}

/// The first index at or after `i` whose character is white space (the length if none).
pub open spec fn word_end(s: Seq<char>, i: int) -> int
    decreases s.len() - i,
{
    if i >= s.len() || white_space(s[i]) {
        i
    } else {
        word_end(s, i + 1)
    }
}

proof fn lemma_skip_space(s: Seq<char>, i: int)
    requires
        0 <= i <= s.len(),
    ensures
        i <= skip_space(s, i) <= s.len(),
        skip_space(s, i) < s.len() ==> !white_space(s[skip_space(s, i)]),
        forall|k: int| i <= k < skip_space(s, i) ==> white_space(#[trigger] s[k]),
    decreases s.len() - i,
{
    if i < s.len() && white_space(s[i]) {
        lemma_skip_space(s, i + 1);
    }
}

/// A word runs from `i` to its end: no white space inside, white space or the end after it.
pub proof fn lemma_word_end(s: Seq<char>, i: int)
    requires
        0 <= i <= s.len(),
    ensures
        i <= word_end(s, i) <= s.len(),
        word_end(s, i) < s.len() ==> white_space(s[word_end(s, i)]),
        forall|k: int| i <= k < word_end(s, i) ==> !white_space(#[trigger] s[k]),
    decreases s.len() - i,
{
    if i < s.len() && !white_space(s[i]) {
        lemma_word_end(s, i + 1);
    }
}

proof fn lemma_trim_end(s: Seq<char>, j: int)
    requires
        0 <= j <= s.len(),
    ensures
        0 <= trim_end(s, j) <= j,
        trim_end(s, j) > 0 ==> !white_space(s[trim_end(s, j) - 1]),
        forall|k: int| trim_end(s, j) <= k < j ==> white_space(#[trigger] s[k]),
    decreases j,
{
    if j > 0 && white_space(s[j - 1]) {
        lemma_trim_end(s, j - 1);
    }
}

/// The words of the text from index `i` on: the runs of characters that are not white space,
/// in order, as `str::split_whitespace` gives them.
pub open spec fn words_from(s: Seq<char>, i: int) -> Seq<Seq<char>>
    decreases s.len() - i,
{
    if i < 0 || i >= s.len() {
        Seq::empty()
    } else if white_space(s[i]) {
        words_from(s, i + 1)
    } else {
        proof {
            lemma_word_end(s, i + 1);
        }
        seq![s.subrange(i, word_end(s, i + 1))] + words_from(s, word_end(s, i + 1))
    }
}

/// Whether the character is a decimal digit.
pub open spec fn is_digit(c: char) -> bool {
    '0' <= c <= '9'
}

/// The value of a string of decimal digits.
pub open spec fn digits_value(d: Seq<char>) -> nat
    decreases d.len(),
{
    if d.len() == 0 {
        0
    } else {
        digits_value(d.drop_last()) * 10 + (d.last() as nat - '0' as nat) as nat
    }
}

/// The part of a word after an optional leading `+`.
pub open spec fn unsigned_digits(w: Seq<char>) -> Seq<char> {
    if w.len() > 0 && w[0] == '+' { w.subrange(1, w.len() as int) } else { w }
}

/// Every character is a decimal digit.
pub open spec fn all_digits(d: Seq<char>) -> bool {
    forall|j: int| 0 <= j < d.len() ==> is_digit(#[trigger] d[j])
}

/// What `from_str` of an unsigned integer type with largest value `max` gives for a word: an
/// optional `+` followed by at least one decimal digit, whose value is at most `max`.
pub open spec fn parse_unsigned(w: Seq<char>, max: nat) -> Option<nat> {
    let d = unsigned_digits(w);
    if d.len() > 0 && all_digits(d) && digits_value(d) <= max {
        Some(digits_value(d))
    } else {
        None
    }
}

/// The numbers among the words, each word read as a `u16`; words that are not are left out.
pub open spec fn move_numbers(ws: Seq<Seq<char>>) -> Seq<u16>
    decreases ws.len(),
{
    if ws.len() == 0 {
        Seq::empty()
    } else {
        move_numbers(ws.drop_last()) + match parse_unsigned(ws.last(), 65535) {
            Some(v) => seq![v as u16],
            None => Seq::empty(),
        }
    }
}

/// The moves of a `position moves` line: the words after the first two that read as numbers.
pub open spec fn position_moves(ws: Seq<Seq<char>>) -> Seq<Move> {
    if ws.len() <= 2 {
        Seq::empty()
    } else {
        move_numbers(ws.subrange(2, ws.len() as int)).map_values(|v: u16| Move(v))
    }
}

pub open spec fn quit_word() -> Seq<char> {
    seq!['q', 'u', 'i', 't']
}

pub open spec fn isready_word() -> Seq<char> {
    seq!['i', 's', 'r', 'e', 'a', 'd', 'y']
}

pub open spec fn go_word() -> Seq<char> {
    seq!['g', 'o']
}

pub open spec fn position_prefix() -> Seq<char> {
    seq!['p', 'o', 's', 'i', 't', 'i', 'o', 'n', ' ', 'm', 'o', 'v', 'e', 's']
}

/// A command of the engine's line protocol.
pub enum Command {
    /// `quit`: stop.
    Quit,
    /// `isready`: answer `readyok`.
    IsReady,
    /// `position moves m1 m2 ...`: a new game with these moves played.
    Position(Vec<Move>),
    /// `go`: search the current position and answer with the best move.
    Go,
    /// Any other line, which is ignored.
    Other,
}

/// What the engine answers to `go`.
#[derive(Clone, Copy, Debug, PartialEq, Eq, Structural)]
pub enum GoReply {
    /// The game is drawn: `bestmove 0 draw`.
    Draw,
    /// The game is over and not drawn: `bestmove 0 loss`.
    Loss,
    /// The game goes on: search, then `bestmove` and the move.
    Search,
}

/// Bounds of the text without white space at either end.
fn trim_bounds(s: &[char]) -> (r: (usize, usize))
    ensures
        r.0 <= r.1 <= s@.len(),
        trim(s@) == s@.subrange(r.0 as int, r.1 as int),
{
    let mut a: usize = 0;
    while a < s.len() && is_white_space(s[a])
        invariant
            a <= s@.len(),
            skip_space(s@, a as int) == skip_space(s@, 0),
        decreases s@.len() - a,
    {
        a += 1;
    }
    if a >= s.len() {
        proof {
            assert(s@.subrange(a as int, a as int) =~= Seq::<char>::empty());
        }
        return (a, a);
    }
    let mut b: usize = s.len();
    while b > 0 && is_white_space(s[b - 1])
        invariant
            b <= s@.len(),
            trim_end(s@, b as int) == trim_end(s@, s@.len() as int),
        decreases b,
    {
        b -= 1;
    }
    proof {
        lemma_trim_end(s@, s@.len() as int);
        assert(!white_space(s@[a as int]));
        if b <= a {
            assert(white_space(s@[a as int]));
        }
    }
    (a, b)
}

/// `min(v, cap)`.
pub open spec fn capped(v: int, cap: int) -> int {
    if v > cap { cap } else { v }
}

/// Reads `s[a..b]` as `from_str` of an unsigned integer type with largest value `max` would.
fn read_unsigned(s: &[char], a: usize, b: usize, max: u64) -> (r: Option<u64>)
    requires
        a <= b <= s@.len(),
    ensures
        r == (match parse_unsigned(s@.subrange(a as int, b as int), max as nat) {
            Some(v) => Some(v as u64),
            None => None,
        }),
{
    let ghost w = s@.subrange(a as int, b as int);
    let mut i: usize = a;
    if i < b && s[i] == '+' {
        i += 1;
    }
    let ghost d = s@.subrange(i as int, b as int);
    proof {
        if a < b && s@[a as int] == '+' {
            assert(d =~= w.subrange(1, w.len() as int));
        } else {
            assert(d =~= w);
        }
    }
    if i >= b {
        return None;
    }
    let cap: u128 = max as u128 + 1;
    let mut v: u128 = 0;
    let mut j: usize = i;
    while j < b
        invariant
            i <= j <= b <= s@.len(),
            a <= i,
            d == s@.subrange(i as int, b as int),
            w == s@.subrange(a as int, b as int),
            d == unsigned_digits(w),
            cap == max + 1,
            v == capped(digits_value(s@.subrange(i as int, j as int)) as int, cap as int),
            forall|k: int| i <= k < j ==> is_digit(#[trigger] s@[k]),
        decreases b - j,
    {
        let c = s[j];
        if !('0' <= c && c <= '9') {
            proof {
                assert(d[j - i] == c);
                assert(!is_digit(d[j - i]));
                assert(!all_digits(d));
                assert(parse_unsigned(w, max as nat) is None);
            }
            return None;
        }
        let digit = (c as u32 - '0' as u32) as u128;
        let ghost prefix = s@.subrange(i as int, j as int);
        let ghost next = s@.subrange(i as int, j + 1);
        proof {
            assert(next.drop_last() =~= prefix);
            assert(next.last() == c);
            assert(digits_value(next) == digits_value(prefix) * 10 + digit);
            assert(v <= cap);
            assert(capped(digits_value(next) as int, cap as int) == capped(v * 10 + digit, cap as int)) by (nonlinear_arith)
                requires
                    v == capped(digits_value(prefix) as int, cap as int),
                    digits_value(next) == digits_value(prefix) * 10 + digit,
                    0 <= digit <= 9,
                    cap >= 1,
            {
            }
        }
        let t = v * 10 + digit;
        v = if t > cap { cap } else { t };
        j += 1;
    }
    proof {
        assert(s@.subrange(i as int, j as int) =~= d);
        assert forall|k: int| 0 <= k < d.len() implies is_digit(#[trigger] d[k]) by {
            assert(d[k] == s@[i + k]);
        }
        assert(all_digits(d));
    }
    if v > max as u128 {
        None
    } else {
        Some(v as u64)
    }
}

/// The moves of the words of `t` after the first two.
fn position_move_list(t: &[char]) -> (r: Vec<Move>)
    ensures
        r@ == position_moves(words_from(t@, 0)),
{
    let mut out: Vec<Move> = Vec::new();
    let mut count: usize = 0;
    let ghost mut done: Seq<Seq<char>> = Seq::empty();
    let mut i: usize = 0;
    while i < t.len()
        invariant
            i <= t@.len(),
            words_from(t@, 0) == done + words_from(t@, i as int),
            count == done.len(),
            count <= i,
            out@ == position_moves(done),
        decreases t@.len() - i,
    {
        if is_white_space(t[i]) {
            i += 1;
        } else {
            let mut j: usize = i + 1;
            proof {
                lemma_word_end(t@, i + 1);
            }
            while j < t.len() && !is_white_space(t[j])
                invariant
                    i < j <= t@.len(),
                    word_end(t@, j as int) == word_end(t@, i + 1),
                decreases t@.len() - j,
            {
                j += 1;
            }
            let ghost w = t@.subrange(i as int, j as int);
            assert(words_from(t@, i as int) == seq![w] + words_from(t@, j as int));
            let ghost nd = done.push(w);
            if count >= 2 {
                let parsed = read_unsigned(t, i, j, 65535);
                let ghost x = done.subrange(2, done.len() as int);
                proof {
                    assert(nd.subrange(2, nd.len() as int) =~= x.push(w));
                    assert(x.push(w).drop_last() =~= x);
                }
                match parsed {
                    Some(v) => {
                        out.push(Move(v as u16));
                        proof {
                            assert(move_numbers(x.push(w)) == move_numbers(x) + seq![v as u16]);
                            assert((move_numbers(x) + seq![v as u16]).map_values(|v: u16| Move(v))
                                =~= move_numbers(x).map_values(|v: u16| Move(v)).push(Move(v as u16)));
                        }
                    },
                    None => {
                        proof {
                            assert(move_numbers(x.push(w)) =~= move_numbers(x));
                        }
                    },
                }
            }
            proof {
                assert(done + words_from(t@, i as int) =~= nd + words_from(t@, j as int));
                done = nd;
            }
            count += 1;
            i = j;
        }
    }
    proof {
        assert(done + Seq::<Seq<char>>::empty() =~= done);
    }
    out
}

/// Whether `t` holds exactly the characters of `w`.
fn same_chars(t: &[char], w: &[char]) -> (r: bool)
    ensures
        r == (t@ == w@),
{
    if t.len() != w.len() {
        return false;
    }
    let mut i: usize = 0;
    while i < t.len()
        invariant
            t@.len() == w@.len(),
            i <= t@.len(),
            forall|k: int| 0 <= k < i ==> t@[k] == w@[k],
        decreases t@.len() - i,
    {
        if t[i] != w[i] {
            return false;
        }
        i += 1;
    }
    proof {
        assert(t@ =~= w@);
    }
    true
}

/// The command a line of the engine protocol stands for, read from the line without the white
/// space at its ends: `quit`, `isready`, a line that starts with `position moves` (whose
/// remaining words that read as `u16` numbers are the moves), `go`, or anything else.
pub fn parse_command(line: &[char]) -> (r: Command)
    ensures
        ({
            let t = trim(line@);
            if t == quit_word() {
                r is Quit
            } else if t == isready_word() {
                r is IsReady
            } else if t.len() >= 14 && t.subrange(0, 14) == position_prefix() {
                r matches Command::Position(ms) && ms@ == position_moves(words_from(t, 0))
            } else if t == go_word() {
                r is Go
            } else {
                r is Other
            }
        }),
{
    let (a, b) = trim_bounds(line);
    let t = vstd::slice::slice_subrange(line, a, b);
    let quit = ['q', 'u', 'i', 't'];
    let isready = ['i', 's', 'r', 'e', 'a', 'd', 'y'];
    let prefix = ['p', 'o', 's', 'i', 't', 'i', 'o', 'n', ' ', 'm', 'o', 'v', 'e', 's'];
    let go = ['g', 'o'];
    proof {
        assert(quit@ =~= quit_word());
        assert(isready@ =~= isready_word());
        assert(prefix@ =~= position_prefix());
        assert(go@ =~= go_word());
    }
    if same_chars(t, &quit) {
        Command::Quit
    } else if same_chars(t, &isready) {
        Command::IsReady
    } else if t.len() >= 14 && same_chars(vstd::slice::slice_subrange(t, 0, 14), &prefix) {
        Command::Position(position_move_list(t))
    } else if same_chars(t, &go) {
        Command::Go
    } else {
        Command::Other
    }
}

/// What the engine answers to `go`: a drawn game, a game over that is not drawn, or a search
/// while the game goes on.
pub fn go_reply(game: &GameManager) -> (r: GoReply)
    ensures
        r == (if game.turn_spec() is None && game.winner_spec() is None {
            GoReply::Draw
        } else if game.turn_spec() is None {
            GoReply::Loss
        } else {
            GoReply::Search
        }),
{
    if game.is_draw() {
        GoReply::Draw
    } else if game.is_finished() {
        GoReply::Loss
    } else {
        GoReply::Search
    }
}

/// The number a player types to pick one of `n` listed moves: the line without white space at
/// its ends read as a `usize`, when it is below `n`.
pub fn parse_choice(line: &[char], n: usize) -> (r: Option<usize>)
    ensures
        r == (match parse_unsigned(trim(line@), usize::MAX as nat) {
            Some(c) => if c < n { Some(c as usize) } else { None },
            None => None,
        }),
{
    let (a, b) = trim_bounds(line);
    match read_unsigned(line, a, b, usize::MAX as u64) {
        Some(c) => {
            if c < n as u64 {
                Some(c as usize)
            } else {
                None
            }
        },
        None => None,
    }
}

/// A board move from `from` to `to`.
pub open spec fn board_move_at(m: Move, from: u8, to: u8) -> bool {
    !m.drops() && m.from_sq() == from && m.to_sq() == to
}

/// A drop of the kind with id `kind` on `to`.
pub open spec fn drop_move_at(m: Move, kind: u8, to: u8) -> bool {
    m.drops() && m.kind_bits() == kind && m.to_sq() == to
}

/// The first move of `moves` from `from` to `to` on the board: the move a player means by
/// these two squares.
pub fn find_board_move(moves: &[Move], from: u8, to: u8) -> (r: Option<Move>)
    ensures
        r matches Some(m) ==> exists|i: int|
            0 <= i < moves@.len() && moves@[i] == m && board_move_at(m, from, to) && forall|j: int|
                0 <= j < i ==> !board_move_at(#[trigger] moves@[j], from, to),
        r is None ==> forall|i: int| 0 <= i < moves@.len() ==> !board_move_at(#[trigger] moves@[i], from, to),
{
    let mut i: usize = 0;
    while i < moves.len()
        invariant
            i <= moves@.len(),
            forall|j: int| 0 <= j < i ==> !board_move_at(#[trigger] moves@[j], from, to),
        decreases moves@.len() - i,
    {
        let m = moves[i];
        if !m.is_drop() && m.sq_from() == from && m.sq_to() == to {
            return Some(m);
        }
        i += 1;
    }
    None
}

/// The first drop in `moves` of the kind with id `kind` on `to`: the drop a player means by a
/// piece in hand and a square.
pub fn find_drop(moves: &[Move], kind: u8, to: u8) -> (r: Option<Move>)
    ensures
        r matches Some(m) ==> exists|i: int|
            0 <= i < moves@.len() && moves@[i] == m && drop_move_at(m, kind, to) && forall|j: int|
                0 <= j < i ==> !drop_move_at(#[trigger] moves@[j], kind, to),
        r is None ==> forall|i: int| 0 <= i < moves@.len() ==> !drop_move_at(#[trigger] moves@[i], kind, to),
{
    let mut i: usize = 0;
    while i < moves.len()
        invariant
            i <= moves@.len(),
            forall|j: int| 0 <= j < i ==> !drop_move_at(#[trigger] moves@[j], kind, to),
        decreases moves@.len() - i,
    {
        let m = moves[i];
        if m.is_drop() && (m.0 >> 8) & 0x07 == kind as u16 && m.sq_to() == to {
            return Some(m);
        }
        i += 1;
    }
    None
}

} // verus!
