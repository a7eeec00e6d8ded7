use vstd::prelude::*;

verus! {

use std::sync::atomic::AtomicBool;
use web_time::{Duration, Instant};
use crate::bitboard::has_bit;
use crate::board::{Board, Player, PieceKind, piece_index, get_piece_index};
use crate::move_gen::{Move, generate_moves, move_list};
use crate::make_move::{move_ok, removed_features, added_features, next_bbs, next_hands, next_hash};
use crate::nnue::{Accumulator, NnueWeights, eval_spec, add_features, sub_features};
use crate::position::lemma_move_list_valid;
use crate::sync::{load_flag, store_flag};
use crate::zobrist::{TTEntry, TranspositionTable, ZobristTable, unpack_spec};

pub const EXACT: u8 = 0;
pub const LOWER_BOUND: u8 = 1;
pub const UPPER_BOUND: u8 = 2;
pub const MAX_PLY: usize = 64;

/// Bound on every score and search window.
pub const SCORE_LIMIT: i32 = 2140000000;

#[verifier::external_type_specification]
#[verifier::external_body]
pub struct ExInstant(Instant);

/// `web_time::Instant::elapsed`: the time since `start`, read from the clock. Nothing is
/// claimed of it: it depends on the time.
#[verifier::external_body]
fn elapsed_since(start: &Instant) -> Duration {
    start.elapsed()
}

/// `Duration::as_nanos` of std: the length of a duration in whole nanoseconds. A `Duration` is
/// opaque here, so nothing is claimed of the number.
#[verifier::external_body]
fn nanos(d: &Duration) -> u128 {
    d.as_nanos()
}

/// How long a search may take and how deep it may go.
pub struct SearchLimits {
    pub max_time: Duration,
    pub max_depth: u8,
}

/// Material value of a piece kind, used to order captures.
pub open spec fn piece_value_spec(kind: PieceKind) -> i32 {
    match kind {
        PieceKind::Chick => 100,
        PieceKind::Hen => 300,
        PieceKind::Giraffe => 400,
        PieceKind::Elephant => 400,
        PieceKind::Lion => 10000,
    }
}

fn piece_value(kind: PieceKind) -> (r: i32)
    ensures
        r == piece_value_spec(kind),
{
    match kind {
        PieceKind::Chick => 100,
        PieceKind::Hen => 300,
        PieceKind::Giraffe => 400,
        PieceKind::Elephant => 400,
        PieceKind::Lion => 10000,
    }
}

/// Keys in non-decreasing order.
pub open spec fn sorted_by_key(s: Seq<(i32, Move)>) -> bool {
    forall|i: int, j: int| 0 <= i < j < s.len() ==> #[trigger] s[i].0 <= #[trigger] s[j].0
}

/// Sorts moves by key, smallest first (insertion sort); the result is a permutation of the items.
fn sort_by_key(items: &Vec<(i32, Move)>) -> (r: Vec<(i32, Move)>)
    ensures
        r@.len() == items@.len(),
        sorted_by_key(r@),
        r@.to_multiset() == items@.to_multiset(),
        forall|x: (i32, Move)| #[trigger] r@.contains(x) ==> items@.contains(x),
{
    let mut out: Vec<(i32, Move)> = Vec::new();
    let mut i: usize = 0;
    proof {
        assert(items@.take(0) =~= Seq::<(i32, Move)>::empty());
        assert(out@ =~= Seq::<(i32, Move)>::empty());
    }
    while i < items.len()
        invariant
            i <= items@.len(),
            out@.len() == i,
            sorted_by_key(out@),
            out@.to_multiset() == items@.take(i as int).to_multiset(),
            forall|x: (i32, Move)| #[trigger] out@.contains(x) ==> items@.contains(x),
        decreases items@.len() - i,
    {
        let item = items[i];
        let mut pos: usize = 0;
        while pos < out.len() && out[pos].0 <= item.0
            invariant
                pos <= out@.len(),
                forall|j: int| 0 <= j < pos ==> #[trigger] out@[j].0 <= item.0,
            decreases out@.len() - pos,
        {
            pos += 1;
        }
        let ghost before = out@;
        out.insert(pos, item);
        proof {
            vstd::seq_lib::to_multiset_insert(before, pos as int, item);
            assert(items@.take(i + 1) =~= items@.take(i as int).push(item));
            vstd::seq_lib::to_multiset_build(items@.take(i as int), item);
            assert forall|a: int, b: int| 0 <= a < b < out@.len() implies #[trigger] out@[a].0 <= #[trigger] out@[b].0 by {
                if a < pos as int && b < pos as int {
                    assert(out@[a] == before[a] && out@[b] == before[b]);
                } else if a < pos as int && b == pos as int {
                } else if a < pos as int {
                    assert(out@[a] == before[a] && out@[b] == before[b - 1]);
                } else if a == pos as int {
                    assert(out@[b] == before[b - 1]);
                    assert(pos < before.len());
                    assert(before[pos as int].0 > item.0);
                    assert(before[pos as int].0 <= before[b - 1].0 || b - 1 == pos as int);
                } else {
                    assert(out@[a] == before[a - 1] && out@[b] == before[b - 1]);
                }
            }
            assert forall|x: (i32, Move)| #[trigger] out@.contains(x) implies items@.contains(x) by {
                let k = choose|k: int| 0 <= k < out@.len() && out@[k] == x;
                if k < pos as int {
                    assert(before[k] == x);
                    assert(before.contains(x));
                } else if k == pos as int {
                    assert(items@[i as int] == x);
                } else {
                    assert(before[k - 1] == x);
                    assert(before.contains(x));
                }
            }
        }
        i += 1;
    }
    proof {
        assert(items@.take(i as int) =~= items@);
    }
    out
}

/// The moves of pairs, in order.
fn moves_of(items: &Vec<(i32, Move)>) -> (r: Vec<Move>)
    ensures
        r@.len() == items@.len(),
        forall|j: int| 0 <= j < r@.len() ==> #[trigger] r@[j] == items@[j].1,
{
    let mut r: Vec<Move> = Vec::new();
    let mut i: usize = 0;
    while i < items.len()
        invariant
            i <= items@.len(),
            r@.len() == i,
            forall|j: int| 0 <= j < i ==> #[trigger] r@[j] == items@[j].1,
        decreases items@.len() - i,
    {
        r.push(items[i].1);
        i += 1;
    }
    r
}

/// Key by which a move is searched, largest first: the table's move gets the largest key; a
/// capture gets 10000 less the value of the capturing piece, a promotion 5000, the two killer
/// moves of the ply (when it is within the killer table) 900 and 800, other moves 0.
pub open spec fn order_key_spec(
    m: Move,
    tt_move: Option<Move>,
    opponent_occupied: u16,
    ply: int,
    killers: Seq<[Option<Move>; 2]>,
) -> i32 {
    if tt_move == Some(m) {
        i32::MAX
    } else if !m.drops() && has_bit(opponent_occupied, m.to_sq()) {
        (10000 - piece_value_spec(m.kind())) as i32
    } else if !m.drops() && m.promotes() {
        5000
    } else if ply < MAX_PLY && killers[ply][0] == Some(m) {
        900
    } else if ply < MAX_PLY && killers[ply][1] == Some(m) {
        800
    } else {
        0
    }
}

/// What a table entry found for the node settles, at `ply` from the root with window
/// `alpha..beta`: nothing when it was searched less deep than `depth`; else its score, with a
/// mate score brought from the entry's distance to this one (less `ply` above 19000, plus `ply`
/// below -19000), settles the node when it is not 0 and the entry is exact, a lower bound at
/// least `beta`, or an upper bound at most `alpha`.
pub open spec fn table_cutoff_spec(entry: TTEntry, depth: u8, ply: int, alpha: int, beta: int) -> Option<i32> {
    if entry.depth < depth {
        None
    } else {
        let s: int = if entry.score > 19000 {
            entry.score - ply
        } else if entry.score < -19000 {
            entry.score + ply
        } else {
            entry.score as int
        };
        if s == 0 {
            None
        } else if entry.node_type == EXACT || (entry.node_type == LOWER_BOUND && s >= beta) || (
        entry.node_type == UPPER_BOUND && s <= alpha) {
            Some(s as i32)
        } else {
            None
        }
    }
}

fn table_cutoff(entry: &TTEntry, depth: u8, ply: usize, alpha: i32, beta: i32) -> (r: Option<i32>)
    requires
        -32768 <= entry.score <= 32767,
        ply <= 1000,
    ensures
        r == table_cutoff_spec(*entry, depth, ply as int, alpha as int, beta as int),
        r matches Some(s) ==> -SCORE_LIMIT <= s <= SCORE_LIMIT,
{
    if entry.depth < depth {
        return None;
    }
    let mut score = entry.score;
    if score > 19000 {
        score -= ply as i32;
    } else if score < -19000 {
        score += ply as i32;
    }
    if score == 0 {
        None
    } else if entry.node_type == EXACT || (entry.node_type == LOWER_BOUND && score >= beta) || (entry.node_type
        == UPPER_BOUND && score <= alpha) {
        Some(score)
    } else {
        None
    }
}

/// The entry a searched node leaves in the table: the best score, with a mate score taken to
/// the node's distance from mate (plus `ply` above 19000, less `ply` below -19000), marked an
/// upper bound when it is at most the window's `alpha`, a lower bound when it is at least
/// `beta`, else exact; nothing when that score is 0.
pub open spec fn table_entry_spec(
    key: u64,
    depth: u8,
    ply: int,
    best_score: int,
    best_move: Move,
    alpha: int,
    beta: int,
) -> Option<TTEntry> {
    let node_type = if best_score <= alpha {
        UPPER_BOUND
    } else if best_score >= beta {
        LOWER_BOUND
    } else {
        EXACT
    };
    let s: int = if best_score > 19000 {
        best_score + ply
    } else if best_score < -19000 {
        best_score - ply
    } else {
        best_score
    };
    if s == 0 {
        None
    } else {
        Some(TTEntry { key, depth, score: s as i32, best_move, node_type })
    }
}

fn table_entry(key: u64, depth: u8, ply: usize, best_score: i32, best_move: Move, alpha: i32, beta: i32) -> (r:
    Option<TTEntry>)
    requires
        -SCORE_LIMIT <= best_score <= SCORE_LIMIT,
        ply <= 1000,
    ensures
        r == table_entry_spec(key, depth, ply as int, best_score as int, best_move, alpha as int, beta as int),
{
    let node_type = if best_score <= alpha {
        UPPER_BOUND
    } else if best_score >= beta {
        LOWER_BOUND
    } else {
        EXACT
    };
    let mut tt_score = best_score;
    if tt_score > 19000 {
        tt_score += ply as i32;
    } else if tt_score < -19000 {
        tt_score -= ply as i32;
    }
    if tt_score == 0 {
        None
    } else {
        Some(TTEntry { key, depth, score: tt_score, best_move, node_type })
    }
}

/// The position after move `m` of `b`.
pub open spec fn after(b: Board, m: Move) -> Board {
    choose|nb: Board| is_after(b, m, nb)
}

/// The neurons after the feature update of move `m` of `b`.
pub open spec fn values_after(w: NnueWeights, values: Seq<i16>, b: Board, m: Move) -> Seq<i16> {
    Seq::new(
        128,
        |i: int| add_features(w, sub_features(w, values[i], removed_features(b, m), i), added_features(b, m), i),
    )
}

/// A move the quiescence search looks at: a board move that captures, promotes, or brings the
/// lion into the far row.
pub open spec fn noisy(b: Board, m: Move) -> bool {
    &&& !m.drops()
    &&& (has_bit(b.occupied_spec(b.side_to_move.other()), m.to_sq()) || m.promotes() || (m.kind()
        == PieceKind::Lion && crate::move_gen::in_promotion_zone(b.side_to_move, m.to_sq())))
}

/// Below every score.
pub open spec fn no_score() -> int {
    -4000000000
}

/// The quiescence value of a position: the mate score of a decided position, the win of a
/// lion capture, 0 for a position repeated since the root, and otherwise the static evaluation
/// or, while `qd` (counting down to -10) allows, the best of it and the negated values of the
/// noisy moves (each with the history, hash and neurons that move brings).
pub open spec fn q_value(
    z: ZobristTable,
    w: NnueWeights,
    b: Board,
    hist: Seq<(u64, Board)>,
    hash: u64,
    values: Seq<i16>,
    qd: int,
    ply: int,
) -> int
    decreases qd + 11, 1int, 0int,
{
    if qd < -11 {
        0
    } else if b.winner_spec() is Some {
        mate_score(b.winner_spec()->0, b.side_to_move, ply)
    } else if captures_lion(b, move_list(b)) {
        20000 - ply
    } else if ply > 0 && repeats(hist, hash, b) {
        0
    } else if qd < -10 {
        eval_spec(values, w)
    } else {
        let best = q_best(z, w, b, hist, hash, values, qd, ply, 0);
        if best > eval_spec(values, w) {
            best
        } else {
            eval_spec(values, w) as int
        }
    }
}

/// The best negated quiescence value among the noisy moves of `b` from the `k`-th generated
/// move on (`no_score()` when there is none).
pub open spec fn q_best(
    z: ZobristTable,
    w: NnueWeights,
    b: Board,
    hist: Seq<(u64, Board)>,
    hash: u64,
    values: Seq<i16>,
    qd: int,
    ply: int,
    k: int,
) -> int
    decreases qd + 11, 0int, move_list(b).len() - k,
{
    if k < 0 || k >= move_list(b).len() || qd < -10 {
        no_score()
    } else {
        let m = move_list(b)[k];
        let rest = q_best(z, w, b, hist, hash, values, qd, ply, k + 1);
        if noisy(b, m) {
            let v = -q_value(
                z,
                w,
                after(b, m),
                hist.push((hash, b)),
                next_hash(hash, z, b, m),
                values_after(w, values, b, m),
                qd - 1,
                ply + 1,
            );
            if v > rest {
                v
            } else {
                rest
            }
        } else {
            rest
        }
    }
}

/// The negated quiescence value of noisy move `m` of `b`.
pub open spec fn q_child(
    z: ZobristTable,
    w: NnueWeights,
    b: Board,
    hist: Seq<(u64, Board)>,
    hash: u64,
    values: Seq<i16>,
    qd: int,
    ply: int,
    m: Move,
) -> int {
    -q_value(
        z,
        w,
        after(b, m),
        hist.push((hash, b)),
        next_hash(hash, z, b, m),
        values_after(w, values, b, m),
        qd - 1,
        ply + 1,
    )
}

/// A result `r` of a search in the window `alpha..beta` agrees with the value `q`: exact inside
/// the window, an upper bound at or below `alpha`, a lower bound at or above `beta`.
pub open spec fn agrees(r: int, q: int, alpha: int, beta: int) -> bool {
    &&& (alpha < r < beta ==> r == q)
    &&& (r <= alpha ==> q <= r)
    &&& (r >= beta ==> q >= r)
}

proof fn lemma_q_best(
    z: ZobristTable,
    w: NnueWeights,
    b: Board,
    hist: Seq<(u64, Board)>,
    hash: u64,
    values: Seq<i16>,
    qd: int,
    ply: int,
    k: int,
)
    requires
        0 <= k,
        qd >= -10,
    ensures
        forall|j: int|
            k <= j < move_list(b).len() && noisy(b, #[trigger] move_list(b)[j]) ==> q_best(z, w, b, hist, hash, values, qd,
                ply, k) >= q_child(z, w, b, hist, hash, values, qd, ply, move_list(b)[j]),
        q_best(z, w, b, hist, hash, values, qd, ply, k) == no_score() || exists|j: int|
            k <= j < move_list(b).len() && noisy(b, #[trigger] move_list(b)[j]) && q_best(z, w, b, hist, hash, values, qd,
                ply, k) == q_child(z, w, b, hist, hash, values, qd, ply, move_list(b)[j]),
    decreases move_list(b).len() - k,
{
    if k < move_list(b).len() {
        lemma_q_best(z, w, b, hist, hash, values, qd, ply, k + 1);
    }
}

proof fn lemma_q_top(
    z: ZobristTable,
    w: NnueWeights,
    b: Board,
    hist: Seq<(u64, Board)>,
    hash: u64,
    values: Seq<i16>,
    qd: int,
    ply: int,
)
    requires
        qd >= -10,
        b.winner_spec() is None,
        !captures_lion(b, move_list(b)),
        !(ply > 0 && repeats(hist, hash, b)),
    ensures
        q_value(z, w, b, hist, hash, values, qd, ply) == (if q_best(z, w, b, hist, hash, values, qd, ply, 0)
            > eval_spec(values, w) {
            q_best(z, w, b, hist, hash, values, qd, ply, 0)
        } else {
            eval_spec(values, w) as int
        }),
{
}

proof fn lemma_after(b: Board, m: Move, nb: Board)
    requires
        is_after(b, m, nb),
    ensures
        after(b, m) == nb,
{
    let a = after(b, m);
    assert(is_after(b, m, a));
    assert(a.piece_bbs =~= nb.piece_bbs);
    assert(a.hands =~= nb.hands);
}

/// The state of one search thread.
pub struct Search<'a> {
    z_table: &'a ZobristTable,
    tt: &'a TranspositionTable,
    nnue_weights: &'a NnueWeights,
    start_time: Instant,
    max_time: Duration,
    nodes: usize,
    history: Vec<(u64, Board)>,
    killer_moves: Vec<[Option<Move>; 2]>,
    aborted: bool,
    shared_abort: &'a AtomicBool,
    thread_id: usize,
    /// The entries handed to the table, each with the ply of the node that stored it.
    store_log: Ghost<Seq<(int, TTEntry)>>,
    /// The searches of positions that came back: ply, position and score, in the order they
    /// finished.
    result_log: Ghost<Seq<(int, Board, int)>>,
}

/// The position `b` occurs among the positions at an even distance before the current one.
pub open spec fn repeats(history: Seq<(u64, Board)>, hash: u64, b: Board) -> bool {
    exists|j: int|
        0 <= j <= history.len() - 2 && (history.len() - 2 - j) % 2 == 0
            && #[trigger] history[j].0 == hash && history[j].1.same(b)
}

/// A board move that lands on the square of the opponent's lion.
pub open spec fn lion_capture(b: Board, m: Move) -> bool {
    !m.drops() && has_bit(b.piece_bbs@[piece_index(b.side_to_move.other(), PieceKind::Lion)], m.to_sq())
}

/// Some move of the list captures the opponent's lion.
pub open spec fn captures_lion(b: Board, moves: Seq<Move>) -> bool {
    exists|i: int| 0 <= i < moves.len() && lion_capture(b, #[trigger] moves[i])
}

/// `m` is the first move of the list that captures the opponent's lion.
pub open spec fn first_lion_capture(b: Board, moves: Seq<Move>, m: Move) -> bool {
    exists|i: int|
        0 <= i < moves.len() && #[trigger] moves[i] == m && lion_capture(b, m)
            && forall|j: int| 0 <= j < i ==> !lion_capture(b, #[trigger] moves[j])
}

/// `n` is the log `o` with entries appended, each stored at ply `ply` or deeper.
pub open spec fn log_extends(o: Seq<(int, TTEntry)>, n: Seq<(int, TTEntry)>, ply: int) -> bool {
    &&& o.len() <= n.len()
    &&& forall|k: int| 0 <= k < o.len() ==> #[trigger] n[k] == o[k]
    &&& forall|k: int| o.len() <= k < n.len() ==> (#[trigger] n[k]).0 >= ply
}

/// What a searched node at `ply` left in the log: the entries of the nodes below it (deeper
/// plies), then, where there is one, its own entry `e`.
pub open spec fn stored_here(o: Seq<(int, TTEntry)>, n: Seq<(int, TTEntry)>, ply: int, e: Option<TTEntry>) -> bool {
    match e {
        Some(x) => n.len() > o.len() && n.last() == (ply, x) && log_extends(o, n.drop_last(), ply + 1),
        None => log_extends(o, n, ply + 1),
    }
}

proof fn lemma_log_extends_trans(a: Seq<(int, TTEntry)>, b: Seq<(int, TTEntry)>, c: Seq<(int, TTEntry)>, ply: int)
    requires
        log_extends(a, b, ply),
        log_extends(b, c, ply),
    ensures
        log_extends(a, c, ply),
{
    assert forall|k: int| a.len() <= k < c.len() implies (#[trigger] c[k]).0 >= ply by {
        if k < b.len() {
            assert(c[k] == b[k]);
        }
    }
}

/// `n` keeps the entries of `o`, in order, and may add more after them.
pub open spec fn keeps_entries(o: Seq<(int, Board, int)>, n: Seq<(int, Board, int)>) -> bool {
    &&& o.len() <= n.len()
    &&& forall|k: int| 0 <= k < o.len() ==> #[trigger] n[k] == o[k]
}

/// Among the entries of `n` from index `from` on, the search of `b` at `ply` came back with
/// `score`.
pub open spec fn searched_to(from: int, n: Seq<(int, Board, int)>, ply: int, b: Board, score: int) -> bool {
    exists|k: int| from <= k < n.len() && #[trigger] n[k] == (ply, b, score)
}

proof fn lemma_keeps_entries(a: Seq<(int, Board, int)>, b: Seq<(int, Board, int)>, c: Seq<(int, Board, int)>)
    requires
        keeps_entries(a, b),
        keeps_entries(b, c),
    ensures
        keeps_entries(a, c),
{
    assert forall|k: int| 0 <= k < a.len() implies #[trigger] c[k] == a[k] by {
        assert(c[k] == b[k]);
    }
}

proof fn lemma_searched_kept(from: int, n1: Seq<(int, Board, int)>, n2: Seq<(int, Board, int)>, ply: int, b: Board,
    score: int)
    requires
        0 <= from,
        keeps_entries(n1, n2),
        searched_to(from, n1, ply, b, score),
    ensures
        searched_to(from, n2, ply, b, score),
{
    let k = choose|k: int| from <= k < n1.len() && #[trigger] n1[k] == (ply, b, score);
    assert(n2[k] == n1[k]);
}

/// `nb` is the position after move `m` of `b`.
pub open spec fn is_after(b: Board, m: Move, nb: Board) -> bool {
    &&& nb.piece_bbs@ == next_bbs(b, m)
    &&& nb.hands@ == next_hands(b, m)
    &&& nb.side_to_move == b.side_to_move.other()
}

/// Every move of `b` after which the side to move has won is answered by a score of at least
/// `19999 - ply` (the win one move on), unless the score reached `beta`.
pub open spec fn sees_wins(b: Board, ply: int, beta: int, score: int) -> bool {
    forall|m: Move, nb: Board|
        #![trigger move_list(b).contains(m), is_after(b, m, nb)]
        move_list(b).contains(m) && is_after(b, m, nb) && nb.winner_spec() == Some(b.side_to_move)
            ==> score >= 19999 - ply || score >= beta
}

/// Score of a won or lost position `ply` moves from the root.
pub open spec fn mate_score(winner: Player, side: Player, ply: int) -> int {
    if winner == side { 20000 - ply } else { -20000 + ply }
}

fn lion_capture_at(lion_bb: u16, m: Move) -> (r: bool)
    ensures
        r == (!m.drops() && has_bit(lion_bb, m.to_sq())),
{
    if m.is_drop() {
        return false;
    }
    let t = m.sq_to();
    proof {
        let tt = t as u16;
        assert(tt < 16 ==> ((lion_bb & (1u16 << tt)) != 0 <==> (lion_bb >> tt) & 1u16 == 1u16)) by (bit_vector);
    }
    (lion_bb & (1u16 << t)) != 0
}

/// The features a generated move changes are features of the network.
pub(crate) proof fn lemma_update_in_range(b: Board, m: Move)
    requires
        b.valid(),
        move_list(b).contains(m),
    ensures
        move_ok(b, m),
        crate::nnue::features_in_range(removed_features(b, m)),
        crate::nnue::features_in_range(added_features(b, m)),
        crate::position::valid_parts(next_bbs(b, m), next_hands(b, m)),
{
    lemma_move_list_valid(b, m);
    crate::board::lemma_kind_id(m.kind());
    crate::position::lemma_valid_facts(b);
    let me = b.side_to_move;
    let opp = me.other();
    match crate::make_move::piece_at(b, opp, m.to_sq()) {
        Some(c) => {
            crate::board::lemma_kind_id(c);
        },
        None => {},
    }
    crate::board::lemma_kind_id(crate::make_move::placed_kind(m));
    let r = removed_features(b, m);
    let a = added_features(b, m);
    assert forall|j: int| 0 <= j < r.len() implies #[trigger] r[j] < crate::nnue::FEATURE_SIZE by {}
    assert forall|j: int| 0 <= j < a.len() implies #[trigger] a[j] < crate::nnue::FEATURE_SIZE by {}
}

fn same_move(a: Option<Move>, b: Option<Move>) -> (r: bool)
    ensures
        r == (a == b),
{
    match (a, b) {
        (Some(x), Some(y)) => x.0 == y.0,
        (None, None) => true,
        _ => false,
    }
}

/// Moves of `moves` with a rotation for helper threads: the first move stays first and the
/// rest are rotated left by `thread_id % len % (len - 1)` places.
fn rotate_for_thread(moves: &Vec<Move>, thread_id: usize) -> (r: Vec<Move>)
    requires
        moves@.len() > 1,
    ensures
        r@ == rotated(moves@, thread_id as int),
        r@.len() == moves@.len(),
        forall|j: int| 0 <= j < r@.len() ==> moves@.contains(#[trigger] r@[j]),
        forall|m: Move| moves@.contains(m) ==> #[trigger] r@.contains(m),
{
    let len = moves.len();
    let shift_amount = thread_id % len;
    if shift_amount == 0 {
        let r = moves.clone();
        proof {
            assert(r@ =~= moves@);
        }
        return r;
    }
    let mut shifted: Vec<Move> = Vec::with_capacity(len);
    shifted.push(moves[0]);
    let rem_len = len - 1;
    let actual_shift = shift_amount % rem_len;
    let ghost s = actual_shift as int;
    let mut j = actual_shift;
    while j < rem_len
        invariant
            rem_len == moves@.len() - 1,
            actual_shift <= j <= rem_len,
            s == actual_shift,
            shifted@ == seq![moves@[0]] + moves@.subrange(1 + s, 1 + j as int),
        decreases rem_len - j,
    {
        shifted.push(moves[1 + j]);
        proof {
            assert(seq![moves@[0]] + moves@.subrange(1 + s, 1 + j + 1) =~= (seq![moves@[0]] + moves@.subrange(1
                + s, 1 + j as int)).push(moves@[1 + j as int]));
        }
        j += 1;
    }
    let mut j: usize = 0;
    while j < actual_shift
        invariant
            rem_len == moves@.len() - 1,
            actual_shift < rem_len,
            j <= actual_shift,
            s == actual_shift,
            shifted@ == seq![moves@[0]] + moves@.subrange(1 + s, moves@.len() as int) + moves@.subrange(1, 1
                + j as int),
        decreases actual_shift - j,
    {
        shifted.push(moves[1 + j]);
        proof {
            assert(seq![moves@[0]] + moves@.subrange(1 + s, moves@.len() as int) + moves@.subrange(1, 1 + j + 1)
                =~= (seq![moves@[0]] + moves@.subrange(1 + s, moves@.len() as int) + moves@.subrange(1, 1
                + j as int)).push(moves@[1 + j as int]));
        }
        j += 1;
    }
    proof {
        let r = shifted@;
        assert(r =~= rotated(moves@, thread_id as int));
        assert forall|k: int| 0 <= k < r.len() implies moves@.contains(#[trigger] r[k]) by {
            if k == 0 {
            } else if k < moves@.len() - s {
                assert(r[k] == moves@[k + s]);
            } else {
                assert(r[k] == moves@[k - (moves@.len() - 1 - s)]);
            }
        }
        assert forall|m: Move| moves@.contains(m) implies #[trigger] r.contains(m) by {
            let i = choose|i: int| 0 <= i < moves@.len() && moves@[i] == m;
            if i == 0 {
                assert(r[0] == m);
            } else if i >= 1 + s {
                assert(r[i - s] == m);
            } else {
                assert(r[i + moves@.len() - 1 - s] == m);
            }
        }
    }
    shifted
}

/// The moves rotated for thread `t`: the first move stays first and the rest are rotated left by
/// `t % len % (len - 1)` places; unchanged when `t % len` is 0.
pub open spec fn rotated(moves: Seq<Move>, t: int) -> Seq<Move> {
    let len = moves.len() as int;
    if t % len == 0 {
        moves
    } else {
        let s = (t % len) % (len - 1);
        seq![moves[0]] + moves.subrange(1 + s, len) + moves.subrange(1, 1 + s)
    }
}

impl<'a> Search<'a> {
    pub closed spec fn wf(self) -> bool {
        &&& self.tt.wf()
        &&& self.killer_moves@.len() == MAX_PLY
    }

    pub closed spec fn is_aborted(self) -> bool {
        self.aborted
    }

    pub closed spec fn history_view(self) -> Seq<(u64, Board)> {
        self.history@
    }

    /// Every 2048 nodes, stops when another thread has stopped or, on the main thread, when the
    /// time is up (then tells the other threads to stop).
    fn check_time(&mut self)
        ensures
            final(self).wf() == old(self).wf(),
            final(self).history@ == old(self).history@,
            final(self).killer_moves@ == old(self).killer_moves@,
            final(self).tt == old(self).tt,
            final(self).z_table == old(self).z_table,
            final(self).nnue_weights == old(self).nnue_weights,
            final(self).nodes == old(self).nodes,
            final(self).thread_id == old(self).thread_id,
            final(self).start_time == old(self).start_time,
            final(self).max_time == old(self).max_time,
            final(self).shared_abort == old(self).shared_abort,
            final(self).store_log == old(self).store_log,
            final(self).result_log == old(self).result_log,
            old(self).aborted ==> final(self).aborted,
            final(self).aborted != old(self).aborted ==> old(self).nodes & 2047usize == 0,
    {
        if self.nodes & 2047 == 0 {
            if load_flag(self.shared_abort) {
                self.aborted = true;
            } else if self.thread_id == 0 && nanos(&elapsed_since(&self.start_time)) >= nanos(&self.max_time) {
                store_flag(self.shared_abort, true);
                self.aborted = true;
            }
        }
    }

    /// Whether the position occurred before at an even distance, with the same side to move.
    fn is_repetition(&self, current_hash: u64, current_board: &Board) -> (r: bool)
        ensures
            r == repeats(self.history@, current_hash, *current_board),
    {
        let len = self.history.len();
        if len >= 2 {
            let mut i = len - 2;
            loop
                invariant
                    len == self.history@.len(),
                    len >= 2,
                    i <= len - 2,
                    (len - 2 - i) % 2 == 0,
                    forall|j: int| i < j <= len - 2 && (len - 2 - j) % 2 == 0 ==>
                        !(#[trigger] self.history@[j].0 == current_hash && self.history@[j].1.same(*current_board)),
                ensures
                    forall|j: int| 0 <= j <= len - 2 && (len - 2 - j) % 2 == 0 ==>
                        !(#[trigger] self.history@[j].0 == current_hash && self.history@[j].1.same(*current_board)),
                decreases i,
            {
                if self.history[i].0 == current_hash && self.history[i].1 == *current_board {
                    assert(self.history@[i as int].0 == current_hash && self.history@[i as int].1.same(*current_board));
                    return true;
                }
                if i < 2 {
                    proof {
                        assert forall|j: int| 0 <= j <= len - 2 && (len - 2 - j) % 2 == 0 implies
                            !(#[trigger] self.history@[j].0 == current_hash && self.history@[j].1.same(*current_board)) by {
                            if j < i {
                                assert((len - 2 - j) - (len - 2 - i) == i - j);
                            }
                        }
                    }
                    break;
                }
                i -= 2;
            }
        }
        false
    }

    /// Whether some board move of `moves` lands on the opponent's lion.
    fn can_capture_lion(&self, board: &Board, moves: &[Move]) -> (r: bool)
        ensures
            r == captures_lion(*board, moves@),
    {
        let opponent = board.side_to_move.opponent();
        let opponent_lion_idx = get_piece_index(opponent, PieceKind::Lion);
        let opponent_lion_bb = board.piece_bbs[opponent_lion_idx];
        let mut i: usize = 0;
        while i < moves.len()
            invariant
                i <= moves@.len(),
                opponent_lion_bb == board.piece_bbs@[piece_index(board.side_to_move.other(), PieceKind::Lion)],
                forall|j: int| 0 <= j < i ==> !lion_capture(*board, #[trigger] moves@[j]),
            decreases moves@.len() - i,
        {
            if lion_capture_at(opponent_lion_bb, moves[i]) {
                return true;
            }
            i += 1;
        }
        false
    }

    /// Quiescence search: the static evaluation, improved by captures, promotions and lion
    /// moves into the far row, searched until the position is quiet or ten plies deep. The score
    /// of an undecided position is never below its static evaluation (stand pat), and a search
    /// that was not stopped agrees with `q_value` in the window `alpha..beta`.
    #[verifier::spinoff_prover]
    #[verifier::rlimit(80)]
    fn search_q(
        &mut self,
        board: &Board,
        ply: usize,
        alpha: i32,
        beta: i32,
        current_acc: &Accumulator,
        current_hash: u64,
        q_depth: i8,
    ) -> (r: i32)
        requires
            old(self).wf(),
            board.valid(),
            -SCORE_LIMIT <= alpha < beta <= SCORE_LIMIT,
            q_depth >= -11,
            ply + q_depth + 11 <= 1000,
        ensures
            final(self).wf(),
            final(self).history@ == old(self).history@,
            final(self).killer_moves@ == old(self).killer_moves@,
            final(self).thread_id == old(self).thread_id,
            old(self).aborted ==> r == 0 && final(self).aborted,
            final(self).aborted ==> r == 0,
            -SCORE_LIMIT <= r <= SCORE_LIMIT,
            !old(self).aborted && board.winner_spec() is Some ==> r == mate_score(
                board.winner_spec()->0, board.side_to_move, ply as int),
            !old(self).aborted && board.winner_spec() is None && captures_lion(*board, move_list(*board))
                ==> r == 20000 - ply,
            final(self).nnue_weights == old(self).nnue_weights,
            !old(self).aborted && !final(self).aborted && board.winner_spec() is None && !captures_lion(
                *board,
                move_list(*board),
            ) && !(ply > 0 && repeats(old(self).history@, current_hash, *board)) ==> r >= eval_spec(
                current_acc.values@,
                *old(self).nnue_weights,
            ),
            final(self).z_table == old(self).z_table,
            final(self).store_log == old(self).store_log,
            final(self).result_log == old(self).result_log,
            !old(self).aborted && board.winner_spec() is None && !captures_lion(*board, move_list(*board)) && ply > 0
                && repeats(old(self).history@, current_hash, *board) ==> r == 0,
            !old(self).aborted && !final(self).aborted ==> agrees(
                r as int,
                q_value(
                    *old(self).z_table,
                    *old(self).nnue_weights,
                    *board,
                    old(self).history@,
                    current_hash,
                    current_acc.values@,
                    q_depth as int,
                    ply as int,
                ),
                alpha as int,
                beta as int,
            ),
        decreases q_depth + 11,
    {
        let mut lo = alpha;
        if self.aborted {
            return 0;
        }
        self.nodes = self.nodes.wrapping_add(1);
        proof {
            crate::position::lemma_valid_facts(*board);
            crate::board::lemma_on_board_scans(*board);
        }
        if let Some(winner) = board.winner() {
            return if winner == board.side_to_move {
                20000 - ply as i32
            } else {
                -20000 + ply as i32
            };
        }
        let mut moves: Vec<Move> = Vec::new();
        generate_moves(board, &mut moves);
        proof {
            assert(moves@ =~= move_list(*board));
        }
        if self.can_capture_lion(board, moves.as_slice()) {
            return 20000 - ply as i32;
        }
        if ply > 0 && self.is_repetition(current_hash, board) {
            return 0;
        }
        self.check_time();
        if self.aborted {
            return 0;
        }
        let ghost z = *old(self).z_table;
        let ghost w = *old(self).nnue_weights;
        let ghost vals = current_acc.values@;
        let stand_pat = current_acc.evaluate(self.nnue_weights);
        if stand_pat >= beta {
            return stand_pat;
        }
        if lo < stand_pat {
            lo = stand_pat;
        }
        if q_depth < -10 {
            return stand_pat;
        }
        let opponent = board.side_to_move.opponent();
        let opponent_occupied = board.occupied_by(opponent);
        let mut keyed: Vec<(i32, Move)> = Vec::new();
        let mut i: usize = 0;
        while i < moves.len()
            invariant
                moves@ == move_list(*board),
                board.valid(),
                i <= moves@.len(),
                opponent_occupied == board.occupied_spec(board.side_to_move.other()),
                forall|x: (i32, Move)| #[trigger] keyed@.contains(x) ==> move_list(*board).contains(x.1) && noisy(*board, x.1),
                forall|k: int| 0 <= k < i && noisy(*board, #[trigger] moves@[k]) ==> exists|key: i32| keyed@.contains((key, moves@[k])),
            decreases moves@.len() - i,
        {
            let m = moves[i];
            proof {
                assert(move_list(*board).contains(m));
                lemma_move_list_valid(*board, m);
            }
            let ghost before = keyed@;
            if !m.is_drop() {
                let t = m.sq_to();
                let to_bit: u16 = 1u16 << t;
                proof {
                    let tt = t as u16;
                    assert(tt < 16);
                    assert(tt < 16 ==> ((opponent_occupied & (1u16 << tt)) != 0 <==> (opponent_occupied >> tt) & 1u16
                        == 1u16)) by (bit_vector);
                }
                let is_capture = (opponent_occupied & to_bit) != 0;
                let is_promote = m.is_promote();
                let is_lion_entering = m.piece_kind() == PieceKind::Lion && match board.side_to_move {
                    Player::Sente => m.sq_to() < 3,
                    Player::Gote => m.sq_to() > 8,
                };
                assert((is_capture || is_promote || is_lion_entering) == noisy(*board, m));
                if is_capture || is_promote || is_lion_entering {
                    let mut move_score: i32 = 0;
                    if is_capture {
                        move_score += 10000 - piece_value(m.piece_kind());
                    }
                    if is_promote {
                        move_score += 5000;
                    }
                    let neg_score: i32 = -move_score;
                    keyed.push((neg_score, m));
                    proof {
                        assert forall|x: (i32, Move)| #[trigger] keyed@.contains(x) implies move_list(*board).contains(x.1)
                            && noisy(*board, x.1) by {
                            let k = choose|k: int| 0 <= k < keyed@.len() && keyed@[k] == x;
                            if k < before.len() {
                                assert(before[k] == x);
                                assert(before.contains(x));
                            }
                        }
                        assert(keyed@[before.len() as int] == (neg_score, m));
                        assert(keyed@.contains((neg_score, m)));
                    }
                }
            }
            proof {
                assert forall|k: int| 0 <= k < i + 1 && noisy(*board, #[trigger] moves@[k]) implies exists|key: i32|
                    keyed@.contains((key, moves@[k])) by {
                    if k < i {
                        let key = choose|key: i32| before.contains((key, moves@[k]));
                        let kk = choose|kk: int| 0 <= kk < before.len() && before[kk] == (key, moves@[k]);
                        assert(keyed@[kk] == (key, moves@[k]));
                        assert(keyed@.contains((key, moves@[k])));
                    }
                }
            }
            i += 1;
        }
        let sorted = sort_by_key(&keyed);
        let noisy_moves = moves_of(&sorted);
        proof {
            assert forall|j: int| 0 <= j < noisy_moves@.len() implies move_list(*board).contains(#[trigger] noisy_moves@[j])
                && noisy(*board, noisy_moves@[j]) by {
                assert(sorted@.contains(sorted@[j]));
            }
            assert forall|m: Move| move_list(*board).contains(m) && noisy(*board, m) implies #[trigger] noisy_moves@.contains(
                m,
            ) by {
                let k = choose|k: int| 0 <= k < moves@.len() && moves@[k] == m;
                let key = choose|key: i32| keyed@.contains((key, moves@[k]));
                vstd::seq_lib::to_multiset_contains(keyed@, (key, m));
                vstd::seq_lib::to_multiset_contains(sorted@, (key, m));
                let j = choose|j: int| 0 <= j < sorted@.len() && sorted@[j] == (key, m);
                assert(noisy_moves@[j] == m);
            }
        }
        let ghost h0 = self.history@;
        self.history.push((current_hash, *board));
        let mut i: usize = 0;
        while i < noisy_moves.len()
            invariant
                self.wf(),
                board.valid(),
                self.history@ == h0.push((current_hash, *board)),
                h0 == old(self).history@,
                self.killer_moves@ == old(self).killer_moves@,
                self.thread_id == old(self).thread_id,
                !self.aborted,
                !old(self).aborted,
                board.winner_spec() is None,
                !captures_lion(*board, move_list(*board)),
                i <= noisy_moves@.len(),
                forall|j: int| 0 <= j < noisy_moves@.len() ==> move_list(*board).contains(#[trigger] noisy_moves@[j])
                    && noisy(*board, noisy_moves@[j]),
                -SCORE_LIMIT <= lo < beta <= SCORE_LIMIT,
                -SCORE_LIMIT <= alpha < beta,
                q_depth >= -10,
                ply + q_depth + 11 <= 1000,
                self.nnue_weights == old(self).nnue_weights,
                self.z_table == old(self).z_table,
                self.store_log == old(self).store_log,
                self.result_log == old(self).result_log,
                z == *old(self).z_table,
                w == *old(self).nnue_weights,
                vals == current_acc.values@,
                stand_pat == eval_spec(current_acc.values@, *old(self).nnue_weights),
                lo >= stand_pat,
                lo >= alpha,
                !(ply > 0 && repeats(h0, current_hash, *board)),
                forall|j: int| 0 <= j < i ==> q_child(z, w, *board, h0, current_hash, vals, q_depth as int, ply as int,
                    #[trigger] noisy_moves@[j]) <= lo,
                lo == alpha || lo == stand_pat || exists|j: int| 0 <= j < i && lo == q_child(z, w, *board, h0,
                    current_hash, vals, q_depth as int, ply as int, #[trigger] noisy_moves@[j]),
            decreases noisy_moves@.len() - i,
        {
            let m = noisy_moves[i];
            proof {
                lemma_update_in_range(*board, m);
            }
            let mut next_board = *board;
            let (feature_update, next_hash) = next_board.make_move(m, self.z_table, current_hash);
            let mut next_acc = *current_acc;
            next_acc.update(
                self.nnue_weights,
                &feature_update.added[0..feature_update.added_count],
                &feature_update.removed[0..feature_update.removed_count],
            );
            let ghost cq = q_child(z, w, *board, h0, current_hash, vals, q_depth as int, ply as int, m);
            proof {
                lemma_after(*board, m, next_board);
                assert(next_acc.values@ =~= values_after(w, vals, *board, m));
            }
            let child = self.search_q(&next_board, ply + 1, -beta, -lo, &next_acc, next_hash, q_depth - 1);
            let score = -child;
            if self.aborted {
                self.history.pop();
                return 0;
            }
            proof {
                assert(q_value(z, w, next_board, h0.push((current_hash, *board)), next_hash, next_acc.values@,
                    q_depth - 1, ply + 1) == -cq);
            }
            if score >= beta {
                self.history.pop();
                proof {
                    lemma_q_best(z, w, *board, h0, current_hash, vals, q_depth as int, ply as int, 0);
                    let k = choose|k: int| 0 <= k < move_list(*board).len() && move_list(*board)[k] == m;
                    assert(noisy(*board, move_list(*board)[k]));
                    lemma_q_top(z, w, *board, h0, current_hash, vals, q_depth as int, ply as int);
                    assert(child <= -beta);
                    assert(cq >= score);
                    assert(q_best(z, w, *board, h0, current_hash, vals, q_depth as int, ply as int, 0) >= cq);
                    assert(q_value(z, w, *board, h0, current_hash, vals, q_depth as int, ply as int) >= score);
                    assert(agrees(score as int, q_value(z, w, *board, h0, current_hash, vals, q_depth as int, ply as int),
                        alpha as int, beta as int));
                }
                return score;
            }
            if score > lo {
                lo = score;
            }
            i += 1;
        }
        self.history.pop();
        proof {
            lemma_q_top(z, w, *board, h0, current_hash, vals, q_depth as int, ply as int);
            lemma_q_best(z, w, *board, h0, current_hash, vals, q_depth as int, ply as int, 0);
            let best = q_best(z, w, *board, h0, current_hash, vals, q_depth as int, ply as int, 0);
            if best != no_score() {
                let k = choose|k: int| 0 <= k < move_list(*board).len() && noisy(*board, #[trigger] move_list(*board)[k])
                    && best == q_child(z, w, *board, h0, current_hash, vals, q_depth as int, ply as int, move_list(
                    *board,
                )[k]);
                let mk = move_list(*board)[k];
                assert(noisy_moves@.contains(mk));
                let j = choose|j: int| 0 <= j < noisy_moves@.len() && noisy_moves@[j] == mk;
                assert(q_child(z, w, *board, h0, current_hash, vals, q_depth as int, ply as int, noisy_moves@[j])
                    <= lo);
            }
            if lo != alpha && lo != stand_pat {
                let j = choose|j: int| 0 <= j < i && lo == q_child(z, w, *board, h0, current_hash, vals,
                    q_depth as int, ply as int, #[trigger] noisy_moves@[j]);
                let mj = noisy_moves@[j];
                assert(move_list(*board).contains(mj));
                let k = choose|k: int| 0 <= k < move_list(*board).len() && move_list(*board)[k] == mj;
                assert(noisy(*board, move_list(*board)[k]));
            }
        }
        lo
    }

    /// Key by which moves are searched, largest first: the table's move gets the largest key;
    /// a capture gets 10000 less the value of the capturing piece, a promotion 5000, the two
    /// killer moves of this ply 900 and 800, other moves 0.
    fn order_key(&self, m: Move, tt_move: Option<Move>, opponent_occupied: u16, ply: usize) -> (r: i32)
        requires
            self.wf(),
            m.kind_bits() < 5,
        ensures
            r == order_key_spec(m, tt_move, opponent_occupied, ply as int, self.killer_moves@),
    {
        if same_move(Some(m), tt_move) {
            return i32::MAX;
        }
        let mut move_score: i32 = 0;
        if !m.is_drop() {
            let to = m.sq_to();
            let to_bit: u16 = 1u16 << to;
            proof {
                let t = to as u16;
                assert(t < 16);
                assert(t < 16 ==> ((opponent_occupied & (1u16 << t)) != 0 <==> (opponent_occupied >> t) & 1u16 == 1u16))
                    by (bit_vector);
            }
            if (opponent_occupied & to_bit) != 0 {
                move_score += 10000 - piece_value(m.piece_kind());
                return move_score;
            }
            if m.is_promote() {
                move_score += 5000;
                return move_score;
            }
        }
        if ply < MAX_PLY {
            let km = self.killer_moves[ply];
            if same_move(Some(m), km[0]) {
                return 900;
            } else if same_move(Some(m), km[1]) {
                return 800;
            }
        }
        move_score
    }

    /// The moves in the order they are searched: every move, the largest `order_key` first, then
    /// rotated for helper threads at the root.
    fn order_moves(&self, board: &Board, moves: &Vec<Move>, tt_move: Option<Move>, ply: usize) -> (r: Vec<Move>)
        requires
            self.wf(),
            board.valid(),
            moves@ == move_list(*board),
        ensures
            r@.len() == moves@.len(),
            forall|j: int| 0 <= j < r@.len() ==> move_list(*board).contains(#[trigger] r@[j]),
            forall|m: Move| move_list(*board).contains(m) ==> #[trigger] r@.contains(m),
            ply != 0 || self.thread_id == 0 || moves@.len() <= 1 ==> forall|a: int, b: int|
                0 <= a < b < r@.len() ==> order_key_spec(#[trigger] r@[a], tt_move,
                    board.occupied_spec(board.side_to_move.other()), ply as int, self.killer_moves@)
                    >= order_key_spec(#[trigger] r@[b], tt_move, board.occupied_spec(board.side_to_move.other()),
                    ply as int, self.killer_moves@),
    {
        let opponent = board.side_to_move.opponent();
        let opponent_occupied = board.occupied_by(opponent);
        let mut keyed: Vec<(i32, Move)> = Vec::new();
        let mut i: usize = 0;
        while i < moves.len()
            invariant
                self.wf(),
                moves@ == move_list(*board),
                board.valid(),
                i <= moves@.len(),
                keyed@.len() == i,
                opponent_occupied == board.occupied_spec(board.side_to_move.other()),
                forall|x: (i32, Move)| #[trigger] keyed@.contains(x) ==> move_list(*board).contains(x.1)
                    && x.0 == -order_key_spec(x.1, tt_move, opponent_occupied, ply as int, self.killer_moves@),
                forall|k: int| 0 <= k < i ==> keyed@.contains(
                    (-order_key_spec(#[trigger] moves@[k], tt_move, opponent_occupied, ply as int, self.killer_moves@)
                    as i32, moves@[k]),
                ),
            decreases moves@.len() - i,
        {
            let m = moves[i];
            proof {
                assert(move_list(*board).contains(m));
                lemma_move_list_valid(*board, m);
            }
            let key = self.order_key(m, tt_move, opponent_occupied, ply);
            let neg_key: i32 = -key;
            let ghost before = keyed@;
            keyed.push((neg_key, m));
            proof {
                assert forall|x: (i32, Move)| #[trigger] keyed@.contains(x) implies move_list(*board).contains(x.1)
                    && x.0 == -order_key_spec(x.1, tt_move, opponent_occupied, ply as int, self.killer_moves@) by {
                    let k = choose|k: int| 0 <= k < keyed@.len() && keyed@[k] == x;
                    if k < before.len() {
                        assert(before[k] == x);
                        assert(before.contains(x));
                    }
                }
                assert forall|k: int| 0 <= k < i + 1 implies keyed@.contains(
                    (-order_key_spec(#[trigger] moves@[k], tt_move, opponent_occupied, ply as int, self.killer_moves@)
                    as i32, moves@[k]),
                ) by {
                    if k < i {
                        let x = (-order_key_spec(moves@[k], tt_move, opponent_occupied, ply as int, self.killer_moves@)
                            as i32, moves@[k]);
                        let kk = choose|kk: int| 0 <= kk < before.len() && before[kk] == x;
                        assert(keyed@[kk] == x);
                    } else {
                        assert(keyed@[k] == (neg_key, m));
                    }
                }
            }
            i += 1;
        }
        let sorted = sort_by_key(&keyed);
        let ordered = moves_of(&sorted);
        proof {
            assert forall|j: int| 0 <= j < ordered@.len() implies move_list(*board).contains(#[trigger] ordered@[j]) by {
                assert(sorted@.contains(sorted@[j]));
            }
            assert forall|a: int, b: int| 0 <= a < b < ordered@.len() implies order_key_spec(#[trigger] ordered@[a],
                tt_move, opponent_occupied, ply as int, self.killer_moves@) >= order_key_spec(#[trigger] ordered@[b],
                tt_move, opponent_occupied, ply as int, self.killer_moves@) by {
                assert(sorted@.contains(sorted@[a]));
                assert(sorted@.contains(sorted@[b]));
                assert(sorted@[a].0 <= sorted@[b].0);
            }
            assert forall|m: Move| move_list(*board).contains(m) implies #[trigger] ordered@.contains(m) by {
                let k = choose|k: int| 0 <= k < moves@.len() && moves@[k] == m;
                let x = (-order_key_spec(moves@[k], tt_move, opponent_occupied, ply as int, self.killer_moves@)
                    as i32, m);
                assert(keyed@.contains(x));
                vstd::seq_lib::to_multiset_contains(keyed@, x);
                vstd::seq_lib::to_multiset_contains(sorted@, x);
                let j = choose|j: int| 0 <= j < sorted@.len() && sorted@[j] == x;
                assert(ordered@[j] == m);
            }
        }
        if ply == 0 && ordered.len() > 1 && self.thread_id > 0 {
            let rotated = rotate_for_thread(&ordered, self.thread_id);
            proof {
                assert forall|j: int| 0 <= j < rotated@.len() implies move_list(*board).contains(#[trigger] rotated@[j]) by {
                    let k = choose|k: int| 0 <= k < ordered@.len() && ordered@[k] == rotated@[j];
                    assert(move_list(*board).contains(ordered@[k]));
                }
                assert forall|m: Move| move_list(*board).contains(m) implies #[trigger] rotated@.contains(m) by {
                    assert(ordered@.contains(m));
                }
            }
            return rotated;
        }
        ordered
    }

    /// Principal variation search to `depth`, with the transposition table, killer moves and
    /// quiescence search at the leaves. A position repeated since the root is a draw; at depth 0
    /// the quiescence search answers. A node that is searched answers with one of its moves, and
    /// a move that wins at once is worth a mate one move on (unless the window was beaten
    /// earlier), and it hands the table the entry of `table_entry_spec`, if any; or the table's
    /// entry settles the node (`table_cutoff_spec`) and nothing is stored.
    #[verifier::spinoff_prover]
    #[verifier::rlimit(80)]
    fn search_pvs(
        &mut self,
        board: &Board,
        depth: u8,
        ply: usize,
        alpha: i32,
        beta: i32,
        current_acc: &Accumulator,
        current_hash: u64,
    ) -> (r: (i32, Move))
        requires
            old(self).wf(),
            board.valid(),
            -SCORE_LIMIT <= alpha < beta <= SCORE_LIMIT,
            ply + depth <= 900,
        ensures
            final(self).wf(),
            final(self).history@ == old(self).history@,
            final(self).thread_id == old(self).thread_id,
            old(self).aborted ==> r == (0i32, Move(0)) && final(self).aborted,
            final(self).aborted ==> r == (0i32, Move(0)),
            -SCORE_LIMIT <= r.0 <= SCORE_LIMIT,
            !old(self).aborted && board.winner_spec() is Some ==> r == (
                mate_score(board.winner_spec()->0, board.side_to_move, ply as int) as i32, Move(0)),
            !old(self).aborted && board.winner_spec() is None && move_list(*board).len() == 0
                ==> r == ((-20000 + ply) as i32, Move(0)),
            !old(self).aborted && board.winner_spec() is None && captures_lion(*board, move_list(*board))
                ==> r.0 == 20000 - ply && first_lion_capture(*board, move_list(*board), r.1),
            !old(self).aborted && (board.winner_spec() is Some || move_list(*board).len() == 0
                || captures_lion(*board, move_list(*board))) ==> !final(self).aborted,
            forall|j: int| 0 <= j < ply && j < MAX_PLY ==> #[trigger] final(self).killer_moves@[j]
                == old(self).killer_moves@[j],
            !old(self).aborted && !final(self).aborted && board.winner_spec() is None && move_list(*board).len() > 0
                && !captures_lion(*board, move_list(*board)) && !(ply > 0 && repeats(old(self).history@,
                current_hash, *board)) && depth > 0 ==> (move_list(*board).contains(r.1) && sees_wins(*board,
                ply as int, beta as int, r.0 as int) && stored_here(
                old(self).store_log@,
                final(self).store_log@,
                ply as int,
                table_entry_spec(current_hash, depth, ply as int, r.0 as int, r.1, alpha as int, beta as int),
            ) && (r.0 == -30000 || searched_to(
                old(self).result_log@.len() as int,
                final(self).result_log@,
                ply + 1,
                after(*board, r.1),
                -r.0,
            ))) || (final(self).store_log == old(self).store_log && exists|d: u64|
                table_cutoff_spec(#[trigger] unpack_spec(current_hash, d), depth, ply as int, alpha as int,
                beta as int) == Some(r.0) && r.1 == unpack_spec(current_hash, d).best_move),
            log_extends(old(self).store_log@, final(self).store_log@, ply as int),
            keeps_entries(old(self).result_log@, final(self).result_log@),
            !final(self).aborted ==> final(self).result_log@.len() > old(self).result_log@.len()
                && final(self).result_log@.last() == (ply as int, *board, r.0 as int),
            !old(self).aborted && (board.winner_spec() is Some || move_list(*board).len() == 0 || captures_lion(
                *board,
                move_list(*board),
            ) || (ply > 0 && repeats(old(self).history@, current_hash, *board)) || depth == 0)
                ==> final(self).store_log == old(self).store_log,
            !old(self).aborted && board.winner_spec() is None && move_list(*board).len() > 0 && !captures_lion(
                *board,
                move_list(*board),
            ) && ply > 0 && repeats(old(self).history@, current_hash, *board) ==> r == (0i32, Move(0)),
            !old(self).aborted && !final(self).aborted && board.winner_spec() is None && move_list(*board).len() > 0
                && !captures_lion(*board, move_list(*board)) && !(ply > 0 && repeats(old(self).history@,
                current_hash, *board)) && depth == 0 ==> r.1 == Move(0) && agrees(
                r.0 as int,
                q_value(
                    *old(self).z_table,
                    *old(self).nnue_weights,
                    *board,
                    old(self).history@,
                    current_hash,
                    current_acc.values@,
                    0,
                    ply as int,
                ),
                alpha as int,
                beta as int,
            ),
        decreases depth,
    {
        let mut alpha = alpha;
        if self.aborted {
            return (0, Move(0));
        }
        self.nodes = self.nodes.wrapping_add(1);
        let alpha_orig = alpha;
        proof {
            crate::position::lemma_valid_facts(*board);
            crate::board::lemma_on_board_scans(*board);
        }
        if let Some(winner) = board.winner() {
            let score = if winner == board.side_to_move {
                20000 - ply as i32
            } else {
                -20000 + ply as i32
            };
            self.result_log = Ghost(self.result_log@.push((ply as int, *board, score as int)));
            return (score, Move(0));
        }
        let mut moves: Vec<Move> = Vec::new();
        generate_moves(board, &mut moves);
        proof {
            assert(moves@ =~= move_list(*board));
        }
        if moves.len() == 0 {
            self.result_log = Ghost(self.result_log@.push((ply as int, *board, (-20000 + ply as i32) as int)));
            return (-20000 + ply as i32, Move(0));
        }
        if self.can_capture_lion(board, moves.as_slice()) {
            let opponent = board.side_to_move.opponent();
            let opponent_lion_idx = get_piece_index(opponent, PieceKind::Lion);
            let opponent_lion_bb = board.piece_bbs[opponent_lion_idx];
            let mut i: usize = 0;
            while i < moves.len()
                invariant
                    self.wf(),
                    self.history@ == old(self).history@,
                    self.thread_id == old(self).thread_id,
                    !self.aborted,
                    !old(self).aborted,
                    board.winner_spec() is None,
                    ply + depth <= 900,
                    moves@ == move_list(*board),
                    i <= moves@.len(),
                    opponent_lion_bb == board.piece_bbs@[piece_index(board.side_to_move.other(), PieceKind::Lion)],
                    forall|j: int| 0 <= j < i ==> !lion_capture(*board, #[trigger] moves@[j]),
                    self.killer_moves@ == old(self).killer_moves@,
                    self.store_log == old(self).store_log,
                    self.result_log == old(self).result_log,
                decreases moves@.len() - i,
            {
                let m = moves[i];
                if lion_capture_at(opponent_lion_bb, m) {
                    assert(moves@[i as int] == m);
                    self.result_log = Ghost(self.result_log@.push((ply as int, *board, (20000 - ply as i32) as int)));
                    return (20000 - ply as i32, m);
                }
                i += 1;
            }
        }
        if ply > 0 && self.is_repetition(current_hash, board) {
            self.result_log = Ghost(self.result_log@.push((ply as int, *board, 0 as int)));
            return (0, Move(0));
        }
        if depth == 0 {
            let s = self.search_q(board, ply, alpha, beta, current_acc, current_hash, 0);
            self.result_log = Ghost(self.result_log@.push((ply as int, *board, s as int)));
            return (s, Move(0));
        }
        self.check_time();
        if self.aborted {
            return (0, Move(0));
        }
        let mut tt_move: Option<Move> = None;
        if let Some(entry) = self.tt.probe(current_hash) {
            tt_move = Some(entry.best_move);
            proof {
                let d = choose|d: u64| entry == unpack_spec(current_hash, d);
                assert(-32768 <= entry.score <= 32767);
            }
            if let Some(score) = table_cutoff(&entry, depth, ply, alpha, beta) {
                proof {
                    let d = choose|d: u64| entry == unpack_spec(current_hash, d);
                    assert(table_cutoff_spec(unpack_spec(current_hash, d), depth, ply as int, alpha as int,
                        beta as int) == Some(score));
                }
                self.result_log = Ghost(self.result_log@.push((ply as int, *board, score as int)));
                return (score, entry.best_move);
            }
        }
        let opponent = board.side_to_move.opponent();
        let opponent_occupied = board.occupied_by(opponent);
        let ordered = self.order_moves(board, &moves, tt_move, ply);
        let mut best_score: i32 = -30000;
        let mut best_move = ordered[0];
        let mut is_first_move = true;
        let ghost h0 = self.history@;
        self.history.push((current_hash, *board));
        let mut i: usize = 0;
        let mut cutoff = false;
        while i < ordered.len() && !cutoff
            invariant
                self.wf(),
                board.valid(),
                board.winner_spec() is None,
                !captures_lion(*board, move_list(*board)),
                move_list(*board).len() > 0,
                self.history@ == h0.push((current_hash, *board)),
                h0 == old(self).history@,
                self.thread_id == old(self).thread_id,
                !self.aborted,
                !old(self).aborted,
                i <= ordered@.len(),
                forall|j: int| 0 <= j < ordered@.len() ==> move_list(*board).contains(#[trigger] ordered@[j]),
                -SCORE_LIMIT <= alpha <= SCORE_LIMIT,
                !cutoff ==> alpha < beta,
                -SCORE_LIMIT <= alpha_orig < beta <= SCORE_LIMIT,
                -SCORE_LIMIT <= best_score <= SCORE_LIMIT,
                depth >= 1,
                ply + depth <= 900,
                move_list(*board).contains(best_move),
                cutoff ==> best_score >= beta,
                forall|j: int, nb: Board| 0 <= j < i && is_after(*board, #[trigger] ordered@[j], nb)
                    && #[trigger] nb.winner_spec() == Some(board.side_to_move) ==> best_score >= 19999 - ply,
                forall|m: Move| move_list(*board).contains(m) ==> #[trigger] ordered@.contains(m),
                self.killer_moves@.len() == MAX_PLY,
                forall|j: int| 0 <= j < ply && j < MAX_PLY ==> #[trigger] self.killer_moves@[j]
                    == old(self).killer_moves@[j],
                log_extends(old(self).store_log@, self.store_log@, ply + 1),
                !(ply > 0 && repeats(old(self).history@, current_hash, *board)),
                keeps_entries(old(self).result_log@, self.result_log@),
                best_score == -30000 || searched_to(
                    old(self).result_log@.len() as int,
                    self.result_log@,
                    ply + 1,
                    after(*board, best_move),
                    -best_score,
                ),
            decreases ordered@.len() - i,
        {
            let m = ordered[i];
            proof {
                lemma_update_in_range(*board, m);
            }
            let mut next_board = *board;
            let (feature_update, next_hash) = next_board.make_move(m, self.z_table, current_hash);
            let mut next_acc = *current_acc;
            next_acc.update(
                self.nnue_weights,
                &feature_update.added[0..feature_update.added_count],
                &feature_update.removed[0..feature_update.removed_count],
            );
            let ghost wins_now = next_board.winner_spec() == Some(board.side_to_move);
            let score;
            let ghost log0 = self.store_log@;
            let ghost rlog0 = self.result_log@;
            let ghost best_before = (best_score, best_move);
            let ghost mut k_score: int = 0;
            proof {
                lemma_after(*board, m, next_board);
            }
            if is_first_move {
                let (s, _) = self.search_pvs(&next_board, depth - 1, ply + 1, -beta, -alpha, &next_acc, next_hash);
                proof {
                    lemma_log_extends_trans(old(self).store_log@, log0, self.store_log@, ply + 1);
                    lemma_keeps_entries(old(self).result_log@, rlog0, self.result_log@);
                    k_score = self.result_log@.len() - 1;
                }
                score = -s;
                is_first_move = false;
            } else {
                let (ns, _) = self.search_pvs(&next_board, depth - 1, ply + 1, -alpha - 1, -alpha, &next_acc, next_hash);
                proof {
                    lemma_log_extends_trans(old(self).store_log@, log0, self.store_log@, ply + 1);
                    lemma_keeps_entries(old(self).result_log@, rlog0, self.result_log@);
                    k_score = self.result_log@.len() - 1;
                }
                let null_score = -ns;
                if self.aborted {
                    self.history.pop();
                    return (0, Move(0));
                }
                if null_score > alpha && null_score < beta {
                    let ghost log1 = self.store_log@;
                    let ghost rlog1 = self.result_log@;
                    let (s, _) = self.search_pvs(&next_board, depth - 1, ply + 1, -beta, -null_score, &next_acc, next_hash);
                    proof {
                        lemma_log_extends_trans(old(self).store_log@, log1, self.store_log@, ply + 1);
                        lemma_keeps_entries(old(self).result_log@, rlog1, self.result_log@);
                        lemma_keeps_entries(rlog0, rlog1, self.result_log@);
                        k_score = self.result_log@.len() - 1;
                    }
                    score = -s;
                } else {
                    score = null_score;
                }
            }
            if self.aborted {
                self.history.pop();
                return (0, Move(0));
            }
            assert(wins_now ==> score == 19999 - ply);
            proof {
                assert(self.result_log@[k_score] == (ply + 1, after(*board, m), -score));
                if best_score != -30000 {
                    lemma_searched_kept(
                        old(self).result_log@.len() as int,
                        rlog0,
                        self.result_log@,
                        ply + 1,
                        after(*board, best_move),
                        -best_score,
                    );
                }
            }
            if score > best_score {
                best_score = score;
                best_move = m;
                if score > alpha {
                    alpha = score;
                }
                if alpha >= beta {
                    let is_capture = !m.is_drop() && (opponent_occupied & (1u16 << m.sq_to())) != 0;
                    if !is_capture && ply < MAX_PLY {
                        let km = self.killer_moves[ply];
                        if !same_move(km[0], Some(m)) {
                            self.killer_moves.set(ply, [Some(m), km[0]]);
                        }
                    }
                    cutoff = true;
                }
            }
            proof {
                assert forall|j: int, nb: Board| 0 <= j < i + 1 && is_after(*board, #[trigger] ordered@[j], nb)
                    && #[trigger] nb.winner_spec() == Some(board.side_to_move) implies best_score >= 19999 - ply by {
                    if j == i {
                        assert(nb.piece_bbs =~= next_board.piece_bbs);
                        assert(nb.hands =~= next_board.hands);
                        assert(nb == next_board);
                    }
                }
            }
            i += 1;
        }
        proof {
            assert forall|m: Move, nb: Board| move_list(*board).contains(m) && is_after(*board, m, nb)
                && nb.winner_spec() == Some(board.side_to_move) implies best_score >= 19999 - ply
                || best_score >= beta by {
                if !cutoff {
                    assert(i == ordered@.len());
                    assert(ordered@.contains(m));
                    let j = choose|j: int| 0 <= j < ordered@.len() && ordered@[j] == m;
                    assert(ordered@[j] == m);
                    assert(is_after(*board, ordered@[j], nb));
                    assert(nb.winner_spec() == Some(board.side_to_move));
                }
            }
        }
        self.history.pop();
        if !self.aborted {
            if let Some(entry) = table_entry(current_hash, depth, ply, best_score, best_move, alpha_orig, beta) {
                self.tt.store(entry);
                let ghost before = self.store_log@;
                self.store_log = Ghost(before.push((ply as int, entry)));
                proof {
                    assert(self.store_log@.drop_last() =~= before);
                }
            }
        }
        let ghost rlog_end = self.result_log@;
        self.result_log = Ghost(self.result_log@.push((ply as int, *board, best_score as int)));
        proof {
            assert(keeps_entries(rlog_end, self.result_log@));
            lemma_keeps_entries(old(self).result_log@, rlog_end, self.result_log@);
            if best_score != -30000 {
                lemma_searched_kept(
                    old(self).result_log@.len() as int,
                    rlog_end,
                    self.result_log@,
                    ply + 1,
                    after(*board, best_move),
                    -best_score,
                );
            }
        }
        (best_score, best_move)
    }
}

/// One step of iterative deepening: the best move, completed depth and score so far, and
/// whether to stop, after the iteration at `depth` came back stopped (`aborted`) or with
/// `score` and `mv`. A stopped iteration keeps the move and score of the last one that finished
/// (the main thread counts the depth before it as completed) and ends the deepening; a finished
/// one gives the main thread its move, depth and score, and ends the deepening on a mate score.
pub open spec fn deepening_step_spec(
    best: (Move, u8, i32),
    thread_id: usize,
    depth: u8,
    aborted: bool,
    score: i32,
    mv: Move,
) -> ((Move, u8, i32), bool) {
    if aborted {
        ((best.0, if thread_id == 0 && depth > 1 { (depth - 1) as u8 } else { best.1 }, best.2), true)
    } else {
        (if thread_id == 0 { (mv, depth, score) } else { best }, score >= 19000 || score <= -19000)
    }
}

pub fn deepening_step(best: (Move, u8, i32), thread_id: usize, depth: u8, aborted: bool, score: i32, mv: Move) -> (r: (
    (Move, u8, i32),
    bool,
))
    ensures
        r == deepening_step_spec(best, thread_id, depth, aborted, score, mv),
{
    if aborted {
        let reached = if thread_id == 0 && depth > 1 { depth - 1 } else { best.1 };
        ((best.0, reached, best.2), true)
    } else {
        let next = if thread_id == 0 { (mv, depth, score) } else { best };
        (next, score >= 19000 || score <= -19000)
    }
}

/// An empty killer-move table.
fn new_killer_moves() -> (r: Vec<[Option<Move>; 2]>)
    ensures
        r@.len() == MAX_PLY,
{
    let mut r: Vec<[Option<Move>; 2]> = Vec::new();
    let mut i: usize = 0;
    while i < MAX_PLY
        invariant
            i <= MAX_PLY,
            r@.len() == i,
        decreases MAX_PLY - i,
    {
        r.push([None, None]);
        i += 1;
    }
    r
}

/// Iterative deepening for one search thread, from depth 1 to the depth limit (later for helper
/// threads: thread `t` searches `t % 3` plies shallower). It stops when the search is stopped or
/// a mate score is found, and then tells the other threads to stop. The main thread (0) reports
/// its best move, the depth it completed and the score; helper threads only fill the shared
/// table and report `(default_move, 0, 0)`. A position that is already decided (a winner, no
/// move, or a lion capture for the side to move) is settled by the first iteration: the main
/// thread reports depth 1 with the mate score, and the first lion capture when there is one.
pub fn search_thread(
    board: &Board,
    z_table: &ZobristTable,
    tt: &TranspositionTable,
    nnue_weights: &NnueWeights,
    limits: &SearchLimits,
    game_history: &[(u64, Board)],
    start_time: Instant,
    shared_abort: &AtomicBool,
    initial_acc: &Accumulator,
    current_hash: u64,
    default_move: Move,
    thread_id: usize,
) -> (r: (Move, u8, i32))
    requires
        board.valid(),
        tt.wf(),
    ensures
        r.1 <= limits.max_depth,
        -SCORE_LIMIT <= r.2 <= SCORE_LIMIT,
        thread_id != 0 ==> r == (default_move, 0u8, 0i32),
        limits.max_depth == 0 ==> r == (default_move, 0u8, 0i32),
        thread_id == 0 && limits.max_depth >= 1 && board.winner_spec() is Some ==> r == (
            Move(0),
            1u8,
            mate_score(board.winner_spec()->0, board.side_to_move, 0) as i32,
        ),
        thread_id == 0 && limits.max_depth >= 1 && board.winner_spec() is None && move_list(*board).len()
            == 0 ==> r == (Move(0), 1u8, -20000i32),
        thread_id == 0 && limits.max_depth >= 1 && board.winner_spec() is None && captures_lion(
            *board,
            move_list(*board),
        ) ==> r.1 == 1 && r.2 == 20000 && first_lion_capture(*board, move_list(*board), r.0),
        thread_id == 0 ==> r.0 == default_move || r.0 == Move(0) || move_list(*board).contains(r.0) || exists|
            d: u64,
            dd: u8,
        |
            #[trigger] table_cutoff_spec(unpack_spec(current_hash, d), dd, 0, -30000, 30000) == Some(r.2)
                && r.0 == unpack_spec(current_hash, d).best_move,
{
    let mut best_move = default_move;
    let mut best_score: i32 = 0;
    let mut reached_depth: u8 = 0;
    let mut killer_moves = new_killer_moves();
    let depth_offset: usize = if thread_id == 0 { 0 } else { thread_id % 3 };
    let mut depth: u16 = 1;
    let mut finished = false;
    while depth <= limits.max_depth as u16 && !finished
        invariant
            board.valid(),
            tt.wf(),
            killer_moves@.len() == MAX_PLY,
            depth_offset < 3,
            thread_id == 0 ==> depth_offset == 0,
            1 <= depth <= 256,
            reached_depth <= limits.max_depth,
            -SCORE_LIMIT <= best_score <= SCORE_LIMIT,
            thread_id != 0 ==> best_move == default_move && best_score == 0 && reached_depth == 0,
            depth <= limits.max_depth as int + 1,
            depth == 1 ==> !finished && best_move == default_move && best_score == 0 && reached_depth == 0,
            thread_id == 0 && depth > 1 && board.winner_spec() is Some ==> finished && best_move == Move(0)
                && reached_depth == 1 && best_score == mate_score(board.winner_spec()->0, board.side_to_move, 0),
            thread_id == 0 && depth > 1 && board.winner_spec() is None && move_list(*board).len() == 0
                ==> finished && best_move == Move(0) && reached_depth == 1 && best_score == -20000,
            thread_id == 0 && depth > 1 && board.winner_spec() is None && captures_lion(*board, move_list(*board))
                ==> finished && reached_depth == 1 && best_score == 20000
                && first_lion_capture(*board, move_list(*board), best_move),
            thread_id == 0 ==> best_move == default_move || best_move == Move(0) || move_list(*board).contains(
                best_move,
            ) || exists|d: u64, dd: u8|
                #[trigger] table_cutoff_spec(unpack_spec(current_hash, d), dd, 0, -30000, 30000) == Some(best_score)
                    && best_move == unpack_spec(current_hash, d).best_move,
        decreases 257 - depth,
    {
        let actual: i32 = depth as i32 - depth_offset as i32;
        if actual >= 1 {
            let actual_depth = actual as u8;
            let mut search = Search {
                z_table,
                tt,
                nnue_weights,
                max_time: limits.max_time,
                nodes: 0,
                start_time,
                history: vstd::slice::slice_to_vec(game_history),
                killer_moves,
                aborted: false,
                shared_abort,
                thread_id,
                store_log: Ghost(Seq::empty()),
                result_log: Ghost(Seq::empty()),
            };
            let (score, current_best_move) = search.search_pvs(
                board,
                actual_depth,
                0,
                -30000,
                30000,
                initial_acc,
                current_hash,
            );
            let aborted = search.aborted;
            killer_moves = search.killer_moves;
            proof {
                if thread_id == 0 && !aborted {
                    if board.winner_spec() is None && move_list(*board).len() > 0 && captures_lion(
                        *board,
                        move_list(*board),
                    ) {
                        let k = choose|k: int| 0 <= k < move_list(*board).len() && #[trigger] move_list(
                            *board,
                        )[k] == current_best_move && lion_capture(*board, current_best_move) && forall|j: int|
                            0 <= j < k ==> !lion_capture(*board, #[trigger] move_list(*board)[j]);
                        assert(move_list(*board).contains(current_best_move));
                    }
                }
            }
            let (next, done) = deepening_step(
                (best_move, reached_depth, best_score),
                thread_id,
                actual_depth,
                aborted,
                score,
                current_best_move,
            );
            best_move = next.0;
            reached_depth = next.1;
            best_score = next.2;
            if !aborted && done {
                store_flag(shared_abort, true);
            }
            finished = done;
        }
        depth += 1;
    }
    (best_move, reached_depth, best_score)
}

} // verus!
