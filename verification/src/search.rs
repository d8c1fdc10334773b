//! The alpha-beta search: quiescence search at the leaves, principal
//! variation search with late-move reductions, null-move pruning and the
//! transposition table inside, all on one game state that every call gives
//! back as it found it.
//!
//! What the search reads about a position but does not compute itself comes
//! from the caller through `SearchOracles`: the static evaluation (White's
//! view), the MVV-LVA score of a move, the game phase, the passed-pawn test
//! and the logarithmic base of the late-move reduction.
use vstd::prelude::*;
use crate::board::{Board, on_board};
use crate::game_state::GameState;
use crate::heuristics::SearchHeuristics;
use crate::movegen::{Move, generated_list, find_all_valid_moves, find_all_capture_moves, find_all_evasion_moves, spec_generated};
use crate::pieces::{Color, Piece, PieceType, piece_value_cp, spec_opposite, opposite_color};
use crate::rep_stack::{RepetitionStack, occurrences, lemma_occurrences_positive};
use crate::search_support::{MIN_EVAL_VALUE, MAX_EVAL_VALUE, SEARCH_ABORTED};
use crate::see::{see_dest_estimate, QSEE_CAPTURE_TOLERANCE};
use crate::tt::{MATE_VALUE, TranspositionTable, Bound, decode_move, spec_decode_move, encode_move, from_tt_score, to_tt_score, lemma_probe_bounds};
use crate::heuristics::lemma_scores_within_cap;
use crate::move_picker::move_pair;
use crate::ordering::{capture_see_order_score, compute_move_order_score, MoveOrderingContext};
use crate::search_support::{initial_value, is_better, null_window, is_good_history, opponent};
use crate::context::SearchContext;
use crate::zobrist::{ZobristKeys, compute_zobrist_full};

verus! {

/// Margin of the futility tests in the quiescence search.
pub const FUT_MARGIN: i32 = 80;
/// A queen and a little more: the most one capture can gain.
pub const DELTA_MARGIN: i32 = 925;
/// At most this many quiet passed-pawn pushes join the quiescence search.
pub const MAX_QUIET_PUSHES: usize = 2;
/// The search stops going deeper at this many plies from the root.
pub const MAX_SEARCH_PLY: i32 = 128;
/// The deepest nominal depth a search may be asked for.
pub const MAX_SEARCH_DEPTH: usize = 1000;

/// What the search takes from the caller about positions and moves.
pub struct SearchOracles<E, M, P, Q, L> {
    /// Static evaluation of a board with a side to move, White's view.
    pub eval: E,
    /// MVV-LVA score of a move from one square to another.
    pub mvv_lva: M,
    /// Game phase of a board (lower is closer to the endgame).
    pub phase: P,
    /// Whether the pawn of a colour on a square is passed.
    pub passed_pawn: Q,
    /// The logarithmic base of the late-move reduction for a depth and a
    /// move index.
    pub lmr_base: L,
}

impl<E, M, P, Q, L> SearchOracles<E, M, P, Q, L>
    where
        E: Fn(&Board, Color) -> i32,
        M: Fn(&Board, (usize, usize), (usize, usize)) -> i32,
        P: Fn(&Board) -> i32,
        Q: Fn(&Board, usize, usize, Color) -> bool,
        L: Fn(usize, i32) -> usize,
{
    /// Every oracle can be called on any input, evaluations lie within the
    /// score range, MVV-LVA scores within a hundred million of zero and
    /// reduction bases below 64.
    pub open spec fn ok(&self) -> bool {
        &&& forall|b: &Board, c: Color| #[trigger] self.eval.requires((b, c))
        &&& forall|b: &Board, c: Color, w: i32| #[trigger] self.eval.ensures((b, c), w)
            ==> MIN_EVAL_VALUE <= w <= MAX_EVAL_VALUE
        &&& forall|b: &Board, f: (usize, usize), t: (usize, usize)| #[trigger] self.mvv_lva.requires((b, f, t))
        &&& forall|b: &Board, f: (usize, usize), t: (usize, usize), w: i32| #[trigger] self.mvv_lva.ensures((b, f, t), w)
            ==> -100_000_000 <= w <= 100_000_000
        &&& forall|b: &Board| #[trigger] self.phase.requires((b,))
        &&& forall|b: &Board, r: usize, c: usize, col: Color| #[trigger] self.passed_pawn.requires((b, r, c, col))
        &&& forall|d: usize, i: i32| #[trigger] self.lmr_base.requires((d, i))
        &&& forall|d: usize, i: i32, r: usize| #[trigger] self.lmr_base.ensures((d, i), r) ==> r < 64
    }
}

/// A search result: the abort marker or a score within the score range.
pub open spec fn score_ok(v: i32) -> bool {
    v == SEARCH_ABORTED || (MIN_EVAL_VALUE <= v <= MAX_EVAL_VALUE)
}

/// The score of the side `c` being mated `ply` plies from the root, White's
/// view: the sooner, the larger its size.
pub open spec fn mated_score(c: Color, ply: int) -> int {
    if c == Color::White { ply - MATE_VALUE } else { MATE_VALUE - ply }
}

/// A move the search may play on `g`.
pub open spec fn playable(g: GameState, m: Move) -> bool {
    &&& on_board(m.0)
    &&& on_board(m.1)
    &&& g.board.at(m.0.0 as int, m.0.1 as int) is Some
}

/// The position key: the full hash of the board, the side to move, the
/// castling rights and the en-passant square.
pub open spec fn position_key(keys: ZobristKeys, g: GameState) -> u64 {
    keys.hash(g.board, g.active_color, g.castling, g.en_passant)
}

pub(crate) fn key_of(keys: &ZobristKeys, gs: &GameState) -> (k: u64)
    requires
        keys.wf(),
        gs.wf(),
    ensures
        k == position_key(*keys, *gs),
{
    compute_zobrist_full(keys, &gs.board, gs.active_color, &gs.castling, gs.en_passant)
}

fn call_eval<E, M, P, Q, L>(o: &SearchOracles<E, M, P, Q, L>, b: &Board, c: Color) -> (w: i32)
    where
        E: Fn(&Board, Color) -> i32,
        M: Fn(&Board, (usize, usize), (usize, usize)) -> i32,
        P: Fn(&Board) -> i32,
        Q: Fn(&Board, usize, usize, Color) -> bool,
        L: Fn(usize, i32) -> usize,
    requires
        o.ok(),
    ensures
        MIN_EVAL_VALUE <= w <= MAX_EVAL_VALUE,
        o.eval.ensures((b, c), w),
{
    let w = (o.eval)(b, c);
    w
}

fn call_mvv<E, M, P, Q, L>(o: &SearchOracles<E, M, P, Q, L>, b: &Board, f: (usize, usize), t: (usize, usize)) -> (w: i32)
    where
        E: Fn(&Board, Color) -> i32,
        M: Fn(&Board, (usize, usize), (usize, usize)) -> i32,
        P: Fn(&Board) -> i32,
        Q: Fn(&Board, usize, usize, Color) -> bool,
        L: Fn(usize, i32) -> usize,
    requires
        o.ok(),
    ensures
        -100_000_000 <= w <= 100_000_000,
{
    (o.mvv_lva)(b, f, t)
}

fn call_phase<E, M, P, Q, L>(o: &SearchOracles<E, M, P, Q, L>, b: &Board) -> i32
    where
        E: Fn(&Board, Color) -> i32,
        M: Fn(&Board, (usize, usize), (usize, usize)) -> i32,
        P: Fn(&Board) -> i32,
        Q: Fn(&Board, usize, usize, Color) -> bool,
        L: Fn(usize, i32) -> usize,
    requires
        o.ok(),
{
    (o.phase)(b)
}

fn call_passed<E, M, P, Q, L>(o: &SearchOracles<E, M, P, Q, L>, b: &Board, r: usize, c: usize, col: Color) -> bool
    where
        E: Fn(&Board, Color) -> i32,
        M: Fn(&Board, (usize, usize), (usize, usize)) -> i32,
        P: Fn(&Board) -> i32,
        Q: Fn(&Board, usize, usize, Color) -> bool,
        L: Fn(usize, i32) -> usize,
    requires
        o.ok(),
{
    (o.passed_pawn)(b, r, c, col)
}

fn call_lmr<E, M, P, Q, L>(o: &SearchOracles<E, M, P, Q, L>, d: usize, i: i32) -> (r: usize)
    where
        E: Fn(&Board, Color) -> i32,
        M: Fn(&Board, (usize, usize), (usize, usize)) -> i32,
        P: Fn(&Board) -> i32,
        Q: Fn(&Board, usize, usize, Color) -> bool,
        L: Fn(usize, i32) -> usize,
    requires
        o.ok(),
    ensures
        r < 64,
{
    (o.lmr_base)(d, i)
}

/// The promotion bonus used when ordering captures: 900, 500, 330 and 320
/// for q, r, b and n.
fn promo_order_bonus(promo: Option<char>) -> (v: i32)
    ensures
        0 <= v <= 900,
{
    match promo {
        Some(ch) => if ch == 'q' { 900 } else if ch == 'r' { 500 } else if ch == 'b' { 330 } else if ch == 'n' { 320 } else { 0 },
        None => 0,
    }
}

/// The moves ordered by their scores, highest first, equal scores in their
/// order.
fn sort_by_score_desc(v: Vec<(Move, i32)>, Ghost(g): Ghost<GameState>) -> (r: Vec<Move>)
    requires
        forall|j: int| 0 <= j < v@.len() ==> playable(g, #[trigger] v@[j].0),
    ensures
        r@.len() == v@.len(),
        forall|a: int| 0 <= a < r@.len() ==> playable(g, #[trigger] r@[a]),
{
    let mut s: Vec<(Move, i32)> = Vec::new();
    let mut k: usize = 0;
    while k < v.len()
        invariant
            k <= v@.len(),
            s@.len() == k,
            forall|j: int| 0 <= j < v@.len() ==> playable(g, #[trigger] v@[j].0),
            forall|a: int| 0 <= a < s@.len() ==> playable(g, #[trigger] s@[a].0),
        decreases v@.len() - k,
    {
        let x = v[k];
        assert(playable(g, v@[k as int].0));
        let mut p: usize = 0;
        while p < s.len() && s[p].1 >= x.1
            invariant
                p <= s@.len(),
            decreases s@.len() - p,
        {
            p = p + 1;
        }
        let ghost old_s = s@;
        s.insert(p, x);
        proof {
            assert forall|a: int| 0 <= a < s@.len() implies playable(g, #[trigger] s@[a].0) by {
                if a < p {
                    assert(s@[a] == old_s[a]);
                } else if a > p {
                    assert(s@[a] == old_s[a - 1]);
                }
            }
        }
        k = k + 1;
    }
    let mut r: Vec<Move> = Vec::new();
    let mut i: usize = 0;
    while i < s.len()
        invariant
            i <= s@.len(),
            s@.len() == v@.len(),
            r@.len() == i,
            forall|a: int| 0 <= a < s@.len() ==> playable(g, #[trigger] s@[a].0),
            forall|a: int| 0 <= a < r@.len() ==> playable(g, #[trigger] r@[a]),
        decreases s@.len() - i,
    {
        assert(playable(g, s@[i as int].0));
        r.push(s[i].0);
        i = i + 1;
    }
    r
}

/// The square holds a piece of `color` other than its king and pawns.
pub open spec fn non_pawn_piece_at(b: Board, r: int, c: int, color: Color) -> bool {
    &&& b.at(r, c) matches Some(p)
    &&& p.color == color
    &&& p.piece_type != PieceType::Pawn
    &&& p.piece_type != PieceType::King
}

/// Some piece of `color` other than its king and pawns is on the board.
pub open spec fn spec_non_pawn_material(b: Board, color: Color) -> bool {
    exists|r: int, c: int| 0 <= r < 8 && 0 <= c < 8 && #[trigger] non_pawn_piece_at(b, r, c, color)
}

/// Whether `color` has a piece other than its king and pawns.
pub fn has_non_pawn_material(board: &Board, color: Color) -> (b: bool)
    ensures
        b == spec_non_pawn_material(*board, color),
{
    let mut r: usize = 0;
    while r < 8
        invariant
            r <= 8,
            forall|rr: int, cc: int| 0 <= rr < r && 0 <= cc < 8 ==> !#[trigger] non_pawn_piece_at(*board, rr, cc, color),
        decreases 8 - r,
    {
        let mut c: usize = 0;
        while c < 8
            invariant
                r < 8,
                c <= 8,
                forall|rr: int, cc: int| (0 <= rr < r && 0 <= cc < 8) || (rr == r && 0 <= cc < c)
                    ==> !#[trigger] non_pawn_piece_at(*board, rr, cc, color),
            decreases 8 - c,
        {
            if let Some(p) = board.get(r, c) {
                if p.color == color && p.piece_type != PieceType::Pawn && p.piece_type != PieceType::King {
                    assert(non_pawn_piece_at(*board, r as int, c as int, color));
                    return true;
                }
            }
            c = c + 1;
        }
        r = r + 1;
    }
    false
}


/// The capture test of the quiescence search: the move captures (en passant
/// too) or promotes, and the exchange on the target square, with the moved
/// piece standing there, loses at most 50.
fn qsee_keep(game_state: &GameState, m: Move, to_move: Color) -> bool
    requires
        on_board(m.0),
        on_board(m.1),
{
    let (from, to, promo) = m;
    let board = &game_state.board;
    let moved = match board.get(from.0, from.1) {
        Some(p) => p,
        None => return false,
    };
    let is_ep = match game_state.en_passant {
        Some(ep) => ep.0 == to.0 && ep.1 == to.1 && moved.piece_type == PieceType::Pawn && board.get(to.0, to.1).is_none(),
        None => false,
    };
    if board.get(to.0, to.1).is_none() && promo.is_none() && !is_ep {
        return false;
    }
    let mut post = *board;
    let captured = if is_ep {
        let cap = board.get(from.0, to.1);
        post.set(from.0, to.1, None);
        cap
    } else {
        board.get(to.0, to.1)
    };
    post.set(from.0, from.1, None);
    let mut p_piece = moved;
    if let Some(pc) = promo {
        let pt = if pc == 'q' {
            PieceType::Queen
        } else if pc == 'r' {
            PieceType::Rook
        } else if pc == 'b' {
            PieceType::Bishop
        } else if pc == 'n' {
            PieceType::Knight
        } else {
            p_piece.piece_type
        };
        p_piece = Piece::new(pt, p_piece.color);
    }
    post.set(to.0, to.1, Some(p_piece));
    let cap_val = match captured {
        Some(p) => piece_value_cp(p.piece_type),
        None => 0,
    };
    let see = see_dest_estimate(&post, to_move, to, cap_val);
    see >= QSEE_CAPTURE_TOLERANCE
}

/// Quiet one-step pushes of passed pawns on the fifth to seventh rank (for
/// the side to move) that are legal, land on an unattacked square and can
/// still raise the score past the window, at most two, appended to `moves`.
fn add_passer_pushes<E, M, P, Q, L>(
    game_state: &mut GameState,
    o: &SearchOracles<E, M, P, Q, L>,
    stand_pat: i32,
    alpha: i32,
    beta: i32,
    moves: &mut Vec<Move>,
)
    where
        E: Fn(&Board, Color) -> i32,
        M: Fn(&Board, (usize, usize), (usize, usize)) -> i32,
        P: Fn(&Board) -> i32,
        Q: Fn(&Board, usize, usize, Color) -> bool,
        L: Fn(usize, i32) -> usize,
    requires
        old(game_state).wf(),
        o.ok(),
        MIN_EVAL_VALUE <= stand_pat <= MAX_EVAL_VALUE,
        forall|a: int| 0 <= a < old(moves)@.len() ==> playable(*old(game_state), #[trigger] old(moves)@[a]),
    ensures
        *final(game_state) == *old(game_state),
        forall|a: int| 0 <= a < final(moves)@.len() ==> playable(*old(game_state), #[trigger] final(moves)@[a]),
{
    let ghost g0 = *game_state;
    let to_move = game_state.active_color;
    let maximizing = to_move == Color::White;
    let mut added: usize = 0;
    let mut r: usize = 0;
    while r < 8
        invariant
            *game_state == g0,
            g0 == *old(game_state),
            g0.wf(),
            o.ok(),
            to_move == g0.active_color,
            MIN_EVAL_VALUE <= stand_pat <= MAX_EVAL_VALUE,
            r <= 8,
            added < MAX_QUIET_PUSHES,
            forall|a: int| 0 <= a < moves@.len() ==> playable(g0, #[trigger] moves@[a]),
        decreases 8 - r,
    {
        let mut c: usize = 0;
        while c < 8
            invariant
                *game_state == g0,
                g0 == *old(game_state),
                g0.wf(),
                o.ok(),
                to_move == g0.active_color,
                MIN_EVAL_VALUE <= stand_pat <= MAX_EVAL_VALUE,
                r < 8,
                c <= 8,
                added < MAX_QUIET_PUSHES,
                forall|a: int| 0 <= a < moves@.len() ==> playable(g0, #[trigger] moves@[a]),
            decreases 8 - c,
        {
            let is_own_pawn = match game_state.board.get(r, c) {
                Some(p) => p.color == to_move && p.piece_type == PieceType::Pawn,
                None => false,
            };
            let adv: usize = if to_move == Color::White { r } else { 7 - r };
            if is_own_pawn && adv >= 4 && call_passed(o, &game_state.board, r, c, to_move) {
                let nr_opt: Option<usize> = if to_move == Color::White {
                    if r < 7 { Some(r + 1) } else { None }
                } else {
                    if r > 0 { Some(r - 1) } else { None }
                };
                if let Some(nr) = nr_opt {
                    if game_state.board.get(nr, c).is_none() {
                        let from = (r, c);
                        let to = (nr, c);
                        let u = game_state.make_move_fast(from, to, None);
                        let illegal = game_state.board.is_side_in_check(to_move);
                        let attacked = game_state.board.is_square_attacked_by_opponent(to, to_move);
                        game_state.unmake_move_fast(u);
                        let futile = if maximizing {
                            stand_pat + 100 + FUT_MARGIN <= alpha
                        } else {
                            stand_pat - 100 - FUT_MARGIN >= beta
                        };
                        if !illegal && !attacked && !futile {
                            let ghost before = moves@;
                            moves.push((from, to, None));
                            assert forall|a: int| 0 <= a < moves@.len() implies playable(g0, #[trigger] moves@[a]) by {
                                if a < before.len() {
                                    assert(moves@[a] == before[a]);
                                }
                            }
                            added = added + 1;
                            if added >= MAX_QUIET_PUSHES {
                                return;
                            }
                        }
                    }
                }
            }
            c = c + 1;
        }
        r = r + 1;
    }
}

/// Quiescence search: with quiescence on, a stand-pat score beyond the
/// window (or hopelessly short of it) is returned at once when not in
/// check; otherwise only captures that pass the exchange filter and
/// promotions (all evasions in check, a few passed-pawn pushes in the
/// endgame) are searched, and the result is the best of them (the
/// stand-pat score when there is none out of check, a mate score when there
/// is none in check); a repeated position or the fifty-move limit scores 0.
/// With quiescence off, the static score (or a mate or stalemate score).
/// The position and the repetition stack come back unchanged.
pub fn qsearch_with_quiescence<E, M, P, Q, L>(
    ctx: &SearchContext,
    game_state: &mut GameState,
    alpha: i32,
    beta: i32,
    rep_stack: &mut RepetitionStack,
    quiescence_enabled: bool,
    keys: &ZobristKeys,
    o: &SearchOracles<E, M, P, Q, L>,
    ply: i32,
) -> (v: i32)
    where
        E: Fn(&Board, Color) -> i32,
        M: Fn(&Board, (usize, usize), (usize, usize)) -> i32,
        P: Fn(&Board) -> i32,
        Q: Fn(&Board, usize, usize, Color) -> bool,
        L: Fn(usize, i32) -> usize,
    requires
        old(game_state).wf(),
        old(rep_stack).wf(),
        keys.wf(),
        o.ok(),
        MIN_EVAL_VALUE <= alpha <= MAX_EVAL_VALUE,
        MIN_EVAL_VALUE <= beta <= MAX_EVAL_VALUE,
        0 <= ply <= MAX_SEARCH_PLY,
    ensures
        *final(game_state) == *old(game_state),
        final(rep_stack)@ == old(rep_stack)@,
        final(rep_stack).wf(),
        score_ok(v),
        quiescence_enabled && old(rep_stack)@.contains(position_key(*keys, *old(game_state)))
            && (occurrences(old(rep_stack)@, position_key(*keys, *old(game_state))) >= 2
                || old(rep_stack)@.last() != position_key(*keys, *old(game_state)))
            ==> v == 0 || v == SEARCH_ABORTED,
        !quiescence_enabled && generated_list(*old(game_state), false).len() == 0 ==> v == (
            if !old(game_state).board.in_check(old(game_state).active_color) { 0 }
            else if old(game_state).active_color == Color::White { 100 - MATE_VALUE }
            else { MATE_VALUE - 100 }),
        !quiescence_enabled && generated_list(*old(game_state), false).len() > 0
            ==> o.eval.ensures((&old(game_state).board, old(game_state).active_color), v),
        quiescence_enabled && ply < MAX_SEARCH_PLY
            && !old(rep_stack)@.contains(position_key(*keys, *old(game_state)))
            && old(game_state).half_move_clock < 100
            && old(game_state).board.in_check(old(game_state).active_color)
            && (forall|m: Move| !#[trigger] spec_generated(*old(game_state), m))
            ==> v == SEARCH_ABORTED
                || v == (if old(game_state).active_color == Color::White { 100 - MATE_VALUE } else { MATE_VALUE - 100 }),
        quiescence_enabled && !old(rep_stack)@.contains(position_key(*keys, *old(game_state)))
            && old(game_state).half_move_clock >= 100 ==> v == 0 || v == SEARCH_ABORTED,
        quiescence_enabled && ply < MAX_SEARCH_PLY
            && !old(rep_stack)@.contains(position_key(*keys, *old(game_state)))
            && old(game_state).half_move_clock < 100
            && !old(game_state).board.in_check(old(game_state).active_color)
            ==> v == SEARCH_ABORTED || exists|w: i32| {
                &&& #[trigger] o.eval.ensures((&old(game_state).board, old(game_state).active_color), w)
                &&& old(game_state).active_color == Color::White && w >= beta ==> v == w
                &&& old(game_state).active_color == Color::Black && w <= alpha ==> v == w
            },
    decreases MAX_SEARCH_PLY - ply, 0nat,
{
    let ghost g0 = *game_state;
    let ghost r0 = rep_stack@;
    let to_move = game_state.active_color;
    let maximizing = to_move == Color::White;
    if !quiescence_enabled {
        let moves = find_all_valid_moves(game_state);
        if moves.len() == 0 {
            let in_check = game_state.board.is_side_in_check(to_move);
            return if in_check {
                if maximizing { -MATE_VALUE + 100 } else { MATE_VALUE - 100 }
            } else {
                0
            };
        }
        return call_eval(o, &game_state.board, to_move);
    }
    if ctx.time_is_up() {
        return SEARCH_ABORTED;
    }
    let key_here = key_of(keys, game_state);
    if rep_stack.contains(&key_here) {
        let count = rep_stack.count(key_here);
        let is_top = match rep_stack.last() {
            Some(k) => k == key_here,
            None => false,
        };
        let is_repetition = count >= 2 || !is_top;
        if is_repetition {
            return 0;
        }
    }
    if game_state.half_move_clock >= 100 {
        return 0;
    }
    let in_check = game_state.board.is_side_in_check(to_move);
    let stand_pat = call_eval(o, &game_state.board, to_move);
    assert(o.eval.ensures((&g0.board, to_move), stand_pat));
    if ply >= MAX_SEARCH_PLY {
        return stand_pat;
    }
    let mut alpha = alpha;
    let mut beta = beta;
    if !in_check {
        if maximizing {
            if stand_pat >= beta {
                return stand_pat;
            }
            if stand_pat > alpha {
                alpha = stand_pat;
            }
        } else {
            if stand_pat <= alpha {
                return stand_pat;
            }
            if stand_pat < beta {
                beta = stand_pat;
            }
        }
        if maximizing {
            if stand_pat + DELTA_MARGIN <= alpha {
                return stand_pat;
            }
        } else if stand_pat - DELTA_MARGIN >= beta {
            return stand_pat;
        }
    }
    let generated = if in_check {
        find_all_evasion_moves(game_state)
    } else {
        find_all_capture_moves(game_state)
    };
    assert forall|a: int| 0 <= a < generated@.len() implies playable(g0, #[trigger] generated@[a]) by {
        assert(generated@.contains(generated@[a]));
    }
    proof {
        if in_check && (forall|m: Move| !#[trigger] spec_generated(g0, m)) && generated@.len() > 0 {
            assert(generated@.contains(generated@[0]));
        }
    }
    let mut moves: Vec<Move> = Vec::new();
    if !in_check {
        let mut i: usize = 0;
        while i < generated.len()
            invariant
                *game_state == g0,
                i <= generated@.len(),
                forall|a: int| 0 <= a < generated@.len() ==> playable(g0, #[trigger] generated@[a]),
                forall|a: int| 0 <= a < moves@.len() ==> playable(g0, #[trigger] moves@[a]),
            decreases generated@.len() - i,
        {
            let m = generated[i];
            assert(playable(g0, generated@[i as int]));
            if qsee_keep(game_state, m, to_move) {
                let ghost before = moves@;
                moves.push(m);
                assert forall|a: int| 0 <= a < moves@.len() implies playable(g0, #[trigger] moves@[a]) by {
                    if a < before.len() {
                        assert(moves@[a] == before[a]);
                    }
                }
            }
            i = i + 1;
        }
        let phase = call_phase(o, &game_state.board);
        if phase <= 8 {
            add_passer_pushes(game_state, o, stand_pat, alpha, beta, &mut moves);
        }
    } else {
        moves = generated;
    }
    if moves.len() == 0 {
        if in_check {
            return if maximizing { -MATE_VALUE + 100 } else { MATE_VALUE - 100 };
        }
        return stand_pat;
    }
    let mut scored: Vec<(Move, i32)> = Vec::new();
    let mut i: usize = 0;
    while i < moves.len()
        invariant
            i <= moves@.len(),
            o.ok(),
            scored@.len() == i,
            forall|a: int| 0 <= a < moves@.len() ==> playable(g0, #[trigger] moves@[a]),
            forall|a: int| 0 <= a < scored@.len() ==> playable(g0, #[trigger] scored@[a].0),
        decreases moves@.len() - i,
    {
        let m = moves[i];
        assert(playable(g0, moves@[i as int]));
        let score = call_mvv(o, &game_state.board, m.0, m.1) + promo_order_bonus(m.2);
        let ghost before = scored@;
        scored.push((m, score));
        assert forall|a: int| 0 <= a < scored@.len() implies playable(g0, #[trigger] scored@[a].0) by {
            if a < before.len() {
                assert(scored@[a] == before[a]);
            }
        }
        i = i + 1;
    }
    let ordered = sort_by_score_desc(scored, Ghost(g0));
    let ep_target = game_state.en_passant;
    let mut best: i32 = if maximizing { MIN_EVAL_VALUE } else { MAX_EVAL_VALUE };
    let mut k: usize = 0;
    while k < ordered.len()
        invariant
            *game_state == g0,
            g0.wf(),
            rep_stack@ == r0,
            r0 == old(rep_stack)@,
            g0 == *old(game_state),
            rep_stack.wf(),
            keys.wf(),
            o.ok(),
            ep_target == g0.en_passant,
            maximizing == (g0.active_color == Color::White),
            0 <= ply < MAX_SEARCH_PLY,
            MIN_EVAL_VALUE <= stand_pat <= MAX_EVAL_VALUE,
            MIN_EVAL_VALUE <= alpha <= MAX_EVAL_VALUE,
            MIN_EVAL_VALUE <= beta <= MAX_EVAL_VALUE,
            MIN_EVAL_VALUE <= best <= MAX_EVAL_VALUE,
            k <= ordered@.len(),
            forall|a: int| 0 <= a < ordered@.len() ==> playable(g0, #[trigger] ordered@[a]),
        decreases ordered@.len() - k,
    {
        let (from, to, promo) = ordered[k];
        assert(playable(g0, ordered@[k as int]));
        let mut skip = false;
        if !in_check && promo.is_none() {
            let from_is_pawn = match game_state.board.get(from.0, from.1) {
                Some(p) => p.piece_type == PieceType::Pawn,
                None => false,
            };
            let is_ep = match ep_target {
                Some(ep) => ep.0 == to.0 && ep.1 == to.1 && game_state.board.get(to.0, to.1).is_none() && from_is_pawn,
                None => false,
            };
            let vic_v: i32 = if is_ep {
                piece_value_cp(PieceType::Pawn)
            } else {
                match game_state.board.get(to.0, to.1) {
                    Some(vic) => piece_value_cp(vic.piece_type),
                    None => 0,
                }
            };
            if vic_v > 0 {
                if maximizing {
                    if stand_pat + vic_v + FUT_MARGIN <= alpha {
                        skip = true;
                    }
                } else if stand_pat - vic_v - FUT_MARGIN >= beta {
                    skip = true;
                }
            }
        }
        if !skip {
            let u = game_state.make_move_fast(from, to, promo);
            let score = qsearch_with_quiescence(ctx, game_state, alpha, beta, rep_stack, quiescence_enabled, keys, o, ply + 1);
            game_state.unmake_move_fast(u);
            if score == SEARCH_ABORTED {
                return SEARCH_ABORTED;
            }
            if maximizing {
                if score > best {
                    best = score;
                }
                if best > alpha {
                    alpha = best;
                }
            } else {
                if score < best {
                    best = score;
                }
                if best < beta {
                    beta = best;
                }
            }
            if alpha >= beta {
                break;
            }
        }
        k = k + 1;
    }
    best
}

/// Quiescence search with quiescence on (see `qsearch_with_quiescence`).
pub fn qsearch<E, M, P, Q, L>(
    ctx: &SearchContext,
    game_state: &mut GameState,
    alpha: i32,
    beta: i32,
    rep_stack: &mut RepetitionStack,
    keys: &ZobristKeys,
    o: &SearchOracles<E, M, P, Q, L>,
    ply: i32,
) -> (v: i32)
    where
        E: Fn(&Board, Color) -> i32,
        M: Fn(&Board, (usize, usize), (usize, usize)) -> i32,
        P: Fn(&Board) -> i32,
        Q: Fn(&Board, usize, usize, Color) -> bool,
        L: Fn(usize, i32) -> usize,
    requires
        old(game_state).wf(),
        old(rep_stack).wf(),
        keys.wf(),
        o.ok(),
        MIN_EVAL_VALUE <= alpha <= MAX_EVAL_VALUE,
        MIN_EVAL_VALUE <= beta <= MAX_EVAL_VALUE,
        0 <= ply <= MAX_SEARCH_PLY,
    ensures
        *final(game_state) == *old(game_state),
        final(rep_stack)@ == old(rep_stack)@,
        final(rep_stack).wf(),
        score_ok(v),
        old(rep_stack)@.contains(position_key(*keys, *old(game_state)))
            && (occurrences(old(rep_stack)@, position_key(*keys, *old(game_state))) >= 2
                || old(rep_stack)@.last() != position_key(*keys, *old(game_state)))
            ==> v == 0 || v == SEARCH_ABORTED,
        ply < MAX_SEARCH_PLY
            && !old(rep_stack)@.contains(position_key(*keys, *old(game_state)))
            && old(game_state).half_move_clock < 100
            && old(game_state).board.in_check(old(game_state).active_color)
            && (forall|m: Move| !#[trigger] spec_generated(*old(game_state), m))
            ==> v == SEARCH_ABORTED
                || v == (if old(game_state).active_color == Color::White { 100 - MATE_VALUE } else { MATE_VALUE - 100 }),
        !old(rep_stack)@.contains(position_key(*keys, *old(game_state)))
            && old(game_state).half_move_clock >= 100 ==> v == 0 || v == SEARCH_ABORTED,
        ply < MAX_SEARCH_PLY
            && !old(rep_stack)@.contains(position_key(*keys, *old(game_state)))
            && old(game_state).half_move_clock < 100
            && !old(game_state).board.in_check(old(game_state).active_color)
            ==> v == SEARCH_ABORTED || exists|w: i32| {
                &&& #[trigger] o.eval.ensures((&old(game_state).board, old(game_state).active_color), w)
                &&& old(game_state).active_color == Color::White && w >= beta ==> v == w
                &&& old(game_state).active_color == Color::Black && w <= alpha ==> v == w
            },
    decreases MAX_SEARCH_PLY - ply, 1nat,
{
    qsearch_with_quiescence(ctx, game_state, alpha, beta, rep_stack, true, keys, o, ply)
}


/// The late-move reduction of a move: none in the endgame (phase 8 or
/// less), for checks, quiet queen moves, captures that do not lose, at
/// child depths below 4, for the first three moves or when reductions are
/// off; otherwise the logarithmic base (at least 1), one more deep in the
/// list, one less for killers, counter moves and moves with a good history
/// or continuation, one more for a bad history or continuation, more for a
/// queen leaving an undeveloped or uncastled position, and at most 5 and
/// at most the child depth less one.
pub fn calculate_lmr_reduction<E, M, P, Q, L>(
    child_depth: usize,
    move_index: i32,
    is_quiet: bool,
    gives_check: bool,
    allow_reduce: bool,
    to_move: Color,
    from: (usize, usize),
    to: (usize, usize),
    moved_pt: Option<PieceType>,
    board: &Board,
    phase: i32,
    captured: Option<Piece>,
    heuristics: &SearchHeuristics,
    ply: i32,
    prev_move: Option<((usize, usize), (usize, usize))>,
    o: &SearchOracles<E, M, P, Q, L>,
) -> (r: usize)
    where
        E: Fn(&Board, Color) -> i32,
        M: Fn(&Board, (usize, usize), (usize, usize)) -> i32,
        P: Fn(&Board) -> i32,
        Q: Fn(&Board, usize, usize, Color) -> bool,
        L: Fn(usize, i32) -> usize,
    requires
        o.ok(),
        heuristics.wf(),
        on_board(from),
        on_board(to),
        prev_move matches Some(pm) ==> on_board(pm.0) && on_board(pm.1),
        0 <= ply,
    ensures
        r <= 5,
        r == 0 || r < child_depth,
        phase <= 8 || gives_check || (is_quiet && moved_pt == Some(PieceType::Queen)) ==> r == 0,
        !allow_reduce || child_depth < 4 || move_index < 3 ==> r == 0,
        !is_quiet && captured is None ==> r == 0,
{
    if phase <= 8 {
        return 0;
    }
    if gives_check {
        return 0;
    }
    if is_quiet && moved_pt == Some(PieceType::Queen) {
        return 0;
    }
    let is_bad_capture = if !is_quiet && captured.is_some() {
        let cap_val = match captured {
            Some(p) => piece_value_cp(p.piece_type),
            None => 0,
        };
        let see = see_dest_estimate(board, to_move, to, cap_val);
        see < 0
    } else {
        false
    };
    if (!is_quiet && !is_bad_capture) || child_depth < 4 || move_index < 3 || !allow_reduce {
        return 0;
    }
    let base_reduction = call_lmr(o, child_depth, move_index);
    let mut r: usize = if base_reduction > 1 { base_reduction } else { 1 };
    if child_depth >= 10 && move_index >= 8 {
        r = r + 1;
    }
    if child_depth >= 14 && move_index >= 12 {
        r = r + 1;
    }
    let hist = heuristics.history_score(to_move, from, to);
    let mut cont: i32 = 0;
    let mut is_counter = false;
    if let Some((prev_from, prev_to)) = prev_move {
        is_counter = heuristics.is_counter_move(to_move, prev_from, prev_to, from, to);
        cont = heuristics.continuation_score(to_move, prev_to, from, to);
    }
    let is_killer = heuristics.is_killer(ply as usize, from, to);
    if is_killer || is_counter || cont > 8_000 {
        r = if r > 0 { r - 1 } else { 0 };
    }
    if is_good_history(hist) {
        r = if r > 0 { r - 1 } else { 0 };
    } else if hist < -10_000 {
        r = r + 1;
    }
    if cont < -8_000 {
        r = r + 1;
    }
    let queen_on_from = match board.get(from.0, from.1) {
        Some(mp) => mp.piece_type == PieceType::Queen,
        None => false,
    };
    if queen_on_from && phase >= 12 {
        let back_r: usize = if to_move == Color::White { 0 } else { 7 };
        let mut undeveloped: usize = 0;
        let mut king_file: Option<usize> = None;
        let mut fc: usize = 0;
        while fc < 8
            invariant
                fc <= 8,
                back_r < 8,
                undeveloped <= fc,
                king_file matches Some(kf) ==> kf < 8,
            decreases 8 - fc,
        {
            if let Some(p) = board.get(back_r, fc) {
                if p.color == to_move && (p.piece_type == PieceType::Knight || p.piece_type == PieceType::Bishop) {
                    undeveloped = undeveloped + 1;
                }
                if king_file.is_none() && p.color == to_move && p.piece_type == PieceType::King {
                    king_file = Some(fc);
                }
            }
            fc = fc + 1;
        }
        let uncastled = match king_file {
            Some(kf) => kf != 2 && kf != 6,
            None => true,
        };
        if undeveloped >= 3 {
            r = r + 2;
        } else if undeveloped >= 2 {
            r = r + 1;
        }
        if uncastled {
            r = r + 1;
        }
    }
    let cap1 = if child_depth > 0 { child_depth - 1 } else { 0 };
    let r2 = if r < cap1 { r } else { cap1 };
    if r2 < 5 { r2 } else { 5 }
}

/// The moves in search order: the table's suggested move first (when it is
/// among them), then the others by `compute_move_order_score`, highest
/// first, equal scores in their order.
pub fn order_moves<E, M, P, Q, L>(
    moves: Vec<Move>,
    game_state: &GameState,
    tt_move_hint: Option<(u8, u8)>,
    to_move: Color,
    ply: i32,
    heuristics: &SearchHeuristics,
    prev_move: Option<((usize, usize), (usize, usize))>,
    o: &SearchOracles<E, M, P, Q, L>,
) -> (r: Vec<Move>)
    where
        E: Fn(&Board, Color) -> i32,
        M: Fn(&Board, (usize, usize), (usize, usize)) -> i32,
        P: Fn(&Board) -> i32,
        Q: Fn(&Board, usize, usize, Color) -> bool,
        L: Fn(usize, i32) -> usize,
    requires
        o.ok(),
        heuristics.wf(),
        forall|a: int| 0 <= a < moves@.len() ==> playable(*game_state, #[trigger] moves@[a]),
        prev_move matches Some(pm) ==> on_board(pm.0) && on_board(pm.1),
    ensures
        r@.len() == moves@.len(),
        forall|a: int| 0 <= a < r@.len() ==> playable(*game_state, #[trigger] r@[a]),
        tt_move_hint matches Some(h) ==> ((exists|a: int| 0 <= a < moves@.len()
            && #[trigger] move_pair(moves@[a]) == spec_decode_move(h.0, h.1))
            ==> move_pair(r@[0]) == spec_decode_move(h.0, h.1)),
{
    if moves.len() == 0 {
        return moves;
    }
    let ghost g = *game_state;
    let ghost n = moves@.len();
    let mut ordered = moves;
    if let Some((best_from, best_to)) = tt_move_hint {
        let bm = decode_move(best_from, best_to);
        let mut pos: usize = 0;
        let mut found = false;
        while pos < ordered.len()
            invariant_except_break
                !found,
            invariant
                pos <= ordered@.len(),
                ordered@ == moves@,
                bm == spec_decode_move(best_from, best_to),
                forall|j: int| 0 <= j < pos ==> #[trigger] move_pair(ordered@[j]) != bm,
            ensures
                pos <= ordered@.len(),
                found ==> pos < ordered@.len() && move_pair(ordered@[pos as int]) == bm,
                !found ==> forall|j: int| 0 <= j < ordered@.len() ==> #[trigger] move_pair(ordered@[j]) != bm,
            decreases ordered@.len() - pos,
        {
            let m = ordered[pos];
            if m.0.0 == bm.0.0 && m.0.1 == bm.0.1 && m.1.0 == bm.1.0 && m.1.1 == bm.1.1 {
                found = true;
                break;
            }
            pos = pos + 1;
        }
        if found {
            let ghost before = ordered@;
            let first = ordered.remove(pos);
            ordered.insert(0, first);
            assert(ordered@.len() == before.len());
            assert(ordered@[0] == before[pos as int]);
            assert forall|a: int| 0 <= a < ordered@.len() implies playable(g, #[trigger] ordered@[a]) by {
                if a == 0 {
                    assert(first == before[pos as int]);
                } else if a <= pos {
                    assert(ordered@[a] == before[a - 1]);
                } else {
                    assert(ordered@[a] == before[a]);
                }
            }
        }
    }
    assert(ordered@.len() == n);
    let ghost first_pair = move_pair(ordered@[0]);
    assert(tt_move_hint matches Some(h) ==> ((exists|a: int| 0 <= a < moves@.len()
            && #[trigger] move_pair(moves@[a]) == spec_decode_move(h.0, h.1))
            ==> first_pair == spec_decode_move(h.0, h.1)));
    if ordered.len() <= 1 {
        return ordered;
    }
    let octx = MoveOrderingContext { half_move_clock: game_state.half_move_clock, prev_move };
    let board = &game_state.board;
    let ep_target = game_state.en_passant;
    let mut tail: Vec<(Move, i32)> = Vec::new();
    let mut i: usize = 1;
    while i < ordered.len()
        invariant
            1 <= i <= ordered@.len(),
            o.ok(),
            heuristics.wf(),
            board == g.board,
            ep_target == g.en_passant,
            octx.prev_move == prev_move,
            prev_move matches Some(pm) ==> on_board(pm.0) && on_board(pm.1),
            tail@.len() == i - 1,
            forall|a: int| 0 <= a < ordered@.len() ==> playable(g, #[trigger] ordered@[a]),
            forall|a: int| 0 <= a < tail@.len() ==> playable(g, #[trigger] tail@[a].0),
        decreases ordered@.len() - i,
    {
        let (from, to, promo) = ordered[i];
        assert(playable(g, ordered@[i as int]));
        let moved = board.get(from.0, from.1);
        let moved_type = match moved {
            Some(p) => Some(p.piece_type),
            None => None,
        };
        let is_ep = match ep_target {
            Some(ep) => ep.0 == to.0 && ep.1 == to.1 && moved_type == Some(PieceType::Pawn) && board.get(to.0, to.1).is_none(),
            None => false,
        };
        let is_capture = board.get(to.0, to.1).is_some() || is_ep;
        let mvv_lva = call_mvv(o, board, from, to);
        let see_score = if is_capture {
            capture_see_order_score(board, to_move, from, to, promo, is_ep)
        } else {
            0
        };
        let score = compute_move_order_score(from, to, promo, moved_type, is_capture, mvv_lva, see_score, to_move, ply, &octx, heuristics);
        let ghost before = tail@;
        tail.push(((from, to, promo), score));
        assert forall|a: int| 0 <= a < tail@.len() implies playable(g, #[trigger] tail@[a].0) by {
            if a < before.len() {
                assert(tail@[a] == before[a]);
            }
        }
        i = i + 1;
    }
    let sorted = sort_by_score_desc(tail, Ghost(g));
    let mut r: Vec<Move> = Vec::new();
    r.push(ordered[0]);
    assert(move_pair(r@[0]) == first_pair);
    assert(playable(g, ordered@[0]));
    let mut k: usize = 0;
    while k < sorted.len()
        invariant
            k <= sorted@.len(),
            sorted@.len() == ordered@.len() - 1,
            r@.len() == k + 1,
            move_pair(r@[0]) == first_pair,
            forall|a: int| 0 <= a < sorted@.len() ==> playable(g, #[trigger] sorted@[a]),
            forall|a: int| 0 <= a < r@.len() ==> playable(g, #[trigger] r@[a]),
        decreases sorted@.len() - k,
    {
        assert(playable(g, sorted@[k as int]));
        let ghost before = r@;
        r.push(sorted[k]);
        assert forall|a: int| 0 <= a < r@.len() implies playable(g, #[trigger] r@[a]) by {
            if a < before.len() {
                assert(r@[a] == before[a]);
            }
        }
        k = k + 1;
    }
    r
}

/// Null-move pruning: from depth 6, out of check, below the fifty-move
/// limit and with a piece besides king and pawns (and not in a shallow
/// endgame), when the static score already reaches the window's far side
/// by 40, the side to move passes and a reduced null-window search follows;
/// if it still fails high (White) or low (Black), the bound is returned.
pub fn prune_null_moves<E, M, P, Q, L>(
    ctx: &mut SearchContext,
    heuristics: &mut SearchHeuristics,
    game_state: &mut GameState,
    depth: usize,
    alpha: i32,
    beta: i32,
    ply: i32,
    tt: &mut TranspositionTable,
    rep_stack: &mut RepetitionStack,
    allow_null_move: bool,
    prev_move: Option<((usize, usize), (usize, usize))>,
    keys: &ZobristKeys,
    o: &SearchOracles<E, M, P, Q, L>,
) -> (v: Option<i32>)
    where
        E: Fn(&Board, Color) -> i32,
        M: Fn(&Board, (usize, usize), (usize, usize)) -> i32,
        P: Fn(&Board) -> i32,
        Q: Fn(&Board, usize, usize, Color) -> bool,
        L: Fn(usize, i32) -> usize,
    requires
        old(game_state).wf(),
        old(rep_stack).wf(),
        old(heuristics).wf(),
        old(tt).inv(),
        keys.wf(),
        o.ok(),
        prev_move matches Some(pm) ==> on_board(pm.0) && on_board(pm.1),
        MIN_EVAL_VALUE <= alpha < beta <= MAX_EVAL_VALUE,
        depth <= MAX_SEARCH_DEPTH,
        0 <= ply < MAX_SEARCH_PLY,
    ensures
        *final(game_state) == *old(game_state),
        final(rep_stack)@ == old(rep_stack)@,
        final(rep_stack).wf(),
        final(heuristics).wf(),
        final(tt).inv(),
        final(ctx).deadline() == old(ctx).deadline(),
        v matches Some(x) ==> x == (if old(game_state).active_color == Color::White { beta } else { alpha }),
        !allow_null_move || depth < 6 || old(game_state).half_move_clock >= 100 ==> v is None,
        !spec_non_pawn_material(old(game_state).board, old(game_state).active_color) ==> v is None,
        old(game_state).board.in_check(old(game_state).active_color) ==> v is None,
    decreases MAX_SEARCH_PLY - ply, 2nat,
{
    if !allow_null_move {
        return None;
    }
    let ghost g0 = *game_state;
    let to_move = game_state.active_color;
    let halfmove_clock = game_state.half_move_clock;
    let phase = call_phase(o, &game_state.board);
    if depth >= 6 {
        let in_check = game_state.board.is_side_in_check(to_move);
        if !in_check && halfmove_clock < 100 {
            if has_non_pawn_material(&game_state.board, to_move) {
                if phase <= 6 && depth < 8 {
                    return None;
                }
                let static_eval = call_eval(o, &game_state.board, to_move);
                let is_strong = if to_move == Color::White {
                    static_eval >= beta - 40
                } else {
                    static_eval <= alpha + 40
                };
                if !is_strong {
                    return None;
                }
                let mut r: usize = 2;
                if depth >= 8 { r = r + 1; }
                if depth >= 11 { r = r + 1; }
                if depth >= 14 { r = r + 1; }
                if static_eval >= 800 || static_eval <= -800 { r = r + 1; }
                if phase <= 6 { r = r - 1; }
                let min_r: usize = if phase <= 6 { 1 } else { 2 };
                if r < min_r { r = min_r; }
                if r > 5 { r = 5; }
                let max_r = if depth >= 2 { depth - 2 } else { 0 };
                if r > max_r { r = max_r; }
                let (null_alpha, null_beta) = if to_move == Color::White {
                    (beta - 1, beta)
                } else {
                    (alpha, alpha + 1)
                };
                game_state.switch_player_turn();
                let old_hmc = game_state.half_move_clock;
                let old_ep = game_state.en_passant;
                game_state.increment_half_move_clock();
                game_state.set_en_passant_target(None);
                let child_depth = if depth >= 1 + r { depth - (1 + r) } else { 0 };
                let score = alphabeta(ctx, heuristics, game_state, child_depth, null_alpha, null_beta, ply + 1, tt, rep_stack,
                    false, prev_move, keys, o);
                game_state.switch_player_turn();
                game_state.set_half_move_clock(old_hmc);
                game_state.set_en_passant_target(old_ep);
                proof {
                    crate::pieces::lemma_opposite_involutive(to_move);
                    assert(*game_state == g0);
                }
                if to_move == Color::White {
                    if score >= beta {
                        return Some(beta);
                    }
                } else if score <= alpha {
                    return Some(alpha);
                }
            }
        }
    }
    None
}

/// Searches the moves in order (principal variation search): the first
/// with the full window, the others first with a null window at a depth
/// lowered by the late-move reduction and again in full when they may
/// improve the bound. Quiet moves that raise the bound gain history, those
/// that do not lose it, and a quiet move that cuts off becomes a killer
/// and the counter move. Gives the best score and the move that last
/// improved the bound; on a time-out, the abort marker.
pub fn search_moves<E, M, P, Q, L>(
    moves: Vec<Move>,
    game_state: &mut GameState,
    depth: usize,
    alpha: i32,
    beta: i32,
    ply: i32,
    tt: &mut TranspositionTable,
    rep_stack: &mut RepetitionStack,
    to_move: Color,
    prev_move: Option<((usize, usize), (usize, usize))>,
    ctx: &mut SearchContext,
    heuristics: &mut SearchHeuristics,
    keys: &ZobristKeys,
    o: &SearchOracles<E, M, P, Q, L>,
) -> (res: (i32, Option<((usize, usize), (usize, usize))>))
    where
        E: Fn(&Board, Color) -> i32,
        M: Fn(&Board, (usize, usize), (usize, usize)) -> i32,
        P: Fn(&Board) -> i32,
        Q: Fn(&Board, usize, usize, Color) -> bool,
        L: Fn(usize, i32) -> usize,
    requires
        old(game_state).wf(),
        old(rep_stack).wf(),
        old(heuristics).wf(),
        old(tt).inv(),
        keys.wf(),
        o.ok(),
        prev_move matches Some(pm) ==> on_board(pm.0) && on_board(pm.1),
        forall|a: int| 0 <= a < moves@.len() ==> playable(*old(game_state), #[trigger] moves@[a]),
        to_move == old(game_state).active_color,
        MIN_EVAL_VALUE <= alpha < beta <= MAX_EVAL_VALUE,
        1 <= depth <= MAX_SEARCH_DEPTH,
        0 <= ply < MAX_SEARCH_PLY,
    ensures
        *final(game_state) == *old(game_state),
        final(rep_stack)@ == old(rep_stack)@,
        final(rep_stack).wf(),
        final(heuristics).wf(),
        final(tt).inv(),
        final(ctx).deadline() == old(ctx).deadline(),
        score_ok(res.0),
        res.1 matches Some(ft) ==> on_board(ft.0) && on_board(ft.1),
        res.1 matches Some(ft) ==> exists|a: int| 0 <= a < moves@.len() && #[trigger] move_pair(moves@[a]) == ft,
        moves@.len() == 0 ==> res == ((if to_move == Color::White { MIN_EVAL_VALUE } else { MAX_EVAL_VALUE }),
            None::<((usize, usize), (usize, usize))>),
    decreases MAX_SEARCH_PLY - ply, 2nat,
{
    let ghost g0 = *game_state;
    let ghost r0 = rep_stack@;
    let ghost d0 = ctx.deadline();
    let maximizing = to_move == Color::White;
    let mut alpha = alpha;
    let mut beta = beta;
    let mut current_value = initial_value(maximizing);
    let mut best_from_to: Option<((usize, usize), (usize, usize))> = None;
    let mut is_first_move = true;
    let mut move_index: i32 = 0;
    assert((depth as int) * (depth as int) <= 1_000_000) by (nonlinear_arith)
        requires
            1 <= depth <= 1000,
    ;
    assert((depth as int) * (depth as int) >= 0) by (nonlinear_arith);
    let history_bonus = (depth as i32) * (depth as i32);
    let static_eval: Option<i32> = if depth == 1 {
        Some(call_eval(o, &game_state.board, to_move))
    } else {
        None
    };
    let mut k: usize = 0;
    while k < moves.len()
        invariant_except_break
            MIN_EVAL_VALUE <= alpha < beta <= MAX_EVAL_VALUE,
        invariant
            *game_state == g0,
            g0 == *old(game_state),
            g0.wf(),
            rep_stack@ == r0,
            r0 == old(rep_stack)@,
            rep_stack.wf(),
            heuristics.wf(),
            tt.inv(),
            ctx.deadline() == d0,
            d0 == old(ctx).deadline(),
            keys.wf(),
            o.ok(),
            to_move == g0.active_color,
            maximizing == (to_move == Color::White),
            prev_move matches Some(pm) ==> on_board(pm.0) && on_board(pm.1),
            forall|a: int| 0 <= a < moves@.len() ==> playable(g0, #[trigger] moves@[a]),
            MIN_EVAL_VALUE <= current_value <= MAX_EVAL_VALUE,
            1 <= depth <= MAX_SEARCH_DEPTH,
            0 <= ply < MAX_SEARCH_PLY,
            0 <= history_bonus <= 1_000_000,
            0 <= move_index,
            k <= moves@.len(),
            static_eval matches Some(e) ==> MIN_EVAL_VALUE <= e <= MAX_EVAL_VALUE,
            best_from_to matches Some(ft) ==> on_board(ft.0) && on_board(ft.1),
            best_from_to matches Some(ft) ==> exists|a: int| 0 <= a < moves@.len() && #[trigger] move_pair(moves@[a]) == ft,
            moves@.len() == 0 ==> current_value == (if maximizing { MIN_EVAL_VALUE } else { MAX_EVAL_VALUE })
                && best_from_to is None,
        decreases moves@.len() - k,
    {
        let (from, to, promo) = moves[k];
        assert(playable(g0, moves@[k as int]));
        assert(move_pair(moves@[k as int]) == (from, to));
        let u = game_state.make_move_fast(from, to, promo);
        let mut child_depth = depth - 1;
        let is_capture = u.ep_captured_piece.is_some() || u.captured.is_some();
        let ext = match game_state.board.get(to.0, to.1) {
            Some(p) => p.piece_type == PieceType::Pawn && call_phase(o, &game_state.board) <= 8
                && call_passed(o, &game_state.board, to.0, to.1, p.color)
                && (if p.color == Color::White { to.0 >= 5 } else { 7 - to.0 >= 5 }),
            None => false,
        };
        if ext {
            child_depth = child_depth + 1;
        }
        let gives_check = game_state.board.is_side_in_check(opponent(to_move));
        let quiet = !is_capture && promo.is_none();
        let allow_reduce = !gives_check;
        let captured_piece = if u.captured.is_some() { u.captured } else { u.ep_captured_piece };
        let moved_piece_type = match u.moved {
            Some(p) => Some(p.piece_type),
            None => None,
        };
        let mut futile = false;
        if let Some(eval) = static_eval {
            if quiet && !gives_check && !is_first_move {
                if maximizing && eval + 200 <= alpha {
                    futile = true;
                } else if !maximizing && eval - 200 >= beta {
                    futile = true;
                }
            }
        }
        if futile {
            game_state.unmake_move_fast(u);
            if move_index < i32::MAX {
                move_index = move_index + 1;
            }
            k = k + 1;
            continue;
        }
        let reduction = if is_first_move {
            0
        } else {
            let phase_now = call_phase(o, &game_state.board);
            calculate_lmr_reduction(child_depth, move_index, quiet, gives_check, allow_reduce, to_move, from, to,
                moved_piece_type, &game_state.board, phase_now, captured_piece, heuristics, ply, prev_move, o)
        };
        let reduced_depth = if child_depth >= reduction { child_depth - reduction } else { 0 };
        let current_score = if is_first_move {
            alphabeta(ctx, heuristics, game_state, child_depth, alpha, beta, ply + 1, tt, rep_stack, true,
                Some((from, to)), keys, o)
        } else {
            let (nw_alpha, nw_beta) = null_window(alpha, beta, maximizing);
            let mut sc = alphabeta(ctx, heuristics, game_state, reduced_depth, nw_alpha, nw_beta, ply + 1, tt, rep_stack,
                true, Some((from, to)), keys, o);
            let needs_research = sc > alpha && sc < beta;
            let lmr_research = reduced_depth < child_depth && is_better(sc, alpha, maximizing);
            if needs_research || lmr_research {
                sc = alphabeta(ctx, heuristics, game_state, child_depth, alpha, beta, ply + 1, tt, rep_stack, true,
                    Some((from, to)), keys, o);
            }
            sc
        };
        game_state.unmake_move_fast(u);
        if current_score == SEARCH_ABORTED {
            return (SEARCH_ABORTED, None);
        }
        is_first_move = false;
        let old_alpha = alpha;
        let old_beta = beta;
        if is_better(current_score, current_value, maximizing) {
            current_value = current_score;
        }
        proof {
            if let Some(pm) = prev_move {
                lemma_scores_within_cap(*heuristics, to_move, pm.1, from, to);
            } else {
                lemma_scores_within_cap(*heuristics, to_move, to, from, to);
            }
        }
        let penalty = -history_bonus / 2;
        if maximizing {
            if current_value > alpha {
                alpha = current_value;
                best_from_to = Some((from, to));
                if quiet {
                    heuristics.add_history(to_move, from, to, history_bonus);
                    if let Some((_, prev_to)) = prev_move {
                        heuristics.add_continuation_history(to_move, prev_to, from, to, history_bonus);
                    }
                }
            } else if quiet && current_score <= old_alpha {
                heuristics.add_history(to_move, from, to, penalty);
                if let Some((_, prev_to)) = prev_move {
                    heuristics.add_continuation_history(to_move, prev_to, from, to, penalty);
                }
            }
            if current_value >= beta {
                if quiet {
                    heuristics.add_killer(ply as usize, from, to);
                    if let Some((prev_from, prev_to)) = prev_move {
                        heuristics.set_counter_move(to_move, prev_from, prev_to, from, to);
                    }
                }
                break;
            }
        } else {
            if current_value < beta {
                beta = current_value;
                best_from_to = Some((from, to));
                if quiet {
                    heuristics.add_history(to_move, from, to, history_bonus);
                    if let Some((_, prev_to)) = prev_move {
                        heuristics.add_continuation_history(to_move, prev_to, from, to, history_bonus);
                    }
                }
            } else if quiet && current_score >= old_beta {
                heuristics.add_history(to_move, from, to, penalty);
                if let Some((_, prev_to)) = prev_move {
                    heuristics.add_continuation_history(to_move, prev_to, from, to, penalty);
                }
            }
            if current_value <= alpha {
                if quiet {
                    heuristics.add_killer(ply as usize, from, to);
                    if let Some((prev_from, prev_to)) = prev_move {
                        heuristics.set_counter_move(to_move, prev_from, prev_to, from, to);
                    }
                }
                break;
            }
        }
        if move_index < i32::MAX {
            move_index = move_index + 1;
        }
        k = k + 1;
    }
    (current_value, best_from_to)
}

/// Alpha-beta search with principal variation search, late-move
/// reductions and null-move pruning; the score is in centipawns, positive
/// good for White. A repeated position and the fifty-move limit score 0; at
/// depth 0 (or at the ply limit) the quiescence search decides; a table
/// entry at least as deep gives its score or narrows the window; without a
/// legal move, a mate score (the sooner, the larger) or 0. The result is
/// stored in the table. The position and the repetition stack come back
/// unchanged.
pub fn alphabeta<E, M, P, Q, L>(
    ctx: &mut SearchContext,
    heuristics: &mut SearchHeuristics,
    game_state: &mut GameState,
    depth: usize,
    alpha: i32,
    beta: i32,
    ply: i32,
    tt: &mut TranspositionTable,
    rep_stack: &mut RepetitionStack,
    allow_null_move: bool,
    prev_move: Option<((usize, usize), (usize, usize))>,
    keys: &ZobristKeys,
    o: &SearchOracles<E, M, P, Q, L>,
) -> (v: i32)
    where
        E: Fn(&Board, Color) -> i32,
        M: Fn(&Board, (usize, usize), (usize, usize)) -> i32,
        P: Fn(&Board) -> i32,
        Q: Fn(&Board, usize, usize, Color) -> bool,
        L: Fn(usize, i32) -> usize,
    requires
        old(game_state).wf(),
        old(rep_stack).wf(),
        old(heuristics).wf(),
        old(tt).inv(),
        keys.wf(),
        o.ok(),
        prev_move matches Some(pm) ==> on_board(pm.0) && on_board(pm.1),
        MIN_EVAL_VALUE <= alpha < beta <= MAX_EVAL_VALUE,
        depth <= MAX_SEARCH_DEPTH,
        0 <= ply <= MAX_SEARCH_PLY,
    ensures
        *final(game_state) == *old(game_state),
        final(rep_stack)@ == old(rep_stack)@,
        final(rep_stack).wf(),
        final(heuristics).wf(),
        final(tt).inv(),
        final(ctx).deadline() == old(ctx).deadline(),
        score_ok(v),
        old(rep_stack)@.contains(position_key(*keys, *old(game_state))) ==> v == 0 || v == SEARCH_ABORTED,
        !old(rep_stack)@.contains(position_key(*keys, *old(game_state))) && old(game_state).half_move_clock >= 100
            ==> v == 0 || v == SEARCH_ABORTED,
        ({
            let g = *old(game_state);
            let key = position_key(*keys, g);
            &&& !old(rep_stack)@.contains(key)
            &&& g.half_move_clock < 100
            &&& depth > 0
            &&& ply < MAX_SEARCH_PLY
            &&& old(tt).spec_probe(key) is None
            &&& generated_list(g, false).len() == 0
        }) ==> v == SEARCH_ABORTED || if old(game_state).board.in_check(old(game_state).active_color) {
            v == mated_score(old(game_state).active_color, ply as int)
        } else {
            v == 0 || v == alpha || v == beta
        },
    decreases MAX_SEARCH_PLY - ply, 3nat,
{
    let ghost g0 = *game_state;
    let ghost r0 = rep_stack@;
    let to_move = game_state.active_color;
    ctx.bump_node();
    if ctx.time_is_up() {
        return SEARCH_ABORTED;
    }
    let key = key_of(keys, game_state);
    if rep_stack.contains(&key) {
        return 0;
    }
    proof {
        lemma_occurrences_positive(rep_stack@, key);
    }
    rep_stack.push(key);
    if game_state.half_move_clock >= 100 {
        rep_stack.pop();
        assert(rep_stack@ =~= r0);
        return 0;
    }
    if depth == 0 || ply >= MAX_SEARCH_PLY {
        let result = qsearch(&*ctx, game_state, alpha, beta, rep_stack, keys, o, ply);
        rep_stack.pop();
        assert(rep_stack@ =~= r0);
        return result;
    }
    let mut alpha = alpha;
    let mut beta = beta;
    let tt_entry = tt.probe(key);
    let tt_move_hint: Option<(u8, u8)> = match tt_entry {
        Some(e) => Some((e.best_from, e.best_to)),
        None => None,
    };
    if let Some(entry) = tt_entry {
        proof {
            lemma_probe_bounds(*tt, key);
        }
        if entry.depth as usize >= depth {
            let tt_score = from_tt_score(entry.score, ply);
            let use_cached = !(tt_score == 0 && ply <= 3 && depth >= 3);
            if use_cached {
                match entry.bound {
                    Bound::Exact => {
                        rep_stack.pop();
                        assert(rep_stack@ =~= r0);
                        return tt_score;
                    },
                    Bound::Lower => {
                        if tt_score > alpha {
                            alpha = tt_score;
                        }
                    },
                    Bound::Upper => {
                        if tt_score < beta {
                            beta = tt_score;
                        }
                    },
                }
            }
            if use_cached && alpha >= beta {
                rep_stack.pop();
                assert(rep_stack@ =~= r0);
                return tt_score;
            }
        }
    }
    if let Some(value) = prune_null_moves(ctx, heuristics, game_state, depth, alpha, beta, ply, tt, rep_stack,
        allow_null_move, prev_move, keys, o) {
        rep_stack.pop();
        assert(rep_stack@ =~= r0);
        return value;
    }
    let moves = find_all_valid_moves(game_state);
    if moves.len() == 0 {
        let in_check = game_state.board.is_side_in_check(to_move);
        rep_stack.pop();
        assert(rep_stack@ =~= r0);
        return if in_check {
            if to_move == Color::White { -MATE_VALUE + ply } else { MATE_VALUE - ply }
        } else {
            0
        };
    }
    assert forall|a: int| 0 <= a < moves@.len() implies playable(g0, #[trigger] moves@[a]) by {
        assert(moves@.contains(moves@[a]));
    }
    let ordered = order_moves(moves, game_state, tt_move_hint, to_move, ply, heuristics, prev_move, o);
    let original_alpha = alpha;
    let original_beta = beta;
    let (best_value, best_from_to) = search_moves(ordered, game_state, depth, alpha, beta, ply, tt, rep_stack, to_move,
        prev_move, ctx, heuristics, keys, o);
    rep_stack.pop();
    assert(rep_stack@ =~= r0);
    if best_value == SEARCH_ABORTED {
        return SEARCH_ABORTED;
    }
    let bound = if best_value <= original_alpha {
        Bound::Upper
    } else if best_value >= original_beta {
        Bound::Lower
    } else {
        Bound::Exact
    };
    let (bf, bt) = match best_from_to {
        Some((f, t)) => {
            let (ff, tt2) = encode_move(f, t);
            (Some(ff), Some(tt2))
        },
        None => (None, None),
    };
    let tt_score = to_tt_score(best_value, ply);
    tt.store(key, depth as i16, bound, tt_score, bf, bt);
    best_value
}

} // verus!
