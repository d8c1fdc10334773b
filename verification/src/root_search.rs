//! The search at the root: every root move searched in turn and scored
//! with the root heuristics, the aspiration window around it, and the
//! iterative deepening that drives both.
use vstd::prelude::*;
use crate::board::{Board, on_board};
use crate::game_state::GameState;
use crate::heuristics::SearchHeuristics;
use crate::movegen::Move;
use crate::pieces::{Color, PieceType, opposite_color};
use crate::movegen::{find_all_valid_moves, generated_list, spec_generated};
use crate::rep_stack::RepetitionStack;
use crate::search_support::{MIN_EVAL_VALUE, MAX_EVAL_VALUE, SEARCH_ABORTED, initial_value, apply_repetition_avoidance_bias,
    aspiration_bounds_for_depth, aspiration_step, AspirationStep};
use crate::root_moves::{ROOT_HEURISTICS_RANGE, adjusted_root_eval_for_move, get_root_moves, reorder_with_tt_hint,
    order_root_moves_by_bias, order_root_moves_by_priority, moves_on_board, lemma_front_members};
use crate::search_support::{ASP_WINDOW_INIT_CP, next_aspiration_window};
use crate::search::{SearchOracles, MAX_SEARCH_DEPTH, playable, score_ok, alphabeta, qsearch, key_of};
use crate::tt::TranspositionTable;
use crate::context::SearchContext;
use crate::zobrist::ZobristKeys;

verus! {

/// Plays a root move, searches the position after it (with the quiescence
/// search at depth 1, else with alpha-beta one ply less, two plies more
/// when the move gives check) and takes the move back. Gives the search
/// score, whether the move lands on a piece and whether a pawn moved.
pub fn evaluate_after_root_move<E, M, P, Q, L>(
    ctx: &mut SearchContext,
    heuristics: &mut SearchHeuristics,
    game_state: &mut GameState,
    from: (usize, usize),
    to: (usize, usize),
    promo: Option<char>,
    depth_now: usize,
    a: i32,
    b: i32,
    tt: &mut TranspositionTable,
    rep_stack: &mut RepetitionStack,
    keys: &ZobristKeys,
    o: &SearchOracles<E, M, P, Q, L>,
) -> (r: (i32, bool, bool))
    where
        E: Fn(&Board, Color) -> i32,
        M: Fn(&Board, (usize, usize), (usize, usize)) -> i32,
        P: Fn(&Board) -> i32,
        Q: Fn(&Board, usize, usize, Color) -> bool,
        L: Fn(usize, i32) -> usize,
    requires
        old(game_state).wf(),
        old(rep_stack).wf(),
        old(heuristics).wf(),
        old(tt).inv(),
        keys.wf(),
        o.ok(),
        playable(*old(game_state), (from, to, promo)),
        MIN_EVAL_VALUE <= a < b <= MAX_EVAL_VALUE,
        1 <= depth_now < MAX_SEARCH_DEPTH,
    ensures
        *final(game_state) == *old(game_state),
        final(rep_stack)@ == old(rep_stack)@,
        final(rep_stack).wf(),
        final(heuristics).wf(),
        final(tt).inv(),
        final(ctx).deadline() == old(ctx).deadline(),
        score_ok(r.0),
        r.1 == (old(game_state).board.at(to.0 as int, to.1 as int) is Some),
        r.2 == (old(game_state).board.at(from.0 as int, from.1 as int) matches Some(p) && p.piece_type == PieceType::Pawn),
{
    let is_capture = game_state.board.get(to.0, to.1).is_some();
    let moved_is_pawn = match game_state.board.get(from.0, from.1) {
        Some(p) => p.piece_type == PieceType::Pawn,
        None => false,
    };
    let side = game_state.active_color;
    let u = game_state.make_move_fast(from, to, promo);
    let gives_check = game_state.board.is_side_in_check(opposite_color(side));
    let score_raw = if depth_now <= 1 {
        qsearch(&*ctx, game_state, MIN_EVAL_VALUE + 1, MAX_EVAL_VALUE - 1, rep_stack, keys, o, 1)
    } else {
        let ext: usize = if gives_check { 2 } else { 0 };
        alphabeta(ctx, heuristics, game_state, depth_now - 1 + ext, a, b, 1, tt, rep_stack, true,
            Some((from, to)), keys, o)
    };
    game_state.unmake_move_fast(u);
    (score_raw, is_capture, moved_is_pawn)
}

/// Searches the root moves at one depth within `(a, b)`: the table's move
/// first and the opening nudges of `order_root_moves_by_bias` next; each
/// score goes through the root heuristics and the repetition bias (by how
/// often the position after the move already occurred), and the best by
/// that score for the side to move is kept (the first on ties); a search
/// score with no room left in `i32` for the root heuristics (which only a
/// score next to the ends of the range can lack) is kept unadjusted. The loop
/// stops early when White reaches `b` or Black `a`. Gives the move, its
/// adjusted score and its search score, or the abort marker twice.
pub fn evaluate_root_for_bounds<E, M, P, Q, L>(
    ctx: &mut SearchContext,
    heuristics: &mut SearchHeuristics,
    active_color: Color,
    root_moves: &Vec<Move>,
    depth_now: usize,
    a: i32,
    b: i32,
    tt: &mut TranspositionTable,
    game_state: &mut GameState,
    rep_stack: &mut RepetitionStack,
    keys: &ZobristKeys,
    o: &SearchOracles<E, M, P, Q, L>,
) -> (r: (Move, i32, i32))
    where
        E: Fn(&Board, Color) -> i32,
        M: Fn(&Board, (usize, usize), (usize, usize)) -> i32,
        P: Fn(&Board) -> i32,
        Q: Fn(&Board, usize, usize, Color) -> bool,
        L: Fn(usize, i32) -> usize,
    requires
        old(game_state).wf(),
        old(rep_stack).wf(),
        old(heuristics).wf(),
        old(tt).inv(),
        keys.wf(),
        o.ok(),
        active_color == old(game_state).active_color,
        root_moves@.len() > 0,
        forall|i: int| 0 <= i < root_moves@.len() ==> playable(*old(game_state), #[trigger] root_moves@[i]),
        MIN_EVAL_VALUE <= a < b <= MAX_EVAL_VALUE,
        1 <= depth_now < MAX_SEARCH_DEPTH,
    ensures
        *final(game_state) == *old(game_state),
        final(rep_stack)@ == old(rep_stack)@,
        final(rep_stack).wf(),
        final(heuristics).wf(),
        final(tt).inv(),
        final(ctx).deadline() == old(ctx).deadline(),
        r.2 == SEARCH_ABORTED ==> r.1 == SEARCH_ABORTED,
        r.2 != SEARCH_ABORTED ==> root_moves@.contains(r.0) && MIN_EVAL_VALUE <= r.2 <= MAX_EVAL_VALUE,
{
    let ghost g0 = *game_state;
    let ghost r0 = rep_stack@;
    let ghost d0 = ctx.deadline();
    let mut ordered: Vec<Move> = Vec::new();
    get_root_moves(root_moves, &mut ordered);
    assert(ordered@ =~= root_moves@);
    assert forall|i: int| 0 <= i < ordered@.len() implies on_board(#[trigger] ordered@[i].0) && on_board(ordered@[i].1) by {
        assert(playable(g0, root_moves@[i]));
    }
    reorder_with_tt_hint(&mut ordered, keys, tt, &game_state.board, active_color);
    let ghost o1 = ordered@;
    assert forall|i: int| 0 <= i < ordered@.len() implies on_board(#[trigger] ordered@[i].0) && on_board(ordered@[i].1) by {
        assert(o1.contains(o1[i]));
        let j = choose|j: int| 0 <= j < root_moves@.len() && root_moves@[j] == o1[i];
        assert(playable(g0, root_moves@[j]));
    }
    order_root_moves_by_bias(&mut ordered, &game_state.board, active_color, depth_now);
    assert forall|i: int| 0 <= i < ordered@.len() implies root_moves@.contains(#[trigger] ordered@[i]) by {
        assert(ordered@.contains(ordered@[i]));
    }
    let maximizing = active_color == Color::White;
    let mut best: Option<Move> = None;
    let mut best_score_raw = initial_value(maximizing);
    let mut best_adjusted = best_score_raw;
    let mut k: usize = 0;
    while k < ordered.len()
        invariant
            k <= ordered@.len(),
            *game_state == g0,
            g0 == *old(game_state),
            g0.wf(),
            rep_stack@ == r0,
            r0 == old(rep_stack)@,
            rep_stack.wf(),
            heuristics.wf(),
            tt.inv(),
            ctx.deadline() == d0,
            d0 == old(ctx).deadline(),
            keys.wf(),
            o.ok(),
            active_color == g0.active_color,
            maximizing == (active_color == Color::White),
            forall|i: int| 0 <= i < ordered@.len() ==> root_moves@.contains(#[trigger] ordered@[i]),
            forall|i: int| 0 <= i < root_moves@.len() ==> playable(g0, #[trigger] root_moves@[i]),
            MIN_EVAL_VALUE <= a < b <= MAX_EVAL_VALUE,
            1 <= depth_now < MAX_SEARCH_DEPTH,
            MIN_EVAL_VALUE <= best_score_raw <= MAX_EVAL_VALUE,
            best matches Some(m) ==> root_moves@.contains(m),
            k > 0 ==> best is Some,
        decreases ordered@.len() - k,
    {
        let m = ordered[k];
        let (from, to, promo) = m;
        assert(root_moves@.contains(ordered@[k as int]));
        let j = Ghost(choose|j: int| 0 <= j < root_moves@.len() && root_moves@[j] == m);
        assert(playable(g0, root_moves@[j@]));
        let (score_raw, is_capture, moved_is_pawn) = evaluate_after_root_move(ctx, heuristics, game_state, from, to, promo,
            depth_now, a, b, tt, rep_stack, keys, o);
        if score_raw == SEARCH_ABORTED {
            return (((0, 0), (0, 0), None), SEARCH_ABORTED, SEARCH_ABORTED);
        }
        let adjusted0 = if -(i32::MAX - ROOT_HEURISTICS_RANGE) <= score_raw && score_raw <= i32::MAX - ROOT_HEURISTICS_RANGE
            && game_state.half_move_clock <= 0x7fff_ffff {
            adjusted_root_eval_for_move(&game_state.board, active_color, from, to, game_state.half_move_clock, score_raw,
                is_capture, moved_is_pawn)
        } else {
            score_raw
        };
        let u = game_state.make_move_fast(from, to, promo);
        let child_key = key_of(keys, game_state);
        game_state.unmake_move_fast(u);
        let count = rep_stack.count(child_key);
        let adjusted = apply_repetition_avoidance_bias(adjusted0, count as usize, score_raw);
        let better = if maximizing { adjusted > best_adjusted } else { adjusted < best_adjusted };
        if better || best.is_none() {
            best = Some(m);
            best_adjusted = adjusted;
            best_score_raw = score_raw;
        }
        if maximizing && score_raw >= b {
            break;
        }
        if !maximizing && score_raw <= a {
            break;
        }
        k = k + 1;
    }
    match best {
        Some(m) => (m, best_adjusted, best_score_raw),
        None => {
            assert(ordered@.len() > 0);
            (ordered[0], best_adjusted, best_score_raw)
        },
    }
}

/// The window actually searched: the given one where it is a window within
/// the score range, else the full range.
pub open spec fn usable_window(a: int, b: int) -> (int, int) {
    if MIN_EVAL_VALUE <= a < b <= MAX_EVAL_VALUE { (a, b) } else { (MIN_EVAL_VALUE + 1, MAX_EVAL_VALUE - 1) }
}

fn usable(a: i32, b: i32) -> (w: (i32, i32))
    ensures
        w.0 == usable_window(a as int, b as int).0,
        w.1 == usable_window(a as int, b as int).1,
{
    if MIN_EVAL_VALUE <= a && a < b && b <= MAX_EVAL_VALUE { (a, b) } else { (MIN_EVAL_VALUE + 1, MAX_EVAL_VALUE - 1) }
}

/// The root search at one depth inside an aspiration window around the
/// last score: the window of `aspiration_bounds_for_depth`, then what
/// `aspiration_step` decides after each try (widen and retry, accept, verify
/// at full width, or fall back to full width after the third try). An empty
/// window, which the bounds can give only next to the ends of the score
/// range, is searched as the full range.
pub fn probe_with_aspiration<E, M, P, Q, L>(
    ctx: &mut SearchContext,
    heuristics: &mut SearchHeuristics,
    active_color: Color,
    root_moves: &Vec<Move>,
    depth_now: usize,
    last_score: i32,
    window: &mut i32,
    tt: &mut TranspositionTable,
    game_state: &mut GameState,
    rep_stack: &mut RepetitionStack,
    keys: &ZobristKeys,
    o: &SearchOracles<E, M, P, Q, L>,
) -> (r: (Move, i32, i32))
    where
        E: Fn(&Board, Color) -> i32,
        M: Fn(&Board, (usize, usize), (usize, usize)) -> i32,
        P: Fn(&Board) -> i32,
        Q: Fn(&Board, usize, usize, Color) -> bool,
        L: Fn(usize, i32) -> usize,
    requires
        old(game_state).wf(),
        old(rep_stack).wf(),
        old(heuristics).wf(),
        old(tt).inv(),
        keys.wf(),
        o.ok(),
        active_color == old(game_state).active_color,
        root_moves@.len() > 0,
        forall|i: int| 0 <= i < root_moves@.len() ==> playable(*old(game_state), #[trigger] root_moves@[i]),
        MIN_EVAL_VALUE <= last_score <= MAX_EVAL_VALUE,
        0 <= *old(window) <= 100_000,
        1 <= depth_now < MAX_SEARCH_DEPTH,
    ensures
        *final(game_state) == *old(game_state),
        final(rep_stack)@ == old(rep_stack)@,
        final(rep_stack).wf(),
        final(heuristics).wf(),
        final(tt).inv(),
        final(ctx).deadline() == old(ctx).deadline(),
        0 <= *final(window) <= 100_000,
        r.2 == SEARCH_ABORTED ==> r.1 == SEARCH_ABORTED,
        r.2 != SEARCH_ABORTED ==> root_moves@.contains(r.0) && MIN_EVAL_VALUE <= r.2 <= MAX_EVAL_VALUE,
{
    let ghost g0 = *game_state;
    let ghost r0 = rep_stack@;
    let ghost d0 = ctx.deadline();
    let bounds = aspiration_bounds_for_depth(depth_now, last_score, *window);
    let mut a = bounds.0;
    let mut b = bounds.1;
    let mut tried: u32 = 0;
    loop
        invariant
            *game_state == g0,
            g0 == *old(game_state),
            g0.wf(),
            rep_stack@ == r0,
            r0 == old(rep_stack)@,
            rep_stack.wf(),
            heuristics.wf(),
            tt.inv(),
            ctx.deadline() == d0,
            d0 == old(ctx).deadline(),
            keys.wf(),
            o.ok(),
            active_color == g0.active_color,
            root_moves@.len() > 0,
            forall|i: int| 0 <= i < root_moves@.len() ==> playable(g0, #[trigger] root_moves@[i]),
            MIN_EVAL_VALUE <= last_score <= MAX_EVAL_VALUE,
            0 <= *window <= 100_000,
            1 <= depth_now < MAX_SEARCH_DEPTH,
            tried < 3,
        decreases 3 - tried,
    {
        tried = tried + 1;
        let (wa, wb) = usable(a, b);
        let first = evaluate_root_for_bounds(ctx, heuristics, active_color, root_moves, depth_now, wa, wb, tt,
            game_state, rep_stack, keys, o);
        let step = aspiration_step(depth_now, last_score, window, a, b, tried, first.2, false);
        match step {
            AspirationStep::Abort => {
                return (((0, 0), (0, 0), None), SEARCH_ABORTED, SEARCH_ABORTED);
            },
            AspirationStep::Retry(na, nb) => {
                a = na;
                b = nb;
            },
            AspirationStep::Accept(None) => {
                return first;
            },
            AspirationStep::Accept(Some((fa, fb))) => {
                let (va, vb) = usable(fa, fb);
                return evaluate_root_for_bounds(ctx, heuristics, active_color, root_moves, depth_now, va, vb, tt,
                    game_state, rep_stack, keys, o);
            },
            AspirationStep::FullWidth(fa, fb) => {
                let (va, vb) = usable(fa, fb);
                return evaluate_root_for_bounds(ctx, heuristics, active_color, root_moves, depth_now, va, vb, tt,
                    game_state, rep_stack, keys, o);
            },
        }
    }
}

/// The score change between two iterations, limited to what the
/// aspiration window update takes.
fn score_change(a: i32, b: i32) -> (d: i32)
    ensures
        d == (if a - b > i32::MAX - ASP_WINDOW_INIT_CP { i32::MAX - ASP_WINDOW_INIT_CP }
            else if a - b < -(i32::MAX - ASP_WINDOW_INIT_CP) { i32::MAX - ASP_WINDOW_INIT_CP }
            else if a - b >= 0 { a - b } else { b - a }),
{
    let d: i64 = a as i64 - b as i64;
    let m: i64 = (i32::MAX - ASP_WINDOW_INIT_CP) as i64;
    if d > m || d < -m {
        i32::MAX - ASP_WINDOW_INIT_CP
    } else if d >= 0 {
        d as i32
    } else {
        (-d) as i32
    }
}

fn same_move(a: Move, b: Move) -> (r: bool)
    ensures
        r == (a == b),
{
    let same_promo = match (a.2, b.2) {
        (Some(x), Some(y)) => x == y,
        (None, None) => true,
        _ => false,
    };
    a.0.0 == b.0.0 && a.0.1 == b.0.1 && a.1.0 == b.1.0 && a.1.1 == b.1.1 && same_promo
}

/// The best move by iterative deepening: depths 1 to `search_depth` (0
/// counts as 1), each searched by `probe_with_aspiration` around the last
/// score, the root moves ordered first by `order_root_moves_by_priority`
/// and then with each iteration's best move in front. When the best move
/// changes from one depth to the next and the clock has a budget, the
/// deadline moves later by half the budget (at most 500 ms), up to three
/// quarters of the budget in all. A time-out keeps the last finished
/// iteration's choice, or the first root move with score 0 at depth 1 if
/// none finished. Gives the move, its root score and the depth it comes
/// from; nothing without a legal move.
pub fn find_best_move<E, M, P, Q, L>(
    ctx: &mut SearchContext,
    game_state: &GameState,
    rep_stack: &mut RepetitionStack,
    search_depth: usize,
    tt: &mut TranspositionTable,
    keys: &ZobristKeys,
    o: &SearchOracles<E, M, P, Q, L>,
) -> (r: Option<((usize, usize), (usize, usize), Option<char>, i32, usize)>)
    where
        E: Fn(&Board, Color) -> i32,
        M: Fn(&Board, (usize, usize), (usize, usize)) -> i32,
        P: Fn(&Board) -> i32,
        Q: Fn(&Board, usize, usize, Color) -> bool,
        L: Fn(usize, i32) -> usize,
    requires
        game_state.wf(),
        old(rep_stack).wf(),
        old(tt).inv(),
        keys.wf(),
        o.ok(),
        search_depth < MAX_SEARCH_DEPTH,
    ensures
        final(rep_stack)@ == old(rep_stack)@,
        final(rep_stack).wf(),
        final(tt).inv(),
        r is None <==> generated_list(*game_state, false).len() == 0,
        r matches Some(x) ==> spec_generated(*game_state, (x.0, x.1, x.2))
            && 1 <= x.4 <= (if search_depth == 0 { 1 } else { search_depth }),
{
    let mut heuristics = SearchHeuristics::new(128);
    let mut gs = *game_state;
    let root_moves = find_all_valid_moves(&mut gs);
    let ghost gen = root_moves@;
    let active_color = gs.active_color;
    if root_moves.len() == 0 {
        return None;
    }
    let search_depth = if search_depth == 0 { 1 } else { search_depth };
    assert forall|i: int| 0 <= i < root_moves@.len() implies on_board(#[trigger] root_moves@[i].0) && on_board(root_moves@[i].1) by {
        assert(root_moves@.contains(root_moves@[i]));
        assert(playable(*game_state, root_moves@[i]));
    }
    assert(moves_on_board(root_moves@));
    let mut root_moves = root_moves;
    order_root_moves_by_priority(&mut root_moves, &gs.board, active_color);
    let ghost r0 = rep_stack@;
    let mut last_score: i32 = 0;
    let mut window: i32 = ASP_WINDOW_INIT_CP;
    let mut chosen: Option<((usize, usize), (usize, usize), Option<char>, i32, usize)> = None;
    let base_budget_ms = ctx.time_budget_ms();
    let max_extra_ms: usize = if base_budget_ms <= usize::MAX / 75 { base_budget_ms * 75 / 100 } else { usize::MAX / 100 };
    let mut extra_used_ms: usize = 0;
    let mut last_best_move: Option<Move> = None;
    let mut depth_now: usize = 1;
    while depth_now <= search_depth
        invariant
            gs == *game_state,
            gs.wf(),
            active_color == gs.active_color,
            rep_stack@ == r0,
            r0 == old(rep_stack)@,
            rep_stack.wf(),
            heuristics.wf(),
            tt.inv(),
            keys.wf(),
            o.ok(),
            1 <= search_depth < MAX_SEARCH_DEPTH,
            1 <= depth_now <= search_depth + 1,
            root_moves@.len() == gen.len(),
            gen.len() > 0,
            forall|m: Move| #[trigger] root_moves@.contains(m) <==> gen.contains(m),
            forall|m: Move| #[trigger] gen.contains(m) <==> spec_generated(*game_state, m),
            MIN_EVAL_VALUE <= last_score <= MAX_EVAL_VALUE,
            0 <= window <= 100_000,
            extra_used_ms <= max_extra_ms,
            chosen matches Some(x) ==> gen.contains((x.0, x.1, x.2)) && 1 <= x.4 <= search_depth,
            depth_now > 1 ==> chosen is Some,
        ensures
            chosen is Some,
            chosen matches Some(x) ==> gen.contains((x.0, x.1, x.2)) && 1 <= x.4 <= search_depth,
            rep_stack@ == r0,
            rep_stack.wf(),
            tt.inv(),
        decreases search_depth + 1 - depth_now,
    {
        assert forall|i: int| 0 <= i < root_moves@.len() implies playable(gs, #[trigger] root_moves@[i]) by {
            assert(root_moves@.contains(root_moves@[i]));
            assert(gen.contains(root_moves@[i]));
        }
        tt.next_age();
        let (m, best_adj, best_raw) = probe_with_aspiration(ctx, &mut heuristics, active_color, &root_moves, depth_now,
            last_score, &mut window, tt, &mut gs, rep_stack, keys, o);
        if best_raw == SEARCH_ABORTED {
            if chosen.is_none() {
                let first = root_moves[0];
                assert(root_moves@.contains(root_moves@[0]));
                chosen = Some((first.0, first.1, first.2, 0, 1));
            }
            break;
        }
        if depth_now >= 2 {
            if let Some(lm) = last_best_move {
                if !same_move(lm, m) && base_budget_ms > 0 && extra_used_ms < max_extra_ms {
                    let mut extend_ms = base_budget_ms / 2;
                    if extend_ms > 500 {
                        extend_ms = 500;
                    }
                    let remaining_extra = max_extra_ms - extra_used_ms;
                    if extend_ms > remaining_extra {
                        extend_ms = remaining_extra;
                    }
                    if extend_ms > 0 {
                        ctx.extend_time_budget_ms(extend_ms);
                        extra_used_ms = extra_used_ms + extend_ms;
                    }
                }
            }
        }
        last_best_move = Some(m);
        let score_delta = score_change(best_raw, last_score);
        last_score = best_raw;
        window = next_aspiration_window(window, score_delta);
        chosen = Some((m.0, m.1, m.2, best_adj, depth_now));
        let mut pos: usize = 0;
        while pos < root_moves.len()
            invariant
                pos <= root_moves@.len(),
            decreases root_moves@.len() - pos,
        {
            if same_move(root_moves[pos], m) {
                break;
            }
            pos = pos + 1;
        }
        if pos > 0 && pos < root_moves.len() {
            let ghost before = root_moves@;
            let best = root_moves.remove(pos);
            root_moves.insert(0, best);
            proof {
                assert(root_moves@ =~= seq![before[pos as int]] + before.remove(pos as int));
                lemma_front_members(before, pos as int);
            }
        }
        depth_now = depth_now + 1;
    }
    chosen
}

} // verus!
