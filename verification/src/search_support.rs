//! Numbers the search steers by: score bounds, aspiration windows, window
//! helpers, history thresholds and the playing-strength mapping.
use vstd::prelude::*;
use crate::pieces::Color;

verus! {

/// The lowest and highest scores a search reports.
pub const MIN_EVAL_VALUE: i32 = -2_147_383_648;
pub const MAX_EVAL_VALUE: i32 = 2_147_383_647;
/// The value a search returns when its time ran out.
pub const SEARCH_ABORTED: i32 = 2_147_433_647;

pub const ASP_WINDOW_INIT_CP: i32 = 30;
pub const ASP_WINDOW_MAX_CP: i32 = 400;
pub const ASP_VERIFY_MIN_DEPTH: usize = 5;
pub const ASP_VERIFY_WINDOW_MAX_CP: i32 = 200;
pub const ASP_VERIFY_SCORE_LIMIT: i32 = 2000;

pub const PLAYING_STRENGTH_MAX: usize = 1000;

pub open spec fn clamp_i(x: int, lo: int, hi: int) -> int {
    if x < lo { lo } else if x > hi { hi } else { x }
}

pub open spec fn abs_i(x: int) -> int {
    if x >= 0 { x } else { -x }
}

/// Integer division rounding toward zero.
pub open spec fn tdiv(a: int, b: int) -> int {
    if a >= 0 { a / b } else { -((-a) / b) }
}

/// The next half-window: the mean of the previous one and 30 plus the
/// size of the last score change, both kept within 30..=400.
pub fn next_aspiration_window(prev_window: i32, score_delta: i32) -> (w: i32)
    requires
        -(i32::MAX - ASP_WINDOW_INIT_CP) <= score_delta <= i32::MAX - ASP_WINDOW_INIT_CP,
        prev_window <= i32::MAX - ASP_WINDOW_MAX_CP,
    ensures
        w == clamp_i(tdiv(prev_window + clamp_i(ASP_WINDOW_INIT_CP + abs_i(score_delta as int), ASP_WINDOW_INIT_CP as int, ASP_WINDOW_MAX_CP as int), 2),
            ASP_WINDOW_INIT_CP as int, ASP_WINDOW_MAX_CP as int),
        ASP_WINDOW_INIT_CP <= w <= ASP_WINDOW_MAX_CP,
{
    let delta = if score_delta >= 0 { score_delta } else { -score_delta };
    let raw = ASP_WINDOW_INIT_CP + delta;
    let target = if raw < ASP_WINDOW_INIT_CP { ASP_WINDOW_INIT_CP } else if raw > ASP_WINDOW_MAX_CP { ASP_WINDOW_MAX_CP } else { raw };
    let blended = (prev_window + target) / 2;
    if blended < ASP_WINDOW_INIT_CP { ASP_WINDOW_INIT_CP } else if blended > ASP_WINDOW_MAX_CP { ASP_WINDOW_MAX_CP } else { blended }
}

/// A re-search with a full window is worth it from depth 5 on, with a
/// window of at most 200 and a score within 2000 of zero.
pub fn should_verify_aspiration(depth_now: usize, window: i32, best_raw: i32) -> (b: bool)
    ensures
        b == (depth_now >= ASP_VERIFY_MIN_DEPTH && window <= ASP_VERIFY_WINDOW_MAX_CP
            && abs_i(best_raw as int) <= ASP_VERIFY_SCORE_LIMIT),
{
    if depth_now < ASP_VERIFY_MIN_DEPTH {
        return false;
    }
    if window > ASP_VERIFY_WINDOW_MAX_CP {
        return false;
    }
    -ASP_VERIFY_SCORE_LIMIT <= best_raw && best_raw <= ASP_VERIFY_SCORE_LIMIT
}

/// The search window for a depth: the full range up to depth 3, else the
/// last score plus or minus the half-window, within the full range.
pub fn aspiration_bounds_for_depth(depth_now: usize, last_score: i32, window: i32) -> (r: (i32, i32))
    requires
        MIN_EVAL_VALUE <= last_score <= MAX_EVAL_VALUE,
        0 <= window <= 100_000,
    ensures
        depth_now <= 3 ==> r.0 == MIN_EVAL_VALUE + 1 && r.1 == MAX_EVAL_VALUE - 1,
        depth_now > 3 ==> r.0 == (if last_score - window > MIN_EVAL_VALUE + 1 { last_score - window } else { MIN_EVAL_VALUE + 1 })
            && r.1 == (if last_score + window < MAX_EVAL_VALUE - 1 { last_score + window } else { MAX_EVAL_VALUE - 1 }),
        MIN_EVAL_VALUE < r.0 && r.1 < MAX_EVAL_VALUE,
{
    if depth_now <= 3 {
        (MIN_EVAL_VALUE + 1, MAX_EVAL_VALUE - 1)
    } else {
        let lo = last_score - window;
        let hi = last_score + window;
        (if lo > MIN_EVAL_VALUE + 1 { lo } else { MIN_EVAL_VALUE + 1 }, if hi < MAX_EVAL_VALUE - 1 { hi } else { MAX_EVAL_VALUE - 1 })
    }
}

/// What the aspiration loop does once the root search at bounds
/// `(alpha, beta)` has returned.
#[derive(Clone, Copy, Debug, PartialEq, Eq)]
pub enum AspirationStep {
    /// The search ran out of time: the loop gives up.
    Abort,
    /// Search again at these bounds.
    Retry(i32, i32),
    /// The score lies inside the window. With `None` it is kept; with
    /// `Some` the root is searched once more at those bounds and that result
    /// is kept.
    Accept(Option<(i32, i32)>),
    /// Still outside the window after the third try: search once at full
    /// width and keep that.
    FullWidth(i32, i32),
}

/// The half-window after a fail: doubled, at most 400.
pub open spec fn widened_window(window: int) -> int {
    if window * 2 < ASP_WINDOW_MAX_CP { window * 2 } else { ASP_WINDOW_MAX_CP as int }
}

pub open spec fn asp_low(depth_now: usize, last_score: int, window: int) -> int {
    if depth_now <= 3 { MIN_EVAL_VALUE + 1 }
    else if last_score - window > MIN_EVAL_VALUE + 1 { last_score - window } else { MIN_EVAL_VALUE + 1 }
}

pub open spec fn asp_high(depth_now: usize, last_score: int, window: int) -> int {
    if depth_now <= 3 { MAX_EVAL_VALUE - 1 }
    else if last_score + window < MAX_EVAL_VALUE - 1 { last_score + window } else { MAX_EVAL_VALUE - 1 }
}

/// The decision of the aspiration loop after try number `tried` (counted
/// from 1) at bounds `(alpha, beta)` returned `best_raw`: give up on an
/// aborted search; on a fail low (high) double the half-window, up to 400,
/// lower alpha (raise beta) to match, and try again while fewer than three
/// tries were made, else fall back to a full-width search; inside the window,
/// search once more at full width where `should_verify_aspiration` asks for
/// it, or at the same bounds where all root scores are to be collected.
pub fn aspiration_step(
    depth_now: usize,
    last_score: i32,
    window: &mut i32,
    alpha: i32,
    beta: i32,
    tried: u32,
    best_raw: i32,
    collect_all_scores: bool,
) -> (step: AspirationStep)
    requires
        MIN_EVAL_VALUE <= last_score <= MAX_EVAL_VALUE,
        0 <= *old(window) <= 100_000,
    ensures
        best_raw == SEARCH_ABORTED ==> step == AspirationStep::Abort && *final(window) == *old(window),
        best_raw != SEARCH_ABORTED && best_raw <= alpha ==> {
            &&& *final(window) == widened_window(*old(window) as int)
            &&& step == (if tried < 3 {
                AspirationStep::Retry(asp_low(depth_now, last_score as int, *final(window) as int) as i32, beta)
            } else {
                AspirationStep::FullWidth((MIN_EVAL_VALUE + 1) as i32, (MAX_EVAL_VALUE - 1) as i32)
            })
        },
        best_raw != SEARCH_ABORTED && alpha < best_raw && best_raw >= beta ==> {
            &&& *final(window) == widened_window(*old(window) as int)
            &&& step == (if tried < 3 {
                AspirationStep::Retry(alpha, asp_high(depth_now, last_score as int, *final(window) as int) as i32)
            } else {
                AspirationStep::FullWidth((MIN_EVAL_VALUE + 1) as i32, (MAX_EVAL_VALUE - 1) as i32)
            })
        },
        best_raw != SEARCH_ABORTED && alpha < best_raw < beta ==> {
            let verify = depth_now >= ASP_VERIFY_MIN_DEPTH && *old(window) <= ASP_VERIFY_WINDOW_MAX_CP
                && abs_i(best_raw as int) <= ASP_VERIFY_SCORE_LIMIT;
            &&& *final(window) == *old(window)
            &&& step == (if verify {
                AspirationStep::Accept(Some(((MIN_EVAL_VALUE + 1) as i32, (MAX_EVAL_VALUE - 1) as i32)))
            } else if collect_all_scores {
                AspirationStep::Accept(Some((alpha, beta)))
            } else {
                AspirationStep::Accept(None)
            })
        },
        0 <= *final(window) <= 100_000,
{
    if best_raw == SEARCH_ABORTED {
        return AspirationStep::Abort;
    }
    if best_raw <= alpha {
        let doubled = *window * 2;
        *window = if doubled < ASP_WINDOW_MAX_CP { doubled } else { ASP_WINDOW_MAX_CP };
        let bounds = aspiration_bounds_for_depth(depth_now, last_score, *window);
        if tried < 3 {
            return AspirationStep::Retry(bounds.0, beta);
        }
        return AspirationStep::FullWidth(MIN_EVAL_VALUE + 1, MAX_EVAL_VALUE - 1);
    }
    if best_raw >= beta {
        let doubled = *window * 2;
        *window = if doubled < ASP_WINDOW_MAX_CP { doubled } else { ASP_WINDOW_MAX_CP };
        let bounds = aspiration_bounds_for_depth(depth_now, last_score, *window);
        if tried < 3 {
            return AspirationStep::Retry(alpha, bounds.1);
        }
        return AspirationStep::FullWidth(MIN_EVAL_VALUE + 1, MAX_EVAL_VALUE - 1);
    }
    let needs_verify = should_verify_aspiration(depth_now, *window, best_raw);
    if needs_verify {
        AspirationStep::Accept(Some((MIN_EVAL_VALUE + 1, MAX_EVAL_VALUE - 1)))
    } else if collect_all_scores {
        AspirationStep::Accept(Some((alpha, beta)))
    } else {
        AspirationStep::Accept(None)
    }
}

/// The worst score for the side to maximise or minimise.
pub fn initial_value(maximizing: bool) -> (v: i32)
    ensures
        v == (if maximizing { MIN_EVAL_VALUE } else { MAX_EVAL_VALUE }),
{
    if maximizing { MIN_EVAL_VALUE } else { MAX_EVAL_VALUE }
}

pub fn is_better(score: i32, best: i32, maximizing: bool) -> (b: bool)
    ensures
        b == (if maximizing { score > best } else { score < best }),
{
    if maximizing { score > best } else { score < best }
}

/// The null window next to alpha (maximising) or beta (minimising).
pub fn null_window(alpha: i32, beta: i32, maximizing: bool) -> (w: (i32, i32))
    requires
        maximizing ==> alpha < i32::MAX,
        !maximizing ==> beta > i32::MIN,
    ensures
        maximizing ==> w.0 == alpha,
        !maximizing ==> w.1 == beta,
        w.1 == w.0 + 1,
{
    if maximizing { (alpha, alpha + 1) } else { (beta - 1, beta) }
}

/// A history score above 10000 marks a good move.
pub fn is_good_history(hist: i32) -> (b: bool)
    ensures
        b == (hist > 10_000),
{
    hist > 10_000
}

pub fn opponent(color: Color) -> (o: Color)
    ensures
        o == crate::pieces::spec_opposite(color),
{
    match color {
        Color::White => Color::Black,
        Color::Black => Color::White,
    }
}

/// The strength clamped to 1..=1000.
pub open spec fn clamp_strength(ps: usize) -> int {
    if ps > PLAYING_STRENGTH_MAX { PLAYING_STRENGTH_MAX as int } else if ps < 1 { 1 } else { ps as int }
}

/// Evaluation noise for a playing strength, piecewise linear: 0 at full
/// strength, 30 at 700, 90 at 400, about 210 at the bottom.
pub open spec fn spec_noise_sigma(ps: usize) -> int {
    let p = clamp_strength(ps);
    if p >= 1000 {
        0
    } else if p >= 700 {
        (1000 - p) / 10
    } else if p >= 400 {
        (700 - p) / 5 + 30
    } else {
        (3 * (400 - p)) / 10 + 90
    }
}

pub fn strength_noise_sigma(ps: usize) -> (sigma: i32)
    ensures
        sigma == spec_noise_sigma(ps),
        0 <= sigma <= 210,
{
    let p: i32 = if ps > PLAYING_STRENGTH_MAX { 1000 } else if ps < 1 { 1 } else { ps as i32 };
    let sigma: i32 = if p >= 1000 {
        0
    } else if p >= 700 {
        (1000 - p) / 10
    } else if p >= 400 {
        (700 - p) / 5 + 30
    } else {
        (3 * (400 - p)) / 10 + 90
    };
    if sigma > 0 { sigma } else { 0 }
}

/// How many of the best moves a weaker setting chooses among: 1 at 950 and
/// above, then 2, 3, 4, 5, 6 and 8 going down, never more than the six best
/// nor more than there are moves.
pub open spec fn spec_top_k(ps: usize, len: usize) -> int {
    let p = clamp_strength(ps);
    let k: int = if p >= 950 { 1 } else if p >= 800 { 2 } else if p >= 650 { 3 } else if p >= 500 { 4 }
        else if p >= 350 { 5 } else if p >= 200 { 6 } else { 8 };
    let max_bucket: int = if len < 6 { len as int } else { 6 };
    let k2 = if k < max_bucket { k } else { max_bucket };
    if k2 > 1 { k2 } else { 1 }
}

pub fn strength_top_k(ps: usize, len: usize) -> (k: usize)
    ensures
        k == spec_top_k(ps, len),
        1 <= k <= 8,
{
    let p: usize = if ps > PLAYING_STRENGTH_MAX { 1000 } else if ps < 1 { 1 } else { ps };
    let k: usize = if p >= 950 { 1 } else if p >= 800 { 2 } else if p >= 650 { 3 } else if p >= 500 { 4 }
        else if p >= 350 { 5 } else if p >= 200 { 6 } else { 8 };
    let max_bucket: usize = if len < 6 { len } else { 6 };
    let k2 = if k < max_bucket { k } else { max_bucket };
    if k2 > 1 { k2 } else { 1 }
}

/// The chance, in thousandths, that a weaker setting blunders on purpose.
pub fn blunder_chance_per_mille(ps: usize) -> (c: u32)
    ensures
        c == (if clamp_strength(ps) >= 950 { 0u32 } else if clamp_strength(ps) >= 800 { 10u32 }
            else if clamp_strength(ps) >= 650 { 30u32 } else if clamp_strength(ps) >= 500 { 50u32 }
            else if clamp_strength(ps) >= 350 { 100u32 } else { 180u32 }),
{
    let p: usize = if ps > PLAYING_STRENGTH_MAX { 1000 } else if ps < 1 { 1 } else { ps };
    if p >= 950 { 0 } else if p >= 800 { 10 } else if p >= 650 { 30 } else if p >= 500 { 50 } else if p >= 350 { 100 } else { 180 }
}

/// The move at the smaller of two drawn indices, which favours the front of
/// a list sorted best first.
pub fn pick_biased(sorted_moves: &Vec<((usize, usize), (usize, usize), i32)>, r1: usize, r2: usize) -> (m: Option<((usize, usize), (usize, usize))>)
    ensures
        ({
            let idx = if r1 < r2 { r1 } else { r2 };
            m == (if idx < sorted_moves@.len() { Some((sorted_moves@[idx as int].0, sorted_moves@[idx as int].1)) } else { None })
        }),
{
    let idx = if r1 < r2 { r1 } else { r2 };
    if idx < sorted_moves.len() {
        let pick = sorted_moves[idx];
        Some((pick.0, pick.1))
    } else {
        None
    }
}

/// Which search a caller asks for.
#[derive(Clone, Copy, Debug, PartialEq, Eq, Structural)]
pub enum SearchMode {
    Normal,
    Test,
}

/// What a root score loses when the move repeats a position for the third time.
pub const REP_AVOIDANCE_BIAS_CP: i32 = 2000;

/// The root score after a move that would repeat a position for the third
/// time, given how often that position occurred before: when it did twice
/// or more, a winning score drops by 2000, the score is held to -10..=10,
/// and a drawn search score stays 0.
pub open spec fn spec_repetition_bias(adjusted: int, repetition_count: int, score_raw: int) -> int {
    if repetition_count >= 2 {
        let a1 = if adjusted > 0 { adjusted - REP_AVOIDANCE_BIAS_CP } else { adjusted };
        let a2 = clamp_i(a1, -10, 10);
        if score_raw == 0 { 0 } else { a2 }
    } else {
        adjusted
    }
}

pub fn apply_repetition_avoidance_bias(adjusted: i32, repetition_count: usize, score_raw: i32) -> (r: i32)
    ensures
        r == spec_repetition_bias(adjusted as int, repetition_count as int, score_raw as int),
        repetition_count >= 2 ==> -10 <= r <= 10,
        repetition_count >= 2 && score_raw == 0 ==> r == 0,
{
    let mut adj = adjusted;
    if repetition_count >= 2 {
        if adj > 0 {
            adj = adj - REP_AVOIDANCE_BIAS_CP;
        }
        adj = if adj < -10 { -10 } else if adj > 10 { 10 } else { adj };
        if score_raw == 0 {
            adj = 0;
        }
    }
    adj
}

pub open spec fn sorted_asc(v: Seq<((usize, usize), (usize, usize), i32)>) -> bool {
    forall|i: int, j: int| 0 <= i < j < v.len() ==> #[trigger] v[i].2 <= #[trigger] v[j].2
}

/// `x` placed after the leading entries of `r` that score at most as much.
pub open spec fn insert_by_score_asc(r: Seq<((usize, usize), (usize, usize), i32)>, x: ((usize, usize), (usize, usize), i32))
    -> Seq<((usize, usize), (usize, usize), i32)>
    decreases r.len(),
{
    if r.len() == 0 {
        seq![x]
    } else if r[0].2 <= x.2 {
        seq![r[0]] + insert_by_score_asc(r.drop_first(), x)
    } else {
        seq![x] + r
    }
}

/// `v` ordered by score, lowest first, entries of equal score in their
/// order in `v`.
pub open spec fn sort_by_score_asc(v: Seq<((usize, usize), (usize, usize), i32)>) -> Seq<((usize, usize), (usize, usize), i32)>
    decreases v.len(),
{
    if v.len() == 0 {
        v
    } else {
        insert_by_score_asc(sort_by_score_asc(v.drop_last()), v.last())
    }
}

proof fn lemma_insert_by_score_asc(r: Seq<((usize, usize), (usize, usize), i32)>, x: ((usize, usize), (usize, usize), i32), p: int)
    requires
        0 <= p <= r.len(),
        forall|q: int| 0 <= q < p ==> #[trigger] r[q].2 <= x.2,
        p < r.len() ==> r[p].2 > x.2,
    ensures
        insert_by_score_asc(r, x) == r.insert(p, x),
    decreases p,
{
    if p == 0 {
        if r.len() == 0 {
            assert(r.insert(0, x) =~= seq![x]);
        } else {
            assert(r.insert(0, x) =~= seq![x] + r);
        }
    } else {
        let t = r.drop_first();
        assert forall|q: int| 0 <= q < p - 1 implies #[trigger] t[q].2 <= x.2 by {
            assert(t[q] == r[q + 1]);
        }
        if p - 1 < t.len() {
            assert(t[p - 1] == r[p]);
        }
        lemma_insert_by_score_asc(t, x, p - 1);
        assert(r.insert(p, x) =~= seq![r[0]] + t.insert(p - 1, x));
    }
}

/// Sorts the move table by score, lowest first; equal scores keep their order.
pub fn sort_moves_on_score_asc(move_table: &mut Vec<((usize, usize), (usize, usize), i32)>)
    ensures
        final(move_table)@ == sort_by_score_asc(old(move_table)@),
        final(move_table)@.len() == old(move_table)@.len(),
        sorted_asc(final(move_table)@),
        forall|x: ((usize, usize), (usize, usize), i32)| #[trigger] final(move_table)@.contains(x) <==> old(move_table)@.contains(x),
{
    let mut r: Vec<((usize, usize), (usize, usize), i32)> = Vec::new();
    let mut k: usize = 0;
    while k < move_table.len()
        invariant
            k <= move_table@.len(),
            move_table@ == old(move_table)@,
            r@.len() == k,
            sorted_asc(r@),
            forall|x: ((usize, usize), (usize, usize), i32)| #[trigger] r@.contains(x) <==> move_table@.take(k as int).contains(x),
            r@ == sort_by_score_asc(move_table@.take(k as int)),
        decreases move_table@.len() - k,
    {
        let x = move_table[k];
        let mut p: usize = 0;
        while p < r.len() && r[p].2 <= x.2
            invariant
                p <= r@.len(),
                forall|q: int| 0 <= q < p ==> #[trigger] r@[q].2 <= x.2,
            decreases r@.len() - p,
        {
            p = p + 1;
        }
        let ghost old_r = r@;
        r.insert(p, x);
        proof {
            old_r.insert_ensures(p as int, x);
            assert(move_table@.take(k as int + 1) =~= move_table@.take(k as int).push(x));
            if (p as int) < old_r.len() {
                assert(old_r[p as int].2 > x.2);
            }
            lemma_insert_by_score_asc(old_r, x, p as int);
            let tk = move_table@.take(k as int + 1);
            assert(tk.drop_last() =~= move_table@.take(k as int));
            assert(tk.last() == x);
            assert forall|y: ((usize, usize), (usize, usize), i32)| #[trigger] r@.contains(y) <==> move_table@.take(k as int + 1).contains(y) by {
                lemma_insert_contains_moves(old_r, p as int, x, y);
                crate::seq_facts::lemma_push_contains(move_table@.take(k as int), x, y);
            }
            assert forall|i: int, j: int| 0 <= i < j < r@.len() implies #[trigger] r@[i].2 <= #[trigger] r@[j].2 by {
                if j < p {
                } else if j == p {
                } else if i < p {
                    assert(r@[j] == old_r[j - 1]);
                    if p < old_r.len() {
                        assert(old_r[p as int].2 > x.2);
                    }
                } else if i == p {
                    assert(r@[j] == old_r[j - 1]);
                    assert(old_r[p as int].2 > x.2);
                    if j - 1 > p {
                        assert(old_r[p as int].2 <= old_r[j - 1].2);
                    }
                } else {
                    assert(r@[i] == old_r[i - 1]);
                    assert(r@[j] == old_r[j - 1]);
                }
            }
        }
        k = k + 1;
    }
    proof {
        assert(move_table@.take(move_table@.len() as int) =~= move_table@);
    }
    *move_table = r;
}

proof fn lemma_insert_contains_moves(s: Seq<((usize, usize), (usize, usize), i32)>, p: int, x: ((usize, usize), (usize, usize), i32), y: ((usize, usize), (usize, usize), i32))
    requires
        0 <= p <= s.len(),
    ensures
        s.insert(p, x).contains(y) <==> (s.contains(y) || y == x),
{
    s.insert_ensures(p, x);
    let t = s.insert(p, x);
    if t.contains(y) {
        let k = choose|k: int| 0 <= k < t.len() && t[k] == y;
        if k < p {
            assert(s[k] == y);
        } else if k > p {
            assert(t[(k - 1) + 1] == s[k - 1]);
        }
    }
    if s.contains(y) {
        let k = choose|k: int| 0 <= k < s.len() && s[k] == y;
        if k < p {
            assert(t[k] == y);
        } else {
            assert(t[k + 1] == y);
        }
    }
    if y == x {
        assert(t[p] == y);
    }
}

} // verus!
