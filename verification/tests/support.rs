use chess_engine::context::{set_time_budget_ms, time_is_up, SearchContext};
use chess_engine::notation::as_square_str;
use chess_engine::tt::{Bound, TranspositionTable};
use chess_engine::search_support::{
    apply_repetition_avoidance_bias, aspiration_bounds_for_depth, aspiration_step, sort_moves_on_score_asc, AspirationStep, blunder_chance_per_mille, initial_value, is_better,
    is_good_history, next_aspiration_window, null_window, pick_biased, should_verify_aspiration, strength_noise_sigma,
    strength_top_k, MAX_EVAL_VALUE, MIN_EVAL_VALUE, SEARCH_ABORTED,
};

#[test]
fn eval_bounds_constants() {
    assert_eq!(MIN_EVAL_VALUE, i32::MIN + 100_000);
    assert_eq!(MAX_EVAL_VALUE, i32::MAX - 100_000);
    assert_eq!(SEARCH_ABORTED, MAX_EVAL_VALUE + 50_000);
    assert_eq!(initial_value(true), MIN_EVAL_VALUE);
    assert_eq!(initial_value(false), MAX_EVAL_VALUE);
    assert!(is_better(5, 3, true));
    assert!(is_better(3, 5, false));
    assert_eq!(null_window(10, 50, true), (10, 11));
    assert_eq!(null_window(10, 50, false), (49, 50));
    assert!(is_good_history(10_001));
    assert!(!is_good_history(10_000));
}

#[test]
fn aspiration_windows() {
    assert_eq!(next_aspiration_window(30, 0), 30);
    assert_eq!(next_aspiration_window(30, 100), 80);
    assert_eq!(next_aspiration_window(400, -1000), 400);
    assert_eq!(next_aspiration_window(-500, 0), 30);
    assert_eq!(aspiration_bounds_for_depth(3, 100, 30), (MIN_EVAL_VALUE + 1, MAX_EVAL_VALUE - 1));
    assert_eq!(aspiration_bounds_for_depth(4, 100, 30), (70, 130));
    assert_eq!(aspiration_bounds_for_depth(6, MAX_EVAL_VALUE - 5, 30), (MAX_EVAL_VALUE - 35, MAX_EVAL_VALUE - 1));
    assert!(should_verify_aspiration(5, 200, -2000));
    assert!(!should_verify_aspiration(4, 30, 0));
    assert!(!should_verify_aspiration(5, 201, 0));
    assert!(!should_verify_aspiration(5, 30, 2001));
}

fn float_sigma(ps: usize) -> i32 {
    let ps = ps.min(1000).max(1) as i32;
    let sigma = if ps >= 1000 {
        0
    } else if ps >= 700 {
        ((1000 - ps) as f32 * 0.10) as i32
    } else if ps >= 400 {
        ((700 - ps) as f32 * 0.20 + 30.0) as i32
    } else {
        ((400 - ps) as f32 * 0.30 + 90.0) as i32
    };
    sigma.max(0)
}

#[test]
fn noise_sigma_matches_float_formula() {
    for ps in 0..=1100usize {
        assert_eq!(strength_noise_sigma(ps), float_sigma(ps), "strength {}", ps);
    }
    assert_eq!(strength_noise_sigma(1000), 0);
    assert_eq!(strength_noise_sigma(700), 30);
    assert_eq!(strength_noise_sigma(400), 90);
    assert_eq!(strength_noise_sigma(1), 209);
}

#[test]
fn strength_buckets() {
    assert_eq!(strength_top_k(1000, 20), 1);
    assert_eq!(strength_top_k(800, 20), 2);
    assert_eq!(strength_top_k(100, 20), 6);
    assert_eq!(strength_top_k(100, 3), 3);
    assert_eq!(strength_top_k(0, 0), 1);
    assert_eq!(blunder_chance_per_mille(1000), 0);
    assert_eq!(blunder_chance_per_mille(820), 10);
    assert_eq!(blunder_chance_per_mille(0), 180);
    let mv = vec![((1, 4), (3, 4), 50), ((0, 6), (2, 5), 40), ((1, 3), (3, 3), 30)];
    assert_eq!(pick_biased(&mv, 2, 1), Some(((0, 6), (2, 5))));
    assert_eq!(pick_biased(&mv, 0, 2), Some(((1, 4), (3, 4))));
    assert_eq!(pick_biased(&mv, 5, 9), None);
}

#[test]
fn repetition_bias() {
    assert_eq!(apply_repetition_avoidance_bias(500, 2, 500), -10);
    assert_eq!(apply_repetition_avoidance_bias(5000, 3, 100), 10);
    assert_eq!(apply_repetition_avoidance_bias(-300, 2, -300), -10);
    assert_eq!(apply_repetition_avoidance_bias(7, 2, 0), 0);
    assert_eq!(apply_repetition_avoidance_bias(500, 1, 500), 500);
}

#[test]
fn context_time_budget() {
    let mut ctx = SearchContext::new();
    assert!(!ctx.time_is_up());
    assert_eq!(ctx.time_budget_ms(), 0);
    ctx.set_time_budget_ms_at(1000, 5_000);
    assert_eq!(ctx.time_budget_ms(), 1000);
    assert!(!ctx.time_is_up_at(5_999));
    assert!(ctx.time_is_up_at(6_000));
    assert_eq!(ctx.time_remaining_ms_at(5_400), 600);
    assert_eq!(ctx.time_remaining_ms_at(7_000), 0);
    ctx.extend_time_budget_ms(500);
    assert_eq!(ctx.time_budget_ms(), 1500);
    ctx.set_deterministic(true);
    ctx.set_time_budget_ms_at(1000, 5_000);
    assert_eq!(ctx.time_budget_ms(), 1500);
    ctx.set_time_budget_ms_at(0, 5_000);
    assert_eq!(ctx.time_budget_ms(), 0);
    assert!(!ctx.time_is_up_at(u64::MAX));
    ctx.clear_time_budget();
    assert_eq!(ctx.time_remaining_ms(), 0);
    set_time_budget_ms(&mut ctx, 60_000);
    assert!(!time_is_up(&ctx));
    assert!(ctx.time_remaining_ms() > 0);
}

#[test]
fn context_options_and_nodes() {
    let mut ctx = SearchContext::default();
    assert!(ctx.is_parallel_search());
    assert!(ctx.get_order_book_enabled());
    assert!(!ctx.is_deterministic());
    ctx.set_parallel_search(false);
    ctx.set_order_book_enabled(false);
    assert!(!ctx.is_parallel_search());
    assert!(!ctx.get_order_book_enabled());
    ctx.bump_node();
    ctx.bump_node();
    assert_eq!(ctx.get_nodes(), 2);
    ctx.reset_search_telemetry();
    assert_eq!(ctx.get_nodes(), 0);
    assert!(ctx.tt().probe(42).is_none());
}

#[test]
fn coordinate_notation() {
    assert_eq!(as_square_str((1, 4), (3, 4)), "e2e4");
    assert_eq!(as_square_str((0, 6), (2, 5)), "g1f3");
    assert_eq!(as_square_str((9, 0), (0, 0)), "a10a1");
}

#[test]
fn aspiration_loop_decisions() {
    let full = AspirationStep::FullWidth(MIN_EVAL_VALUE + 1, MAX_EVAL_VALUE - 1);
    let mut w = 30;
    assert_eq!(aspiration_step(6, 50, &mut w, 20, 80, 1, SEARCH_ABORTED, false), AspirationStep::Abort);
    assert_eq!(w, 30);
    // fail low: window doubles, alpha follows it down
    assert_eq!(aspiration_step(6, 50, &mut w, 20, 80, 1, 10, false), AspirationStep::Retry(-10, 80));
    assert_eq!(w, 60);
    // fail high: window doubles again, beta follows it up
    assert_eq!(aspiration_step(6, 50, &mut w, -10, 80, 2, 95, false), AspirationStep::Retry(-10, 170));
    assert_eq!(w, 120);
    // third fail: full width, window capped at 400
    let mut w2 = 300;
    assert_eq!(aspiration_step(6, 50, &mut w2, -250, 350, 3, 400, false), full);
    assert_eq!(w2, 400);
    // inside the window
    let mut w3 = 30;
    assert_eq!(
        aspiration_step(6, 50, &mut w3, 20, 80, 1, 40, false),
        AspirationStep::Accept(Some((MIN_EVAL_VALUE + 1, MAX_EVAL_VALUE - 1)))
    );
    assert_eq!(aspiration_step(4, 50, &mut w3, 20, 80, 1, 40, false), AspirationStep::Accept(None));
    assert_eq!(aspiration_step(4, 50, &mut w3, 20, 80, 1, 40, true), AspirationStep::Accept(Some((20, 80))));
    assert_eq!(w3, 30);
    // shallow depths search the full range after a fail
    let mut w4 = 30;
    assert_eq!(aspiration_step(2, 50, &mut w4, 20, 80, 1, 10, false), AspirationStep::Retry(MIN_EVAL_VALUE + 1, 80));
}

#[test]
fn helper_context_shares_the_handed_table() {
    let mut tt = TranspositionTable::with_capacity_pow2(8);
    tt.store(0x1234, 4, Bound::Exact, 77, Some(12), Some(28));
    let ctx = SearchContext::new_smp_helper(tt);
    assert!(!ctx.is_deterministic());
    assert!(!ctx.is_parallel_search());
    assert!(!ctx.get_order_book_enabled());
    assert_eq!(ctx.get_nodes(), 0);
    assert_eq!(ctx.time_budget_ms(), 0);
    assert_eq!(ctx.tt().probe(0x1234).unwrap().score, 77);
    let fresh = SearchContext::new();
    assert!(fresh.is_parallel_search());
    assert!(fresh.tt().probe(0x1234).is_none());
}

#[test]
fn score_sort_is_stable_and_ascending() {
    let a = ((1, 0), (2, 0), 30);
    let b = ((1, 1), (2, 1), -5);
    let c = ((1, 2), (2, 2), 30);
    let d = ((1, 3), (3, 3), 7);
    let mut table = vec![a, b, c, d, b];
    sort_moves_on_score_asc(&mut table);
    assert_eq!(table, vec![b, b, d, a, c]);
    let mut empty: Vec<((usize, usize), (usize, usize), i32)> = Vec::new();
    sort_moves_on_score_asc(&mut empty);
    assert!(empty.is_empty());
}
