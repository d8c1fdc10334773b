use chess_engine::board::Board;
use chess_engine::context::SearchContext;
use chess_engine::game_state::GameState;
use chess_engine::heuristics::SearchHeuristics;
use chess_engine::pieces::{Color, Piece, PieceType};
use chess_engine::rep_stack::RepetitionStack;
use chess_engine::root_moves::order_root_moves_by_priority;
use chess_engine::root_search::{evaluate_root_for_bounds, find_best_move, probe_with_aspiration};
use chess_engine::search::{alphabeta, calculate_lmr_reduction, order_moves, prune_null_moves, qsearch, SearchOracles};
use chess_engine::tt::encode_move;
use chess_engine::search_support::{MAX_EVAL_VALUE, MIN_EVAL_VALUE};
use chess_engine::tt::TranspositionTable;
use chess_engine::zobrist::{compute_zobrist_full, ZobristKeys};

fn material(b: &Board, _to_move: Color) -> i32 {
    let mut s = 0;
    for r in 0..8 {
        for c in 0..8 {
            if let Some(p) = b.get(r, c) {
                let v = match p.piece_type {
                    PieceType::Pawn => 100,
                    PieceType::Knight | PieceType::Bishop => 300,
                    PieceType::Rook => 500,
                    PieceType::Queen => 900,
                    PieceType::King => 0,
                };
                if p.color == Color::White { s += v } else { s -= v }
            }
        }
    }
    s
}

type Oracles = SearchOracles<
    fn(&Board, Color) -> i32,
    fn(&Board, (usize, usize), (usize, usize)) -> i32,
    fn(&Board) -> i32,
    fn(&Board, usize, usize, Color) -> bool,
    fn(usize, i32) -> usize,
>;

fn no_mvv(_b: &Board, _f: (usize, usize), _t: (usize, usize)) -> i32 {
    0
}

fn middlegame(_b: &Board) -> i32 {
    24
}

fn never_passed(_b: &Board, _r: usize, _c: usize, _col: Color) -> bool {
    false
}

fn one(_d: usize, _i: i32) -> usize {
    1
}

fn oracles() -> Oracles {
    SearchOracles { eval: material, mvv_lva: no_mvv, phase: middlegame, passed_pawn: never_passed, lmr_base: one }
}

fn same_state(a: &GameState, b: &GameState) -> bool {
    let keys = ZobristKeys::init_tables();
    let ka = compute_zobrist_full(&keys, &a.board, a.active_color, &a.castling, a.en_passant);
    let kb = compute_zobrist_full(&keys, &b.board, b.active_color, &b.castling, b.en_passant);
    let mut squares = true;
    for r in 0..8 {
        for c in 0..8 {
            if a.board.get(r, c) != b.board.get(r, c) {
                squares = false;
            }
        }
    }
    ka == kb && squares && a.half_move_clock == b.half_move_clock && a.active_color == b.active_color
}

fn board_with(pieces: &[((usize, usize), Piece)]) -> Board {
    let mut b = Board::empty();
    for &(sq, pc) in pieces {
        b.set(sq.0, sq.1, Some(pc));
        if pc.piece_type == PieceType::King {
            b.set_king_location(pc.color, sq);
        }
    }
    b
}

fn free_rook() -> GameState {
    let b = board_with(&[
        ((0, 0), Piece::new(PieceType::King, Color::White)),
        ((0, 3), Piece::new(PieceType::Queen, Color::White)),
        ((7, 7), Piece::new(PieceType::King, Color::Black)),
        ((7, 3), Piece::new(PieceType::Rook, Color::Black)),
    ]);
    GameState::from_board_and_side(b, Color::White)
}

fn mated_black() -> GameState {
    let b = board_with(&[
        ((5, 5), Piece::new(PieceType::King, Color::White)),
        ((6, 6), Piece::new(PieceType::Queen, Color::White)),
        ((7, 7), Piece::new(PieceType::King, Color::Black)),
    ]);
    GameState::from_board_and_side(b, Color::Black)
}

fn stalemated_black() -> GameState {
    let b = board_with(&[
        ((5, 6), Piece::new(PieceType::King, Color::White)),
        ((6, 5), Piece::new(PieceType::Queen, Color::White)),
        ((7, 7), Piece::new(PieceType::King, Color::Black)),
    ]);
    GameState::from_board_and_side(b, Color::Black)
}

fn run_alphabeta(g: &mut GameState, rep: &mut RepetitionStack, depth: usize) -> i32 {
    let mut ctx = SearchContext::new();
    let mut heur = SearchHeuristics::new(128);
    let mut tt = TranspositionTable::with_capacity_pow2(12);
    let keys = ZobristKeys::init_tables();
    let o = oracles();
    alphabeta(&mut ctx, &mut heur, g, depth, MIN_EVAL_VALUE + 1, MAX_EVAL_VALUE - 1, 0, &mut tt, rep, true, None, &keys, &o)
}

#[test]
fn alphabeta_wins_the_free_rook_and_restores_the_state() {
    let mut g = free_rook();
    let before = g;
    let mut rep = RepetitionStack::new();
    let v = run_alphabeta(&mut g, &mut rep, 2);
    assert_eq!(v, 900);
    assert!(same_state(&g, &before));
    assert_eq!(rep.count(0), 0);
}

#[test]
fn alphabeta_scores_mate_by_the_ply() {
    let mut g = mated_black();
    let mut rep = RepetitionStack::new();
    assert_eq!(run_alphabeta(&mut g, &mut rep, 1), 30_000);
}

#[test]
fn alphabeta_scores_stalemate_as_zero() {
    let mut g = stalemated_black();
    let mut rep = RepetitionStack::new();
    assert_eq!(run_alphabeta(&mut g, &mut rep, 1), 0);
}

#[test]
fn alphabeta_scores_a_repeated_position_as_zero() {
    let mut g = free_rook();
    let keys = ZobristKeys::init_tables();
    let key = compute_zobrist_full(&keys, &g.board, g.active_color, &g.castling, g.en_passant);
    let mut rep = RepetitionStack::new();
    rep.push(key);
    assert_eq!(run_alphabeta(&mut g, &mut rep, 3), 0);
    assert_eq!(rep.count(key), 1);
}

#[test]
fn alphabeta_scores_the_fifty_move_limit_as_zero() {
    let mut g = free_rook();
    g.set_half_move_clock(100);
    let mut rep = RepetitionStack::new();
    assert_eq!(run_alphabeta(&mut g, &mut rep, 3), 0);
}

#[test]
fn qsearch_stands_pat_on_a_quiet_position() {
    let b = board_with(&[
        ((0, 0), Piece::new(PieceType::King, Color::White)),
        ((0, 3), Piece::new(PieceType::Queen, Color::White)),
        ((7, 7), Piece::new(PieceType::King, Color::Black)),
    ]);
    let mut g = GameState::from_board_and_side(b, Color::White);
    let before = g;
    let ctx = SearchContext::new();
    let mut rep = RepetitionStack::new();
    let keys = ZobristKeys::init_tables();
    let o = oracles();
    let v = qsearch(&ctx, &mut g, MIN_EVAL_VALUE + 1, MAX_EVAL_VALUE - 1, &mut rep, &keys, &o, 0);
    assert_eq!(v, 900);
    assert!(same_state(&g, &before));
}

#[test]
fn find_best_move_finds_the_mate_in_one() {
    // white king f6, queen g2; black king h8: Qg7 is mate
    let b = board_with(&[
        ((5, 5), Piece::new(PieceType::King, Color::White)),
        ((1, 6), Piece::new(PieceType::Queen, Color::White)),
        ((7, 7), Piece::new(PieceType::King, Color::Black)),
    ]);
    let g = GameState::from_board_and_side(b, Color::White);
    let mut ctx = SearchContext::new();
    let mut rep = RepetitionStack::new();
    let mut tt = TranspositionTable::with_capacity_pow2(12);
    let keys = ZobristKeys::init_tables();
    let o = oracles();
    let r = find_best_move(&mut ctx, &g, &mut rep, 2, &mut tt, &keys, &o).unwrap();
    assert_eq!((r.0, r.1, r.2, r.4), ((1, 6), (6, 6), None, 2));
    assert!(r.3 > 20_000);
}

#[test]
fn root_scores_follow_the_root_heuristics() {
    // the rook on d8 attacks the queen on d1: the root heuristics value
    // taking the queen out of the line (Qf1) above winning the rook
    let mut g = free_rook();
    let mut ctx = SearchContext::new();
    let mut heur = SearchHeuristics::new(128);
    let mut rep = RepetitionStack::new();
    let mut tt = TranspositionTable::with_capacity_pow2(12);
    let keys = ZobristKeys::init_tables();
    let o = oracles();
    let take = vec![((0, 3), (7, 3), None)];
    let r = evaluate_root_for_bounds(&mut ctx, &mut heur, Color::White, &take, 2, MIN_EVAL_VALUE + 1,
        MAX_EVAL_VALUE - 1, &mut tt, &mut g, &mut rep, &keys, &o);
    assert_eq!((r.1, r.2), (980, 900));
    let away = vec![((0, 3), (0, 5), None)];
    let r = evaluate_root_for_bounds(&mut ctx, &mut heur, Color::White, &away, 2, MIN_EVAL_VALUE + 1,
        MAX_EVAL_VALUE - 1, &mut tt, &mut g, &mut rep, &keys, &o);
    assert_eq!((r.1, r.2), (1201, 400));
    let r = find_best_move(&mut ctx, &free_rook(), &mut rep, 2, &mut tt, &keys, &o).unwrap();
    assert_eq!((r.0, r.1, r.3, r.4), ((0, 3), (0, 5), 1201, 2));
}

#[test]
fn find_best_move_without_moves_gives_nothing() {
    let g = mated_black();
    let mut ctx = SearchContext::new();
    let mut rep = RepetitionStack::new();
    let mut tt = TranspositionTable::with_capacity_pow2(12);
    let keys = ZobristKeys::init_tables();
    let o = oracles();
    assert!(find_best_move(&mut ctx, &g, &mut rep, 3, &mut tt, &keys, &o).is_none());
}

#[test]
fn root_search_and_aspiration_agree_on_the_capture() {
    let mut g = free_rook();
    let mut ctx = SearchContext::new();
    let mut heur = SearchHeuristics::new(128);
    let mut rep = RepetitionStack::new();
    let mut tt = TranspositionTable::with_capacity_pow2(12);
    let keys = ZobristKeys::init_tables();
    let o = oracles();
    let moves = vec![((0, 3), (1, 3), None), ((0, 3), (7, 3), None), ((0, 0), (1, 0), None)];
    let (m, _adj, raw) = evaluate_root_for_bounds(&mut ctx, &mut heur, Color::White, &moves, 1, MIN_EVAL_VALUE + 1,
        MAX_EVAL_VALUE - 1, &mut tt, &mut g, &mut rep, &keys, &o);
    assert_eq!(m, ((0, 3), (7, 3), None));
    assert_eq!(raw, 900);
    let mut window = 30;
    let (m2, _adj2, raw2) = probe_with_aspiration(&mut ctx, &mut heur, Color::White, &moves, 1, 0, &mut window, &mut tt,
        &mut g, &mut rep, &keys, &o);
    assert_eq!(m2, ((0, 3), (7, 3), None));
    assert_eq!(raw2, 900);
    assert!(same_state(&g, &free_rook()));
}

#[test]
fn root_priority_puts_the_checking_capture_first() {
    let g = free_rook();
    let mut moves = vec![((0, 0), (1, 0), None), ((0, 3), (1, 3), None), ((0, 3), (7, 3), None)];
    order_root_moves_by_priority(&mut moves, &g.board, Color::White);
    assert_eq!(moves, vec![((0, 3), (7, 3), None), ((0, 0), (1, 0), None), ((0, 3), (1, 3), None)]);
}


#[test]
fn lmr_reduction_guards_and_base() {
    let g = free_rook();
    let heur = SearchHeuristics::new(128);
    let o = oracles();
    let lmr = |depth: usize, idx: i32, quiet: bool, check: bool, phase: i32| {
        calculate_lmr_reduction(depth, idx, quiet, check, true, Color::White, (0, 0), (1, 0), Some(PieceType::Knight),
            &g.board, phase, None, &heur, 0, None, &o)
    };
    assert_eq!(lmr(6, 5, true, false, 24), 1);
    assert_eq!(lmr(6, 5, true, false, 8), 0);
    assert_eq!(lmr(6, 5, true, true, 24), 0);
    assert_eq!(lmr(3, 5, true, false, 24), 0);
    assert_eq!(lmr(6, 2, true, false, 24), 0);
    assert_eq!(lmr(6, 5, false, false, 24), 0);
}

#[test]
fn order_moves_puts_the_table_move_first() {
    let g = free_rook();
    let heur = SearchHeuristics::new(128);
    let o = oracles();
    let moves = vec![((0, 0), (1, 0), None), ((0, 3), (1, 3), None), ((0, 3), (7, 3), None)];
    let hint = encode_move((0, 3), (1, 3));
    let r = order_moves(moves, &g, Some(hint), Color::White, 0, &heur, None, &o);
    assert_eq!(r.len(), 3);
    assert_eq!(r[0], ((0, 3), (1, 3), None));
}

#[test]
fn null_move_is_not_tried_in_check_or_when_shallow() {
    let mut ctx = SearchContext::new();
    let mut heur = SearchHeuristics::new(128);
    let mut tt = TranspositionTable::with_capacity_pow2(12);
    let mut rep = RepetitionStack::new();
    let keys = ZobristKeys::init_tables();
    let o = oracles();
    let mut g = mated_black();
    let r = prune_null_moves(&mut ctx, &mut heur, &mut g, 8, -50, 50, 0, &mut tt, &mut rep, true, None, &keys, &o);
    assert_eq!(r, None);
    let mut g = free_rook();
    let r = prune_null_moves(&mut ctx, &mut heur, &mut g, 4, -50, 50, 0, &mut tt, &mut rep, true, None, &keys, &o);
    assert_eq!(r, None);
}

#[test]
fn node_count_grows_by_one_per_bump() {
    let mut ctx = SearchContext::new();
    let n0 = ctx.get_nodes();
    for _ in 0..7 {
        ctx.bump_node();
    }
    assert_eq!(ctx.get_nodes(), n0 + 7);
    ctx.reset_search_telemetry();
    assert_eq!(ctx.get_nodes(), 0);
}
