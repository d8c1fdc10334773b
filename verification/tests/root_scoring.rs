use chess_engine::board::Board;
use chess_engine::critical_defense::critical_square_defense_bonus;
use chess_engine::game_state::GameState;
use chess_engine::pieces::{Color, Piece, PieceType};
use chess_engine::root_heuristics::{
    center_score, endgame_50move_scaling, king_safety_root_heuristics, queen_kingside_pressure_bonus, simulate_move,
};
use chess_engine::root_moves::{
    adjust_root_score, adjusted_root_eval_for_move, get_root_moves, order_root_moves_by_bias, root_move_bonus,
    root_move_order_bias, root_phase_proxy,
};
use chess_engine::see::{find_smallest_attacker, see_dest_estimate};
use chess_engine::tactics::{
    check_mobility_bonus_for_side, knight_evacuations_priority, knight_safe_squares, opponent_knight_check_fork_penalty,
    self_hang_or_check_mobility, threat_resolution_and_evacuation,
};

fn p(pt: PieceType, c: Color) -> Piece {
    Piece::new(pt, c)
}

fn board_with(pieces: &[((usize, usize), Piece)]) -> Board {
    let mut b = Board::empty();
    for &(sq, pc) in pieces {
        b.set(sq.0, sq.1, Some(pc));
        if pc.piece_type == PieceType::King {
            b.set_king_location(pc.color, sq);
        }
    }
    b
}

#[test]
fn center_score_values() {
    assert_eq!(center_score((3, 3)), 60);
    assert_eq!(center_score((4, 4)), 60);
    assert_eq!(center_score((2, 3)), 50);
    assert_eq!(center_score((0, 0)), 0);
    assert_eq!(center_score((7, 7)), 0);
    assert_eq!(center_score((1, 1)), 20);
}

#[test]
fn endgame_scaling_values() {
    assert_eq!(endgame_50move_scaling(Color::White, 300, 85, true, false), 15 * 6);
    assert_eq!(endgame_50move_scaling(Color::White, 300, 85, false, false), -8 * 6);
    assert_eq!(endgame_50move_scaling(Color::White, 300, 200, false, true), 15 * 21);
    assert_eq!(endgame_50move_scaling(Color::Black, 300, 90, true, false), 0);
    assert_eq!(endgame_50move_scaling(Color::Black, -300, 90, true, false), 15 * 11);
    assert_eq!(endgame_50move_scaling(Color::White, 100, 90, true, false), 0);
    assert_eq!(endgame_50move_scaling(Color::White, 300, 79, true, false), 0);
}

#[test]
fn simulate_move_handles_castling_and_en_passant() {
    let b = board_with(&[((0, 4), p(PieceType::King, Color::White)), ((0, 7), p(PieceType::Rook, Color::White)),
        ((7, 4), p(PieceType::King, Color::Black))]);
    let (after, moved) = simulate_move(&b, (0, 4), (0, 6), None);
    assert_eq!(moved, Some(p(PieceType::King, Color::White)));
    assert_eq!(after.get(0, 5), Some(p(PieceType::Rook, Color::White)));
    assert_eq!(after.get_king_location(Color::White), (0, 6));
    let b2 = board_with(&[((0, 4), p(PieceType::King, Color::White)), ((7, 4), p(PieceType::King, Color::Black)),
        ((4, 4), p(PieceType::Pawn, Color::White)), ((4, 3), p(PieceType::Pawn, Color::Black))]);
    let (after2, _) = simulate_move(&b2, (4, 4), (5, 3), None);
    assert_eq!(after2.get(4, 3), None);
    assert_eq!(after2.get(5, 3), Some(p(PieceType::Pawn, Color::White)));
    let (same, none) = simulate_move(&b2, (2, 2), (3, 3), None);
    assert_eq!(none, None);
    assert_eq!(same.squares, b2.squares);
}

#[test]
fn king_safety_penalises_walking_into_attack() {
    let b = board_with(&[((0, 4), p(PieceType::King, Color::White)), ((7, 4), p(PieceType::King, Color::Black)),
        ((7, 3), p(PieceType::Rook, Color::Black))]);
    assert_eq!(king_safety_root_heuristics(&b, Color::White, (0, 4), (0, 3), false), -50);
    assert_eq!(king_safety_root_heuristics(&b, Color::White, (0, 4), (0, 5), true), -5);
    assert_eq!(king_safety_root_heuristics(&b, Color::Black, (7, 3), (6, 3), false), 0);
}

#[test]
fn queen_pressure_bonus() {
    let b = board_with(&[((0, 4), p(PieceType::King, Color::White)), ((7, 4), p(PieceType::King, Color::Black)),
        ((3, 7), p(PieceType::Queen, Color::White))]);
    // Qh4-h5 attacks f7 and h7
    assert_eq!(queen_kingside_pressure_bonus(&b, Color::White, (3, 7), (4, 7)), 2);
    assert_eq!(queen_kingside_pressure_bonus(&b, Color::White, (0, 4), (0, 3)), 0);
}

#[test]
fn exchange_estimates() {
    // white knight on d5 defended by nothing, attacked by a black pawn on e6
    let b = board_with(&[((0, 4), p(PieceType::King, Color::White)), ((7, 4), p(PieceType::King, Color::Black)),
        ((4, 3), p(PieceType::Knight, Color::White)), ((5, 4), p(PieceType::Pawn, Color::Black))]);
    assert_eq!(see_dest_estimate(&b, Color::White, (4, 3), 0), -320);
    let a = find_smallest_attacker(&b, (4, 3), Color::Black).unwrap();
    assert_eq!(a.0, (5, 4));
    assert_eq!(see_dest_estimate(&b, Color::White, (2, 2), 100), 100);
}

#[test]
fn knight_chased_by_pawn_should_flee() {
    let b = board_with(&[((0, 4), p(PieceType::King, Color::White)), ((7, 4), p(PieceType::King, Color::Black)),
        ((3, 3), p(PieceType::Knight, Color::White)), ((4, 4), p(PieceType::Pawn, Color::Black))]);
    // a move that leaves the knight costs 500
    assert_eq!(knight_evacuations_priority(&b, Color::White, (0, 4), (0, 3), false), -500);
    // fleeing to an unattacked square earns the flight bonus
    assert_eq!(knight_evacuations_priority(&b, Color::White, (3, 3), (5, 2), false), 83);
    assert_eq!(knight_evacuations_priority(&b, Color::White, (3, 3), (5, 2), true), 0);
    let safe = knight_safe_squares(&b, Color::White, (3, 3));
    assert!(safe.contains(&(5, 2)));
    assert!(!safe.contains(&(3, 3)));
}

#[test]
fn knight_fork_with_check_is_penalised() {
    // black knight on d4 can jump to c2 giving check to Ke1 and attacking the rook just moved to a1
    let b = board_with(&[((0, 4), p(PieceType::King, Color::White)), ((7, 4), p(PieceType::King, Color::Black)),
        ((3, 3), p(PieceType::Knight, Color::Black)), ((0, 0), p(PieceType::Rook, Color::White))]);
    assert_eq!(opponent_knight_check_fork_penalty(&b, Color::White, (0, 0)), -1000);
    assert_eq!(opponent_knight_check_fork_penalty(&b, Color::White, (0, 4)), 0);
    let no_king = board_with(&[((3, 3), p(PieceType::Knight, Color::Black)), ((0, 0), p(PieceType::Rook, Color::White))]);
    assert_eq!(opponent_knight_check_fork_penalty(&no_king, Color::White, (0, 0)), 0);
}

#[test]
fn check_reply_bonus() {
    // black king h8 boxed in by its own pawns, checked by a rook on the back rank: no reply
    let b = board_with(&[((0, 4), p(PieceType::King, Color::White)), ((7, 7), p(PieceType::King, Color::Black)),
        ((6, 6), p(PieceType::Pawn, Color::Black)), ((6, 7), p(PieceType::Pawn, Color::Black)),
        ((7, 0), p(PieceType::Rook, Color::White))]);
    assert_eq!(check_mobility_bonus_for_side(&b, Color::Black), 50);
    let g = GameState::new();
    assert_eq!(check_mobility_bonus_for_side(g.board(), Color::White), 0);
    // the checking move earns 10 plus the reply bonus
    assert_eq!(self_hang_or_check_mobility(&b, &b, Color::White, (0, 0), (7, 0), true, Color::Black), 60);
}

#[test]
fn hanging_piece_is_penalised() {
    let b = board_with(&[((0, 4), p(PieceType::King, Color::White)), ((7, 4), p(PieceType::King, Color::Black)),
        ((4, 3), p(PieceType::Knight, Color::White)), ((5, 4), p(PieceType::Pawn, Color::Black))]);
    // knight worth 320 hangs to a pawn: 2 * 320 = 640
    assert_eq!(self_hang_or_check_mobility(&b, &b, Color::White, (0, 4), (0, 3), false, Color::Black), -640);
    // nothing hangs for Black
    assert_eq!(self_hang_or_check_mobility(&b, &b, Color::Black, (7, 4), (7, 3), false, Color::White), 0);
}

#[test]
fn threats_and_promotion_race() {
    // black pawn on a2 about to promote, white to move
    let b = board_with(&[((0, 7), p(PieceType::King, Color::White)), ((7, 4), p(PieceType::King, Color::Black)),
        ((1, 0), p(PieceType::Pawn, Color::Black))]);
    assert_eq!(threat_resolution_and_evacuation(&b, &b, Color::White, (0, 7), (0, 6), false), -1200);
    assert_eq!(threat_resolution_and_evacuation(&b, &b, Color::White, (0, 7), (0, 6), true), 0);
    // blocking the promotion square removes the threat
    assert_eq!(threat_resolution_and_evacuation(&b, &b, Color::White, (0, 7), (0, 0), false), 0);
}

#[test]
fn f7_defence_bonus() {
    // f7 attacked by Bc4 and Qh5; Black's knight to h6... adds no defender of f7, Qe7 does
    let base = board_with(&[((0, 4), p(PieceType::King, Color::White)), ((7, 4), p(PieceType::King, Color::Black)),
        ((3, 2), p(PieceType::Bishop, Color::White)), ((4, 7), p(PieceType::Queen, Color::White)),
        ((7, 3), p(PieceType::Queen, Color::Black))]);
    let (post, _) = simulate_move(&base, (7, 3), (6, 4), None);
    assert_eq!(critical_square_defense_bonus(&base, &post, Color::Black, (7, 3), (6, 4)), -400);
    let (post2, _) = simulate_move(&base, (7, 3), (7, 2), None);
    assert_eq!(critical_square_defense_bonus(&base, &post2, Color::Black, (7, 3), (7, 2)), 0);
}

#[test]
fn development_bonus_and_root_limits() {
    let g = GameState::new();
    assert_eq!(root_move_bonus(g.board(), (0, 6), (2, 5), Color::White), 5);
    assert_eq!(root_move_bonus(g.board(), (1, 4), (3, 4), Color::White), 0);
    let r = adjusted_root_eval_for_move(g.board(), Color::White, (0, 6), (2, 5), 0, -50, false, false);
    assert!(r <= -50);
    let d = adjusted_root_eval_for_move(g.board(), Color::White, (0, 6), (2, 5), 0, 0, false, false);
    assert!(d >= -10);
    let a = adjust_root_score(g.board(), Color::White, (0, 6), (2, 5), 0, false, false, 30);
    assert_eq!(a, 35);
    // a move losing for Black keeps at least its search score
    let lb = adjust_root_score(g.board(), Color::Black, (7, 1), (5, 2), 0, false, false, 50);
    assert!(lb < 50);
    assert_eq!(adjusted_root_eval_for_move(g.board(), Color::Black, (7, 1), (5, 2), 0, 50, false, false), 50);
    // a move good for Black takes the adjustment unchanged
    let wb = adjust_root_score(g.board(), Color::Black, (7, 1), (5, 2), 0, false, false, -50);
    assert_eq!(adjusted_root_eval_for_move(g.board(), Color::Black, (7, 1), (5, 2), 0, -50, false, false), wb);
    let mut v = vec![((1, 1), (2, 1), None)];
    get_root_moves(&vec![((1, 2), (2, 2), None), ((1, 3), (3, 3), None)], &mut v);
    assert_eq!(v.len(), 3);
    assert_eq!(v[2], ((1, 3), (3, 3), None));
}

#[test]
fn root_ordering_prefers_development() {
    let g = GameState::new();
    let b = *g.board();
    assert_eq!(root_phase_proxy(&b), 24);
    assert_eq!(root_phase_proxy(&Board::empty()), 0);
    assert_eq!(root_move_order_bias(&b, Color::White, (0, 6), (2, 5), 24), 8);
    assert_eq!(root_move_order_bias(&b, Color::White, (1, 4), (3, 4), 24), 0);
    assert_eq!(root_move_order_bias(&b, Color::White, (0, 6), (2, 5), 12), 4);
    let mut ordered = vec![
        ((1, 4), (3, 4), None),
        ((0, 6), (2, 5), None),
        ((1, 3), (3, 3), None),
        ((0, 1), (2, 2), None),
    ];
    let original = ordered.clone();
    order_root_moves_by_bias(&mut ordered, &b, Color::White, 0);
    assert_eq!(ordered, original);
    order_root_moves_by_bias(&mut ordered, &b, Color::White, 3);
    assert_eq!(
        ordered,
        vec![((0, 6), (2, 5), None), ((0, 1), (2, 2), None), ((1, 4), (3, 4), None), ((1, 3), (3, 3), None)]
    );
}

#[test]
fn root_shift_does_not_depend_on_the_score() {
    let g = GameState::new();
    let big = i32::MAX - 521_000;
    let d1 = adjust_root_score(g.board(), Color::White, (0, 6), (2, 5), 0, false, false, 30) - 30;
    let d2 = adjust_root_score(g.board(), Color::White, (0, 6), (2, 5), 0, false, false, big) - big;
    let d3 = adjust_root_score(g.board(), Color::White, (0, 6), (2, 5), 0, false, false, -big) + big;
    assert_eq!(d1, 5);
    assert_eq!(d2, 5);
    assert_eq!(d3, 5);
}
