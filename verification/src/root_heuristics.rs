//! Root-move adjustments: simulated moves, centre proximity, king safety,
//! queen pressure on the enemy king side and fifty-move scaling.
use vstd::prelude::*;
use crate::pieces::{Color, Piece, PieceType, spec_opposite, opposite_color};
use crate::board::{Board, on_board, iabs};
use crate::game_state::{promo_type, promo_type_exec};
use crate::see::{apply_for_side, spec_apply_for_side};

verus! {

pub const ROOT_CAPTURE_BONUS_DIV: i32 = 10;
pub const ENDGAME_SIDEADV_THRESHOLD_CP: i32 = 150;
pub const ENDGAME_HMC_THRESHOLD: u32 = 80;
pub const ENDGAME_SCALE_MAX: i32 = 21;
pub const ENDGAME_CAPTURE_SCALE_BONUS_CP: i32 = 15;
pub const ENDGAME_NONCAP_SCALE_PENALTY_CP: i32 = 8;
pub const CHECK_TIEBREAK_BASE: i32 = 10;
pub const CHECK_MOBILITY_BONUS_0: i32 = 50;
pub const CHECK_MOBILITY_BONUS_1_2: i32 = 20;
pub const CHECK_MOBILITY_BONUS_3_5: i32 = 10;
pub const KING_CAPTURE_ROOT_PENALTY: i32 = 5;
pub const KNIGHT_IGNORE_PAWN_THREAT_PENALTY: i32 = 4;
pub const KNIGHT_NON_EVAC_DEMOTION: i32 = 6;
pub const KNIGHT_SAFE_EVAC_REWARD: i32 = 3;
pub const KNIGHT_SAFE_TO_SPECIFIC_REWARD: i32 = 4;
pub const KNIGHT_CENTER_EXTRA_D4: i32 = 1;
pub const KNIGHT_CENTER_STEP: i32 = 0;

/// The board after the piece on `from` goes to `to`: an en-passant victim
/// leaves, a castling king takes its rook along, a pawn on the last rank
/// becomes the asked-for piece (a queen by default), and the king square
/// follows a king. An empty `from` leaves the board as it is.
pub open spec fn spec_simulate(b: Board, from: (usize, usize), to: (usize, usize), promo: Option<char>) -> Board {
    match b.at(from.0 as int, from.1 as int) {
        None => b,
        Some(p) => {
            let is_pawn = p.piece_type == PieceType::Pawn;
            let is_king = p.piece_type == PieceType::King;
            let b1 = if is_pawn && from.1 != to.1 && b.at(to.0 as int, to.1 as int) is None {
                b.with(from.0 as int, to.1 as int, None)
            } else {
                b
            };
            let castle = is_king && from.1 == 4 && from.0 == to.0;
            let b2 = if castle && to.1 == 6 {
                match b1.at(from.0 as int, 7) {
                    Some(r) => if r.piece_type == PieceType::Rook {
                        b1.with(from.0 as int, 5, Some(r)).with(from.0 as int, 7, None)
                    } else { b1 },
                    None => b1,
                }
            } else if castle && to.1 == 2 {
                match b1.at(from.0 as int, 0) {
                    Some(r) => if r.piece_type == PieceType::Rook {
                        b1.with(from.0 as int, 3, Some(r)).with(from.0 as int, 0, None)
                    } else { b1 },
                    None => b1,
                }
            } else {
                b1
            };
            let promote = is_pawn && to.0 == (if p.color == Color::White { 7usize } else { 0usize });
            let p2 = if promote { Piece { piece_type: promo_type(promo), color: p.color } } else { p };
            let b3 = b2.with(from.0 as int, from.1 as int, None).with(to.0 as int, to.1 as int, Some(p2));
            if is_king { b3.with_king(p.color, to) } else { b3 }
        },
    }
}

/// Plays `from`-`to` on a copy of the board; returns the copy and the piece
/// that stood on `from`.
pub fn simulate_move(board: &Board, from: (usize, usize), to: (usize, usize), promo: Option<char>) -> (r: (Board, Option<Piece>))
    requires
        on_board(from),
        on_board(to),
    ensures
        r.0 == spec_simulate(*board, from, to, promo),
        r.1 == board.at(from.0 as int, from.1 as int),
        board.wf() ==> r.0.wf(),
{
    let mut b = *board;
    let moved = board.get(from.0, from.1);
    if let Some(p0) = moved {
        let mut p = p0;
        let is_pawn = p.piece_type == PieceType::Pawn;
        let is_king = p.piece_type == PieceType::King;
        if is_pawn && from.1 != to.1 && b.get(to.0, to.1).is_none() {
            b.set(from.0, to.1, None);
        }
        if is_king && from.1 == 4 && from.0 == to.0 {
            if to.1 == 6 {
                if let Some(r) = b.get(from.0, 7) {
                    if r.piece_type == PieceType::Rook {
                        b.set(from.0, 5, Some(r));
                        b.set(from.0, 7, None);
                    }
                }
            } else if to.1 == 2 {
                if let Some(r) = b.get(from.0, 0) {
                    if r.piece_type == PieceType::Rook {
                        b.set(from.0, 3, Some(r));
                        b.set(from.0, 0, None);
                    }
                }
            }
        }
        if is_pawn {
            let promote = match p.color {
                Color::White => to.0 == 7,
                Color::Black => to.0 == 0,
            };
            if promote {
                p = Piece::new(promo_type_exec(promo), p.color);
            }
        }
        b.set(from.0, from.1, None);
        b.set(to.0, to.1, Some(p));
        if is_king {
            b.set_king_location(p.color, to);
        }
    }
    (b, moved)
}

pub open spec fn center_term(r: int, c: int, cr: int, cc: int) -> int {
    let v = 60 - 10 * (iabs(r - cr) + iabs(c - cc));
    if v > 0 { v } else { 0 }
}

pub open spec fn max2(a: int, b: int) -> int {
    if a >= b { a } else { b }
}

/// Closeness to the centre squares d4, e4, d5, e5: 60 on them, 10 less per
/// step away from the nearest, never below 0.
pub open spec fn spec_center_score(sq: (usize, usize)) -> int {
    let r = sq.0 as int;
    let c = sq.1 as int;
    max2(max2(center_term(r, c, 3, 3), center_term(r, c, 3, 4)), max2(center_term(r, c, 4, 3), center_term(r, c, 4, 4)))
}

fn center_term_exec(r: usize, c: usize, cr: usize, cc: usize) -> (v: i32)
    requires
        r + c <= 200_000_000,
        cr < 8,
        cc < 8,
    ensures
        v == center_term(r as int, c as int, cr as int, cc as int),
{
    let dr = if r > cr { r - cr } else { cr - r };
    let dc = if c > cc { c - cc } else { cc - c };
    let d = (dr + dc) as i32;
    let v = 60 - 10 * d;
    if v > 0 { v } else { 0 }
}

pub fn center_score(sq: (usize, usize)) -> (s: i32)
    requires
        sq.0 + sq.1 <= 200_000_000,
    ensures
        s == spec_center_score(sq),
        0 <= s <= 60,
{
    let (r, c) = sq;
    let a = center_term_exec(r, c, 3, 3);
    let b = center_term_exec(r, c, 3, 4);
    let d = center_term_exec(r, c, 4, 3);
    let e = center_term_exec(r, c, 4, 4);
    let m1 = if a >= b { a } else { b };
    let m2 = if d >= e { d } else { e };
    if m1 >= m2 { m1 } else { m2 }
}

pub open spec fn spec_endgame_scaling(side: Color, score_raw: int, base_hmc: int, is_capture: bool, moved_is_pawn: bool) -> int {
    let side_adv = spec_apply_for_side(score_raw, side);
    if side_adv > ENDGAME_SIDEADV_THRESHOLD_CP && base_hmc >= ENDGAME_HMC_THRESHOLD {
        let s = base_hmc - (ENDGAME_HMC_THRESHOLD - 1);
        let scale = if s < ENDGAME_SCALE_MAX { s } else { ENDGAME_SCALE_MAX as int };
        if is_capture || moved_is_pawn {
            ENDGAME_CAPTURE_SCALE_BONUS_CP * scale
        } else {
            -ENDGAME_NONCAP_SCALE_PENALTY_CP * scale
        }
    } else {
        0
    }
}

/// Near the fifty-move limit with a clear advantage: a bonus growing with
/// the clock for captures and pawn moves (which reset it), a penalty for
/// other moves.
pub fn endgame_50move_scaling(side: Color, score_raw: i32, base_hmc: u32, is_capture: bool, moved_is_pawn: bool) -> (d: i32)
    requires
        score_raw > i32::MIN,
        base_hmc <= i32::MAX,
    ensures
        d == spec_endgame_scaling(side, score_raw as int, base_hmc as int, is_capture, moved_is_pawn),
        -168 <= d <= 315,
{
    let side_adv = apply_for_side(score_raw, side);
    if side_adv > ENDGAME_SIDEADV_THRESHOLD_CP && base_hmc >= ENDGAME_HMC_THRESHOLD {
        let h = base_hmc as i32;
        assert(h == base_hmc);
        let s = h - 79;
        let scale = if s < ENDGAME_SCALE_MAX { s } else { ENDGAME_SCALE_MAX };
        assert(1 <= scale <= 21);
        if is_capture || moved_is_pawn {
            ENDGAME_CAPTURE_SCALE_BONUS_CP * scale
        } else {
            let pen: i32 = ENDGAME_NONCAP_SCALE_PENALTY_CP * scale;
            -pen
        }
    } else {
        0
    }
}

/// A king move onto an attacked square costs 50, and a king capture 5 more.
pub fn king_safety_root_heuristics(
    base_board: &Board,
    side: Color,
    from: (usize, usize),
    to: (usize, usize),
    is_capture: bool,
) -> (d: i32)
    requires
        on_board(from),
        on_board(to),
    ensures
        d == (match base_board.at(from.0 as int, from.1 as int) {
            Some(p) => if p.piece_type == PieceType::King {
                (if spec_simulate(*base_board, from, to, None).attacked_by(to.0 as int, to.1 as int, spec_opposite(side)) {
                    -50int } else { 0int })
                    + (if is_capture { -KING_CAPTURE_ROOT_PENALTY as int } else { 0int })
            } else { 0int },
            None => 0int,
        }),
{
    let moved_is_king = match base_board.get(from.0, from.1) {
        Some(p) => p.piece_type == PieceType::King,
        None => false,
    };
    if !moved_is_king {
        return 0;
    }
    let (postk, _) = simulate_move(base_board, from, to, None);
    let mut delta: i32 = 0;
    if postk.is_square_attacked_by_opponent(to, side) {
        delta = delta - 50;
    }
    if is_capture {
        delta = delta - KING_CAPTURE_ROOT_PENALTY;
    }
    delta
}

/// The two squares next to the enemy king's corner that a queen can press:
/// f7 and h7 for White, f2 and h2 for Black.
pub open spec fn pressure_targets(side: Color) -> ((usize, usize), (usize, usize)) {
    if side == Color::White { ((6usize, 5usize), (6usize, 7usize)) } else { ((1usize, 5usize), (1usize, 7usize)) }
}

/// A queen move that leaves the side attacking one of those squares earns
/// 1, or 2 when it attacks both (signed for the side).
pub fn queen_kingside_pressure_bonus(base_board: &Board, side: Color, from: (usize, usize), to: (usize, usize)) -> (d: i32)
    requires
        on_board(from),
        on_board(to),
    ensures
        d == (match base_board.at(from.0 as int, from.1 as int) {
            Some(p) => if p.piece_type == PieceType::Queen {
                let post = spec_simulate(*base_board, from, to, None);
                let t = pressure_targets(side);
                let hits = (if post.attacked_by(t.0.0 as int, t.0.1 as int, side) { 1int } else { 0int })
                    + (if post.attacked_by(t.1.0 as int, t.1.1 as int, side) { 1int } else { 0int });
                if hits > 0 { spec_apply_for_side(hits, side) } else { 0int }
            } else { 0int },
            None => 0int,
        }),
{
    match base_board.get(from.0, from.1) {
        Some(p) => {
            if p.piece_type != PieceType::Queen {
                return 0;
            }
        },
        None => {
            return 0;
        },
    }
    let (post, _) = simulate_move(base_board, from, to, None);
    let t1: (usize, usize) = if side == Color::White { (6, 5) } else { (1, 5) };
    let t2: (usize, usize) = if side == Color::White { (6, 7) } else { (1, 7) };
    let active_for_query = opposite_color(side);
    proof {
        crate::pieces::lemma_opposite_involutive(side);
    }
    let mut hit_count: i32 = 0;
    if post.is_square_attacked_by_opponent(t1, active_for_query) {
        hit_count = hit_count + 1;
    }
    if post.is_square_attacked_by_opponent(t2, active_for_query) {
        hit_count = hit_count + 1;
    }
    if hit_count > 0 {
        let bonus: i32 = if hit_count == 1 { 1 } else { 2 };
        apply_for_side(bonus, side)
    } else {
        0
    }
}

} // verus!
