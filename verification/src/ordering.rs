//! Move-ordering keys inside the search: captures by exchange estimate
//! and MVV-LVA, promotions, moves near the fifty-move limit, and quiet
//! moves by counter move, continuation, killer and history scores.
use vstd::prelude::*;
use crate::pieces::{Color, Piece, PieceType, piece_value_cp};
use crate::board::{Board, on_board, iabs};
use crate::heuristics::{SearchHeuristics, flat_move};
use crate::see::{see_dest_estimate, see_value, value_at};
use crate::move_picker::{clamp_to, trunc_div};

verus! {

pub const MOVE_ORDER_COUNTER_BONUS: i32 = 220_000;
pub const MOVE_ORDER_CONTINUATION_DIV: i32 = 16;
pub const MOVE_ORDER_CONTINUATION_CAP: i32 = 150_000;
pub const MOVE_ORDER_SEE_SCALE: i32 = 4;
pub const MOVE_ORDER_SEE_CAP: i32 = 2_000;

/// What the ordering of one node needs besides the moves.
pub struct MoveOrderingContext {
    pub half_move_clock: u32,
    pub prev_move: Option<((usize, usize), (usize, usize))>,
}

/// The piece that lands on the destination: the mover, or the piece its
/// promotion letter names.
pub open spec fn landing_piece(p: Piece, promo: Option<char>) -> Piece {
    match promo {
        Some(pc) => Piece {
            piece_type: if pc == 'q' || pc == 'Q' { PieceType::Queen } else if pc == 'r' || pc == 'R' { PieceType::Rook }
                else if pc == 'b' || pc == 'B' { PieceType::Bishop } else if pc == 'n' || pc == 'N' { PieceType::Knight }
                else { p.piece_type },
            color: p.color,
        },
        None => p,
    }
}

/// The board after the capture `from`-`to`, as the ordering sees it: the
/// mover (or its promotion piece) on `to`, `from` emptied, and the pawn taken
/// en passant removed.
pub open spec fn capture_board_after(b: Board, from: (usize, usize), to: (usize, usize), promo: Option<char>, is_en_passant: bool) -> Board {
    let moved = landing_piece(b.at(from.0 as int, from.1 as int).unwrap(), promo);
    let b1 = b.with(from.0 as int, from.1 as int, None);
    let b2 = if is_en_passant { b1.with(from.0 as int, to.1 as int, None) } else { b1 };
    let b3 = b2.with(to.0 as int, to.1 as int, Some(moved));
    if moved.piece_type == PieceType::King { b3.with_king(moved.color, to) } else { b3 }
}

/// The value of the piece the capture takes (the pawn beside `from` en passant).
pub open spec fn captured_value(b: Board, from: (usize, usize), to: (usize, usize), is_en_passant: bool) -> int {
    if is_en_passant { value_at(b, (from.0, to.1)) } else { value_at(b, to) }
}

/// The exchange estimate on `to` after the capture `from`-`to` (promotion
/// and en passant included); 0 when `from` is empty.
pub fn capture_see_order_score(
    board: &Board,
    to_move: Color,
    from: (usize, usize),
    to: (usize, usize),
    promo: Option<char>,
    is_en_passant: bool,
) -> (s: i32)
    requires
        on_board(from),
        on_board(to),
    ensures
        board.at(from.0 as int, from.1 as int) is None ==> s == 0,
        board.at(from.0 as int, from.1 as int) is Some ==> s == see_value(capture_board_after(*board, from, to, promo, is_en_passant),
            to_move, to, captured_value(*board, from, to, is_en_passant)),
        -660_000 <= s <= 20_000,
{
    let moved = match board.get(from.0, from.1) {
        Some(p) => p,
        None => return 0,
    };
    let captured = if is_en_passant { board.get(from.0, to.1) } else { board.get(to.0, to.1) };
    let cap_val: i32 = match captured {
        Some(p) => piece_value_cp(p.piece_type),
        None => 0,
    };
    let mut post = *board;
    post.set(from.0, from.1, None);
    if is_en_passant {
        post.set(from.0, to.1, None);
    }
    let mut moved_piece = moved;
    if let Some(pc) = promo {
        let pt = if pc == 'q' || pc == 'Q' {
            PieceType::Queen
        } else if pc == 'r' || pc == 'R' {
            PieceType::Rook
        } else if pc == 'b' || pc == 'B' {
            PieceType::Bishop
        } else if pc == 'n' || pc == 'N' {
            PieceType::Knight
        } else {
            moved_piece.piece_type
        };
        moved_piece = Piece::new(pt, moved_piece.color);
    }
    post.set(to.0, to.1, Some(moved_piece));
    if moved_piece.piece_type == PieceType::King {
        post.set_king_location(moved_piece.color, to);
    }
    see_dest_estimate(&post, to_move, to, cap_val)
}

pub open spec fn promo_bonus(promo: Option<char>) -> int {
    match promo {
        Some(p) => if p == 'q' { 900 } else if p == 'r' { 500 } else if p == 'b' { 330 } else if p == 'n' { 320 } else { 0 },
        None => 0,
    }
}

/// The ordering key of a move, higher first.
pub open spec fn spec_order_key(
    h: SearchHeuristics,
    from: (usize, usize),
    to: (usize, usize),
    promo: Option<char>,
    moved_type: Option<PieceType>,
    is_capture: bool,
    mvv_lva: int,
    see_score: int,
    to_move: Color,
    ply: int,
    hmc: u32,
    prev_move: Option<((usize, usize), (usize, usize))>,
) -> int {
    let is_pawn = moved_type == Some(PieceType::Pawn);
    let capture = if is_capture { clamp_to(see_score * MOVE_ORDER_SEE_SCALE, -MOVE_ORDER_SEE_CAP as int, MOVE_ORDER_SEE_CAP as int) } else { 0 };
    let near_fifty = if hmc >= 80 && (is_pawn || is_capture) { 100_000int } else { 0int };
    let quiet = if !is_capture && !is_pawn {
        (match prev_move {
            Some(pm) => (if h.counter_at(to_move, pm.0, pm.1) == flat_move(from, to) { MOVE_ORDER_COUNTER_BONUS as int } else { 0int })
                + clamp_to(trunc_div(h.cont_at(to_move, pm.1, from, to) as int, 16), -MOVE_ORDER_CONTINUATION_CAP as int, MOVE_ORDER_CONTINUATION_CAP as int),
            None => 0int,
        })
        + (if 0 <= ply && ply < h.killer_plies() && crate::heuristics::pair_holds(h.killer_pair(ply), flat_move(from, to)) { 200_000int } else { 0int })
        + clamp_to(trunc_div(h.history_at(to_move, from, to) as int, 32), -200_000, 200_000)
    } else {
        0
    };
    mvv_lva + capture + promo_bonus(promo) + near_fifty + quiet
}

pub fn compute_move_order_score(
    from: (usize, usize),
    to: (usize, usize),
    promo: Option<char>,
    moved_type: Option<PieceType>,
    is_capture: bool,
    mvv_lva: i32,
    see_score: i32,
    to_move: Color,
    ply: i32,
    ctx: &MoveOrderingContext,
    heuristics: &SearchHeuristics,
) -> (key: i32)
    requires
        heuristics.wf(),
        on_board(from),
        on_board(to),
        -1_000_000_000 <= mvv_lva <= 1_000_000_000,
        -500_000_000 <= see_score <= 500_000_000,
        ctx.prev_move matches Some(pm) ==> on_board(pm.0) && on_board(pm.1),
    ensures
        key == spec_order_key(*heuristics, from, to, promo, moved_type, is_capture, mvv_lva as int, see_score as int,
            to_move, ply as int, ctx.half_move_clock, ctx.prev_move),
{
    let mut key: i32 = mvv_lva;
    if is_capture {
        let s = see_score * MOVE_ORDER_SEE_SCALE;
        key = key + if s < -MOVE_ORDER_SEE_CAP { -MOVE_ORDER_SEE_CAP } else if s > MOVE_ORDER_SEE_CAP { MOVE_ORDER_SEE_CAP } else { s };
    }
    if let Some(p) = promo {
        key = key + if p == 'q' { 900 } else if p == 'r' { 500 } else if p == 'b' { 330 } else if p == 'n' { 320 } else { 0 };
    }
    let is_pawn_moved = match moved_type {
        Some(t) => t == PieceType::Pawn,
        None => false,
    };
    if ctx.half_move_clock >= 80 && (is_pawn_moved || is_capture) {
        key = key + 100_000;
    }
    if !is_capture && !is_pawn_moved {
        if let Some((prev_from, prev_to)) = ctx.prev_move {
            if heuristics.is_counter_move(to_move, prev_from, prev_to, from, to) {
                key = key + MOVE_ORDER_COUNTER_BONUS;
            }
            let cont = heuristics.continuation_score(to_move, prev_to, from, to);
            let c = cont / MOVE_ORDER_CONTINUATION_DIV;
            key = key + if c < -MOVE_ORDER_CONTINUATION_CAP { -MOVE_ORDER_CONTINUATION_CAP } else if c > MOVE_ORDER_CONTINUATION_CAP { MOVE_ORDER_CONTINUATION_CAP } else { c };
        }
        let is_killer = if ply >= 0 { heuristics.is_killer(ply as usize, from, to) } else { false };
        if is_killer {
            key = key + 200_000;
        }
        let hist = heuristics.history_score(to_move, from, to);
        let h = hist / 32;
        key = key + if h < -200_000 { -200_000 } else if h > 200_000 { 200_000 } else { h };
    }
    key
}

} // verus!
