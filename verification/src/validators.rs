//! Move-shape rules of the pieces, each optionally refusing moves that
//! would leave the mover's own king in check.
use vstd::prelude::*;
use crate::pieces::{Color, Piece, PieceType};
use crate::board::{Board, on_board, iabs, same_square};
use crate::game_state::GameState;
use crate::pieces::spec_opposite;

verus! {

pub open spec fn slider(pt: PieceType) -> Piece {
    Piece { piece_type: pt, color: Color::White }
}

/// The move keeps the king safe, or the pin check is not asked for.
pub open spec fn pin_ok(b: Board, from: (usize, usize), to: (usize, usize), ep: Option<(usize, usize)>, pin: bool) -> bool {
    !(pin && b.spec_check_after_move(from, to, ep))
}

pub open spec fn spec_valid_bishop(b: Board, from: (usize, usize), to: (usize, usize), pin: bool) -> bool {
    b.piece_attacks(slider(PieceType::Bishop), from.0 as int, from.1 as int, to.0 as int, to.1 as int)
        && pin_ok(b, from, to, None, pin)
}

pub open spec fn spec_valid_rook(b: Board, from: (usize, usize), to: (usize, usize), pin: bool) -> bool {
    b.piece_attacks(slider(PieceType::Rook), from.0 as int, from.1 as int, to.0 as int, to.1 as int)
        && pin_ok(b, from, to, None, pin)
}

pub open spec fn spec_valid_queen(b: Board, from: (usize, usize), to: (usize, usize), pin: bool) -> bool {
    b.piece_attacks(slider(PieceType::Queen), from.0 as int, from.1 as int, to.0 as int, to.1 as int)
        && pin_ok(b, from, to, None, pin)
}

pub open spec fn spec_valid_knight(b: Board, from: (usize, usize), to: (usize, usize), pin: bool) -> bool {
    b.piece_attacks(slider(PieceType::Knight), from.0 as int, from.1 as int, to.0 as int, to.1 as int)
        && pin_ok(b, from, to, None, pin)
}

/// The rank on which pawns of `c` promote.
pub open spec fn last_rank(c: Color) -> int {
    if c == Color::White { 7 } else { 0 }
}

/// The pawn rules: straight pushes (two squares from the start rank over an
/// empty square, never as a capture), diagonal captures, and a promotion
/// piece exactly when the pawn reaches the last rank.
pub open spec fn spec_pawn_shape(b: Board, from: (usize, usize), to: (usize, usize), is_capture: bool, color: Color, has_promo: bool) -> bool {
    let fr = from.0 as int;
    let fc = from.1 as int;
    let tr = to.0 as int;
    let tc = to.1 as int;
    &&& fr != tr
    &&& if is_capture { iabs(fc - tc) == 1 } else { fc == tc }
    &&& if color == Color::White {
        if fr == 1 {
            tr >= fr && tr - fr <= 2 && (tr - fr == 2 ==> !is_capture && b.at(fr + 1, fc) is None)
        } else {
            tr - fr == 1
        }
    } else {
        if fr == 6 {
            tr <= fr && fr - tr <= 2 && (fr - tr == 2 ==> !is_capture && b.at(fr - 1, fc) is None)
        } else {
            fr - tr == 1
        }
    }
    &&& if has_promo { tr == last_rank(color) } else { tr != last_rank(color) }
}

pub open spec fn spec_valid_pawn(b: Board, from: (usize, usize), to: (usize, usize), is_capture: bool, ep: Option<(usize, usize)>, color: Color, has_promo: bool, pin: bool) -> bool {
    spec_pawn_shape(b, from, to, is_capture, color, has_promo) && pin_ok(b, from, to, ep, pin)
}

pub fn is_valid_bishop_move(board: &Board, from: (usize, usize), to: (usize, usize), do_pin_check: bool) -> (ok: bool)
    requires
        board.wf(),
        on_board(from),
        on_board(to),
    ensures
        ok == spec_valid_bishop(*board, from, to, do_pin_check),
{
    if same_square(from, to) {
        return false;
    }
    let d_row = if to.0 > from.0 { to.0 - from.0 } else { from.0 - to.0 };
    let d_col = if to.1 > from.1 { to.1 - from.1 } else { from.1 - to.1 };
    if d_row == 0 || d_col == 0 {
        return false;
    }
    if d_row != d_col {
        return false;
    }
    if !board.path_clear_exec(from, to) {
        return false;
    }
    if do_pin_check && board.is_king_in_check_after_move(from, to, None) {
        return false;
    }
    true
}

pub fn is_valid_rook_move(board: &Board, from: (usize, usize), to: (usize, usize), do_pin_check: bool) -> (ok: bool)
    requires
        board.wf(),
        on_board(from),
        on_board(to),
    ensures
        ok == spec_valid_rook(*board, from, to, do_pin_check),
{
    if same_square(from, to) {
        return false;
    }
    let same_row = from.0 == to.0;
    let same_col = from.1 == to.1;
    if !(same_row || same_col) {
        return false;
    }
    if !board.path_clear_exec(from, to) {
        return false;
    }
    if do_pin_check && board.is_king_in_check_after_move(from, to, None) {
        return false;
    }
    true
}

pub fn is_valid_queen_move(board: &Board, from: (usize, usize), to: (usize, usize), do_pin_check: bool) -> (ok: bool)
    requires
        board.wf(),
        on_board(from),
        on_board(to),
    ensures
        ok == spec_valid_queen(*board, from, to, do_pin_check),
{
    if same_square(from, to) {
        return false;
    }
    let result = is_valid_rook_move(board, from, to, do_pin_check) || is_valid_bishop_move(board, from, to, do_pin_check);
    if do_pin_check && board.move_piece_is_pinned(from, to, None) {
        return false;
    }
    result
}

pub fn is_valid_knight_move(board: &Board, from: (usize, usize), to: (usize, usize), do_pin_check: bool) -> (ok: bool)
    requires
        board.wf(),
        on_board(from),
        on_board(to),
    ensures
        ok == spec_valid_knight(*board, from, to, do_pin_check),
{
    if same_square(from, to) {
        return false;
    }
    let dr = if to.0 > from.0 { to.0 - from.0 } else { from.0 - to.0 };
    let dc = if to.1 > from.1 { to.1 - from.1 } else { from.1 - to.1 };
    if do_pin_check && board.move_piece_is_pinned(from, to, None) {
        return false;
    }
    (dr == 2 && dc == 1) || (dr == 1 && dc == 2)
}

pub fn is_valid_pawn_move(
    board: &Board,
    from: (usize, usize),
    to: (usize, usize),
    is_capture: bool,
    en_passant_target: Option<(usize, usize)>,
    active_color: Color,
    promotion_piece: Option<Piece>,
    do_pin_check: bool,
) -> (ok: bool)
    requires
        board.wf(),
        on_board(from),
        on_board(to),
    ensures
        ok == spec_valid_pawn(*board, from, to, is_capture, en_passant_target, active_color, promotion_piece is Some, do_pin_check),
{
    if same_square(from, to) {
        return false;
    }
    if from.0 == to.0 {
        return false;
    }
    if is_capture {
        let dc = if from.1 > to.1 { from.1 - to.1 } else { to.1 - from.1 };
        if dc != 1 {
            return false;
        }
    } else {
        if from.1 != to.1 {
            return false;
        }
    }
    if active_color == Color::White {
        if from.0 == 1 {
            if to.0 < from.0 {
                return false;
            }
            if to.0 - from.0 > 2 {
                return false;
            }
            if to.0 - from.0 == 2 {
                if is_capture {
                    return false;
                }
                if !board.is_empty((from.0 + 1, from.1)) {
                    return false;
                }
            }
        } else {
            if to.0 != from.0 + 1 {
                return false;
            }
        }
    } else {
        if from.0 == 6 {
            if to.0 > from.0 {
                return false;
            }
            if from.0 - to.0 > 2 {
                return false;
            }
            if from.0 - to.0 == 2 {
                if is_capture {
                    return false;
                }
                if !board.is_empty((from.0 - 1, from.1)) {
                    return false;
                }
            }
        } else {
            if from.0 != to.0 + 1 {
                return false;
            }
        }
    }
    if promotion_piece.is_some() {
        if active_color == Color::White {
            if to.0 != 7 {
                return false;
            }
        } else {
            if to.0 != 0 {
                return false;
            }
        }
    } else {
        if active_color == Color::White {
            if to.0 == 7 {
                return false;
            }
        } else {
            if to.0 == 0 {
                return false;
            }
        }
    }
    if do_pin_check && board.is_king_in_check_after_move(from, to, en_passant_target) {
        return false;
    }
    true
}

/// Shape and pin validity of a move of `piece` from `from` to `to`, with the
/// king limited to single steps (no castling).
pub open spec fn spec_piece_move_valid(b: Board, active_color: Color, piece: Piece, from: (usize, usize), to: (usize, usize), is_capture: bool) -> bool {
    match piece.piece_type {
        PieceType::Pawn => spec_valid_pawn(b, from, to, is_capture, None, active_color, false, true),
        PieceType::Knight => spec_valid_knight(b, from, to, true),
        PieceType::Bishop => spec_valid_bishop(b, from, to, true),
        PieceType::Rook => spec_valid_rook(b, from, to, true),
        PieceType::Queen => spec_valid_queen(b, from, to, true),
        PieceType::King => iabs(from.0 - to.0) <= 1 && iabs(from.1 - to.1) <= 1 && !b.spec_check_after_move(from, to, None),
    }
}

pub fn is_piece_move_valid(
    board: &Board,
    active_color: Color,
    r: usize,
    c: usize,
    piece: Piece,
    tr: usize,
    tc: usize,
    from: (usize, usize),
    to: (usize, usize),
    is_capture: bool,
) -> (ok: bool)
    requires
        board.wf(),
        on_board(from),
        on_board(to),
        from == (r, c),
        to == (tr, tc),
    ensures
        ok == spec_piece_move_valid(*board, active_color, piece, from, to, is_capture),
{
    let tmp = *board;
    match piece.get_type() {
        PieceType::Pawn => is_valid_pawn_move(&tmp, from, to, is_capture, None, active_color, None, true),
        PieceType::Knight => is_valid_knight_move(&tmp, from, to, true),
        PieceType::Bishop => is_valid_bishop_move(&tmp, from, to, true),
        PieceType::Rook => is_valid_rook_move(&tmp, from, to, true),
        PieceType::Queen => is_valid_queen_move(&tmp, from, to, true),
        PieceType::King => {
            let dr = if r > tr { r - tr } else { tr - r };
            let dc = if c > tc { c - tc } else { tc - c };
            if dr <= 1 && dc <= 1 {
                !tmp.is_king_in_check_after_move(from, to, None)
            } else {
                false
            }
        },
    }
}


/// Castling conditions on one side: the rook of `color` on its corner, the
/// squares between king and rook empty, and the king's start, crossing and
/// destination squares not attacked.
pub open spec fn spec_castle_path_ok(b: Board, color: Color, row: int, kingside: bool) -> bool {
    let opp = spec_opposite(color);
    if kingside {
        &&& b.at(row, 7) == Some(Piece { piece_type: PieceType::Rook, color })
        &&& b.at(row, 5) is None
        &&& b.at(row, 6) is None
        &&& !b.attacked_by(row, 4, opp)
        &&& !b.attacked_by(row, 5, opp)
        &&& !b.attacked_by(row, 6, opp)
    } else {
        &&& b.at(row, 0) == Some(Piece { piece_type: PieceType::Rook, color })
        &&& b.at(row, 1) is None
        &&& b.at(row, 2) is None
        &&& b.at(row, 3) is None
        &&& !b.attacked_by(row, 4, opp)
        &&& !b.attacked_by(row, 3, opp)
        &&& !b.attacked_by(row, 2, opp)
    }
}

/// King moves: a single step that does not end attacked (and not next to an
/// enemy pawn's capture square), or castling with the right still held.
pub open spec fn spec_valid_king(g: GameState, from: (usize, usize), to: (usize, usize)) -> bool {
    let b = g.board;
    let dr = iabs(from.0 - to.0);
    let dc = iabs(from.1 - to.1);
    if from == to {
        false
    } else if dr <= 1 && dc <= 1 {
        &&& !b.spec_check_after_move(from, to, g.en_passant)
        &&& (b.at(from.0 as int, from.1 as int) matches Some(k) ==>
            !b.pawn_attacked_by(to.0 as int, to.1 as int, spec_opposite(k.color)))
    } else if !(from.0 == to.0 && dc == 2) {
        false
    } else {
        match b.at(from.0 as int, from.1 as int) {
            Some(k) => {
                let start_row: int = if k.color == Color::White { 0 } else { 7 };
                let kingside = to.1 == 6;
                &&& k.piece_type == PieceType::King
                &&& from.0 == start_row && from.1 == 4
                &&& (to.1 == 6 || to.1 == 2)
                &&& (if k.color == Color::White {
                    if kingside { g.castling.wk } else { g.castling.wq }
                } else {
                    if kingside { g.castling.bk } else { g.castling.bq }
                })
                &&& spec_castle_path_ok(b, k.color, start_row, kingside)
            },
            None => false,
        }
    }
}

fn rook_exist_with_matching_color(b: &Board, color: Color, row: usize, rook_col: usize) -> (ok: bool)
    requires
        row < 8,
        rook_col < 8,
    ensures
        ok == (b.at(row as int, rook_col as int) == Some(Piece { piece_type: PieceType::Rook, color })),
{
    match b.get(row, rook_col) {
        Some(p) => p.piece_type == PieceType::Rook && p.color == color,
        None => false,
    }
}

pub fn is_valid_king_move(game_state: &GameState, from: (usize, usize), to: (usize, usize)) -> (ok: bool)
    requires
        game_state.wf(),
        on_board(from),
        on_board(to),
    ensures
        ok == spec_valid_king(*game_state, from, to),
{
    let b = game_state.board();
    if same_square(from, to) {
        return false;
    }
    let dr = if from.0 > to.0 { from.0 - to.0 } else { to.0 - from.0 };
    let dc = if from.1 > to.1 { from.1 - to.1 } else { to.1 - from.1 };
    if dr <= 1 && dc <= 1 {
        let en_passant_target = game_state.en_passant_target();
        if b.is_king_in_check_after_move(from, to, en_passant_target) {
            return false;
        }
        if let Some(king_piece) = b.get(from.0, from.1) {
            let opponent = match king_piece.color { Color::White => Color::Black, Color::Black => Color::White };
            if b.is_square_pawn_attacked_by(opponent, to) {
                return false;
            }
        }
        return true;
    }
    let same_rank = from.0 == to.0;
    if !(same_rank && dc == 2) {
        return false;
    }
    let king_piece = match b.get(from.0, from.1) {
        Some(p) => p,
        None => return false,
    };
    if king_piece.piece_type != PieceType::King {
        return false;
    }
    let color = king_piece.color;
    let row = from.0;
    let start_row: usize = if color == Color::White { 0 } else { 7 };
    if !(from.0 == start_row && from.1 == 4) {
        return false;
    }
    let is_kingside = to.1 == 6;
    let is_queenside = to.1 == 2;
    if !is_kingside && !is_queenside {
        return false;
    }
    let rights = game_state.castling_rights();
    let rights_ok = match color {
        Color::White => if is_kingside { rights.white_kingside() } else { rights.white_queenside() },
        Color::Black => if is_kingside { rights.black_kingside() } else { rights.black_queenside() },
    };
    if !rights_ok {
        return false;
    }
    if is_kingside {
        if !rook_exist_with_matching_color(b, color, row, 7) { return false; }
        if !b.is_empty((row, 5)) { return false; }
        if !b.is_empty((row, 6)) { return false; }
        if b.is_square_attacked_by_opponent((row, 4), color) { return false; }
        if b.is_square_attacked_by_opponent((row, 5), color) { return false; }
        if b.is_square_attacked_by_opponent((row, 6), color) { return false; }
        true
    } else {
        if !rook_exist_with_matching_color(b, color, row, 0) { return false; }
        if !b.is_empty((row, 1)) { return false; }
        if !b.is_empty((row, 2)) { return false; }
        if !b.is_empty((row, 3)) { return false; }
        if b.is_square_attacked_by_opponent((row, 4), color) { return false; }
        if b.is_square_attacked_by_opponent((row, 3), color) { return false; }
        if b.is_square_attacked_by_opponent((row, 2), color) { return false; }
        true
    }
}

} // verus!
