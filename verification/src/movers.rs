//! Playing a checked move on a game state: the piece moves, and the
//! en-passant square, castling rights, king square and half-move clock are
//! brought up to date.
use vstd::prelude::*;
use crate::pieces::{Color, Piece, PieceType};
use crate::board::{Board, on_board, opt_square_is};
use crate::game_state::{GameState, CastlingRights};
use crate::validators::{
    is_valid_pawn_move, is_valid_knight_move, is_valid_bishop_move, is_valid_rook_move,
    is_valid_queen_move, is_valid_king_move, spec_valid_pawn, spec_valid_knight, spec_valid_bishop,
    spec_valid_rook, spec_valid_queen, spec_valid_king,
};

verus! {

/// The half-move clock after a move: back to zero on a capture, one more
/// otherwise (it stops at its largest value).
pub open spec fn clock_after(h: u32, is_capture: bool) -> u32 {
    if is_capture { 0 } else if h < u32::MAX { (h + 1) as u32 } else { h }
}

/// The state after a move of a piece without special rules.
pub open spec fn spec_standard_move(g: GameState, from: (usize, usize), to: (usize, usize), is_capture: bool) -> GameState {
    GameState {
        board: g.board.spec_move_basic(from, to),
        en_passant: None,
        half_move_clock: clock_after(g.half_move_clock, is_capture),
        ..g
    }
}

/// The rights left once `color` has moved its king.
pub open spec fn rights_without(r: CastlingRights, color: Color) -> CastlingRights {
    if color == Color::White {
        CastlingRights { wk: false, wq: false, ..r }
    } else {
        CastlingRights { bk: false, bq: false, ..r }
    }
}

/// The state after a king move; two files along the rank is castling, and
/// the rook of that side jumps over the king.
pub open spec fn spec_king_move(g: GameState, piece: Piece, from: (usize, usize), to: (usize, usize), is_capture: bool) -> GameState {
    let b1 = g.board.spec_move_basic(from, to);
    let castle = from.0 == to.0 && (from.1 - to.1 == 2 || to.1 - from.1 == 2);
    let b2 = if castle && to.1 == 6 {
        b1.spec_move_basic((from.0, 7usize), (from.0, 5usize))
    } else if castle && to.1 == 2 {
        b1.spec_move_basic((from.0, 0usize), (from.0, 3usize))
    } else {
        b1
    };
    GameState {
        board: b2.with_king(piece.color, to),
        castling: rights_without(g.castling, piece.color),
        en_passant: None,
        half_move_clock: clock_after(g.half_move_clock, is_capture),
        ..g
    }
}

/// The square of the pawn taken en passant by a pawn of `color` landing on `to`.
pub open spec fn ep_victim(color: Color, to: (usize, usize)) -> (int, int) {
    if color == Color::White { (to.0 - 1, to.1 as int) } else { (to.0 + 1, to.1 as int) }
}

/// The state after a pawn move: the pawn taken en passant leaves the board,
/// a pawn reaching the last rank becomes `promotion` (a queen if none is
/// given), a double step from the start rank sets the en-passant square,
/// and the half-move clock goes back to zero.
pub open spec fn spec_pawn_move(
    g: GameState,
    piece: Piece,
    from: (usize, usize),
    to: (usize, usize),
    is_capture: bool,
    promotion: Option<Piece>,
) -> GameState {
    let b0 = if is_capture && g.en_passant == Some(to) {
        g.board.with(ep_victim(piece.color, to).0, ep_victim(piece.color, to).1, None)
    } else {
        g.board
    };
    let promo = if promotion is None && ((g.active_color == Color::White && to.0 == 7)
        || (g.active_color == Color::Black && to.0 == 0)) {
        Some(Piece { piece_type: PieceType::Queen, color: g.active_color })
    } else {
        promotion
    };
    let b1 = b0.spec_move_basic(from, to);
    let b2 = match promo {
        Some(p) => b1.with(to.0 as int, to.1 as int, Some(p)),
        None => b1,
    };
    GameState {
        board: b2,
        en_passant: if from.0 == 1 && to.0 == 3 && from.1 == to.1 {
            Some((2usize, from.1))
        } else if from.0 == 6 && to.0 == 4 && from.1 == to.1 {
            Some((5usize, from.1))
        } else {
            None
        },
        half_move_clock: 0,
        ..g
    }
}

/// Moves a piece without special rules (knight, bishop, rook, queen).
pub fn move_standard_piece(game_state: &mut GameState, from: (usize, usize), to: (usize, usize), is_capture: bool) -> (ok: bool)
    requires
        on_board(from),
        on_board(to),
    ensures
        ok == (old(game_state).board.at(from.0 as int, from.1 as int) is Some),
        *final(game_state) == (if ok { spec_standard_move(*old(game_state), from, to, is_capture) } else { *old(game_state) }),
{
    let moved = game_state.move_piece(from, to);
    if !moved {
        return false;
    }
    game_state.set_en_passant_target(None);
    if is_capture {
        game_state.reset_half_move_clock();
    } else {
        game_state.increment_half_move_clock();
    }
    true
}

/// Moves a bishop.
pub fn move_bishop(game_state: &mut GameState, piece: Piece, from: (usize, usize), to: (usize, usize), is_capture: bool) -> (ok: bool)
    requires
        on_board(from),
        on_board(to),
    ensures
        ok == (old(game_state).board.at(from.0 as int, from.1 as int) is Some),
        *final(game_state) == (if ok { spec_standard_move(*old(game_state), from, to, is_capture) } else { *old(game_state) }),
{
    let moved = game_state.move_piece(from, to);
    if !moved {
        return false;
    }
    game_state.set_en_passant_target(None);
    if is_capture {
        game_state.reset_half_move_clock();
    } else {
        game_state.increment_half_move_clock();
    }
    true
}

/// Moves a king, with the rook's jump when it castles.
pub fn move_king(game_state: &mut GameState, piece: Piece, from: (usize, usize), to: (usize, usize), is_capture: bool) -> (ok: bool)
    requires
        on_board(from),
        on_board(to),
    ensures
        ok == (old(game_state).board.at(from.0 as int, from.1 as int) is Some),
        *final(game_state) == (if ok { spec_king_move(*old(game_state), piece, from, to, is_capture) } else { *old(game_state) }),
{
    let moved = game_state.board.move_piece_basic(from, to);
    if !moved {
        return false;
    }
    game_state.revoke_castling_rights_for_color(piece.color);
    let same_rank = from.0 == to.0;
    let file_diff = if from.1 > to.1 { from.1 - to.1 } else { to.1 - from.1 };
    if same_rank && file_diff == 2 {
        let row = from.0;
        if to.1 == 6 {
            let _ = game_state.board.move_piece_basic((row, 7), (row, 5));
        } else if to.1 == 2 {
            let _ = game_state.board.move_piece_basic((row, 0), (row, 3));
        }
    }
    game_state.set_en_passant_target(None);
    if is_capture {
        game_state.reset_half_move_clock();
    } else {
        game_state.increment_half_move_clock();
    }
    game_state.update_king_location(piece.color, to);
    true
}

/// Moves a pawn: en passant, promotion and the double step.
pub fn move_pawn(
    game_state: &mut GameState,
    piece: Piece,
    from: (usize, usize),
    to: (usize, usize),
    is_capture: bool,
    promotion_piece: Option<Piece>,
) -> (ok: bool)
    requires
        on_board(from),
        on_board(to),
        is_capture && old(game_state).en_passant == Some(to) ==> (if piece.color == Color::White { to.0 >= 1 } else { to.0 < 7 }),
    ensures
        ({
            let b0 = if is_capture && old(game_state).en_passant == Some(to) {
                old(game_state).board.with(ep_victim(piece.color, to).0, ep_victim(piece.color, to).1, None)
            } else {
                old(game_state).board
            };
            &&& ok == (b0.at(from.0 as int, from.1 as int) is Some)
            &&& !ok ==> *final(game_state) == (GameState { board: b0, ..*old(game_state) })
        }),
        ok ==> *final(game_state) == spec_pawn_move(*old(game_state), piece, from, to, is_capture, promotion_piece),
{
    if is_capture && opt_square_is(game_state.en_passant_target(), to) {
        if piece.color == Color::White {
            game_state.clear_square(to.0 - 1, to.1);
        } else {
            game_state.clear_square(to.0 + 1, to.1);
        }
    }
    let mut promotion_piece_to_use = promotion_piece;
    if promotion_piece.is_none() {
        if game_state.active_color() == Color::White && to.0 == 7 || game_state.active_color() == Color::Black && to.0 == 0 {
            promotion_piece_to_use = Some(Piece::new(PieceType::Queen, game_state.active_color()));
        }
    }
    let move_ok = game_state.move_pawn(from, to, promotion_piece_to_use);
    if !move_ok {
        return false;
    }
    if from.0 == 1 && to.0 == 3 && from.1 == to.1 {
        game_state.set_en_passant_target(Some((2, from.1)));
    } else if from.0 == 6 && to.0 == 4 && from.1 == to.1 {
        game_state.set_en_passant_target(Some((5, from.1)));
    } else {
        game_state.set_en_passant_target(None);
    }
    game_state.reset_half_move_clock();
    true
}

/// Whether the side to move may play `from`-`to` by the rules of the piece
/// on `from`; pin checks included, castling not.
pub open spec fn spec_move_allowed(g: GameState, from: (usize, usize), to: (usize, usize), is_capture: bool, promotion: Option<Piece>) -> bool {
    &&& g.board.at(from.0 as int, from.1 as int) matches Some(p)
    &&& g.spec_from_to_check(from, to, is_capture, p.piece_type == PieceType::Pawn)
    &&& match p.piece_type {
        PieceType::Pawn => spec_valid_pawn(g.board, from, to, is_capture, g.en_passant, g.active_color, promotion is Some, true),
        PieceType::Knight => spec_valid_knight(g.board, from, to, true),
        PieceType::Bishop => spec_valid_bishop(g.board, from, to, true),
        PieceType::Rook => spec_valid_rook(g.board, from, to, true),
        PieceType::Queen => spec_valid_queen(g.board, from, to, true),
        PieceType::King => spec_valid_king(g, from, to),
    }
}

/// The state after an allowed move.
pub open spec fn spec_move_result(g: GameState, from: (usize, usize), to: (usize, usize), is_capture: bool, promotion: Option<Piece>) -> GameState {
    let p = g.board.at(from.0 as int, from.1 as int).unwrap();
    match p.piece_type {
        PieceType::Pawn => spec_pawn_move(g, p, from, to, is_capture, promotion),
        PieceType::King => spec_king_move(g, p, from, to, is_capture),
        _ => spec_standard_move(g, from, to, is_capture),
    }
}

pub struct PieceMover {}

impl PieceMover {
    /// Plays `from`-`to` for the side to move when the piece rules allow it;
    /// returns whether it was played (the state is unchanged otherwise).
    pub fn move_piece(
        game_state: &mut GameState,
        from: (usize, usize),
        to: (usize, usize),
        is_capture: bool,
        promotion_piece: Option<Piece>,
    ) -> (ok: bool)
        requires
            old(game_state).wf(),
            on_board(from),
            on_board(to),
        ensures
            ok == spec_move_allowed(*old(game_state), from, to, is_capture, promotion_piece),
            *final(game_state) == (if ok {
                spec_move_result(*old(game_state), from, to, is_capture, promotion_piece)
            } else {
                *old(game_state)
            }),
    {
        let piece: Piece = match game_state.board().get(from.0, from.1) {
            Some(p) => p,
            None => return false,
        };
        if !game_state.move_from_and_to_validation_check(from, to, is_capture, piece.piece_type == PieceType::Pawn) {
            return false;
        }
        let active = game_state.active_color();
        match piece.piece_type {
            PieceType::Pawn => {
                let ep = game_state.en_passant_target();
                if is_valid_pawn_move(game_state.board(), from, to, is_capture, ep, active, promotion_piece, true) {
                    return move_pawn(game_state, piece, from, to, is_capture, promotion_piece);
                }
                false
            },
            PieceType::Knight => {
                if is_valid_knight_move(game_state.board(), from, to, true) {
                    return move_standard_piece(game_state, from, to, is_capture);
                }
                false
            },
            PieceType::Bishop => {
                if is_valid_bishop_move(game_state.board(), from, to, true) {
                    return move_bishop(game_state, piece, from, to, is_capture);
                }
                false
            },
            PieceType::Rook => {
                if is_valid_rook_move(game_state.board(), from, to, true) {
                    return move_standard_piece(game_state, from, to, is_capture);
                }
                false
            },
            PieceType::Queen => {
                if is_valid_queen_move(game_state.board(), from, to, true) {
                    return move_standard_piece(game_state, from, to, is_capture);
                }
                false
            },
            PieceType::King => {
                if is_valid_king_move(game_state, from, to) {
                    return move_king(game_state, piece, from, to, is_capture);
                }
                false
            },
        }
    }
}

/// A pawn move not flagged as a capture onto the en-passant square.
pub open spec fn plain_pawn_step(g: GameState, from: (usize, usize), to: (usize, usize), is_capture: bool) -> bool {
    !(is_capture && g.en_passant == Some(to))
}

/// What the mover does to the position when it plays a move (the turn is
/// left to the caller): the piece leaves its square; a knight, bishop, rook
/// or queen lands on the target with the rest of the board as it was, no
/// en-passant square left, the castling rights kept, and the fifty-move
/// clock back to 0 on a capture, one on otherwise.
pub proof fn lemma_mover_plain_piece(g: GameState, from: (usize, usize), to: (usize, usize), is_capture: bool,
    promotion: Option<Piece>)
    requires
        on_board(from),
        on_board(to),
        from != to,
        g.board.at(from.0 as int, from.1 as int) matches Some(p) && p.color == g.active_color
            && p.piece_type != PieceType::Pawn && p.piece_type != PieceType::King,
    ensures
        ({
            let n = spec_move_result(g, from, to, is_capture, promotion);
            let p = g.board.at(from.0 as int, from.1 as int).unwrap();
            &&& n.active_color == g.active_color
            &&& n.board.at(from.0 as int, from.1 as int) is None
            &&& n.board.at(to.0 as int, to.1 as int) == Some(p)
            &&& forall|r: int, c: int| 0 <= r < 8 && 0 <= c < 8 && (r, c) != (from.0 as int, from.1 as int)
                && (r, c) != (to.0 as int, to.1 as int) ==> #[trigger] n.board.at(r, c) == g.board.at(r, c)
            &&& n.en_passant is None
            &&& is_capture ==> n.half_move_clock == 0
            &&& !is_capture && g.half_move_clock < u32::MAX ==> n.half_move_clock == g.half_move_clock + 1
            &&& n.castling == g.castling
        }),
{
}

/// A king move by the mover: the king lands on the target and its square
/// follows it, its side loses both castling rights, and castling (two
/// files along its rank from the e-file onto the c- or g-file, with a rook
/// of its colour in that corner) brings the rook to the d- or f-file and
/// empties the corner.
pub proof fn lemma_mover_king(g: GameState, from: (usize, usize), to: (usize, usize), is_capture: bool,
    promotion: Option<Piece>)
    requires
        on_board(from),
        on_board(to),
        from != to,
        g.board.at(from.0 as int, from.1 as int) matches Some(p) && p.color == g.active_color
            && p.piece_type == PieceType::King,
    ensures
        ({
            let n = spec_move_result(g, from, to, is_capture, promotion);
            let p = g.board.at(from.0 as int, from.1 as int).unwrap();
            let fr = from.0 as int;
            let rook_corner: int = if to.1 == 2 { 0 } else { 7 };
            let rook_to: int = if to.1 == 2 { 3 } else { 5 };
            &&& n.active_color == g.active_color
            &&& n.board.at(from.0 as int, from.1 as int) is None
            &&& n.board.at(to.0 as int, to.1 as int) == Some(p)
            &&& n.board.king_loc(p.color) == to
            &&& p.color == Color::White ==> !n.castling.wk && !n.castling.wq
            &&& p.color == Color::Black ==> !n.castling.bk && !n.castling.bq
            &&& from.0 == to.0 && from.1 == 4 && (to.1 == 2 || to.1 == 6)
                && g.board.at(fr, rook_corner) == Some(Piece { piece_type: PieceType::Rook, color: p.color })
                ==> n.board.at(fr, rook_to) == Some(Piece { piece_type: PieceType::Rook, color: p.color })
                    && n.board.at(fr, rook_corner) is None
        }),
{
}

/// A pawn move by the mover: the pawn leaves its square and the clock
/// restarts; taking en passant (one rank forward onto the en-passant
/// square, diagonally) removes the pawn beside the start square; reaching
/// the last rank it becomes the piece asked for (a queen when none is), and
/// elsewhere, with no promotion asked for, it stays a pawn.
pub proof fn lemma_mover_pawn(g: GameState, from: (usize, usize), to: (usize, usize), is_capture: bool,
    promotion: Option<Piece>)
    requires
        on_board(from),
        on_board(to),
        from != to,
        g.board.at(from.0 as int, from.1 as int) matches Some(p) && p.color == g.active_color
            && p.piece_type == PieceType::Pawn,
    ensures
        ({
            let n = spec_move_result(g, from, to, is_capture, promotion);
            let p = g.board.at(from.0 as int, from.1 as int).unwrap();
            let last_rank: int = if g.active_color == Color::White { 7 } else { 0 };
            &&& n.active_color == g.active_color
            &&& n.board.at(from.0 as int, from.1 as int) is None
            &&& n.half_move_clock == 0
            &&& is_capture && g.en_passant == Some(to) && from.1 != to.1
                && (if g.active_color == Color::White { to.0 == from.0 + 1 } else { from.0 == to.0 + 1 })
                ==> n.board.at(from.0 as int, to.1 as int) is None
            &&& to.0 as int == last_rank && plain_pawn_step(g, from, to, is_capture)
                ==> n.board.at(to.0 as int, to.1 as int) == (match promotion {
                    Some(q) => Some(q),
                    None => Some(Piece { piece_type: PieceType::Queen, color: g.active_color }),
                })
            &&& to.0 as int != last_rank && promotion is None && plain_pawn_step(g, from, to, is_capture)
                ==> n.board.at(to.0 as int, to.1 as int) == Some(p)
        }),
{
    let p = g.board.at(from.0 as int, from.1 as int).unwrap();
    assert(p.color == Color::White || p.color == Color::Black);
}

} // verus!
