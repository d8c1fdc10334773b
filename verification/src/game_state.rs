//! The game state: board, side to move, castling rights, en-passant square
//! and move clocks, with making and unmaking of moves.
use vstd::prelude::*;
use crate::pieces::{Color, Piece, PieceType, spec_opposite};
use crate::board::{Board, on_board, iabs, same_square, opt_square_is};

verus! {

#[derive(Debug, Clone, Copy, PartialEq, Eq, Structural)]
pub struct CastlingRights {
    pub wk: bool,
    pub wq: bool,
    pub bk: bool,
    pub bq: bool,
}

impl CastlingRights {
    pub fn all() -> (r: CastlingRights)
        ensures
            r.wk && r.wq && r.bk && r.bq,
    {
        CastlingRights { wk: true, wq: true, bk: true, bq: true }
    }

    pub fn none() -> (r: CastlingRights)
        ensures
            !r.wk && !r.wq && !r.bk && !r.bq,
    {
        CastlingRights { wk: false, wq: false, bk: false, bq: false }
    }

    pub fn white_kingside(&self) -> (b: bool)
        ensures
            b == self.wk,
    {
        self.wk
    }

    pub fn white_queenside(&self) -> (b: bool)
        ensures
            b == self.wq,
    {
        self.wq
    }

    pub fn black_kingside(&self) -> (b: bool)
        ensures
            b == self.bk,
    {
        self.bk
    }

    pub fn black_queenside(&self) -> (b: bool)
        ensures
            b == self.bq,
    {
        self.bq
    }

    /// The rights left after a move from `from` to `to` by `mover`: a king move
    /// gives up both of its side's rights, and a move from or onto a corner
    /// square gives up the right that belongs to that corner.
    pub open spec fn spec_after_move(self, mover: Piece, from: (usize, usize), to: (usize, usize)) -> CastlingRights {
        let king_w = mover.piece_type == PieceType::King && mover.color == Color::White;
        let king_b = mover.piece_type == PieceType::King && mover.color == Color::Black;
        CastlingRights {
            wk: self.wk && !king_w && from != (0usize, 7usize) && to != (0usize, 7usize),
            wq: self.wq && !king_w && from != (0usize, 0usize) && to != (0usize, 0usize),
            bk: self.bk && !king_b && from != (7usize, 7usize) && to != (7usize, 7usize),
            bq: self.bq && !king_b && from != (7usize, 0usize) && to != (7usize, 0usize),
        }
    }

    pub fn after_move(&self, mover: Piece, from: (usize, usize), to: (usize, usize)) -> (r: CastlingRights)
        ensures
            r == self.spec_after_move(mover, from, to),
    {
        let king_w = mover.piece_type == PieceType::King && mover.color == Color::White;
        let king_b = mover.piece_type == PieceType::King && mover.color == Color::Black;
        CastlingRights {
            wk: self.wk && !king_w && !same_square(from, (0, 7)) && !same_square(to, (0, 7)),
            wq: self.wq && !king_w && !same_square(from, (0, 0)) && !same_square(to, (0, 0)),
            bk: self.bk && !king_b && !same_square(from, (7, 7)) && !same_square(to, (7, 7)),
            bq: self.bq && !king_b && !same_square(from, (7, 0)) && !same_square(to, (7, 0)),
        }
    }
}

/// The piece standing on a square in the starting position.
pub open spec fn start_piece(r: int, c: int) -> Option<Piece> {
    let back = if c == 0 || c == 7 { PieceType::Rook }
        else if c == 1 || c == 6 { PieceType::Knight }
        else if c == 2 || c == 5 { PieceType::Bishop }
        else if c == 3 { PieceType::Queen }
        else { PieceType::King };
    if r == 0 { Some(Piece { piece_type: back, color: Color::White }) }
    else if r == 1 { Some(Piece { piece_type: PieceType::Pawn, color: Color::White }) }
    else if r == 6 { Some(Piece { piece_type: PieceType::Pawn, color: Color::Black }) }
    else if r == 7 { Some(Piece { piece_type: back, color: Color::Black }) }
    else { None }
}

fn start_piece_exec(r: usize, c: usize) -> (p: Option<Piece>)
    requires
        r < 8,
        c < 8,
    ensures
        p == start_piece(r as int, c as int),
{
    let back = if c == 0 || c == 7 { PieceType::Rook }
        else if c == 1 || c == 6 { PieceType::Knight }
        else if c == 2 || c == 5 { PieceType::Bishop }
        else if c == 3 { PieceType::Queen }
        else { PieceType::King };
    if r == 0 { Some(Piece::new(back, Color::White)) }
    else if r == 1 { Some(Piece::new(PieceType::Pawn, Color::White)) }
    else if r == 6 { Some(Piece::new(PieceType::Pawn, Color::Black)) }
    else if r == 7 { Some(Piece::new(back, Color::Black)) }
    else { None }
}

/// The board of the starting position.
pub fn start_board() -> (b: Board)
    ensures
        b.wf(),
        forall|r: int, c: int| 0 <= r < 8 && 0 <= c < 8 ==> b.at(r, c) == start_piece(r, c),
        b.white_king == (0usize, 4usize),
        b.black_king == (7usize, 4usize),
{
    let mut b = Board::empty();
    let mut r: usize = 0;
    while r < 8
        invariant
            r <= 8,
            b.wf(),
            forall|r2: int, c2: int| 0 <= r2 < r && 0 <= c2 < 8 ==> b.at(r2, c2) == start_piece(r2, c2),
        decreases 8 - r,
    {
        let mut c: usize = 0;
        while c < 8
            invariant
                r < 8,
                c <= 8,
                b.wf(),
                forall|r2: int, c2: int| 0 <= r2 < r && 0 <= c2 < 8 ==> b.at(r2, c2) == start_piece(r2, c2),
                forall|c2: int| 0 <= c2 < c ==> b.at(r as int, c2) == start_piece(r as int, c2),
            decreases 8 - c,
        {
            let ghost prev = b;
            b.set(r, c, start_piece_exec(r, c));
            assert forall|r2: int, c2: int| 0 <= r2 < 8 && 0 <= c2 < 8 && (r2 != r || c2 != c)
                implies b.at(r2, c2) == prev.at(r2, c2) by {
                assert(r2 * 8 + c2 != r * 8 + c);
            }
            c = c + 1;
        }
        r = r + 1;
    }
    b.set_king_location(Color::White, (0, 4));
    b.set_king_location(Color::Black, (7, 4));
    b
}

/// The piece a promotion character asks for: 'r', 'b', 'n' or, for anything
/// else, a queen.
pub open spec fn promo_type(promo: Option<char>) -> PieceType {
    match promo {
        Some(ch) => if ch == 'r' { PieceType::Rook } else if ch == 'b' { PieceType::Bishop }
            else if ch == 'n' { PieceType::Knight } else { PieceType::Queen },
        None => PieceType::Queen,
    }
}

pub fn promo_type_exec(promo: Option<char>) -> (t: PieceType)
    ensures
        t == promo_type(promo),
{
    match promo {
        Some(ch) => if ch == 'r' { PieceType::Rook } else if ch == 'b' { PieceType::Bishop }
            else if ch == 'n' { PieceType::Knight } else { PieceType::Queen },
        None => PieceType::Queen,
    }
}

#[derive(Clone, Copy)]
pub struct GameState {
    pub board: Board,
    pub active_color: Color,
    pub castling: CastlingRights,
    pub en_passant: Option<(usize, usize)>,
    pub half_move_clock: u32,
    pub full_move_number: u32,
}

/// What a made move needs to be taken back, and what it took.
#[derive(Clone, Copy)]
pub struct UndoMove {
    pub prev: GameState,
    pub moved: Option<Piece>,
    pub captured: Option<Piece>,
    pub ep_captured_piece: Option<Piece>,
}

impl GameState {
    pub open spec fn wf(self) -> bool {
        self.board.wf() && (self.en_passant matches Some(sq) ==> on_board(sq))
    }

    /// The state after the side to move plays `from`-`to` (with `promo` naming
    /// the promotion piece): captures, en passant, the castling rook's move,
    /// promotion, castling rights, en-passant square, clocks and the turn.
    pub open spec fn spec_make_move(self, from: (usize, usize), to: (usize, usize), promo: Option<char>) -> GameState {
        let b = self.board;
        let p = b.at(from.0 as int, from.1 as int).unwrap();
        let captured = b.at(to.0 as int, to.1 as int);
        let is_pawn = p.piece_type == PieceType::Pawn;
        let is_ep = is_pawn && self.en_passant == Some(to) && from.1 != to.1 && captured is None;
        let b1 = if is_ep { b.with(from.0 as int, to.1 as int, None) } else { b };
        let b2 = b1.spec_move_basic(from, to);
        let castle = p.piece_type == PieceType::King && from.1 == 4 && from.0 == to.0;
        let b3 = if castle && to.1 == 6 { b2.spec_move_basic((from.0, 7usize), (from.0, 5usize)) }
            else if castle && to.1 == 2 { b2.spec_move_basic((from.0, 0usize), (from.0, 3usize)) }
            else { b2 };
        let promotes = is_pawn && to.0 as int == (if p.color == Color::White { 7int } else { 0int });
        let b4 = if promotes {
            b3.with(to.0 as int, to.1 as int, Some(Piece { piece_type: promo_type(promo), color: p.color }))
        } else { b3 };
        let double = is_pawn && from.1 == to.1 && iabs(to.0 - from.0) == 2;
        GameState {
            board: b4,
            active_color: spec_opposite(self.active_color),
            castling: self.castling.spec_after_move(p, from, to),
            en_passant: if double { Some((((from.0 + to.0) / 2) as usize, from.1)) } else { None },
            half_move_clock: if is_pawn || captured is Some || is_ep { 0 }
                else if self.half_move_clock < u32::MAX { (self.half_move_clock + 1) as u32 }
                else { self.half_move_clock },
            full_move_number: if self.active_color == Color::Black && self.full_move_number < u32::MAX {
                (self.full_move_number + 1) as u32
            } else { self.full_move_number },
        }
    }

    /// The starting position, White to move, all castling rights.
    pub open spec fn is_start(self) -> bool {
        &&& self.board.wf()
        &&& forall|r: int, c: int| 0 <= r < 8 && 0 <= c < 8 ==> #[trigger] self.board.at(r, c) == start_piece(r, c)
        &&& self.board.white_king == (0usize, 4usize)
        &&& self.board.black_king == (7usize, 4usize)
        &&& self.active_color == Color::White
        &&& self.castling == (CastlingRights { wk: true, wq: true, bk: true, bq: true })
        &&& (self.en_passant is None)
        &&& self.half_move_clock == 0
        &&& self.full_move_number == 1
    }

    /// The starting position, White to move.
    pub fn new() -> (g: GameState)
        ensures
            g.is_start(),
            g.wf(),
            g.active_color == Color::White,
            g.castling == (CastlingRights { wk: true, wq: true, bk: true, bq: true }),
            (g.en_passant is None),
            g.half_move_clock == 0,
            g.full_move_number == 1,
            forall|r: int, c: int| 0 <= r < 8 && 0 <= c < 8 ==> g.board.at(r, c) == start_piece(r, c),
    {
        GameState {
            board: start_board(),
            active_color: Color::White,
            castling: CastlingRights::all(),
            en_passant: None,
            half_move_clock: 0,
            full_move_number: 1,
        }
    }

    /// A state with the given board and side to move, no castling rights and
    /// no en-passant square.
    pub fn from_board_and_side(board: Board, side: Color) -> (g: GameState)
        ensures
            g.board == board,
            g.active_color == side,
            g.castling == (CastlingRights { wk: false, wq: false, bk: false, bq: false }),
            (g.en_passant is None),
            g.half_move_clock == 0,
            g.full_move_number == 1,
    {
        GameState {
            board,
            active_color: side,
            castling: CastlingRights::none(),
            en_passant: None,
            half_move_clock: 0,
            full_move_number: 1,
        }
    }

    pub fn board(&self) -> (b: &Board)
        ensures
            *b == self.board,
    {
        &self.board
    }

    pub fn active_color(&self) -> (c: Color)
        ensures
            c == self.active_color,
    {
        self.active_color
    }

    pub fn en_passant_target(&self) -> (e: Option<(usize, usize)>)
        ensures
            e == self.en_passant,
    {
        self.en_passant
    }

    pub fn castling_rights(&self) -> (r: CastlingRights)
        ensures
            r == self.castling,
    {
        self.castling
    }

    pub fn half_move_clock(&self) -> (h: u32)
        ensures
            h == self.half_move_clock,
    {
        self.half_move_clock
    }

    pub fn full_move_number(&self) -> (n: u32)
        ensures
            n == self.full_move_number,
    {
        self.full_move_number
    }

    pub fn set_en_passant_target(&mut self, ep: Option<(usize, usize)>)
        ensures
            *final(self) == (GameState { en_passant: ep, ..*old(self) }),
    {
        self.en_passant = ep;
    }

    pub fn set_half_move_clock(&mut self, h: u32)
        ensures
            *final(self) == (GameState { half_move_clock: h, ..*old(self) }),
    {
        self.half_move_clock = h;
    }

    pub fn switch_player_turn(&mut self)
        ensures
            *final(self) == (GameState { active_color: spec_opposite(old(self).active_color), ..*old(self) }),
    {
        self.active_color = match self.active_color {
            Color::White => Color::Black,
            Color::Black => Color::White,
        };
    }

    /// Moves the piece on `from` to `to` on the board (the king square
    /// follows a king); false, changing nothing, when `from` is empty.
    pub fn move_piece(&mut self, from: (usize, usize), to: (usize, usize)) -> (moved: bool)
        requires
            on_board(from),
            on_board(to),
        ensures
            moved == (old(self).board.at(from.0 as int, from.1 as int) is Some),
            *final(self) == (GameState { board: old(self).board.spec_move_basic(from, to), ..*old(self) }),
    {
        self.board.move_piece_basic(from, to)
    }

    /// Moves the pawn on `from` to `to`, where it becomes `promotion` if one
    /// is given; false, changing nothing, when `from` is empty.
    pub fn move_pawn(&mut self, from: (usize, usize), to: (usize, usize), promotion: Option<Piece>) -> (moved: bool)
        requires
            on_board(from),
            on_board(to),
        ensures
            moved == (old(self).board.at(from.0 as int, from.1 as int) is Some),
            *final(self) == (if moved {
                let b = old(self).board.spec_move_basic(from, to);
                GameState {
                    board: match promotion {
                        Some(p) => b.with(to.0 as int, to.1 as int, Some(p)),
                        None => b,
                    },
                    ..*old(self)
                }
            } else {
                *old(self)
            }),
    {
        let moved = self.board.move_piece_basic(from, to);
        if !moved {
            return false;
        }
        if let Some(p) = promotion {
            self.board.set(to.0, to.1, Some(p));
        }
        true
    }

    pub fn clear_square(&mut self, r: usize, c: usize)
        requires
            r < 8,
            c < 8,
        ensures
            *final(self) == (GameState { board: old(self).board.with(r as int, c as int, None), ..*old(self) }),
    {
        self.board.set(r, c, None);
    }

    pub fn reset_half_move_clock(&mut self)
        ensures
            *final(self) == (GameState { half_move_clock: 0, ..*old(self) }),
    {
        self.half_move_clock = 0;
    }

    /// Counts one more move without capture or pawn move (the clock stops at
    /// its largest value).
    pub fn increment_half_move_clock(&mut self)
        ensures
            *final(self) == (GameState {
                half_move_clock: if old(self).half_move_clock < u32::MAX { (old(self).half_move_clock + 1) as u32 }
                    else { old(self).half_move_clock },
                ..*old(self)
            }),
    {
        if self.half_move_clock < u32::MAX {
            self.half_move_clock = self.half_move_clock + 1;
        }
    }

    /// Both castling rights of `color` are given up.
    pub fn revoke_castling_rights_for_color(&mut self, color: Color)
        ensures
            *final(self) == (GameState {
                castling: if color == Color::White {
                    CastlingRights { wk: false, wq: false, ..old(self).castling }
                } else {
                    CastlingRights { bk: false, bq: false, ..old(self).castling }
                },
                ..*old(self)
            }),
    {
        match color {
            Color::White => {
                self.castling.wk = false;
                self.castling.wq = false;
            },
            Color::Black => {
                self.castling.bk = false;
                self.castling.bq = false;
            },
        }
    }

    pub fn update_king_location(&mut self, color: Color, sq: (usize, usize))
        ensures
            *final(self) == (GameState { board: old(self).board.with_king(color, sq), ..*old(self) }),
    {
        self.board.set_king_location(color, sq);
    }

    /// Plays the move and returns what is needed to take it back.
    pub fn make_move_fast(&mut self, from: (usize, usize), to: (usize, usize), promo: Option<char>) -> (u: UndoMove)
        requires
            old(self).wf(),
            on_board(from),
            on_board(to),
            (old(self).board.at(from.0 as int, from.1 as int) is Some),
        ensures
            *final(self) == old(self).spec_make_move(from, to, promo),
            final(self).wf(),
            u.prev == *old(self),
            u.moved == old(self).board.at(from.0 as int, from.1 as int),
            u.captured == old(self).board.at(to.0 as int, to.1 as int),
            (u.ep_captured_piece is Some ==> u.captured is None),
    {
        let prev = *self;
        let p = self.board.get(from.0, from.1).unwrap();
        let captured = self.board.get(to.0, to.1);
        let is_pawn = p.piece_type == PieceType::Pawn;
        let is_ep = is_pawn && opt_square_is(self.en_passant, to) && from.1 != to.1 && captured.is_none();
        let mut ep_captured: Option<Piece> = None;
        if is_ep {
            ep_captured = self.board.get(from.0, to.1);
            self.board.set(from.0, to.1, None);
        }
        let _ = self.board.move_piece_basic(from, to);
        let castle = p.piece_type == PieceType::King && from.1 == 4 && from.0 == to.0;
        if castle && to.1 == 6 {
            let _ = self.board.move_piece_basic((from.0, 7), (from.0, 5));
        } else if castle && to.1 == 2 {
            let _ = self.board.move_piece_basic((from.0, 0), (from.0, 3));
        }
        let last: usize = if p.color == Color::White { 7 } else { 0 };
        if is_pawn && to.0 == last {
            self.board.set(to.0, to.1, Some(Piece::new(promo_type_exec(promo), p.color)));
        }
        let dist = if to.0 > from.0 { to.0 - from.0 } else { from.0 - to.0 };
        let double = is_pawn && from.1 == to.1 && dist == 2;
        self.castling = prev.castling.after_move(p, from, to);
        self.en_passant = if double { Some(((from.0 + to.0) / 2, from.1)) } else { None };
        self.half_move_clock = if is_pawn || captured.is_some() || is_ep { 0 }
            else if prev.half_move_clock < u32::MAX { prev.half_move_clock + 1 }
            else { prev.half_move_clock };
        self.full_move_number = if prev.active_color == Color::Black && prev.full_move_number < u32::MAX {
            prev.full_move_number + 1
        } else {
            prev.full_move_number
        };
        self.active_color = match prev.active_color {
            Color::White => Color::Black,
            Color::Black => Color::White,
        };
        UndoMove { prev, moved: Some(p), captured, ep_captured_piece: ep_captured }
    }

    /// Takes back the move recorded in `u`.
    pub fn unmake_move_fast(&mut self, u: UndoMove)
        ensures
            *final(self) == u.prev,
    {
        *self = u.prev;
    }

    /// Whether `from`-`to` is a plausible move for the side to move before the
    /// piece rules are applied: `from` holds one of its pieces, and `to` holds
    /// an enemy piece exactly when the move is a capture, except that a pawn
    /// captures en passant onto the empty en-passant square.
    pub open spec fn spec_from_to_check(self, from: (usize, usize), to: (usize, usize), is_capture: bool, is_pawn: bool) -> bool {
        &&& self.board.at(from.0 as int, from.1 as int) matches Some(p) && p.color == self.active_color
        &&& match self.board.at(to.0 as int, to.1 as int) {
            Some(q) => q.color != self.active_color && is_capture,
            None => !is_capture || (is_pawn && self.en_passant == Some(to)),
        }
    }

    pub fn move_from_and_to_validation_check(&self, from: (usize, usize), to: (usize, usize), is_capture: bool, is_pawn: bool) -> (ok: bool)
        requires
            on_board(from),
            on_board(to),
        ensures
            ok == self.spec_from_to_check(from, to, is_capture, is_pawn),
    {
        match self.board.get(from.0, from.1) {
            Some(p) => {
                if p.color != self.active_color {
                    return false;
                }
            },
            None => {
                return false;
            },
        }
        match self.board.get(to.0, to.1) {
            Some(q) => q.color != self.active_color && is_capture,
            None => !is_capture || (is_pawn && opt_square_is(self.en_passant, to)),
        }
    }
}

impl Default for GameState {
    /// The starting position.
    fn default() -> (g: GameState)
        ensures
            g.is_start(),
    {
        GameState::new()
    }
}

/// Castling moves both pieces: when the king of the side to move stands on
/// the e-file of a rank and a rook of its colour in the corner on the side
/// it goes to, the king's move two files to the c-file (g-file) leaves the
/// king on that square, the rook on the d-file (f-file), and the e-file and
/// the corner empty.
pub proof fn lemma_castling_moves_king_and_rook(g: GameState, row: usize, to_col: usize)
    requires
        row < 8,
        to_col == 2 || to_col == 6,
        g.board.at(row as int, 4) == Some(Piece { piece_type: PieceType::King, color: g.active_color }),
        g.board.at(row as int, if to_col == 2 { 0 } else { 7 })
            == Some(Piece { piece_type: PieceType::Rook, color: g.active_color }),
    ensures
        ({
            let b = g.spec_make_move((row, 4usize), (row, to_col), None).board;
            let rook_to: int = if to_col == 2 { 3 } else { 5 };
            let corner: int = if to_col == 2 { 0 } else { 7 };
            &&& b.at(row as int, to_col as int) == Some(Piece { piece_type: PieceType::King, color: g.active_color })
            &&& b.at(row as int, rook_to) == Some(Piece { piece_type: PieceType::Rook, color: g.active_color })
            &&& b.at(row as int, corner) is None
            &&& b.at(row as int, 4) is None
            &&& b.king_loc(g.active_color) == (row, to_col)
        }),
{
    let b = g.board;
    let r = row as int;
    let b2 = b.spec_move_basic((row, 4usize), (row, to_col));
    assert(b2.at(r, to_col as int) == Some(Piece { piece_type: PieceType::King, color: g.active_color }));
    assert(b2.at(r, 4) is None);
    let corner: int = if to_col == 2 { 0 } else { 7 };
    let rook_to: int = if to_col == 2 { 3 } else { 5 };
    assert(b2.at(r, corner) == b.at(r, corner));
    let b3 = b2.spec_move_basic((row, corner as usize), (row, rook_to as usize));
    assert(b3.at(r, rook_to) == Some(Piece { piece_type: PieceType::Rook, color: g.active_color }));
    assert(b3.at(r, corner) is None);
    assert(b3.at(r, to_col as int) == b2.at(r, to_col as int));
    assert(b3.at(r, 4) == b2.at(r, 4));
    assert(b3.king_loc(g.active_color) == (row, to_col));
    assert(g.spec_make_move((row, 4usize), (row, to_col), None).board == b3);
}

/// What playing a move does to the state: the turn passes; the mover
/// leaves its square and stands on the target (a pawn reaching the last rank
/// as the piece its promotion letter names: `n` a knight, `r` a rook, `b` a
/// bishop, anything else a queen); a pawn taking en passant removes the pawn
/// beside it; apart from those squares (and, for a king, its rank's castling
/// squares) the board stays; the fifty-move clock restarts on a pawn move or
/// a capture and counts on otherwise; a double pawn step leaves the square it
/// passed as the en-passant square and any other move leaves none; the move
/// number grows after Black's move; castling rights are only ever lost, a
/// king move loses both of its side's, and a move from or onto a corner
/// loses that corner's; the king squares follow a moving king.
pub proof fn lemma_make_move_effects(g: GameState, from: (usize, usize), to: (usize, usize), promo: Option<char>)
    requires
        on_board(from),
        on_board(to),
        from != to,
        g.board.at(from.0 as int, from.1 as int) matches Some(p) && p.color == g.active_color,
    ensures
        ({
            let n = g.spec_make_move(from, to, promo);
            let p = g.board.at(from.0 as int, from.1 as int).unwrap();
            let is_pawn = p.piece_type == PieceType::Pawn;
            let last_rank: int = if p.color == Color::White { 7 } else { 0 };
            let promotes = is_pawn && to.0 as int == last_rank;
            let is_ep = is_pawn && g.en_passant == Some(to) && from.1 != to.1 && from.0 != to.0
                && g.board.at(to.0 as int, to.1 as int) is None;
            &&& n.active_color != g.active_color
            &&& n.board.at(from.0 as int, from.1 as int) is None
            &&& !promotes ==> n.board.at(to.0 as int, to.1 as int) == Some(p)
            &&& promotes ==> n.board.at(to.0 as int, to.1 as int) == Some(Piece {
                piece_type: if promo == Some('n') { PieceType::Knight } else if promo == Some('r') { PieceType::Rook }
                    else if promo == Some('b') { PieceType::Bishop } else { PieceType::Queen },
                color: p.color,
            })
            &&& is_ep ==> n.board.at(from.0 as int, to.1 as int) is None
            &&& p.piece_type != PieceType::King && !is_ep ==> forall|r: int, c: int| 0 <= r < 8 && 0 <= c < 8
                && (r, c) != (from.0 as int, from.1 as int) && (r, c) != (to.0 as int, to.1 as int)
                ==> #[trigger] n.board.at(r, c) == g.board.at(r, c)
            &&& p.piece_type == PieceType::King ==> forall|r: int, c: int| 0 <= r < 8 && 0 <= c < 8
                && (r, c) != (from.0 as int, from.1 as int) && (r, c) != (to.0 as int, to.1 as int)
                && (r != from.0 || (c != 0 && c != 3 && c != 5 && c != 7))
                ==> #[trigger] n.board.at(r, c) == g.board.at(r, c)
            &&& (is_pawn || g.board.at(to.0 as int, to.1 as int) is Some) ==> n.half_move_clock == 0
            &&& !is_pawn && g.board.at(to.0 as int, to.1 as int) is None && g.half_move_clock < u32::MAX
                ==> n.half_move_clock == g.half_move_clock + 1
            &&& is_pawn && from.1 == to.1 && (to.0 == from.0 + 2 || from.0 == to.0 + 2)
                ==> n.en_passant == Some((((from.0 + to.0) / 2) as usize, from.1))
            &&& !(is_pawn && from.1 == to.1 && (to.0 == from.0 + 2 || from.0 == to.0 + 2)) ==> n.en_passant is None
            &&& g.active_color == Color::White ==> n.full_move_number == g.full_move_number
            &&& g.active_color == Color::Black && g.full_move_number < u32::MAX
                ==> n.full_move_number == g.full_move_number + 1
            &&& (n.castling.wk ==> g.castling.wk) && (n.castling.wq ==> g.castling.wq)
            &&& (n.castling.bk ==> g.castling.bk) && (n.castling.bq ==> g.castling.bq)
            &&& p.piece_type == PieceType::King && p.color == Color::White ==> !n.castling.wk && !n.castling.wq
            &&& p.piece_type == PieceType::King && p.color == Color::Black ==> !n.castling.bk && !n.castling.bq
            &&& (from == (0usize, 7usize) || to == (0usize, 7usize)) ==> !n.castling.wk
            &&& (from == (0usize, 0usize) || to == (0usize, 0usize)) ==> !n.castling.wq
            &&& (from == (7usize, 7usize) || to == (7usize, 7usize)) ==> !n.castling.bk
            &&& (from == (7usize, 0usize) || to == (7usize, 0usize)) ==> !n.castling.bq
            &&& p.piece_type == PieceType::King && !(from.1 == 4 && from.0 == to.0 && (to.1 == 2 || to.1 == 6))
                ==> n.board.king_loc(p.color) == to
                && n.board.king_loc(spec_opposite(p.color)) == g.board.king_loc(spec_opposite(p.color))
            &&& p.piece_type != PieceType::King ==> n.board.white_king == g.board.white_king
                && n.board.black_king == g.board.black_king
        }),
{
    let p = g.board.at(from.0 as int, from.1 as int).unwrap();
    assert(p.color == Color::White || p.color == Color::Black);
}

} // verus!
