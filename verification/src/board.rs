//! The board: 64 squares indexed by `row * 8 + column` (row 0 is rank 1,
//! column 0 is file a), with the kings' squares kept beside them.
use vstd::prelude::*;
use vstd::array::spec_array_update;
use crate::pieces::{Color, Piece, PieceType, spec_opposite};

verus! {

pub open spec fn on_board(sq: (usize, usize)) -> bool {
    sq.0 < 8 && sq.1 < 8
}

pub open spec fn iabs(x: int) -> int {
    if x >= 0 { x } else { -x }
}

pub open spec fn sgn(x: int) -> int {
    if x > 0 { 1 } else if x < 0 { -1 } else { 0 }
}

/// `k` steps in the direction `s` (one of -1, 0, 1).
pub open spec fn scale(k: int, s: int) -> int {
    if s > 0 { k } else if s < 0 { -k } else { 0 }
}

/// The number of king steps needed to go from `(fr, fc)` to `(tr, tc)`.
pub open spec fn line_len(fr: int, fc: int, tr: int, tc: int) -> int {
    if iabs(tr - fr) >= iabs(tc - fc) { iabs(tr - fr) } else { iabs(tc - fc) }
}

/// Two different squares on one rank, file or diagonal.
pub open spec fn line_aligned(fr: int, fc: int, tr: int, tc: int) -> bool {
    &&& (fr != tr || fc != tc)
    &&& (fr == tr || fc == tc || iabs(tr - fr) == iabs(tc - fc))
}

/// Row direction in which pawns of a colour advance.
pub open spec fn pawn_dir(c: Color) -> int {
    if c == Color::White { 1 } else { -1 }
}

pub struct Board {
    pub squares: [Option<Piece>; 64],
    pub white_king: (usize, usize),
    pub black_king: (usize, usize),
}

impl Clone for Board {
    fn clone(&self) -> (b: Board)
        ensures
            b == *self,
    {
        Board { squares: self.squares, white_king: self.white_king, black_king: self.black_king }
    }
}

impl Copy for Board {}

impl Board {
    /// The piece on row `r`, column `c`.
    pub open spec fn at(self, r: int, c: int) -> Option<Piece> {
        self.squares@[r * 8 + c]
    }

    pub open spec fn king_loc(self, color: Color) -> (usize, usize) {
        if color == Color::White { self.white_king } else { self.black_king }
    }

    /// The king squares lie on the board.
    pub open spec fn wf(self) -> bool {
        on_board(self.white_king) && on_board(self.black_king)
    }

    /// The `k`-th square on the way from `(fr, fc)` towards `(tr, tc)` is empty.
    pub open spec fn ray_step_empty(self, fr: int, fc: int, tr: int, tc: int, k: int) -> bool {
        self.at(fr + scale(k, sgn(tr - fr)), fc + scale(k, sgn(tc - fc))) is None
    }

    /// Every square strictly between the two squares of a line is empty.
    pub open spec fn path_clear(self, fr: int, fc: int, tr: int, tc: int) -> bool {
        forall|k: int|
            1 <= k < line_len(fr, fc, tr, tc) ==> #[trigger] self.ray_step_empty(fr, fc, tr, tc, k)
    }

    /// A piece `p` standing on `(fr, fc)` attacks `(tr, tc)`.
    pub open spec fn piece_attacks(self, p: Piece, fr: int, fc: int, tr: int, tc: int) -> bool {
        let dr = tr - fr;
        let dc = tc - fc;
        match p.piece_type {
            PieceType::Pawn => dr == pawn_dir(p.color) && iabs(dc) == 1,
            PieceType::Knight => (iabs(dr) == 1 && iabs(dc) == 2) || (iabs(dr) == 2 && iabs(dc) == 1),
            PieceType::King => (dr != 0 || dc != 0) && iabs(dr) <= 1 && iabs(dc) <= 1,
            PieceType::Bishop => dr != 0 && iabs(dr) == iabs(dc) && self.path_clear(fr, fc, tr, tc),
            PieceType::Rook => (dr != 0 || dc != 0) && (dr == 0 || dc == 0) && self.path_clear(fr, fc, tr, tc),
            PieceType::Queen => line_aligned(fr, fc, tr, tc) && self.path_clear(fr, fc, tr, tc),
        }
    }

    /// The square `(r, c)` holds a piece of `color` that attacks `(tr, tc)`.
    pub open spec fn attacker_at(self, r: int, c: int, tr: int, tc: int, color: Color) -> bool {
        match self.at(r, c) {
            Some(p) => p.color == color && self.piece_attacks(p, r, c, tr, tc),
            None => false,
        }
    }

    /// Some piece of `color` attacks `(tr, tc)`.
    pub open spec fn attacked_by(self, tr: int, tc: int, color: Color) -> bool {
        exists|r: int, c: int| 0 <= r < 8 && 0 <= c < 8 && #[trigger] self.attacker_at(r, c, tr, tc, color)
    }

    /// Some pawn of `color` attacks `(tr, tc)`.
    pub open spec fn pawn_attacked_by(self, tr: int, tc: int, color: Color) -> bool {
        exists|r: int, c: int| 0 <= r < 8 && 0 <= c < 8 && #[trigger] self.attacker_at(r, c, tr, tc, color)
            && self.at(r, c).unwrap().piece_type == PieceType::Pawn
    }

    /// The king of `color` stands on a square that the other colour attacks.
    pub open spec fn in_check(self, color: Color) -> bool {
        self.attacked_by(self.king_loc(color).0 as int, self.king_loc(color).1 as int, spec_opposite(color))
    }

    /// The board with the square `(r, c)` set to `p`.
    pub open spec fn with(self, r: int, c: int, p: Option<Piece>) -> Board {
        Board { squares: spec_array_update(self.squares, r * 8 + c, p), ..self }
    }

    pub open spec fn with_king(self, color: Color, sq: (usize, usize)) -> Board {
        if color == Color::White { Board { white_king: sq, ..self } } else { Board { black_king: sq, ..self } }
    }

    /// The board after the piece on `from` moves to `to` (whatever stood there
    /// is replaced); the king square follows a moving king.
    pub open spec fn spec_move_basic(self, from: (usize, usize), to: (usize, usize)) -> Board {
        match self.at(from.0 as int, from.1 as int) {
            Some(p) => {
                let b = self.with(from.0 as int, from.1 as int, None).with(to.0 as int, to.1 as int, Some(p));
                if p.piece_type == PieceType::King { b.with_king(p.color, to) } else { b }
            },
            None => self,
        }
    }

    /// An empty board with both king squares set to a1.
    pub fn empty() -> (b: Board)
        ensures
            b.wf(),
            forall|r: int, c: int| 0 <= r < 8 && 0 <= c < 8 ==> b.at(r, c) is None,
    {
        let b = Board { squares: [None; 64], white_king: (0, 0), black_king: (0, 0) };
        assert forall|r: int, c: int| 0 <= r < 8 && 0 <= c < 8 implies b.at(r, c) is None by {
            assert(b.squares@[r * 8 + c] == b.squares[r * 8 + c]);
        }
        b
    }

    pub fn get(&self, r: usize, c: usize) -> (p: Option<Piece>)
        requires
            r < 8,
            c < 8,
        ensures
            p == self.at(r as int, c as int),
    {
        self.squares[r * 8 + c]
    }

    pub fn set(&mut self, r: usize, c: usize, p: Option<Piece>)
        requires
            r < 8,
            c < 8,
        ensures
            *final(self) == old(self).with(r as int, c as int, p),
    {
        let ghost old_sq = self.squares;
        self.squares[r * 8 + c] = p;
        proof {
            assert(self.squares@ =~= spec_array_update(old_sq, r * 8 + c, p)@);
            assert(self.squares =~= spec_array_update(old_sq, r * 8 + c, p));
        }
    }

    pub fn is_empty(&self, sq: (usize, usize)) -> (e: bool)
        requires
            on_board(sq),
        ensures
            e == (self.at(sq.0 as int, sq.1 as int) is None),
    {
        self.squares[sq.0 * 8 + sq.1].is_none()
    }

    pub fn get_king_location(&self, color: Color) -> (sq: (usize, usize))
        ensures
            sq == self.king_loc(color),
    {
        match color {
            Color::White => self.white_king,
            Color::Black => self.black_king,
        }
    }

    pub fn set_king_location(&mut self, color: Color, sq: (usize, usize))
        ensures
            *final(self) == old(self).with_king(color, sq),
    {
        match color {
            Color::White => { self.white_king = sq; },
            Color::Black => { self.black_king = sq; },
        }
    }

    /// Moves the piece on `from` to `to`; returns false, changing nothing,
    /// when `from` is empty.
    pub fn move_piece_basic(&mut self, from: (usize, usize), to: (usize, usize)) -> (moved: bool)
        requires
            on_board(from),
            on_board(to),
        ensures
            moved == (old(self).at(from.0 as int, from.1 as int) is Some),
            *final(self) == old(self).spec_move_basic(from, to),
    {
        match self.get(from.0, from.1) {
            Some(p) => {
                self.set(from.0, from.1, None);
                self.set(to.0, to.1, Some(p));
                if p.piece_type == PieceType::King {
                    self.set_king_location(p.color, to);
                }
                true
            },
            None => false,
        }
    }
}


/// Whether two squares are the same.
pub fn same_square(a: (usize, usize), b: (usize, usize)) -> (e: bool)
    ensures
        e == (a == b),
{
    a.0 == b.0 && a.1 == b.1
}

/// Whether an optional square is present and equal to `sq`.
pub fn opt_square_is(o: Option<(usize, usize)>, sq: (usize, usize)) -> (e: bool)
    ensures
        e == (o == Some(sq)),
{
    match o {
        Some(a) => same_square(a, sq),
        None => false,
    }
}

/// `k` steps from `x` in the direction `s`.
fn step_by(x: i64, k: i64, s: i64) -> (r: i64)
    requires
        -1 <= s <= 1,
        0 <= x < 8,
        0 <= k < 8,
    ensures
        r == x + scale(k as int, s as int),
{
    if s > 0 { x + k } else if s < 0 { x - k } else { x }
}

fn sign_of(x: i64) -> (s: i64)
    ensures
        s == sgn(x as int),
{
    if x > 0 { 1 } else if x < 0 { -1 } else { 0 }
}

fn abs_i64(x: i64) -> (a: i64)
    requires
        x > i64::MIN,
    ensures
        a == iabs(x as int),
{
    if x >= 0 { x } else { -x }
}

impl Board {
    /// Whether every square strictly between `from` and `to` is empty.
    pub fn path_clear_exec(&self, from: (usize, usize), to: (usize, usize)) -> (clear: bool)
        requires
            on_board(from),
            on_board(to),
            line_aligned(from.0 as int, from.1 as int, to.0 as int, to.1 as int),
        ensures
            clear == self.path_clear(from.0 as int, from.1 as int, to.0 as int, to.1 as int),
    {
        let fr = from.0 as i64;
        let fc = from.1 as i64;
        let dr = to.0 as i64 - fr;
        let dc = to.1 as i64 - fc;
        let sr = sign_of(dr);
        let sc = sign_of(dc);
        let adr = abs_i64(dr);
        let adc = abs_i64(dc);
        let n: i64 = if adr >= adc { adr } else { adc };
        let mut k: i64 = 1;
        while k < n
            invariant
                fr == from.0 as int,
                fc == from.1 as int,
                dr == to.0 - from.0,
                dc == to.1 - from.1,
                sr == sgn(dr as int),
                sc == sgn(dc as int),
                n == line_len(from.0 as int, from.1 as int, to.0 as int, to.1 as int),
                on_board(from),
                on_board(to),
                line_aligned(from.0 as int, from.1 as int, to.0 as int, to.1 as int),
                1 <= k,
                k <= n || n == 0,
                forall|j: int| 1 <= j < k ==> #[trigger] self.ray_step_empty(fr as int, fc as int, to.0 as int, to.1 as int, j),
            decreases n - k,
        {
            let r = step_by(fr, k, sr);
            let c = step_by(fc, k, sc);
            assert(0 <= r < 8 && 0 <= c < 8);
            let idx = (r * 8 + c) as usize;
            if self.squares[idx].is_some() {
                assert(!self.ray_step_empty(fr as int, fc as int, to.0 as int, to.1 as int, k as int));
                return false;
            }
            assert(self.ray_step_empty(fr as int, fc as int, to.0 as int, to.1 as int, k as int));
            k = k + 1;
        }
        true
    }

    /// Whether the piece `p`, standing on `from`, attacks `to`.
    pub fn piece_attacks_square(&self, p: Piece, from: (usize, usize), to: (usize, usize)) -> (a: bool)
        requires
            on_board(from),
            on_board(to),
        ensures
            a == self.piece_attacks(p, from.0 as int, from.1 as int, to.0 as int, to.1 as int),
    {
        let dr = to.0 as i64 - from.0 as i64;
        let dc = to.1 as i64 - from.1 as i64;
        let adr = abs_i64(dr);
        let adc = abs_i64(dc);
        match p.piece_type {
            PieceType::Pawn => {
                let dir: i64 = if p.color == Color::White { 1 } else { -1 };
                dr == dir && adc == 1
            },
            PieceType::Knight => (adr == 1 && adc == 2) || (adr == 2 && adc == 1),
            PieceType::King => (dr != 0 || dc != 0) && adr <= 1 && adc <= 1,
            PieceType::Bishop => {
                if dr != 0 && adr == adc { self.path_clear_exec(from, to) } else { false }
            },
            PieceType::Rook => {
                if (dr != 0 || dc != 0) && (dr == 0 || dc == 0) { self.path_clear_exec(from, to) } else { false }
            },
            PieceType::Queen => {
                if (dr != 0 || dc != 0) && (dr == 0 || dc == 0 || adr == adc) {
                    self.path_clear_exec(from, to)
                } else {
                    false
                }
            },
        }
    }

    /// Whether some piece of `color` attacks `sq`.
    pub fn is_square_attacked_by(&self, sq: (usize, usize), color: Color) -> (a: bool)
        requires
            on_board(sq),
        ensures
            a == self.attacked_by(sq.0 as int, sq.1 as int, color),
    {
        let mut r: usize = 0;
        while r < 8
            invariant
                r <= 8,
                on_board(sq),
                forall|r2: int, c2: int| 0 <= r2 < r && 0 <= c2 < 8 ==> !#[trigger] self.attacker_at(r2, c2, sq.0 as int, sq.1 as int, color),
            decreases 8 - r,
        {
            let mut c: usize = 0;
            while c < 8
                invariant
                    r < 8,
                    c <= 8,
                    on_board(sq),
                    forall|r2: int, c2: int| 0 <= r2 < r && 0 <= c2 < 8 ==> !#[trigger] self.attacker_at(r2, c2, sq.0 as int, sq.1 as int, color),
                    forall|c2: int| 0 <= c2 < c ==> !#[trigger] self.attacker_at(r as int, c2, sq.0 as int, sq.1 as int, color),
                decreases 8 - c,
            {
                if let Some(p) = self.get(r, c) {
                    if p.color == color && self.piece_attacks_square(p, (r, c), sq) {
                        assert(self.attacker_at(r as int, c as int, sq.0 as int, sq.1 as int, color));
                        return true;
                    }
                }
                c = c + 1;
            }
            r = r + 1;
        }
        false
    }

    /// Whether the side opposing `my_color` attacks `sq`.
    pub fn is_square_attacked_by_opponent(&self, sq: (usize, usize), my_color: Color) -> (a: bool)
        requires
            on_board(sq),
        ensures
            a == self.attacked_by(sq.0 as int, sq.1 as int, spec_opposite(my_color)),
    {
        let opp = match my_color {
            Color::White => Color::Black,
            Color::Black => Color::White,
        };
        self.is_square_attacked_by(sq, opp)
    }

    /// Whether the king of `color` is attacked.
    pub fn is_side_in_check(&self, color: Color) -> (chk: bool)
        requires
            self.wf(),
        ensures
            chk == self.in_check(color),
    {
        let k = self.get_king_location(color);
        self.is_square_attacked_by_opponent(k, color)
    }

    /// Whether a pawn of `color` attacks `sq`.
    pub fn is_square_pawn_attacked_by(&self, color: Color, sq: (usize, usize)) -> (a: bool)
        requires
            on_board(sq),
        ensures
            a == self.pawn_attacked_by(sq.0 as int, sq.1 as int, color),
    {
        let (tr, tc) = sq;
        let pr_ok = if color == Color::White { tr >= 1 } else { tr + 1 < 8 };
        if !pr_ok {
            assert forall|r: int, c: int| 0 <= r < 8 && 0 <= c < 8 && #[trigger] self.attacker_at(r, c, tr as int, tc as int, color)
                implies self.at(r, c).unwrap().piece_type != PieceType::Pawn by {}
            return false;
        }
        let pr: usize = if color == Color::White { tr - 1 } else { tr + 1 };
        let mut found = false;
        if tc >= 1 {
            if let Some(p) = self.get(pr, tc - 1) {
                if p.color == color && p.piece_type == PieceType::Pawn {
                    assert(self.attacker_at(pr as int, tc - 1, tr as int, tc as int, color));
                    found = true;
                }
            }
        }
        if !found && tc + 1 < 8 {
            if let Some(p) = self.get(pr, tc + 1) {
                if p.color == color && p.piece_type == PieceType::Pawn {
                    assert(self.attacker_at(pr as int, tc + 1, tr as int, tc as int, color));
                    found = true;
                }
            }
        }
        if !found {
            assert forall|r: int, c: int| 0 <= r < 8 && 0 <= c < 8 && #[trigger] self.attacker_at(r, c, tr as int, tc as int, color)
                implies self.at(r, c).unwrap().piece_type != PieceType::Pawn by {
                if self.at(r, c).unwrap().piece_type == PieceType::Pawn {
                    assert(r == pr);
                    assert(c == tc - 1 || c == tc + 1);
                }
            }
        }
        found
    }
}


impl Board {
    /// The board after the piece on `from` goes to `to`, taking a pawn en passant
    /// when a pawn moves diagonally onto the empty en-passant square `ep`.
    pub open spec fn spec_after_move_for_check(self, from: (usize, usize), to: (usize, usize), ep: Option<(usize, usize)>) -> Board {
        match self.at(from.0 as int, from.1 as int) {
            Some(p) => {
                let is_ep = p.piece_type == PieceType::Pawn && ep == Some(to) && from.1 != to.1
                    && self.at(to.0 as int, to.1 as int) is None;
                let b1 = if is_ep { self.with(from.0 as int, to.1 as int, None) } else { self };
                b1.spec_move_basic(from, to)
            },
            None => self,
        }
    }

    /// Moving the piece on `from` to `to` leaves its own king attacked.
    pub open spec fn spec_check_after_move(self, from: (usize, usize), to: (usize, usize), ep: Option<(usize, usize)>) -> bool {
        match self.at(from.0 as int, from.1 as int) {
            Some(p) => self.spec_after_move_for_check(from, to, ep).in_check(p.color),
            None => false,
        }
    }

    /// Whether moving the piece on `from` to `to` (with an en-passant capture
    /// when the move is one) leaves the mover's king in check; false when
    /// `from` is empty.
    pub fn is_king_in_check_after_move(&self, from: (usize, usize), to: (usize, usize), ep: Option<(usize, usize)>) -> (chk: bool)
        requires
            self.wf(),
            on_board(from),
            on_board(to),
        ensures
            chk == self.spec_check_after_move(from, to, ep),
    {
        match self.get(from.0, from.1) {
            Some(p) => {
                let mut b = *self;
                let is_ep = p.piece_type == PieceType::Pawn && opt_square_is(ep, to) && from.1 != to.1
                    && self.get(to.0, to.1).is_none();
                if is_ep {
                    b.set(from.0, to.1, None);
                }
                let _ = b.move_piece_basic(from, to);
                b.is_side_in_check(p.color)
            },
            None => false,
        }
    }

    /// The piece on `from` may not go to `to` because its king would be exposed.
    pub fn move_piece_is_pinned(&self, from: (usize, usize), to: (usize, usize), ep: Option<(usize, usize)>) -> (pinned: bool)
        requires
            self.wf(),
            on_board(from),
            on_board(to),
        ensures
            pinned == self.spec_check_after_move(from, to, ep),
    {
        self.is_king_in_check_after_move(from, to, ep)
    }
}


} // verus!
