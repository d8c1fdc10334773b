//! Piece kinds, colours, material values and FEN characters.
use vstd::prelude::*;

verus! {

pub const PAWN_VALUE: i32 = 100;
pub const KNIGHT_VALUE: i32 = 320;
pub const BISHOP_VALUE: i32 = 330;
pub const ROOK_VALUE: i32 = 500;
pub const QUEEN_VALUE: i32 = 900;
pub const KING_VALUE: i32 = 20_000;

#[derive(Debug, Clone, Copy, PartialEq, Eq, Structural)]
pub enum PieceType {
    Pawn,
    Knight,
    Bishop,
    Rook,
    Queen,
    King,
}

#[derive(Debug, Clone, Copy, PartialEq, Eq, Structural)]
pub enum Color {
    White,
    Black,
}

#[derive(Debug, Clone, Copy, PartialEq, Eq, Structural)]
pub struct Piece {
    pub piece_type: PieceType,
    pub color: Color,
}

/// Material value of a piece kind in centipawns.
pub open spec fn spec_piece_value(pt: PieceType) -> i32 {
    match pt {
        PieceType::Pawn => PAWN_VALUE,
        PieceType::Knight => KNIGHT_VALUE,
        PieceType::Bishop => BISHOP_VALUE,
        PieceType::Rook => ROOK_VALUE,
        PieceType::Queen => QUEEN_VALUE,
        PieceType::King => KING_VALUE,
    }
}

/// Value gained by capturing a piece kind (a king is worth nothing as a capture).
pub open spec fn spec_capture_value(pt: PieceType) -> i32 {
    if pt == PieceType::King { 0 } else { spec_piece_value(pt) }
}

pub open spec fn spec_opposite(c: Color) -> Color {
    match c {
        Color::White => Color::Black,
        Color::Black => Color::White,
    }
}

pub fn piece_value_cp(pt: PieceType) -> (v: i32)
    ensures
        v == spec_piece_value(pt),
        100 <= v <= 20_000,
{
    match pt {
        PieceType::Pawn => PAWN_VALUE,
        PieceType::Knight => KNIGHT_VALUE,
        PieceType::Bishop => BISHOP_VALUE,
        PieceType::Rook => ROOK_VALUE,
        PieceType::Queen => QUEEN_VALUE,
        PieceType::King => KING_VALUE,
    }
}

pub fn capture_value_cp(pt: PieceType) -> (v: i32)
    ensures
        v == spec_capture_value(pt),
        0 <= v <= 900,
{
    match pt {
        PieceType::Pawn => PAWN_VALUE,
        PieceType::Knight => KNIGHT_VALUE,
        PieceType::Bishop => BISHOP_VALUE,
        PieceType::Rook => ROOK_VALUE,
        PieceType::Queen => QUEEN_VALUE,
        PieceType::King => 0,
    }
}

pub fn opposite_color(c: Color) -> (o: Color)
    ensures
        o == spec_opposite(c),
        o != c,
{
    match c {
        Color::White => Color::Black,
        Color::Black => Color::White,
    }
}

/// The opposite of the opposite colour is the colour itself.
pub proof fn lemma_opposite_involutive(c: Color)
    ensures
        spec_opposite(spec_opposite(c)) == c,
{
}

/// The FEN letter of a piece: upper case for White, lower case for Black.
pub open spec fn spec_fen_char(p: Piece) -> char {
    match (p.color, p.piece_type) {
        (Color::White, PieceType::King) => 'K',
        (Color::White, PieceType::Queen) => 'Q',
        (Color::White, PieceType::Rook) => 'R',
        (Color::White, PieceType::Bishop) => 'B',
        (Color::White, PieceType::Knight) => 'N',
        (Color::White, PieceType::Pawn) => 'P',
        (Color::Black, PieceType::King) => 'k',
        (Color::Black, PieceType::Queen) => 'q',
        (Color::Black, PieceType::Rook) => 'r',
        (Color::Black, PieceType::Bishop) => 'b',
        (Color::Black, PieceType::Knight) => 'n',
        (Color::Black, PieceType::Pawn) => 'p',
    }
}

/// The piece a FEN letter stands for, if any.
pub open spec fn spec_from_fen_char(c: char) -> Option<Piece> {
    if c == 'K' { Some(Piece { piece_type: PieceType::King, color: Color::White }) }
    else if c == 'Q' { Some(Piece { piece_type: PieceType::Queen, color: Color::White }) }
    else if c == 'R' { Some(Piece { piece_type: PieceType::Rook, color: Color::White }) }
    else if c == 'B' { Some(Piece { piece_type: PieceType::Bishop, color: Color::White }) }
    else if c == 'N' { Some(Piece { piece_type: PieceType::Knight, color: Color::White }) }
    else if c == 'P' { Some(Piece { piece_type: PieceType::Pawn, color: Color::White }) }
    else if c == 'k' { Some(Piece { piece_type: PieceType::King, color: Color::Black }) }
    else if c == 'q' { Some(Piece { piece_type: PieceType::Queen, color: Color::Black }) }
    else if c == 'r' { Some(Piece { piece_type: PieceType::Rook, color: Color::Black }) }
    else if c == 'b' { Some(Piece { piece_type: PieceType::Bishop, color: Color::Black }) }
    else if c == 'n' { Some(Piece { piece_type: PieceType::Knight, color: Color::Black }) }
    else if c == 'p' { Some(Piece { piece_type: PieceType::Pawn, color: Color::Black }) }
    else { None }
}

impl Piece {
    pub fn new(piece_type: PieceType, color: Color) -> (p: Piece)
        ensures
            p.piece_type == piece_type,
            p.color == color,
    {
        Piece { piece_type, color }
    }

    pub fn get_type(&self) -> (t: PieceType)
        ensures
            t == self.piece_type,
    {
        self.piece_type
    }

    pub fn get_color(&self) -> (c: Color)
        ensures
            c == self.color,
    {
        self.color
    }

    /// Display glyph of the piece kind; both colours share the glyph.
    pub fn symbol(&self) -> (s: char)
        ensures
            s == (match self.piece_type {
                PieceType::King => '\u{265A}',
                PieceType::Queen => '\u{265B}',
                PieceType::Rook => '\u{265C}',
                PieceType::Bishop => '\u{265D}',
                PieceType::Knight => '\u{265E}',
                PieceType::Pawn => '\u{2659}',
            }),
    {
        match self.piece_type {
            PieceType::King => '\u{265A}',
            PieceType::Queen => '\u{265B}',
            PieceType::Rook => '\u{265C}',
            PieceType::Bishop => '\u{265D}',
            PieceType::Knight => '\u{265E}',
            PieceType::Pawn => '\u{2659}',
        }
    }

    pub fn from_fen_char(c: char) -> (r: Option<Piece>)
        ensures
            r == spec_from_fen_char(c),
    {
        if c == 'K' { Some(Piece::new(PieceType::King, Color::White)) }
        else if c == 'Q' { Some(Piece::new(PieceType::Queen, Color::White)) }
        else if c == 'R' { Some(Piece::new(PieceType::Rook, Color::White)) }
        else if c == 'B' { Some(Piece::new(PieceType::Bishop, Color::White)) }
        else if c == 'N' { Some(Piece::new(PieceType::Knight, Color::White)) }
        else if c == 'P' { Some(Piece::new(PieceType::Pawn, Color::White)) }
        else if c == 'k' { Some(Piece::new(PieceType::King, Color::Black)) }
        else if c == 'q' { Some(Piece::new(PieceType::Queen, Color::Black)) }
        else if c == 'r' { Some(Piece::new(PieceType::Rook, Color::Black)) }
        else if c == 'b' { Some(Piece::new(PieceType::Bishop, Color::Black)) }
        else if c == 'n' { Some(Piece::new(PieceType::Knight, Color::Black)) }
        else if c == 'p' { Some(Piece::new(PieceType::Pawn, Color::Black)) }
        else { None }
    }

    pub fn to_fen_char(&self) -> (c: char)
        ensures
            c == spec_fen_char(*self),
    {
        match (self.color, self.piece_type) {
            (Color::White, PieceType::King) => 'K',
            (Color::White, PieceType::Queen) => 'Q',
            (Color::White, PieceType::Rook) => 'R',
            (Color::White, PieceType::Bishop) => 'B',
            (Color::White, PieceType::Knight) => 'N',
            (Color::White, PieceType::Pawn) => 'P',
            (Color::Black, PieceType::King) => 'k',
            (Color::Black, PieceType::Queen) => 'q',
            (Color::Black, PieceType::Rook) => 'r',
            (Color::Black, PieceType::Bishop) => 'b',
            (Color::Black, PieceType::Knight) => 'n',
            (Color::Black, PieceType::Pawn) => 'p',
        }
    }
}

/// Writing a piece as its FEN letter and reading the letter back gives the piece.
pub proof fn lemma_fen_char_roundtrip(p: Piece)
    ensures
        spec_from_fen_char(spec_fen_char(p)) == Some(p),
{
}

/// Reading a FEN letter and writing the piece back gives the letter.
pub proof fn lemma_fen_char_parse_write(c: char)
    requires
        spec_from_fen_char(c) is Some,
    ensures
        spec_fen_char(spec_from_fen_char(c).unwrap()) == c,
{
}

} // verus!
