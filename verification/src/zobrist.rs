//! Zobrist hashing: one random key per (piece, square), one for White to
//! move, one per castling-rights combination and one per en-passant file.
//! The keys come from a generator seeded with a fixed value, so every run
//! hashes positions alike.
use vstd::prelude::*;
use rand::rngs::StdRng;
use crate::pieces::{Color, Piece, PieceType};
use crate::board::{Board, on_board};
use crate::game_state::CastlingRights;

verus! {

/// The seed of the key generator.
pub const ZOBRIST_SEED: u64 = 0x9E37_79B9_7F4A_7C15u64;

pub const N_PIECE_KEYS: usize = 768;
pub const N_CASTLING_KEYS: usize = 16;
pub const N_EP_KEYS: usize = 8;

/// The `i`-th number (counted from 0) that `RngCore::next_u64` yields from a
/// `StdRng` made by `SeedableRng::seed_from_u64(seed)`. In the version used,
/// `StdRng` is ChaCha12 from `rand_chacha`, documented there as deterministic
/// and portable, and `seed_from_u64` is the fixed PCG32 expansion of the seed,
/// so the stream depends on the seed alone.
pub uninterp spec fn stdrng_u64(seed: u64, i: nat) -> u64;

/// `StdRng::seed_from_u64(seed)` followed by `n` calls of `next_u64`: the
/// first `n` numbers of the stream, in order.
#[verifier::external_body]
fn seeded_u64_stream(seed: u64, n: usize) -> (v: Vec<u64>)
    ensures
        v@.len() == n,
        forall|i: int| 0 <= i < n ==> #[trigger] v@[i] == stdrng_u64(seed, i as nat),
{
    let mut rng = <StdRng as rand::SeedableRng>::seed_from_u64(seed);
    (0..n).map(|_| rand::RngCore::next_u64(&mut rng)).collect()
}

/// The key tables. `piece` holds 12 rows of 64 squares, row
/// `piece_key_row(p)`; `castling` is indexed by the 4-bit rights code and
/// `ep` by the en-passant file.
pub struct ZobristKeys {
    pub piece: Vec<u64>,
    pub side: u64,
    pub castling: Vec<u64>,
    pub ep: Vec<u64>,
}

/// Row of a piece in the piece-key table: two rows per piece type, White first.
pub open spec fn piece_key_row(pt: PieceType, c: Color) -> int {
    let base: int = match pt {
        PieceType::Pawn => 0,
        PieceType::Knight => 2,
        PieceType::Bishop => 4,
        PieceType::Rook => 6,
        PieceType::Queen => 8,
        PieceType::King => 10,
    };
    base + if c == Color::White { 0int } else { 1int }
}

/// The 4-bit code of a set of castling rights: 1 white king side, 2 white
/// queen side, 4 black king side, 8 black queen side.
pub open spec fn castling_code(r: CastlingRights) -> int {
    (if r.wk { 1int } else { 0int }) + (if r.wq { 2int } else { 0int })
        + (if r.bk { 4int } else { 0int }) + (if r.bq { 8int } else { 0int })
}

impl ZobristKeys {
    pub open spec fn wf(self) -> bool {
        &&& self.piece@.len() == N_PIECE_KEYS
        &&& self.castling@.len() == N_CASTLING_KEYS
        &&& self.ep@.len() == N_EP_KEYS
    }

    /// The key of piece `p` on square index `sq`.
    pub open spec fn piece_key(self, p: Piece, sq: int) -> u64 {
        self.piece@[piece_key_row(p.piece_type, p.color) * 64 + sq]
    }

    /// What square index `i` of `b` adds to the hash.
    pub open spec fn square_term(self, b: Board, i: int) -> u64 {
        match b.squares@[i] {
            Some(p) => self.piece_key(p, i),
            None => 0u64,
        }
    }

    /// The exclusive or of the terms of the first `n` squares.
    pub open spec fn pieces_hash(self, b: Board, n: int) -> u64
        decreases n,
    {
        if n <= 0 { 0u64 } else { self.pieces_hash(b, n - 1) ^ self.square_term(b, n - 1) }
    }

    /// The hash of a position: its pieces, the side key when White is to
    /// move, the castling key and, with an en-passant square, its file's key.
    pub open spec fn hash(self, b: Board, to_move: Color, rights: CastlingRights, ep: Option<(usize, usize)>) -> u64 {
        let k1 = self.pieces_hash(b, 64);
        let k2 = if to_move == Color::White { k1 ^ self.side } else { k1 };
        let k3 = k2 ^ self.castling@[castling_code(rights)];
        match ep {
            Some(sq) => k3 ^ self.ep@[sq.1 as int],
            None => k3,
        }
    }

    /// Draws the tables from the generator seeded with `ZOBRIST_SEED`:
    /// the piece keys row by row, then the side key, the castling keys and
    /// the en-passant keys.
    pub fn init_tables() -> (k: ZobristKeys)
        ensures
            k.wf(),
            forall|i: int| 0 <= i < N_PIECE_KEYS ==> #[trigger] k.piece@[i] == stdrng_u64(ZOBRIST_SEED, i as nat),
            k.side == stdrng_u64(ZOBRIST_SEED, N_PIECE_KEYS as nat),
            forall|j: int| 0 <= j < N_CASTLING_KEYS ==> #[trigger] k.castling@[j] == stdrng_u64(ZOBRIST_SEED, (N_PIECE_KEYS + 1 + j) as nat),
            forall|e: int| 0 <= e < N_EP_KEYS ==> #[trigger] k.ep@[e] == stdrng_u64(ZOBRIST_SEED, (N_PIECE_KEYS + 1 + N_CASTLING_KEYS + e) as nat),
    {
        let total: usize = N_PIECE_KEYS + 1 + N_CASTLING_KEYS + N_EP_KEYS;
        let stream = seeded_u64_stream(ZOBRIST_SEED, total);
        let mut piece: Vec<u64> = Vec::new();
        let mut i: usize = 0;
        while i < N_PIECE_KEYS
            invariant
                i <= N_PIECE_KEYS,
                stream@.len() == total,
                total == N_PIECE_KEYS + 1 + N_CASTLING_KEYS + N_EP_KEYS,
                forall|t: int| 0 <= t < total ==> #[trigger] stream@[t] == stdrng_u64(ZOBRIST_SEED, t as nat),
                piece@.len() == i,
                forall|t: int| 0 <= t < i ==> #[trigger] piece@[t] == stdrng_u64(ZOBRIST_SEED, t as nat),
            decreases N_PIECE_KEYS - i,
        {
            piece.push(stream[i]);
            i = i + 1;
        }
        let side = stream[N_PIECE_KEYS];
        let mut castling: Vec<u64> = Vec::new();
        let mut j: usize = 0;
        while j < N_CASTLING_KEYS
            invariant
                j <= N_CASTLING_KEYS,
                stream@.len() == total,
                total == N_PIECE_KEYS + 1 + N_CASTLING_KEYS + N_EP_KEYS,
                forall|t: int| 0 <= t < total ==> #[trigger] stream@[t] == stdrng_u64(ZOBRIST_SEED, t as nat),
                castling@.len() == j,
                forall|t: int| 0 <= t < j ==> #[trigger] castling@[t] == stdrng_u64(ZOBRIST_SEED, (N_PIECE_KEYS + 1 + t) as nat),
            decreases N_CASTLING_KEYS - j,
        {
            castling.push(stream[N_PIECE_KEYS + 1 + j]);
            j = j + 1;
        }
        let mut ep: Vec<u64> = Vec::new();
        let mut e: usize = 0;
        while e < N_EP_KEYS
            invariant
                e <= N_EP_KEYS,
                stream@.len() == total,
                total == N_PIECE_KEYS + 1 + N_CASTLING_KEYS + N_EP_KEYS,
                forall|t: int| 0 <= t < total ==> #[trigger] stream@[t] == stdrng_u64(ZOBRIST_SEED, t as nat),
                ep@.len() == e,
                forall|t: int| 0 <= t < e ==> #[trigger] ep@[t] == stdrng_u64(ZOBRIST_SEED, (N_PIECE_KEYS + 1 + N_CASTLING_KEYS + t) as nat),
            decreases N_EP_KEYS - e,
        {
            ep.push(stream[N_PIECE_KEYS + 1 + N_CASTLING_KEYS + e]);
            e = e + 1;
        }
        ZobristKeys { piece, side, castling, ep }
    }
}

fn piece_index(pt: PieceType, c: Color) -> (i: usize)
    ensures
        i == piece_key_row(pt, c),
        i < 12,
{
    let base: usize = match pt {
        PieceType::Pawn => 0,
        PieceType::Knight => 2,
        PieceType::Bishop => 4,
        PieceType::Rook => 6,
        PieceType::Queen => 8,
        PieceType::King => 10,
    };
    base + match c {
        Color::White => 0,
        Color::Black => 1,
    }
}

fn castling_index(rights: &CastlingRights) -> (i: usize)
    ensures
        i == castling_code(*rights),
        i < 16,
{
    let mut idx: usize = 0;
    if rights.white_kingside() {
        idx = idx + 1;
    }
    if rights.white_queenside() {
        idx = idx + 2;
    }
    if rights.black_kingside() {
        idx = idx + 4;
    }
    if rights.black_queenside() {
        idx = idx + 8;
    }
    idx
}

/// The full hash of a position, computed square by square.
pub fn compute_zobrist_full(
    keys: &ZobristKeys,
    board: &Board,
    to_move: Color,
    castling: &CastlingRights,
    ep_target: Option<(usize, usize)>,
) -> (key: u64)
    requires
        keys.wf(),
        (ep_target matches Some(sq) ==> sq.1 < 8),
    ensures
        key == keys.hash(*board, to_move, *castling, ep_target),
{
    let mut key: u64 = 0;
    let mut i: usize = 0;
    while i < 64
        invariant
            i <= 64,
            keys.wf(),
            key == keys.pieces_hash(*board, i as int),
        decreases 64 - i,
    {
        match board.squares[i] {
            Some(p) => {
                let idx = piece_index(p.piece_type, p.color);
                key = key ^ keys.piece[idx * 64 + i];
            },
            None => {
                assert(key ^ 0u64 == key) by (bit_vector);
            },
        }
        i = i + 1;
    }
    if to_move == Color::White {
        key = key ^ keys.side;
    }
    let c_idx = castling_index(castling);
    key = key ^ keys.castling[c_idx];
    if let Some((_r, c)) = ep_target {
        key = key ^ keys.ep[c];
    }
    key
}

/// Adds or removes piece `pt`/`color` on `sq`.
pub fn zobrist_toggle_piece(keys: &ZobristKeys, key: u64, pt: PieceType, color: Color, sq: (usize, usize)) -> (k: u64)
    requires
        keys.wf(),
        on_board(sq),
    ensures
        k == key ^ keys.piece_key(Piece { piece_type: pt, color }, sq.0 * 8 + sq.1),
{
    let idx = piece_index(pt, color);
    let sq_idx = sq.0 * 8 + sq.1;
    key ^ keys.piece[idx * 64 + sq_idx]
}

/// Flips the side to move.
pub fn zobrist_toggle_side(keys: &ZobristKeys, key: u64) -> (k: u64)
    ensures
        k == key ^ keys.side,
{
    key ^ keys.side
}

/// Replaces the castling key of `old_rights` with that of `new_rights`.
pub fn zobrist_update_castling(
    keys: &ZobristKeys,
    key: u64,
    old_rights: &CastlingRights,
    new_rights: &CastlingRights,
) -> (k: u64)
    requires
        keys.wf(),
    ensures
        k == key ^ keys.castling@[castling_code(*old_rights)] ^ keys.castling@[castling_code(*new_rights)],
{
    let old_idx = castling_index(old_rights);
    let new_idx = castling_index(new_rights);
    key ^ keys.castling[old_idx] ^ keys.castling[new_idx]
}

/// What an en-passant square adds to the hash.
pub open spec fn ep_term(keys: ZobristKeys, ep: Option<(usize, usize)>) -> u64 {
    match ep {
        Some(sq) => keys.ep@[sq.1 as int],
        None => 0u64,
    }
}

/// Replaces the en-passant key of `old_ep` with that of `new_ep`.
pub fn zobrist_update_ep(
    keys: &ZobristKeys,
    key: u64,
    old_ep: Option<(usize, usize)>,
    new_ep: Option<(usize, usize)>,
) -> (k: u64)
    requires
        keys.wf(),
        (old_ep matches Some(sq) ==> sq.1 < 8),
        (new_ep matches Some(sq) ==> sq.1 < 8),
    ensures
        k == key ^ ep_term(*keys, old_ep) ^ ep_term(*keys, new_ep),
{
    let mut k = key;
    match old_ep {
        Some((_, c)) => {
            k = k ^ keys.ep[c];
        },
        None => {
            assert(k ^ 0u64 == k) by (bit_vector);
        },
    }
    let ghost k1 = k;
    match new_ep {
        Some((_, c)) => {
            k = k ^ keys.ep[c];
        },
        None => {
            assert(k1 ^ 0u64 == k1) by (bit_vector);
        },
    }
    k
}

proof fn lemma_xor_facts(a: u64, b: u64, c: u64)
    ensures
        a ^ b ^ b == a,
        a ^ 0u64 == a,
        (a ^ b) ^ c == (a ^ c) ^ b,
        a ^ (b ^ c) == (a ^ b) ^ c,
{
    assert(a ^ b ^ b == a) by (bit_vector);
    assert(a ^ 0u64 == a) by (bit_vector);
    assert((a ^ b) ^ c == (a ^ c) ^ b) by (bit_vector);
    assert(a ^ (b ^ c) == (a ^ b) ^ c) by (bit_vector);
}

/// Toggling the same piece on the same square twice leaves the hash as it was.
pub proof fn lemma_toggle_piece_involutive(keys: ZobristKeys, key: u64, p: Piece, sq: int)
    ensures
        key ^ keys.piece_key(p, sq) ^ keys.piece_key(p, sq) == key,
{
    lemma_xor_facts(key, keys.piece_key(p, sq), 0);
}

/// Flipping the side twice leaves the hash as it was.
pub proof fn lemma_toggle_side_involutive(keys: ZobristKeys, key: u64)
    ensures
        key ^ keys.side ^ keys.side == key,
{
    lemma_xor_facts(key, keys.side, 0);
}

/// Two boards that differ at most on square index `j`: their piece hashes
/// over the first `n` squares differ by the two terms of that square.
proof fn lemma_pieces_hash_one_square(keys: ZobristKeys, b: Board, b2: Board, j: int, n: int)
    requires
        0 <= j < 64,
        n <= 64,
        forall|i: int| 0 <= i < 64 && i != j ==> #[trigger] b2.squares@[i] == b.squares@[i],
    ensures
        keys.pieces_hash(b2, n) == (if 0 <= j < n {
            keys.pieces_hash(b, n) ^ keys.square_term(b, j) ^ keys.square_term(b2, j)
        } else {
            keys.pieces_hash(b, n)
        }),
    decreases n,
{
    if n > 0 {
        lemma_pieces_hash_one_square(keys, b, b2, j, n - 1);
        let h = keys.pieces_hash(b, n - 1);
        let t1 = keys.square_term(b, j);
        let t2 = keys.square_term(b2, j);
        if n - 1 == j {
            lemma_xor_facts(h, t1, 0);
            assert(keys.pieces_hash(b, n) == h ^ t1);
            assert(h ^ t1 ^ t1 ^ t2 == h ^ t2) by (bit_vector);
        } else {
            assert(b2.squares@[n - 1] == b.squares@[n - 1]);
            assert(keys.square_term(b2, n - 1) == keys.square_term(b, n - 1));
            if 0 <= j < n - 1 {
                let u = keys.square_term(b, n - 1);
                assert(h ^ t1 ^ t2 ^ u == h ^ u ^ t1 ^ t2) by (bit_vector);
            }
        }
    }
}

/// Putting piece `p` on an empty square, or taking it off that square,
/// changes the full hash by that piece's key on that square: the hash kept
/// up to date with `zobrist_toggle_piece` equals the one computed afresh.
pub proof fn lemma_toggle_piece_matches_full(
    keys: ZobristKeys,
    b: Board,
    p: Piece,
    sq: (usize, usize),
    to_move: Color,
    rights: CastlingRights,
    ep: Option<(usize, usize)>,
)
    requires
        on_board(sq),
        (b.at(sq.0 as int, sq.1 as int) is None),
    ensures
        keys.hash(b.with(sq.0 as int, sq.1 as int, Some(p)), to_move, rights, ep)
            == keys.hash(b, to_move, rights, ep) ^ keys.piece_key(p, sq.0 * 8 + sq.1),
        keys.hash(b, to_move, rights, ep)
            == keys.hash(b.with(sq.0 as int, sq.1 as int, Some(p)), to_move, rights, ep) ^ keys.piece_key(p, sq.0 * 8 + sq.1),
{
    let j = sq.0 * 8 + sq.1;
    let b2 = b.with(sq.0 as int, sq.1 as int, Some(p));
    assert forall|i: int| 0 <= i < 64 && i != j implies #[trigger] b2.squares@[i] == b.squares@[i] by {}
    lemma_pieces_hash_one_square(keys, b, b2, j, 64);
    let h = keys.pieces_hash(b, 64);
    let t = keys.piece_key(p, j);
    assert(keys.square_term(b, j) == 0u64);
    assert(keys.square_term(b2, j) == t);
    assert(h ^ 0u64 ^ t == h ^ t) by (bit_vector);
    let s = keys.side;
    let c = keys.castling@[castling_code(rights)];
    let e = ep_term(keys, ep);
    assert(h ^ t ^ s == h ^ s ^ t) by (bit_vector);
    assert(h ^ t ^ c == h ^ c ^ t) by (bit_vector);
    assert(h ^ t ^ s ^ c == h ^ s ^ c ^ t) by (bit_vector);
    assert(h ^ t ^ c ^ e == h ^ c ^ e ^ t) by (bit_vector);
    assert(h ^ t ^ s ^ c ^ e == h ^ s ^ c ^ e ^ t) by (bit_vector);
    let full = keys.hash(b, to_move, rights, ep);
    lemma_xor_facts(full, t, 0);
}

/// Handing the move to the other side changes the hash by the side key.
pub proof fn lemma_toggle_side_matches_full(
    keys: ZobristKeys,
    b: Board,
    to_move: Color,
    rights: CastlingRights,
    ep: Option<(usize, usize)>,
)
    ensures
        keys.hash(b, crate::pieces::spec_opposite(to_move), rights, ep) == keys.hash(b, to_move, rights, ep) ^ keys.side,
{
    let h = keys.pieces_hash(b, 64);
    let s = keys.side;
    let c = keys.castling@[castling_code(rights)];
    let e = ep_term(keys, ep);
    assert(h ^ s ^ c ^ s == h ^ c) by (bit_vector);
    assert(h ^ s ^ c ^ e ^ s == h ^ c ^ e) by (bit_vector);
    assert(h ^ c ^ s == h ^ s ^ c) by (bit_vector);
    assert(h ^ c ^ e ^ s == h ^ s ^ c ^ e) by (bit_vector);
}

/// Changing the castling rights and updating with `zobrist_update_castling`
/// gives the hash computed afresh.
pub proof fn lemma_update_castling_matches_full(
    keys: ZobristKeys,
    b: Board,
    to_move: Color,
    old_rights: CastlingRights,
    new_rights: CastlingRights,
    ep: Option<(usize, usize)>,
)
    ensures
        keys.hash(b, to_move, new_rights, ep) == keys.hash(b, to_move, old_rights, ep)
            ^ keys.castling@[castling_code(old_rights)] ^ keys.castling@[castling_code(new_rights)],
{
    let h0 = keys.pieces_hash(b, 64);
    let h = if to_move == Color::White { h0 ^ keys.side } else { h0 };
    let co = keys.castling@[castling_code(old_rights)];
    let cn = keys.castling@[castling_code(new_rights)];
    let e = ep_term(keys, ep);
    assert(h ^ co ^ co ^ cn == h ^ cn) by (bit_vector);
    assert(h ^ co ^ e ^ co ^ cn == h ^ cn ^ e) by (bit_vector);
}

/// Changing the en-passant square and updating with `zobrist_update_ep`
/// gives the hash computed afresh.
pub proof fn lemma_update_ep_matches_full(
    keys: ZobristKeys,
    b: Board,
    to_move: Color,
    rights: CastlingRights,
    old_ep: Option<(usize, usize)>,
    new_ep: Option<(usize, usize)>,
)
    ensures
        keys.hash(b, to_move, rights, new_ep) == keys.hash(b, to_move, rights, old_ep)
            ^ ep_term(keys, old_ep) ^ ep_term(keys, new_ep),
{
    let h0 = keys.pieces_hash(b, 64);
    let h1 = if to_move == Color::White { h0 ^ keys.side } else { h0 };
    let h = h1 ^ keys.castling@[castling_code(rights)];
    let eo = ep_term(keys, old_ep);
    let en = ep_term(keys, new_ep);
    assert(h ^ eo ^ eo ^ en == h ^ en) by (bit_vector);
    assert(h ^ 0u64 == h) by (bit_vector);
}

} // verus!
