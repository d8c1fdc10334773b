//! Legal move generation: candidate target squares per piece, then the
//! piece rules, then a make-and-test of the mover's king.
use vstd::prelude::*;
use crate::pieces::{Color, Piece, PieceType};
use crate::board::{Board, on_board, iabs, sgn, scale, opt_square_is, line_aligned, line_len};
use crate::game_state::GameState;
use crate::validators::{spec_valid_pawn, spec_valid_knight, spec_valid_bishop, spec_valid_rook, spec_valid_queen, spec_valid_king,
    is_valid_pawn_move, is_valid_knight_move, is_valid_bishop_move, is_valid_rook_move, is_valid_queen_move, is_valid_king_move};
use crate::seq_facts::{lemma_push_contains, lemma_push_no_duplicates};

verus! {

/// `to` lies on the ray leaving `from` in direction `(dr, dc)`.
pub open spec fn on_ray(fr: int, fc: int, tr: int, tc: int, dr: int, dc: int) -> bool {
    &&& (fr != tr || fc != tc)
    &&& (if dr == 0 { tr == fr } else { sgn(tr - fr) == dr })
    &&& (if dc == 0 { tc == fc } else { sgn(tc - fc) == dc })
    &&& (dr != 0 && dc != 0 ==> iabs(tr - fr) == iabs(tc - fc))
}

/// Number of steps along a ray from `from` to `to`.
pub open spec fn ray_steps(fr: int, fc: int, tr: int, tc: int) -> int {
    if iabs(tr - fr) >= iabs(tc - fc) { iabs(tr - fr) } else { iabs(tc - fc) }
}

pub open spec fn on_board_i(r: int, c: int) -> bool {
    0 <= r < 8 && 0 <= c < 8
}

/// The candidate destinations generated for a piece kind standing on `from`.
pub open spec fn spec_is_target(pt: PieceType, fr: int, fc: int, color: Color, tr: int, tc: int) -> bool {
    let dr = tr - fr;
    let dc = tc - fc;
    let fwd: int = if color == Color::White { 1 } else { -1 };
    let start_rank: int = if color == Color::White { 1 } else { 6 };
    let home: int = if color == Color::White { 0 } else { 7 };
    &&& on_board_i(tr, tc)
    &&& match pt {
        PieceType::Knight => (iabs(dr) == 2 && iabs(dc) == 1) || (iabs(dr) == 1 && iabs(dc) == 2),
        PieceType::King => ((dr != 0 || dc != 0) && iabs(dr) <= 1 && iabs(dc) <= 1)
            || (fr == home && fc == 4 && tr == home && (tc == 6 || tc == 2)),
        PieceType::Pawn => (dc == 0 && (dr == fwd || (fr == start_rank && dr == 2 * fwd)))
            || (dr == fwd && iabs(dc) == 1),
        PieceType::Rook => (dr == 0) != (dc == 0),
        PieceType::Bishop => dr != 0 && iabs(dr) == iabs(dc),
        PieceType::Queen => ((dr == 0) != (dc == 0)) || (dr != 0 && iabs(dr) == iabs(dc)),
    }
}


/// A rook target is a square on one of the four straight rays.
pub proof fn lemma_rook_rays(fr: int, fc: int, tr: int, tc: int)
    ensures
        ((tr - fr == 0) != (tc - fc == 0)) <==> (on_ray(fr, fc, tr, tc, 0, 1) || on_ray(fr, fc, tr, tc, 0, -1)
            || on_ray(fr, fc, tr, tc, 1, 0) || on_ray(fr, fc, tr, tc, -1, 0)),
{
}

/// A bishop target is a square on one of the four diagonal rays.
pub proof fn lemma_bishop_rays(fr: int, fc: int, tr: int, tc: int)
    ensures
        (tr - fr != 0 && iabs(tr - fr) == iabs(tc - fc)) <==> (on_ray(fr, fc, tr, tc, 1, 1) || on_ray(fr, fc, tr, tc, 1, -1)
            || on_ray(fr, fc, tr, tc, -1, 1) || on_ray(fr, fc, tr, tc, -1, -1)),
{
}


/// A square on a ray is `ray_steps` steps along the ray.
pub proof fn lemma_ray_coords(fr: int, fc: int, tr: int, tc: int, dr: int, dc: int)
    requires
        -1 <= dr <= 1,
        -1 <= dc <= 1,
        dr != 0 || dc != 0,
        on_ray(fr, fc, tr, tc, dr, dc),
    ensures
        ray_steps(fr, fc, tr, tc) >= 1,
        tr - fr == scale(ray_steps(fr, fc, tr, tc), dr),
        tc - fc == scale(ray_steps(fr, fc, tr, tc), dc),
{
}

/// The square `k >= 1` steps along a ray lies on it, `k` steps out.
pub proof fn lemma_ray_step(fr: int, fc: int, k: int, dr: int, dc: int)
    requires
        -1 <= dr <= 1,
        -1 <= dc <= 1,
        dr != 0 || dc != 0,
        k >= 1,
    ensures
        on_ray(fr, fc, fr + scale(k, dr), fc + scale(k, dc), dr, dc),
        ray_steps(fr, fc, fr + scale(k, dr), fc + scale(k, dc)) == k,
{
}

/// The square `j` steps from `from` in direction `(dr, dc)`.
pub open spec fn ray_sq(from: (usize, usize), dr: int, dc: int, j: int) -> (usize, usize) {
    ((from.0 + scale(j, dr)) as usize, (from.1 + scale(j, dc)) as usize)
}

/// How many steps a coordinate `x` can take in direction `d` on the board.
pub open spec fn ray_limit(x: int, d: int) -> int {
    if d > 0 { 7 - x } else if d < 0 { x } else { 7 }
}

/// The number of on-board squares of the ray from `from` in direction `(dr, dc)`.
pub open spec fn ray_len(from: (usize, usize), dr: int, dc: int) -> int {
    let a = ray_limit(from.0 as int, dr);
    let b = ray_limit(from.1 as int, dc);
    if a <= b { a } else { b }
}

/// The on-board squares of the ray from `from` in direction `(dr, dc)`,
/// nearest first.
#[verifier::opaque]
pub open spec fn ray_squares(from: (usize, usize), dr: int, dc: int) -> Seq<(usize, usize)> {
    Seq::new(ray_len(from, dr, dc) as nat, |j: int| ray_sq(from, dr, dc, j + 1))
}

/// Pushes the on-board squares of the ray from `from` in direction `(dr, dc)`.
fn push_ray(from: (usize, usize), dr: i64, dc: i64, targets: &mut Vec<(usize, usize)>)
    requires
        on_board(from),
        -1 <= dr <= 1,
        -1 <= dc <= 1,
        dr != 0 || dc != 0,
    ensures
        forall|t: (usize, usize)| #[trigger] final(targets)@.contains(t) <==> (old(targets)@.contains(t)
            || (on_board(t) && on_ray(from.0 as int, from.1 as int, t.0 as int, t.1 as int, dr as int, dc as int))),
        old(targets)@.no_duplicates() && (forall|t: (usize, usize)| #[trigger] old(targets)@.contains(t)
            ==> !on_ray(from.0 as int, from.1 as int, t.0 as int, t.1 as int, dr as int, dc as int))
            ==> final(targets)@.no_duplicates(),
        final(targets)@ == old(targets)@ + ray_squares(from, dr as int, dc as int),
{
    let ghost init = targets@;
    let ghost fresh = init.no_duplicates() && (forall|t: (usize, usize)| #[trigger] init.contains(t)
        ==> !on_ray(from.0 as int, from.1 as int, t.0 as int, t.1 as int, dr as int, dc as int));
    let ghost fr = from.0 as int;
    let ghost fc = from.1 as int;
    let mut nr: i64 = from.0 as i64 + dr;
    let mut nc: i64 = from.1 as i64 + dc;
    let mut k: i64 = 1;
    while 0 <= nr && nr < 8 && 0 <= nc && nc < 8
        invariant
            on_board(from),
            fr == from.0,
            fc == from.1,
            -1 <= dr <= 1,
            -1 <= dc <= 1,
            dr != 0 || dc != 0,
            1 <= k <= 9,
            nr == fr + scale(k as int, dr as int),
            nc == fc + scale(k as int, dc as int),
            forall|t: (usize, usize)| #[trigger] targets@.contains(t) <==> (init.contains(t)
                || (on_board(t) && on_ray(fr, fc, t.0 as int, t.1 as int, dr as int, dc as int)
                    && ray_steps(fr, fc, t.0 as int, t.1 as int) < k)),
            fresh == (init.no_duplicates() && (forall|t: (usize, usize)| #[trigger] init.contains(t)
                ==> !on_ray(fr, fc, t.0 as int, t.1 as int, dr as int, dc as int))),
            fresh ==> targets@.no_duplicates(),
            k - 1 <= ray_len(from, dr as int, dc as int),
            targets@ == init + Seq::new((k - 1) as nat, |j: int| ray_sq(from, dr as int, dc as int, j + 1)),
        decreases 9 - k,
    {
        let ghost prev = targets@;
        assert(k <= 7);
        let sq = (nr as usize, nc as usize);
        proof { lemma_ray_step(fr, fc, k as int, dr as int, dc as int); }
        assert(on_ray(fr, fc, sq.0 as int, sq.1 as int, dr as int, dc as int));
        assert(ray_steps(fr, fc, sq.0 as int, sq.1 as int) == k);
        proof {
            if fresh {
                assert(!prev.contains(sq));
                lemma_push_no_duplicates(prev, sq);
            }
        }
        targets.push(sq);
        assert forall|t: (usize, usize)| #[trigger] targets@.contains(t) <==> (init.contains(t)
            || (on_board(t) && on_ray(fr, fc, t.0 as int, t.1 as int, dr as int, dc as int)
                && ray_steps(fr, fc, t.0 as int, t.1 as int) < k + 1)) by {
            lemma_push_contains(prev, sq, t);
            assert(prev.contains(t) <==> (init.contains(t)
                || (on_board(t) && on_ray(fr, fc, t.0 as int, t.1 as int, dr as int, dc as int)
                    && ray_steps(fr, fc, t.0 as int, t.1 as int) < k)));
            if on_board(t) && on_ray(fr, fc, t.0 as int, t.1 as int, dr as int, dc as int)
                && ray_steps(fr, fc, t.0 as int, t.1 as int) == k {
                lemma_ray_coords(fr, fc, t.0 as int, t.1 as int, dr as int, dc as int);
                assert(t == sq);
            }
        }
        assert(sq == ray_sq(from, dr as int, dc as int, k as int));
        assert(targets@ =~= init + Seq::new(k as nat, |j: int| ray_sq(from, dr as int, dc as int, j + 1)));
        nr = nr + dr;
        nc = nc + dc;
        k = k + 1;
    }
    assert(k - 1 == ray_len(from, dr as int, dc as int));
    assert(targets@ =~= init + ray_squares(from, dr as int, dc as int)) by {
        reveal(ray_squares);
    }
    assert forall|t: (usize, usize)| on_board(t) && on_ray(fr, fc, t.0 as int, t.1 as int, dr as int, dc as int)
        implies ray_steps(fr, fc, t.0 as int, t.1 as int) < k by {
        let st = ray_steps(fr, fc, t.0 as int, t.1 as int);
        lemma_ray_coords(fr, fc, t.0 as int, t.1 as int, dr as int, dc as int);
        if st >= k {
            // the square k steps out lies between `from` and `t`, hence on the board
            assert(0 <= nr < 8 && 0 <= nc < 8);
        }
    }
}

fn push_if_on_board(r: i64, c: i64, targets: &mut Vec<(usize, usize)>)
    requires
        -2 <= r < 10,
        -2 <= c < 10,
    ensures
        forall|t: (usize, usize)| #[trigger] final(targets)@.contains(t) <==> (old(targets)@.contains(t)
            || (on_board_i(r as int, c as int) && t == (r as usize, c as usize))),
        old(targets)@.no_duplicates() && (on_board_i(r as int, c as int) ==> !old(targets)@.contains((r as usize, c as usize)))
            ==> final(targets)@.no_duplicates(),
        final(targets)@ == old(targets)@ + square_if_on_board(r as int, c as int),
{
    let ghost prev = targets@;
    assert(prev == old(targets)@);
    if 0 <= r && r < 8 && 0 <= c && c < 8 {
        proof {
            if prev.no_duplicates() && !prev.contains((r as usize, c as usize)) {
                lemma_push_no_duplicates(prev, (r as usize, c as usize));
            }
        }
        targets.push((r as usize, c as usize));
        assert forall|t: (usize, usize)| #[trigger] targets@.contains(t) <==> (prev.contains(t) || t == (r as usize, c as usize)) by {
            lemma_push_contains(prev, (r as usize, c as usize), t);
        }
        assert(targets@ =~= prev + square_if_on_board(r as int, c as int)) by {
            reveal(square_if_on_board);
        }
    } else {
        assert(prev =~= prev + square_if_on_board(r as int, c as int)) by {
            reveal(square_if_on_board);
        }
    }
}

/// `(r, c)` as a one-square list when it is on the board, else nothing.
#[verifier::opaque]
pub open spec fn square_if_on_board(r: int, c: int) -> Seq<(usize, usize)> {
    if on_board_i(r, c) { seq![(r as usize, c as usize)] } else { Seq::empty() }
}

/// The candidate destinations of a piece kind on `from`, in the order they
/// are generated: knight jumps, king steps (then the castling squares from
/// the home square), pawn push, double push and capture squares, and the
/// slider rays, each nearest first.
pub open spec fn target_seq(pt: PieceType, from: (usize, usize), color: Color) -> Seq<(usize, usize)> {
    let r = from.0 as int;
    let c = from.1 as int;
    match pt {
        PieceType::Knight => square_if_on_board(r + 2, c + 1) + square_if_on_board(r + 2, c - 1)
            + square_if_on_board(r - 2, c + 1) + square_if_on_board(r - 2, c - 1)
            + square_if_on_board(r + 1, c + 2) + square_if_on_board(r + 1, c - 2)
            + square_if_on_board(r - 1, c + 2) + square_if_on_board(r - 1, c - 2),
        PieceType::King => {
            let home: int = if color == Color::White { 0 } else { 7 };
            square_if_on_board(r - 1, c - 1) + square_if_on_board(r - 1, c) + square_if_on_board(r - 1, c + 1)
                + square_if_on_board(r, c - 1) + square_if_on_board(r, c + 1)
                + square_if_on_board(r + 1, c - 1) + square_if_on_board(r + 1, c) + square_if_on_board(r + 1, c + 1)
                + (if r == home && c == 4 { square_if_on_board(home, 6) + square_if_on_board(home, 2) } else { Seq::empty() })
        },
        PieceType::Pawn => {
            let fwd: int = if color == Color::White { 1 } else { -1 };
            let start: int = if color == Color::White { 1 } else { 6 };
            (if 0 <= r + fwd < 8 {
                square_if_on_board(r + fwd, c) + (if r == start { square_if_on_board(r + 2 * fwd, c) } else { Seq::empty() })
            } else {
                Seq::empty()
            }) + square_if_on_board(r + fwd, c - 1) + square_if_on_board(r + fwd, c + 1)
        },
        PieceType::Rook => ray_squares(from, 0, 1) + ray_squares(from, 0, -1) + ray_squares(from, 1, 0) + ray_squares(from, -1, 0),
        PieceType::Bishop => ray_squares(from, 1, 1) + ray_squares(from, 1, -1) + ray_squares(from, -1, 1) + ray_squares(from, -1, -1),
        PieceType::Queen => ray_squares(from, 0, 1) + ray_squares(from, 0, -1) + ray_squares(from, 1, 0) + ray_squares(from, -1, 0)
            + ray_squares(from, 1, 1) + ray_squares(from, 1, -1) + ray_squares(from, -1, 1) + ray_squares(from, -1, -1),
    }
}

/// The knight jumps from `from`.
fn knight_targets_into(from: (usize, usize), color: Color, targets: &mut Vec<(usize, usize)>)
    requires
        on_board(from),
        old(targets)@ == Seq::<(usize, usize)>::empty(),
    ensures
        forall|t: (usize, usize)| #[trigger] final(targets)@.contains(t) <==> spec_is_target(PieceType::Knight, from.0 as int, from.1 as int, color, t.0 as int, t.1 as int),
        final(targets)@.no_duplicates(),
        final(targets)@ == target_seq(PieceType::Knight, from, color),
{
    let piece_type = PieceType::Knight;
    let r = from.0 as i64;
    let c = from.1 as i64;
    let ghost fr = from.0 as int;
    let ghost fc = from.1 as int;
    push_if_on_board(r + 2, c + 1, &mut *targets);
    assert(targets@ =~= square_if_on_board(fr + 2, fc + 1)) by {
        assert(targets@ =~= Seq::<(usize, usize)>::empty() + square_if_on_board(fr + 2, fc + 1));
    }
    push_if_on_board(r + 2, c - 1, &mut *targets);
    push_if_on_board(r - 2, c + 1, &mut *targets);
    push_if_on_board(r - 2, c - 1, &mut *targets);
    push_if_on_board(r + 1, c + 2, &mut *targets);
    push_if_on_board(r + 1, c - 2, &mut *targets);
    push_if_on_board(r - 1, c + 2, &mut *targets);
    push_if_on_board(r - 1, c - 2, &mut *targets);
    assert forall|t: (usize, usize)| #[trigger] targets@.contains(t) <==> spec_is_target(piece_type, fr, fc, color, t.0 as int, t.1 as int) by {
    }
    assert(targets@ == target_seq(PieceType::Knight, from, color));
}

/// The king steps from `from`, then the castling squares from the home square.
fn king_targets_into(from: (usize, usize), color: Color, targets: &mut Vec<(usize, usize)>)
    requires
        on_board(from),
        old(targets)@ == Seq::<(usize, usize)>::empty(),
    ensures
        forall|t: (usize, usize)| #[trigger] final(targets)@.contains(t) <==> spec_is_target(PieceType::King, from.0 as int, from.1 as int, color, t.0 as int, t.1 as int),
        final(targets)@.no_duplicates(),
        final(targets)@ == target_seq(PieceType::King, from, color),
{
    let piece_type = PieceType::King;
    let r = from.0 as i64;
    let c = from.1 as i64;
    let ghost fr = from.0 as int;
    let ghost fc = from.1 as int;
    push_if_on_board(r - 1, c - 1, &mut *targets);
    assert(targets@ =~= square_if_on_board(fr - 1, fc - 1)) by {
        assert(targets@ =~= Seq::<(usize, usize)>::empty() + square_if_on_board(fr - 1, fc - 1));
    }
    push_if_on_board(r - 1, c, &mut *targets);
    push_if_on_board(r - 1, c + 1, &mut *targets);
    push_if_on_board(r, c - 1, &mut *targets);
    push_if_on_board(r, c + 1, &mut *targets);
    push_if_on_board(r + 1, c - 1, &mut *targets);
    push_if_on_board(r + 1, c, &mut *targets);
    push_if_on_board(r + 1, c + 1, &mut *targets);
    let ghost s8 = targets@;
    let home: usize = if color == Color::White { 0 } else { 7 };
    if from.0 == home && from.1 == 4 {
        push_if_on_board(home as i64, 6, &mut *targets);
        push_if_on_board(home as i64, 2, &mut *targets);
        assert(targets@ =~= s8 + (square_if_on_board(home as int, 6) + square_if_on_board(home as int, 2)));
    } else {
        assert(targets@ =~= s8 + Seq::<(usize, usize)>::empty());
    }

    assert forall|t: (usize, usize)| #[trigger] targets@.contains(t) <==> spec_is_target(piece_type, fr, fc, color, t.0 as int, t.1 as int) by {
    }
    assert(targets@ == target_seq(PieceType::King, from, color));
}

/// The pawn push, double push and capture squares from `from`.
fn pawn_targets_into(from: (usize, usize), color: Color, targets: &mut Vec<(usize, usize)>)
    requires
        on_board(from),
        old(targets)@ == Seq::<(usize, usize)>::empty(),
    ensures
        forall|t: (usize, usize)| #[trigger] final(targets)@.contains(t) <==> spec_is_target(PieceType::Pawn, from.0 as int, from.1 as int, color, t.0 as int, t.1 as int),
        final(targets)@.no_duplicates(),
        final(targets)@ == target_seq(PieceType::Pawn, from, color),
{
    let piece_type = PieceType::Pawn;
    let r = from.0 as i64;
    let c = from.1 as i64;
    let ghost fr = from.0 as int;
    let ghost fc = from.1 as int;
    let fwd: i64 = if color == Color::White { 1 } else { -1 };
    let start_rank: i64 = if color == Color::White { 1 } else { 6 };
    let nr = r + fwd;
    if 0 <= nr && nr < 8 {
        push_if_on_board(nr, c, &mut *targets);
        if r == start_rank {
            push_if_on_board(r + 2 * fwd, c, &mut *targets);
        }
    }
    push_if_on_board(nr, c - 1, &mut *targets);
    push_if_on_board(nr, c + 1, &mut *targets);

    assert forall|t: (usize, usize)| #[trigger] targets@.contains(t) <==> spec_is_target(piece_type, fr, fc, color, t.0 as int, t.1 as int) by {
    }
    assert(targets@ =~= target_seq(PieceType::Pawn, from, color));
}

/// The rook rays from `from`.
fn rook_targets_into(from: (usize, usize), color: Color, targets: &mut Vec<(usize, usize)>)
    requires
        on_board(from),
        old(targets)@ == Seq::<(usize, usize)>::empty(),
    ensures
        forall|t: (usize, usize)| #[trigger] final(targets)@.contains(t) <==> spec_is_target(PieceType::Rook, from.0 as int, from.1 as int, color, t.0 as int, t.1 as int),
        final(targets)@.no_duplicates(),
        final(targets)@ == target_seq(PieceType::Rook, from, color),
{
    let piece_type = PieceType::Rook;
    let r = from.0 as i64;
    let c = from.1 as i64;
    let ghost fr = from.0 as int;
    let ghost fc = from.1 as int;
    let ghost s0 = targets@;
    push_ray(from, 0, 1, &mut *targets);
    let ghost s1 = targets@;
    push_ray(from, 0, -1, &mut *targets);
    let ghost s2 = targets@;
    push_ray(from, 1, 0, &mut *targets);
    let ghost s3 = targets@;
    push_ray(from, -1, 0, &mut *targets);
    let ghost s4 = targets@;
    assert forall|t: (usize, usize)| #[trigger] targets@.contains(t) <==> spec_is_target(piece_type, fr, fc, color, t.0 as int, t.1 as int) by {
        lemma_rook_rays(fr, fc, t.0 as int, t.1 as int);
        assert(s1.contains(t) <==> (s0.contains(t) || (on_board(t) && on_ray(fr, fc, t.0 as int, t.1 as int, 0, 1))));
        assert(s2.contains(t) <==> (s1.contains(t) || (on_board(t) && on_ray(fr, fc, t.0 as int, t.1 as int, 0, -1))));
        assert(s3.contains(t) <==> (s2.contains(t) || (on_board(t) && on_ray(fr, fc, t.0 as int, t.1 as int, 1, 0))));
        assert(s4.contains(t) <==> (s3.contains(t) || (on_board(t) && on_ray(fr, fc, t.0 as int, t.1 as int, -1, 0))));
        assert(!s0.contains(t));
    }
    assert(targets@ =~= target_seq(PieceType::Rook, from, color));
}

/// The bishop rays from `from`.
fn bishop_targets_into(from: (usize, usize), color: Color, targets: &mut Vec<(usize, usize)>)
    requires
        on_board(from),
        old(targets)@ == Seq::<(usize, usize)>::empty(),
    ensures
        forall|t: (usize, usize)| #[trigger] final(targets)@.contains(t) <==> spec_is_target(PieceType::Bishop, from.0 as int, from.1 as int, color, t.0 as int, t.1 as int),
        final(targets)@.no_duplicates(),
        final(targets)@ == target_seq(PieceType::Bishop, from, color),
{
    let piece_type = PieceType::Bishop;
    let r = from.0 as i64;
    let c = from.1 as i64;
    let ghost fr = from.0 as int;
    let ghost fc = from.1 as int;
    let ghost s0 = targets@;
    push_ray(from, 1, 1, &mut *targets);
    let ghost s1 = targets@;
    push_ray(from, 1, -1, &mut *targets);
    let ghost s2 = targets@;
    push_ray(from, -1, 1, &mut *targets);
    let ghost s3 = targets@;
    push_ray(from, -1, -1, &mut *targets);
    let ghost s4 = targets@;
    assert forall|t: (usize, usize)| #[trigger] targets@.contains(t) <==> spec_is_target(piece_type, fr, fc, color, t.0 as int, t.1 as int) by {
        lemma_bishop_rays(fr, fc, t.0 as int, t.1 as int);
        assert(s1.contains(t) <==> (s0.contains(t) || (on_board(t) && on_ray(fr, fc, t.0 as int, t.1 as int, 1, 1))));
        assert(s2.contains(t) <==> (s1.contains(t) || (on_board(t) && on_ray(fr, fc, t.0 as int, t.1 as int, 1, -1))));
        assert(s3.contains(t) <==> (s2.contains(t) || (on_board(t) && on_ray(fr, fc, t.0 as int, t.1 as int, -1, 1))));
        assert(s4.contains(t) <==> (s3.contains(t) || (on_board(t) && on_ray(fr, fc, t.0 as int, t.1 as int, -1, -1))));
        assert(!s0.contains(t));
    }
    assert(targets@ =~= target_seq(PieceType::Bishop, from, color));
}

/// The queen rays from `from`.
fn queen_targets_into(from: (usize, usize), color: Color, targets: &mut Vec<(usize, usize)>)
    requires
        on_board(from),
        old(targets)@ == Seq::<(usize, usize)>::empty(),
    ensures
        forall|t: (usize, usize)| #[trigger] final(targets)@.contains(t) <==> spec_is_target(PieceType::Queen, from.0 as int, from.1 as int, color, t.0 as int, t.1 as int),
        final(targets)@.no_duplicates(),
        final(targets)@ == target_seq(PieceType::Queen, from, color),
{
    let piece_type = PieceType::Queen;
    let r = from.0 as i64;
    let c = from.1 as i64;
    let ghost fr = from.0 as int;
    let ghost fc = from.1 as int;
    let ghost s0 = targets@;
    push_ray(from, 0, 1, &mut *targets);
    let ghost s1 = targets@;
    push_ray(from, 0, -1, &mut *targets);
    let ghost s2 = targets@;
    push_ray(from, 1, 0, &mut *targets);
    let ghost s3 = targets@;
    push_ray(from, -1, 0, &mut *targets);
    let ghost s4 = targets@;
    push_ray(from, 1, 1, &mut *targets);
    let ghost s5 = targets@;
    push_ray(from, 1, -1, &mut *targets);
    let ghost s6 = targets@;
    push_ray(from, -1, 1, &mut *targets);
    let ghost s7 = targets@;
    push_ray(from, -1, -1, &mut *targets);
    let ghost s8 = targets@;
    assert forall|t: (usize, usize)| #[trigger] targets@.contains(t) <==> spec_is_target(piece_type, fr, fc, color, t.0 as int, t.1 as int) by {
        lemma_rook_rays(fr, fc, t.0 as int, t.1 as int);
        lemma_bishop_rays(fr, fc, t.0 as int, t.1 as int);
        assert(s1.contains(t) <==> (s0.contains(t) || (on_board(t) && on_ray(fr, fc, t.0 as int, t.1 as int, 0, 1))));
        assert(s2.contains(t) <==> (s1.contains(t) || (on_board(t) && on_ray(fr, fc, t.0 as int, t.1 as int, 0, -1))));
        assert(s3.contains(t) <==> (s2.contains(t) || (on_board(t) && on_ray(fr, fc, t.0 as int, t.1 as int, 1, 0))));
        assert(s4.contains(t) <==> (s3.contains(t) || (on_board(t) && on_ray(fr, fc, t.0 as int, t.1 as int, -1, 0))));
        assert(s5.contains(t) <==> (s4.contains(t) || (on_board(t) && on_ray(fr, fc, t.0 as int, t.1 as int, 1, 1))));
        assert(s6.contains(t) <==> (s5.contains(t) || (on_board(t) && on_ray(fr, fc, t.0 as int, t.1 as int, 1, -1))));
        assert(s7.contains(t) <==> (s6.contains(t) || (on_board(t) && on_ray(fr, fc, t.0 as int, t.1 as int, -1, 1))));
        assert(s8.contains(t) <==> (s7.contains(t) || (on_board(t) && on_ray(fr, fc, t.0 as int, t.1 as int, -1, -1))));
        assert(!s0.contains(t));
    }
    assert(targets@ =~= target_seq(PieceType::Queen, from, color));
}

/// Fills `targets` with the candidate destinations of a piece kind on `from`
/// (knight jumps, king steps and castling squares, pawn pushes and capture
/// squares, slider rays to the board's edge).
pub fn generate_piece_targets_into(piece_type: PieceType, from: (usize, usize), color: Color, targets: &mut Vec<(usize, usize)>)
    requires
        on_board(from),
    ensures
        forall|t: (usize, usize)| #[trigger] final(targets)@.contains(t) <==> spec_is_target(piece_type, from.0 as int, from.1 as int, color, t.0 as int, t.1 as int),
        final(targets)@.no_duplicates(),
        final(targets)@ == target_seq(piece_type, from, color),
{
    targets.clear();
    match piece_type {
        PieceType::Knight => knight_targets_into(from, color, targets),
        PieceType::King => king_targets_into(from, color, targets),
        PieceType::Pawn => pawn_targets_into(from, color, targets),
        PieceType::Rook => rook_targets_into(from, color, targets),
        PieceType::Bishop => bishop_targets_into(from, color, targets),
        PieceType::Queen => queen_targets_into(from, color, targets),
    }
}


/// A move: from-square, to-square and the promotion character, if any.
pub type Move = ((usize, usize), (usize, usize), Option<char>);

pub open spec fn is_promo_char(ch: char) -> bool {
    ch == 'q' || ch == 'r' || ch == 'b' || ch == 'n'
}

pub open spec fn promo_char_type(ch: char) -> PieceType {
    if ch == 'r' { PieceType::Rook } else if ch == 'b' { PieceType::Bishop } else if ch == 'n' { PieceType::Knight } else { PieceType::Queen }
}

/// The pawn reaches the last rank.
pub open spec fn spec_is_promotion(to: (usize, usize), c: Color) -> bool {
    (c == Color::White && to.0 == 7) || (c == Color::Black && to.0 == 0)
}

/// The capture flag the generators use: the target holds a piece, or a pawn
/// moves onto the en-passant square.
pub open spec fn spec_capture_flag(g: GameState, pt: PieceType, to: (usize, usize)) -> bool {
    g.board.at(to.0 as int, to.1 as int) is Some || (pt == PieceType::Pawn && g.en_passant == Some(to))
}

/// The piece rules (without the pin check) for a piece kind of the side to move.
pub open spec fn spec_piece_rule(g: GameState, pt: PieceType, from: (usize, usize), to: (usize, usize), is_capture: bool, has_promo: bool) -> bool {
    let b = g.board;
    match pt {
        PieceType::Pawn => spec_valid_pawn(b, from, to, is_capture, g.en_passant, g.active_color, has_promo, false),
        PieceType::Knight => spec_valid_knight(b, from, to, false),
        PieceType::Bishop => spec_valid_bishop(b, from, to, false),
        PieceType::Rook => spec_valid_rook(b, from, to, false),
        PieceType::Queen => spec_valid_queen(b, from, to, false),
        PieceType::King => spec_valid_king(g, from, to),
    }
}

/// After the move the mover's king is not attacked.
pub open spec fn spec_legal_after(g: GameState, from: (usize, usize), to: (usize, usize), promo: Option<char>) -> bool {
    !g.spec_make_move(from, to, promo).board.in_check(g.active_color)
}

/// The moves the generator produces: a piece of the side to move, a
/// candidate target, the from/to check, the piece rule, and (for all but
/// king moves, whose rule already looks at attacks) a king left safe; a pawn
/// reaching the last rank produces one move per promotion piece.
pub open spec fn spec_generated(g: GameState, m: Move) -> bool {
    let (from, to, promo) = m;
    &&& on_board(from)
    &&& on_board(to)
    &&& g.board.at(from.0 as int, from.1 as int) matches Some(p)
    &&& p.color == g.active_color
    &&& spec_is_target(p.piece_type, from.0 as int, from.1 as int, g.active_color, to.0 as int, to.1 as int)
    &&& g.spec_from_to_check(from, to, spec_capture_flag(g, p.piece_type, to), p.piece_type == PieceType::Pawn)
    &&& if p.piece_type == PieceType::Pawn && spec_is_promotion(to, g.active_color) {
        &&& promo matches Some(ch)
        &&& is_promo_char(ch)
        &&& spec_piece_rule(g, p.piece_type, from, to, spec_capture_flag(g, p.piece_type, to), true)
        &&& spec_legal_after(g, from, to, promo)
    } else {
        &&& promo is None
        &&& spec_piece_rule(g, p.piece_type, from, to, spec_capture_flag(g, p.piece_type, to), false)
        &&& (p.piece_type == PieceType::King || spec_legal_after(g, from, to, None))
    }
}

/// A generated move that captures or promotes.
pub open spec fn spec_generated_tactical(g: GameState, m: Move) -> bool {
    spec_generated(g, m) && (g.board.at(m.0.0 as int, m.0.1 as int) matches Some(p)
        && (spec_capture_flag(g, p.piece_type, m.1) || (p.piece_type == PieceType::Pawn && spec_is_promotion(m.1, g.active_color))))
}

pub fn is_promotion(to: (usize, usize), active_color: Color) -> (b: bool)
    ensures
        b == spec_is_promotion(to, active_color),
{
    (active_color == Color::White && to.0 == 7) || (active_color == Color::Black && to.0 == 0)
}

fn promo_char_to_piece_type(pc: char) -> (t: PieceType)
    ensures
        t == promo_char_type(pc),
{
    if pc == 'r' { PieceType::Rook } else if pc == 'b' { PieceType::Bishop } else if pc == 'n' { PieceType::Knight } else { PieceType::Queen }
}

/// The promotion character of a piece kind, for the four promotion pieces.
pub fn piece_type_to_promo_char(pt: PieceType) -> (c: Option<char>)
    ensures
        c == (match pt {
            PieceType::Queen => Some('q'),
            PieceType::Rook => Some('r'),
            PieceType::Bishop => Some('b'),
            PieceType::Knight => Some('n'),
            _ => None::<char>,
        }),
{
    match pt {
        PieceType::Queen => Some('q'),
        PieceType::Rook => Some('r'),
        PieceType::Bishop => Some('b'),
        PieceType::Knight => Some('n'),
        _ => None,
    }
}

/// Makes the move, asks whether the mover's king is attacked, and takes the
/// move back.
fn try_move_and_check_legality(game_state: &mut GameState, from: (usize, usize), to: (usize, usize), promo: Option<char>, active_color: Color) -> (legal: bool)
    requires
        old(game_state).wf(),
        on_board(from),
        on_board(to),
        (old(game_state).board.at(from.0 as int, from.1 as int) is Some),
        active_color == old(game_state).active_color,
    ensures
        *final(game_state) == *old(game_state),
        legal == spec_legal_after(*old(game_state), from, to, promo),
{
    let u = game_state.make_move_fast(from, to, promo);
    let in_check = game_state.board.is_side_in_check(active_color);
    game_state.unmake_move_fast(u);
    !in_check
}

fn is_valid_piece_move(game_state: &GameState, piece_type: PieceType, from: (usize, usize), to: (usize, usize), is_capture: bool, promo_piece: Option<Piece>, active_color: Color) -> (ok: bool)
    requires
        game_state.wf(),
        on_board(from),
        on_board(to),
        active_color == game_state.active_color,
    ensures
        ok == spec_piece_rule(*game_state, piece_type, from, to, is_capture, promo_piece is Some),
{
    let board = &game_state.board;
    match piece_type {
        PieceType::Pawn => is_valid_pawn_move(board, from, to, is_capture, game_state.en_passant, active_color, promo_piece, false),
        PieceType::Knight => is_valid_knight_move(board, from, to, false),
        PieceType::Bishop => is_valid_bishop_move(board, from, to, false),
        PieceType::Rook => is_valid_rook_move(board, from, to, false),
        PieceType::Queen => is_valid_queen_move(board, from, to, false),
        PieceType::King => is_valid_king_move(game_state, from, to),
    }
}

/// Square order used by the generators: row by row, column by column.
pub open spec fn sq_before(a: (usize, usize), r: int, c: int) -> bool {
    a.0 < r || (a.0 == r && a.1 < c)
}

/// The promotion moves `from`-`to` with the letters of `chars`, in that
/// order, that pass the pawn rule and leave the king safe.
pub open spec fn promo_seq(g: GameState, from: (usize, usize), to: (usize, usize), is_capture: bool, chars: Seq<char>) -> Seq<Move>
    decreases chars.len(),
{
    if chars.len() == 0 {
        Seq::empty()
    } else {
        let ch = chars.last();
        promo_seq(g, from, to, is_capture, chars.drop_last())
            + (if spec_piece_rule(g, PieceType::Pawn, from, to, is_capture, true) && spec_legal_after(g, from, to, Some(ch)) {
                seq![(from, to, Some(ch))]
            } else {
                Seq::empty()
            })
    }
}

/// The moves generated for the piece `p` on `from` toward the target `to`:
/// nothing unless the move passes the from/to check (and, with
/// `tactical_only`, captures or promotes); for a pawn reaching the last
/// rank, the promotions in the order q, r, b, n that pass the pawn rule and
/// leave the king safe; otherwise the move itself when it passes the piece
/// rule and (but for the king, whose rule looks at attacks) leaves the king
/// safe.
pub open spec fn target_moves(g: GameState, from: (usize, usize), p: Piece, to: (usize, usize), tactical_only: bool) -> Seq<Move> {
    let is_capture = spec_capture_flag(g, p.piece_type, to);
    let is_promo = p.piece_type == PieceType::Pawn && spec_is_promotion(to, g.active_color);
    if !((!tactical_only || is_capture || is_promo) && g.spec_from_to_check(from, to, is_capture, p.piece_type == PieceType::Pawn)) {
        Seq::empty()
    } else if is_promo {
        promo_seq(g, from, to, is_capture, seq!['q', 'r', 'b', 'n'])
    } else if spec_piece_rule(g, p.piece_type, from, to, is_capture, false)
        && (p.piece_type == PieceType::King || spec_legal_after(g, from, to, None)) {
        seq![(from, to, None)]
    } else {
        Seq::empty()
    }
}

/// The moves generated for the piece `p` on `from` toward the targets `ts`, in order.
pub open spec fn moves_to_targets(g: GameState, from: (usize, usize), p: Piece, ts: Seq<(usize, usize)>, tactical_only: bool) -> Seq<Move>
    decreases ts.len(),
{
    if ts.len() == 0 {
        Seq::empty()
    } else {
        moves_to_targets(g, from, p, ts.drop_last(), tactical_only) + target_moves(g, from, p, ts.last(), tactical_only)
    }
}

/// The moves generated from square `(r, c)`: those of a piece of the side
/// to move there, target by target.
pub open spec fn square_moves(g: GameState, r: int, c: int, tactical_only: bool) -> Seq<Move> {
    match g.board.at(r, c) {
        Some(p) => if p.color == g.active_color {
            moves_to_targets(g, (r as usize, c as usize), p, target_seq(p.piece_type, (r as usize, c as usize), p.color), tactical_only)
        } else {
            Seq::empty()
        },
        None => Seq::empty(),
    }
}

/// The moves generated from the first `c` squares of row `r`.
pub open spec fn row_moves(g: GameState, r: int, c: int, tactical_only: bool) -> Seq<Move>
    decreases c,
{
    if c <= 0 { Seq::empty() } else { row_moves(g, r, c - 1, tactical_only) + square_moves(g, r, c - 1, tactical_only) }
}

/// The moves generated from the first `r` rows.
pub open spec fn board_moves(g: GameState, r: int, tactical_only: bool) -> Seq<Move>
    decreases r,
{
    if r <= 0 { Seq::empty() } else { board_moves(g, r - 1, tactical_only) + row_moves(g, r - 1, 8, tactical_only) }
}

/// The list the generator produces: square by square (row by row), and for
/// each piece of the side to move target by target.
pub open spec fn generated_list(g: GameState, tactical_only: bool) -> Seq<Move> {
    board_moves(g, 8, tactical_only)
}

/// Generates the moves of the piece on `from` to the targets in `targets`,
/// appending them to `out`.
fn generate_from_square(
    game_state: &mut GameState,
    from: (usize, usize),
    p: Piece,
    targets: &Vec<(usize, usize)>,
    tactical_only: bool,
    out: &mut Vec<Move>,
)
    requires
        old(game_state).wf(),
        on_board(from),
        old(game_state).board.at(from.0 as int, from.1 as int) == Some(p),
        p.color == old(game_state).active_color,
        forall|t: (usize, usize)| #[trigger] targets@.contains(t) ==> spec_is_target(p.piece_type, from.0 as int, from.1 as int, p.color, t.0 as int, t.1 as int),
        targets@.no_duplicates(),
    ensures
        *final(game_state) == *old(game_state),
        forall|m: Move| #[trigger] final(out)@.contains(m) <==> (old(out)@.contains(m)
            || (m.0 == from && targets@.contains(m.1)
                && (if tactical_only { spec_generated_tactical(*old(game_state), m) } else { spec_generated(*old(game_state), m) }))),
        old(out)@.no_duplicates() && (forall|m: Move| #[trigger] old(out)@.contains(m) ==> m.0 != from)
            ==> final(out)@.no_duplicates(),
        final(out)@ == old(out)@ + moves_to_targets(*old(game_state), from, p, targets@, tactical_only),
{
    let ghost g = *game_state;
    let ghost init = out@;
    let ghost fresh = init.no_duplicates() && (forall|m: Move| #[trigger] init.contains(m) ==> m.0 != from);
    let active_color = game_state.active_color;
    let en_passant_target = game_state.en_passant;
    let piece_type = p.piece_type;
    let mut i: usize = 0;
    while i < targets.len()
        invariant
            *game_state == g,
            g.wf(),
            on_board(from),
            g.board.at(from.0 as int, from.1 as int) == Some(p),
            p.color == g.active_color,
            active_color == g.active_color,
            en_passant_target == g.en_passant,
            piece_type == p.piece_type,
            i <= targets.len(),
            forall|t: (usize, usize)| #[trigger] targets@.contains(t) ==> spec_is_target(p.piece_type, from.0 as int, from.1 as int, p.color, t.0 as int, t.1 as int),
            forall|m: Move| #[trigger] out@.contains(m) <==> (init.contains(m)
                || (m.0 == from && targets@.take(i as int).contains(m.1)
                    && (if tactical_only { spec_generated_tactical(g, m) } else { spec_generated(g, m) }))),
            targets@.no_duplicates(),
            fresh == (init.no_duplicates() && (forall|m: Move| #[trigger] init.contains(m) ==> m.0 != from)),
            fresh ==> out@.no_duplicates(),
            out@ == init + moves_to_targets(g, from, p, targets@.take(i as int), tactical_only),
        decreases targets.len() - i,
    {
        let to = targets[i];
        assert(targets@.contains(to));
        assert(!targets@.take(i as int).contains(to)) by {
            if targets@.take(i as int).contains(to) {
                let k = choose|k: int| 0 <= k < i && targets@.take(i as int)[k] == to;
                assert(targets@[k] == targets@[i as int]);
            }
        }
        assert(on_board(to));
        let ghost before = out@;
        let target_some = game_state.board.get(to.0, to.1).is_some();
        let is_capture = target_some || (piece_type == PieceType::Pawn && opt_square_is(en_passant_target, to));
        let is_pawn_promotion = piece_type == PieceType::Pawn && is_promotion(to, active_color);
        let keep = !tactical_only || is_capture || is_pawn_promotion;
        let ghost gen_here = |m: Move| m.0 == from && m.1 == to
            && (if tactical_only { spec_generated_tactical(g, m) } else { spec_generated(g, m) });
        if keep && game_state.move_from_and_to_validation_check(from, to, is_capture, piece_type == PieceType::Pawn) {
            if is_pawn_promotion {
                let chars: [char; 4] = ['q', 'r', 'b', 'n'];
                let mut j: usize = 0;
                while j < 4
                    invariant
                        *game_state == g,
                        g.wf(),
                        on_board(from),
                        on_board(to),
                        g.board.at(from.0 as int, from.1 as int) == Some(p),
                        p.color == g.active_color,
                        active_color == g.active_color,
                        piece_type == p.piece_type,
                        piece_type == PieceType::Pawn,
                        spec_is_promotion(to, active_color),
                        is_capture == spec_capture_flag(g, piece_type, to),
                        g.spec_from_to_check(from, to, is_capture, true),
                        spec_is_target(p.piece_type, from.0 as int, from.1 as int, p.color, to.0 as int, to.1 as int),
                        keep,
                        chars@ == seq!['q', 'r', 'b', 'n'],
                        j <= 4,
                        forall|m: Move| #[trigger] out@.contains(m) <==> (before.contains(m)
                            || (m.0 == from && m.1 == to && (m.2 matches Some(ch) && chars@.take(j as int).contains(ch))
                                && (if tactical_only { spec_generated_tactical(g, m) } else { spec_generated(g, m) }))),
                        fresh ==> before.no_duplicates(),
                        fresh ==> forall|m: Move| #[trigger] before.contains(m) ==> !(m.0 == from && m.1 == to),
                        fresh ==> out@.no_duplicates(),
                        out@ == before + promo_seq(g, from, to, is_capture, chars@.take(j as int)),
                    decreases 4 - j,
                {
                    let pc = chars[j];
                    let promo_piece = Some(Piece::new(promo_char_to_piece_type(pc), active_color));
                    let ghost before2 = out@;
                    if is_valid_piece_move(game_state, piece_type, from, to, is_capture, promo_piece, active_color)
                        && try_move_and_check_legality(game_state, from, to, Some(pc), active_color) {
                        proof {
                            if fresh {
                                assert(!chars@.take(j as int).contains(pc)) by {
                                    if chars@.take(j as int).contains(pc) {
                                        let k = choose|k: int| 0 <= k < j && chars@.take(j as int)[k] == pc;
                                        assert(chars@[k] == chars@[j as int]);
                                    }
                                }
                                assert(!before2.contains((from, to, Some(pc))));
                                lemma_push_no_duplicates(before2, (from, to, Some(pc)));
                            }
                        }
                        out.push((from, to, Some(pc)));
                        assert forall|m: Move| #[trigger] out@.contains(m) <==> (before2.contains(m) || m == (from, to, Some(pc))) by {
                            lemma_push_contains(before2, (from, to, Some(pc)), m);
                        }
                    }
                    proof {
                        let cj = chars@.take(j + 1);
                        assert(cj.drop_last() =~= chars@.take(j as int));
                        assert(cj.last() == pc);
                        assert(promo_piece == Some(Piece { piece_type: promo_char_type(pc), color: active_color }));
                        assert(out@ =~= before + promo_seq(g, from, to, is_capture, chars@.take(j + 1)));
                    }
                    assert forall|m: Move| #[trigger] out@.contains(m) <==> (before.contains(m)
                        || (m.0 == from && m.1 == to && (m.2 matches Some(ch) && chars@.take(j + 1).contains(ch))
                            && (if tactical_only { spec_generated_tactical(g, m) } else { spec_generated(g, m) }))) by {
                        if let Some(ch) = m.2 {
                            assert(chars@.take(j + 1).contains(ch) <==> (chars@.take(j as int).contains(ch) || ch == pc)) by {
                                assert(chars@.take(j + 1) =~= chars@.take(j as int).push(pc));
                                lemma_push_contains(chars@.take(j as int), pc, ch);
                            }
                        }
                    }
                    j = j + 1;
                }
                proof {
                    assert(chars@.take(4) =~= seq!['q', 'r', 'b', 'n']);
                    assert(out@ == before + target_moves(g, from, p, to, tactical_only));
                }
                assert forall|m: Move| #[trigger] out@.contains(m) <==> (before.contains(m) || gen_here(m)) by {
                    if m.0 == from && m.1 == to && (if tactical_only { spec_generated_tactical(g, m) } else { spec_generated(g, m) }) {
                        let ch = m.2.unwrap();
                        assert(is_promo_char(ch));
                        assert(chars@.take(4) =~= chars@);
                        if ch == 'q' { assert(chars@[0] == ch); }
                        else if ch == 'r' { assert(chars@[1] == ch); }
                        else if ch == 'b' { assert(chars@[2] == ch); }
                        else { assert(chars@[3] == ch); }
                    }
                    if let Some(ch) = m.2 {
                        if chars@.take(4).contains(ch) {
                            assert(chars@.take(4) =~= chars@);
                        }
                    }
                }
            } else {
                if is_valid_piece_move(game_state, piece_type, from, to, is_capture, None, active_color)
                    && (piece_type == PieceType::King || try_move_and_check_legality(game_state, from, to, None, active_color)) {
                    proof {
                        if fresh {
                            assert(!before.contains((from, to, None)));
                            lemma_push_no_duplicates(before, (from, to, None));
                        }
                    }
                    out.push((from, to, None));
                    assert forall|m: Move| #[trigger] out@.contains(m) <==> (before.contains(m) || gen_here(m)) by {
                        lemma_push_contains(before, (from, to, None), m);
                    }
                    assert(out@ =~= before + target_moves(g, from, p, to, tactical_only));
                } else {
                    assert forall|m: Move| #[trigger] out@.contains(m) <==> (before.contains(m) || gen_here(m)) by {}
                    assert(out@ =~= before + target_moves(g, from, p, to, tactical_only));
                }
            }
        } else {
            assert forall|m: Move| #[trigger] out@.contains(m) <==> (before.contains(m) || gen_here(m)) by {}
            assert(out@ =~= before + target_moves(g, from, p, to, tactical_only));
        }
        proof {
            let ti = targets@.take(i + 1);
            assert(ti.drop_last() =~= targets@.take(i as int));
            assert(ti.last() == to);
            assert(out@ =~= init + moves_to_targets(g, from, p, ti, tactical_only));
        }
        assert forall|m: Move| #[trigger] out@.contains(m) <==> (init.contains(m)
            || (m.0 == from && targets@.take(i + 1).contains(m.1)
                && (if tactical_only { spec_generated_tactical(g, m) } else { spec_generated(g, m) }))) by {
            assert(targets@.take(i + 1) =~= targets@.take(i as int).push(to));
            lemma_push_contains(targets@.take(i as int), to, m.1);
        }
        i = i + 1;
    }
    assert(targets@.take(targets.len() as int) =~= targets@);
}


/// Appends the generated moves of every piece of the side to move, square by square.
fn generate_all(game_state: &mut GameState, tactical_only: bool, out: &mut Vec<Move>)
    requires
        old(game_state).wf(),
        old(out)@ == Seq::<Move>::empty(),
    ensures
        *final(game_state) == *old(game_state),
        forall|m: Move| #[trigger] final(out)@.contains(m) <==> (if tactical_only { spec_generated_tactical(*old(game_state), m) } else { spec_generated(*old(game_state), m) }),
        final(out)@.no_duplicates(),
        final(out)@ == generated_list(*old(game_state), tactical_only),
{
    let ghost g = *game_state;
    let active_color = game_state.active_color;
    let mut targets: Vec<(usize, usize)> = Vec::new();
    let mut r: usize = 0;
    assert(out@ =~= board_moves(g, 0, tactical_only));
    while r < 8
        invariant
            *game_state == g,
            g.wf(),
            active_color == g.active_color,
            r <= 8,
            forall|m: Move| #[trigger] out@.contains(m) <==> (sq_before(m.0, r as int, 0)
                && (if tactical_only { spec_generated_tactical(g, m) } else { spec_generated(g, m) })),
            out@.no_duplicates(),
            out@ == board_moves(g, r as int, tactical_only),
        decreases 8 - r,
    {
        let mut c: usize = 0;
        assert(out@ =~= board_moves(g, r as int, tactical_only) + row_moves(g, r as int, 0, tactical_only));
        while c < 8
            invariant
                *game_state == g,
                g.wf(),
                active_color == g.active_color,
                r < 8,
                c <= 8,
                forall|m: Move| #[trigger] out@.contains(m) <==> (sq_before(m.0, r as int, c as int)
                    && (if tactical_only { spec_generated_tactical(g, m) } else { spec_generated(g, m) })),
                out@.no_duplicates(),
                out@ == board_moves(g, r as int, tactical_only) + row_moves(g, r as int, c as int, tactical_only),
            decreases 8 - c,
        {
            let ghost before = out@;
            match game_state.board.get(r, c) {
                Some(p) => {
                    if p.color == active_color {
                        generate_piece_targets_into(p.piece_type, (r, c), active_color, &mut targets);
                        generate_from_square(game_state, (r, c), p, &targets, tactical_only, out);
                        assert forall|m: Move| m.0 == (r, c) && (if tactical_only { spec_generated_tactical(g, m) } else { spec_generated(g, m) })
                            implies #[trigger] targets@.contains(m.1) by {}
                    }
                },
                None => {},
            }
            assert(out@ =~= board_moves(g, r as int, tactical_only) + row_moves(g, r as int, c + 1, tactical_only)) by {
                assert(out@ =~= before + square_moves(g, r as int, c as int, tactical_only));
            }
            assert forall|m: Move| #[trigger] out@.contains(m) <==> (sq_before(m.0, r as int, c + 1)
                && (if tactical_only { spec_generated_tactical(g, m) } else { spec_generated(g, m) })) by {
                assert(before.contains(m) <==> (sq_before(m.0, r as int, c as int)
                    && (if tactical_only { spec_generated_tactical(g, m) } else { spec_generated(g, m) })));
            }
            c = c + 1;
        }
        assert forall|m: Move| #[trigger] out@.contains(m) <==> (sq_before(m.0, r + 1, 0)
            && (if tactical_only { spec_generated_tactical(g, m) } else { spec_generated(g, m) })) by {
            if spec_generated(g, m) {
                assert(m.0.1 < 8);
            }
        }
        assert(out@ =~= board_moves(g, r + 1, tactical_only));
        r = r + 1;
    }
}

/// `s` lists the legal moves of `g`, each once.
pub open spec fn lists_legal_moves(g: GameState, s: Seq<Move>) -> bool {
    s.no_duplicates() && forall|m: Move| #[trigger] s.contains(m) <==> spec_generated(g, m)
}

/// The legal moves of `g`, each once, in some order (the totals built on it
/// do not depend on the order).
pub open spec fn legal_moves(g: GameState) -> Seq<Move> {
    choose|s: Seq<Move>| lists_legal_moves(g, s)
}

/// Two lists of the legal moves have the same length, that of `legal_moves`.
pub proof fn lemma_listing_len(g: GameState, s: Seq<Move>)
    requires
        lists_legal_moves(g, s),
    ensures
        lists_legal_moves(g, legal_moves(g)),
        legal_moves(g).len() == s.len(),
{
    let l = legal_moves(g);
    assert(lists_legal_moves(g, l));
    s.unique_seq_to_set();
    l.unique_seq_to_set();
    assert(s.to_set() =~= l.to_set());
}

/// All legal moves of the side to move.
pub fn find_all_valid_moves(game_state: &mut GameState) -> (result: Vec<Move>)
    requires
        old(game_state).wf(),
    ensures
        *final(game_state) == *old(game_state),
        forall|m: Move| #[trigger] result@.contains(m) <==> spec_generated(*old(game_state), m),
        result@.no_duplicates(),
        lists_legal_moves(*old(game_state), result@),
        result@ == generated_list(*old(game_state), false),
{
    let mut result: Vec<Move> = Vec::new();
    generate_all(game_state, false, &mut result);
    result
}

/// The move captures (by the capture flag of the piece on its from-square)
/// or takes a pawn to the last rank.
pub open spec fn is_tactical(g: GameState, m: Move) -> bool {
    &&& g.board.at(m.0.0 as int, m.0.1 as int) matches Some(q)
    &&& (spec_capture_flag(g, q.piece_type, m.1) || (q.piece_type == PieceType::Pawn && spec_is_promotion(m.1, g.active_color)))
}

pub open spec fn tactical_pred(g: GameState) -> spec_fn(Move) -> bool {
    |m: Move| is_tactical(g, m)
}

proof fn lemma_filter_keeps_all(s: Seq<Move>, pred: spec_fn(Move) -> bool)
    requires
        forall|i: int| 0 <= i < s.len() ==> pred(#[trigger] s[i]),
    ensures
        s.filter(pred) == s,
    decreases s.len(),
{
    reveal(Seq::filter);
    if s.len() > 0 {
        lemma_filter_keeps_all(s.drop_last(), pred);
        assert(pred(s[s.len() - 1]));
        assert(s.drop_last().push(s.last()) =~= s);
    }
}

proof fn lemma_filter_keeps_none(s: Seq<Move>, pred: spec_fn(Move) -> bool)
    requires
        forall|i: int| 0 <= i < s.len() ==> !pred(#[trigger] s[i]),
    ensures
        s.filter(pred) == Seq::<Move>::empty(),
    decreases s.len(),
{
    reveal(Seq::filter);
    if s.len() > 0 {
        lemma_filter_keeps_none(s.drop_last(), pred);
        assert(!pred(s[s.len() - 1]));
    }
}

proof fn lemma_promo_seq_squares(g: GameState, from: (usize, usize), to: (usize, usize), is_capture: bool, chars: Seq<char>)
    ensures
        forall|i: int| 0 <= i < promo_seq(g, from, to, is_capture, chars).len() ==>
            (#[trigger] promo_seq(g, from, to, is_capture, chars)[i]).0 == from && promo_seq(g, from, to, is_capture, chars)[i].1 == to,
    decreases chars.len(),
{
    if chars.len() > 0 {
        lemma_promo_seq_squares(g, from, to, is_capture, chars.drop_last());
        let a = promo_seq(g, from, to, is_capture, chars.drop_last());
        let ch = chars.last();
        let tail: Seq<Move> = if spec_piece_rule(g, PieceType::Pawn, from, to, is_capture, true) && spec_legal_after(g, from, to, Some(ch)) {
            seq![(from, to, Some(ch))]
        } else {
            Seq::empty()
        };
        let s = promo_seq(g, from, to, is_capture, chars);
        assert(s == a + tail);
        assert forall|i: int| 0 <= i < s.len() implies (#[trigger] s[i]).0 == from && s[i].1 == to by {
            if i < a.len() {
                assert(s[i] == a[i]);
            } else {
                assert(s[i] == tail[i - a.len()]);
            }
        }
    }
}

proof fn lemma_target_moves_filter(g: GameState, from: (usize, usize), p: Piece, to: (usize, usize))
    requires
        g.board.at(from.0 as int, from.1 as int) == Some(p),
    ensures
        target_moves(g, from, p, to, true) == target_moves(g, from, p, to, false).filter(tactical_pred(g)),
{
    let s = target_moves(g, from, p, to, false);
    let is_capture = spec_capture_flag(g, p.piece_type, to);
    let is_promo = p.piece_type == PieceType::Pawn && spec_is_promotion(to, g.active_color);
    lemma_promo_seq_squares(g, from, to, is_capture, seq!['q', 'r', 'b', 'n']);
    assert forall|i: int| 0 <= i < s.len() implies (#[trigger] s[i]).0 == from && s[i].1 == to by {}
    if is_capture || is_promo {
        assert forall|i: int| 0 <= i < s.len() implies (tactical_pred(g))(#[trigger] s[i]) by {}
        lemma_filter_keeps_all(s, tactical_pred(g));
    } else {
        assert forall|i: int| 0 <= i < s.len() implies !(tactical_pred(g))(#[trigger] s[i]) by {}
        lemma_filter_keeps_none(s, tactical_pred(g));
    }
}

proof fn lemma_moves_to_targets_filter(g: GameState, from: (usize, usize), p: Piece, ts: Seq<(usize, usize)>)
    requires
        g.board.at(from.0 as int, from.1 as int) == Some(p),
    ensures
        moves_to_targets(g, from, p, ts, true) == moves_to_targets(g, from, p, ts, false).filter(tactical_pred(g)),
    decreases ts.len(),
{
    if ts.len() > 0 {
        lemma_moves_to_targets_filter(g, from, p, ts.drop_last());
        lemma_target_moves_filter(g, from, p, ts.last());
        Seq::filter_distributes_over_add(moves_to_targets(g, from, p, ts.drop_last(), false),
            target_moves(g, from, p, ts.last(), false), tactical_pred(g));
    } else {
        reveal(Seq::filter);
    }
}

proof fn lemma_row_moves_filter(g: GameState, r: int, c: int)
    requires
        0 <= r < 8,
        c <= 8,
    ensures
        row_moves(g, r, c, true) == row_moves(g, r, c, false).filter(tactical_pred(g)),
    decreases c,
{
    reveal(Seq::filter);
    if c > 0 {
        lemma_row_moves_filter(g, r, c - 1);
        let sq = square_moves(g, r, c - 1, false);
        match g.board.at(r, c - 1) {
            Some(p) => {
                if p.color == g.active_color {
                    assert((r as usize) as int == r && ((c - 1) as usize) as int == c - 1);
                    lemma_moves_to_targets_filter(g, (r as usize, (c - 1) as usize), p,
                        target_seq(p.piece_type, (r as usize, (c - 1) as usize), p.color));
                }
            },
            None => {},
        }
        Seq::filter_distributes_over_add(row_moves(g, r, c - 1, false), sq, tactical_pred(g));
    }
}

proof fn lemma_board_moves_filter(g: GameState, r: int)
    requires
        r <= 8,
    ensures
        board_moves(g, r, true) == board_moves(g, r, false).filter(tactical_pred(g)),
    decreases r,
{
    reveal(Seq::filter);
    if r > 0 {
        lemma_board_moves_filter(g, r - 1);
        lemma_row_moves_filter(g, r - 1, 8);
        Seq::filter_distributes_over_add(board_moves(g, r - 1, false), row_moves(g, r - 1, 8, false), tactical_pred(g));
    }
}

/// The capture list is the full move list with the quiet moves taken out,
/// in the same order.
pub proof fn lemma_captures_are_filtered_moves(g: GameState)
    ensures
        generated_list(g, true) == generated_list(g, false).filter(tactical_pred(g)),
{
    lemma_board_moves_filter(g, 8);
}

/// The legal captures (en passant included) and promotions of the side to move.
pub fn find_all_capture_moves(game_state: &mut GameState) -> (result: Vec<Move>)
    requires
        old(game_state).wf(),
    ensures
        *final(game_state) == *old(game_state),
        forall|m: Move| #[trigger] result@.contains(m) <==> spec_generated_tactical(*old(game_state), m),
        result@.no_duplicates(),
        result@ == generated_list(*old(game_state), true),
        result@ == generated_list(*old(game_state), false).filter(tactical_pred(*old(game_state))),
{
    proof {
        lemma_captures_are_filtered_moves(*game_state);
    }
    let mut result: Vec<Move> = Vec::new();
    generate_all(game_state, true, &mut result);
    result
}

/// A legal move with its capture flag, for move counting.
#[derive(Clone, Copy, Debug)]
pub struct PerftMove {
    pub from: (usize, usize),
    pub to: (usize, usize),
    pub is_capture: bool,
    pub promo: Option<char>,
}

/// The moves of a list of counted moves, without their capture flags.
pub open spec fn perft_moves(s: Seq<PerftMove>) -> Seq<Move> {
    s.map_values(|pm: PerftMove| (pm.from, pm.to, pm.promo))
}

/// Fills `out` with the legal moves of the side to move, in generation order,
/// each with its capture flag.
pub fn find_all_valid_moves_into_perft(game_state: &mut GameState, out: &mut Vec<PerftMove>)
    requires
        old(game_state).wf(),
    ensures
        *final(game_state) == *old(game_state),
        forall|m: Move| #[trigger] perft_moves(final(out)@).contains(m) <==> spec_generated(*old(game_state), m),
        perft_moves(final(out)@).no_duplicates(),
        perft_moves(final(out)@) == generated_list(*old(game_state), false),
        forall|i: int| 0 <= i < final(out)@.len() ==> #[trigger] final(out)@[i].is_capture
            == (old(game_state).board.at(final(out)@[i].to.0 as int, final(out)@[i].to.1 as int) is Some
                || (old(game_state).board.at(final(out)@[i].from.0 as int, final(out)@[i].from.1 as int) matches Some(p)
                    && p.piece_type == PieceType::Pawn && old(game_state).en_passant == Some(final(out)@[i].to))),
{
    let ghost g = *game_state;
    out.clear();
    let moves = find_all_valid_moves(game_state);
    let mut i: usize = 0;
    while i < moves.len()
        invariant
            *game_state == g,
            g.wf(),
            i <= moves.len(),
            out@.len() == i,
            forall|m: Move| #[trigger] moves@.contains(m) <==> spec_generated(g, m),
            moves@.no_duplicates(),
            perft_moves(out@) =~= moves@.take(i as int),
            forall|k: int| 0 <= k < i ==> #[trigger] out@[k].is_capture
                == (g.board.at(out@[k].to.0 as int, out@[k].to.1 as int) is Some
                    || (g.board.at(out@[k].from.0 as int, out@[k].from.1 as int) matches Some(p)
                        && p.piece_type == PieceType::Pawn && g.en_passant == Some(out@[k].to))),
        decreases moves.len() - i,
    {
        let (from, to, promo) = moves[i];
        assert(moves@.contains(moves@[i as int]));
        let is_capture = game_state.board.get(to.0, to.1).is_some()
            || (match game_state.board.get(from.0, from.1) {
                Some(p) => p.piece_type == PieceType::Pawn,
                None => false,
            } && opt_square_is(game_state.en_passant, to));
        out.push(PerftMove { from, to, is_capture, promo });
        i = i + 1;
    }
    assert(perft_moves(out@) =~= moves@);
}


/// The square `j` steps from `k` toward `c`.
pub open spec fn line_step(k: (usize, usize), c: (usize, usize), j: int) -> (int, int) {
    (k.0 + scale(j, sgn(c.0 - k.0)), k.1 + scale(j, sgn(c.1 - k.1)))
}

/// `t` lies strictly between `k` and `c`, which share a rank, file or diagonal.
pub open spec fn on_line_between(k: (usize, usize), c: (usize, usize), t: (usize, usize)) -> bool {
    &&& line_aligned(k.0 as int, k.1 as int, c.0 as int, c.1 as int)
    &&& exists|j: int| 1 <= j < line_len(k.0 as int, k.1 as int, c.0 as int, c.1 as int)
        && #[trigger] line_step(k, c, j) == (t.0 as int, t.1 as int)
}

/// The squares strictly between the king and a checker on a line (empty
/// for a checker that is not on a line with the king).
fn checker_line_squares(king: (usize, usize), checker: (usize, usize)) -> (squares: Vec<(usize, usize)>)
    requires
        on_board(king),
        on_board(checker),
    ensures
        forall|i: int| 0 <= i < squares@.len() ==> on_board(#[trigger] squares@[i]),
        forall|t: (usize, usize)| #[trigger] squares@.contains(t) <==> on_line_between(king, checker, t),
{
    let mut squares: Vec<(usize, usize)> = Vec::new();
    let dr = checker.0 as i64 - king.0 as i64;
    let dc = checker.1 as i64 - king.1 as i64;
    let step_r: i64 = if dr > 0 { 1 } else if dr < 0 { -1 } else { 0 };
    let step_c: i64 = if dc > 0 { 1 } else if dc < 0 { -1 } else { 0 };
    let adr = if dr >= 0 { dr } else { -dr };
    let adc = if dc >= 0 { dc } else { -dc };
    if (dr == 0 || dc == 0 || adr == adc) && (dr != 0 || dc != 0) {
        let n: i64 = if adr >= adc { adr } else { adc };
        let mut k: i64 = 1;
        while k < n
            invariant
                1 <= k,
                n <= 7,
                adr <= n,
                adc <= n,
                dr == checker.0 - king.0,
                dc == checker.1 - king.1,
                on_board(king),
                on_board(checker),
                step_r == sgn(dr as int),
                step_c == sgn(dc as int),
                adr == iabs(dr as int),
                adc == iabs(dc as int),
                dr == 0 || dc == 0 || adr == adc,
                n == adr || n == adc,
                dr != 0 ==> adr == n,
                dc != 0 ==> adc == n,
                n == line_len(king.0 as int, king.1 as int, checker.0 as int, checker.1 as int),
                line_aligned(king.0 as int, king.1 as int, checker.0 as int, checker.1 as int),
                k <= n,
                forall|i: int| 0 <= i < squares@.len() ==> on_board(#[trigger] squares@[i]),
                forall|t: (usize, usize)| #[trigger] squares@.contains(t) <==> exists|j: int| 1 <= j < k
                    && #[trigger] line_step(king, checker, j) == (t.0 as int, t.1 as int),
            decreases n - k,
        {
            let r = king.0 as i64 + step_r * k;
            let c = king.1 as i64 + step_c * k;
            assert(0 <= r < 8 && 0 <= c < 8) by (nonlinear_arith)
                requires
                    r == king.0 + step_r * k,
                    c == king.1 + step_c * k,
                    1 <= k < n,
                    step_r == 1 ==> dr == n,
                    step_r == -1 ==> dr == -n,
                    step_r == 0 || step_r == 1 || step_r == -1,
                    step_c == 1 ==> dc == n,
                    step_c == -1 ==> dc == -n,
                    step_c == 0 || step_c == 1 || step_c == -1,
                    dr == checker.0 - king.0,
                    dc == checker.1 - king.1,
                    king.0 < 8,
                    king.1 < 8,
                    checker.0 < 8,
                    checker.1 < 8,
            ;
            let ghost before = squares@;
            let sq = (r as usize, c as usize);
            assert(line_step(king, checker, k as int) == (sq.0 as int, sq.1 as int)) by {
                if step_r == 1 { assert(r == king.0 + k); } else if step_r == -1 { assert(r == king.0 - k); } else { assert(r == king.0); }
                if step_c == 1 { assert(c == king.1 + k); } else if step_c == -1 { assert(c == king.1 - k); } else { assert(c == king.1); }
            }
            squares.push(sq);
            assert forall|t: (usize, usize)| #[trigger] squares@.contains(t) <==> exists|j: int| 1 <= j < k + 1
                && #[trigger] line_step(king, checker, j) == (t.0 as int, t.1 as int) by {
                lemma_push_contains(before, sq, t);
                if t == sq {
                    assert(line_step(king, checker, k as int) == (t.0 as int, t.1 as int));
                }
                if exists|j: int| 1 <= j < k + 1 && #[trigger] line_step(king, checker, j) == (t.0 as int, t.1 as int) {
                    let j = choose|j: int| 1 <= j < k + 1 && #[trigger] line_step(king, checker, j) == (t.0 as int, t.1 as int);
                    if j == k {
                        assert(t == sq);
                    } else {
                        assert(before.contains(t));
                    }
                }
            }
            k = k + 1;
        }
    }
    squares
}

fn vec_contains_square(v: &Vec<(usize, usize)>, sq: (usize, usize)) -> (b: bool)
    ensures
        b == v@.contains(sq),
{
    let mut i: usize = 0;
    while i < v.len()
        invariant
            i <= v.len(),
            forall|k: int| 0 <= k < i ==> v@[k] != sq,
        decreases v.len() - i,
    {
        if same_sq(v[i], sq) {
            assert(v@[i as int] == sq);
            return true;
        }
        i = i + 1;
    }
    false
}

fn same_sq(a: (usize, usize), b: (usize, usize)) -> (e: bool)
    ensures
        e == (a == b),
{
    a.0 == b.0 && a.1 == b.1
}

/// `(r, c)` holds a piece of the other side attacking the king of the side
/// to move.
pub open spec fn checker_at(g: GameState, r: int, c: int) -> bool {
    let k = g.board.king_loc(g.active_color);
    &&& 0 <= r < 8
    &&& 0 <= c < 8
    &&& g.board.at(r, c) matches Some(p)
    &&& p.color != g.active_color
    &&& g.board.piece_attacks(p, r, c, k.0 as int, k.1 as int)
}

/// The piece on `cs` is the only one giving check.
pub open spec fn sole_checker(g: GameState, cs: (usize, usize)) -> bool {
    &&& checker_at(g, cs.0 as int, cs.1 as int)
    &&& forall|r: int, c: int| #[trigger] checker_at(g, r, c) ==> r == cs.0 && c == cs.1
}

pub open spec fn is_slider(t: PieceType) -> bool {
    t == PieceType::Bishop || t == PieceType::Rook || t == PieceType::Queen
}

/// The target `t` answers the single check by the piece on `cs`: it is
/// the checker's square, or, against a slider, a square between the checker
/// and the king.
pub open spec fn answers_check(g: GameState, cs: (usize, usize), t: (usize, usize)) -> bool {
    t == cs || (is_slider(g.board.at(cs.0 as int, cs.1 as int).unwrap().piece_type)
        && on_line_between(g.board.king_loc(g.active_color), cs, t))
}

/// The targets of `ts`, in order, that answer the check by the piece on `cs`.
pub open spec fn answer_targets(g: GameState, cs: (usize, usize), ts: Seq<(usize, usize)>) -> Seq<(usize, usize)>
    decreases ts.len(),
{
    if ts.len() == 0 {
        Seq::empty()
    } else {
        answer_targets(g, cs, ts.drop_last()) + (if answers_check(g, cs, ts.last()) { seq![ts.last()] } else { Seq::empty() })
    }
}

/// The king of the side to move stands on its recorded square.
pub open spec fn king_at_home(g: GameState) -> bool {
    let k = g.board.king_loc(g.active_color);
    g.board.at(k.0 as int, k.1 as int) == Some(Piece { piece_type: PieceType::King, color: g.active_color })
}

/// A legal move that answers the single check by the piece on `cs`, made by
/// a piece other than the king.
pub open spec fn block_or_capture(g: GameState, cs: (usize, usize), m: Move) -> bool {
    &&& spec_generated(g, m)
    &&& g.board.at(m.0.0 as int, m.0.1 as int) matches Some(p)
    &&& p.piece_type != PieceType::King
    &&& answers_check(g, cs, m.1)
}

/// The replies the evasion generator gives in check: the legal king moves,
/// and against a single checker the legal moves of other pieces that take
/// it or (against a slider) stand between it and the king, promotions
/// included.
pub open spec fn spec_evasion(g: GameState, m: Move) -> bool {
    ||| (king_at_home(g) && m.0 == g.board.king_loc(g.active_color) && spec_generated(g, m))
    ||| exists|cs: (usize, usize)| #[trigger] sole_checker(g, cs) && block_or_capture(g, cs, m)
}

/// The replies to the single check by the piece on `cs` made from square
/// `(r, c)` by a piece of the side to move other than its king: the
/// generator's moves toward the targets that answer the check.
pub open spec fn block_square(g: GameState, cs: (usize, usize), r: int, c: int) -> Seq<Move> {
    match g.board.at(r, c) {
        Some(p) => if p.color == g.active_color && p.piece_type != PieceType::King {
            moves_to_targets(g, (r as usize, c as usize), p,
                answer_targets(g, cs, target_seq(p.piece_type, (r as usize, c as usize), p.color)), false)
        } else {
            Seq::empty()
        },
        None => Seq::empty(),
    }
}

pub open spec fn block_row(g: GameState, cs: (usize, usize), r: int, c: int) -> Seq<Move>
    decreases c,
{
    if c <= 0 { Seq::empty() } else { block_row(g, cs, r, c - 1) + block_square(g, cs, r, c - 1) }
}

pub open spec fn block_rows(g: GameState, cs: (usize, usize), r: int) -> Seq<Move>
    decreases r,
{
    if r <= 0 { Seq::empty() } else { block_rows(g, cs, r - 1) + block_row(g, cs, r - 1, 8) }
}

/// The list the evasion generator gives in check: the generator's moves of
/// the king from its square, target by target, then against a single
/// checker the captures and interpositions, square by square and target by
/// target.
pub open spec fn evasion_list(g: GameState) -> Seq<Move> {
    let k = g.board.king_loc(g.active_color);
    let kings = if king_at_home(g) {
        moves_to_targets(g, k, Piece { piece_type: PieceType::King, color: g.active_color },
            target_seq(PieceType::King, k, g.active_color), false)
    } else {
        Seq::empty()
    };
    if exists|cs: (usize, usize)| #[trigger] sole_checker(g, cs) {
        kings + block_rows(g, choose|cs: (usize, usize)| #[trigger] sole_checker(g, cs), 8)
    } else {
        kings
    }
}

/// The square's place in row-major order.
pub open spec fn sq_index(sq: (usize, usize)) -> int {
    sq.0 * 8 + sq.1
}

/// Legal replies to a check: king moves, and with a single checker, captures
/// of the checker or interpositions on its line (promotions included). Out
/// of check, or with an en-passant square set, all legal moves.
pub fn find_all_evasion_moves(game_state: &mut GameState) -> (result: Vec<Move>)
    requires
        old(game_state).wf(),
    ensures
        *final(game_state) == *old(game_state),
        (!old(game_state).board.in_check(old(game_state).active_color) || old(game_state).en_passant is Some) ==>
            forall|m: Move| #[trigger] result@.contains(m) <==> spec_generated(*old(game_state), m),
        (!old(game_state).board.in_check(old(game_state).active_color) || old(game_state).en_passant is Some) ==>
            result@ == generated_list(*old(game_state), false),
        old(game_state).board.in_check(old(game_state).active_color) && old(game_state).en_passant is None ==>
            forall|m: Move| #[trigger] result@.contains(m) <==> spec_evasion(*old(game_state), m),
        old(game_state).board.in_check(old(game_state).active_color) && old(game_state).en_passant is None ==>
            result@ == evasion_list(*old(game_state)),
        forall|m: Move| #[trigger] result@.contains(m) ==> spec_generated(*old(game_state), m),
        result@.no_duplicates(),
{
    let ghost g = *game_state;
    let active_color = game_state.active_color;
    if !game_state.board.is_side_in_check(active_color) {
        return find_all_valid_moves(game_state);
    }
    if game_state.en_passant.is_some() {
        return find_all_valid_moves(game_state);
    }
    let king_sq = game_state.board.get_king_location(active_color);
    let mut checkers: Vec<((usize, usize), PieceType)> = Vec::new();
    let mut r: usize = 0;
    while r < 8
        invariant
            *game_state == g,
            g.wf(),
            r <= 8,
            on_board(king_sq),
            king_sq == g.board.king_loc(g.active_color),
            active_color == g.active_color,
            forall|i: int| 0 <= i < checkers@.len() ==> on_board(#[trigger] checkers@[i].0),
            forall|i: int| 0 <= i < checkers@.len() ==> checker_at(g, #[trigger] checkers@[i].0.0 as int, checkers@[i].0.1 as int)
                && checkers@[i].1 == g.board.at(checkers@[i].0.0 as int, checkers@[i].0.1 as int).unwrap().piece_type
                && sq_index(checkers@[i].0) < 8 * r,
            forall|i: int, j: int| 0 <= i < j < checkers@.len() ==> sq_index(#[trigger] checkers@[i].0) < sq_index(#[trigger] checkers@[j].0),
            forall|r2: int, c2: int| #[trigger] checker_at(g, r2, c2) && r2 < r ==>
                exists|i: int| 0 <= i < checkers@.len() && #[trigger] checkers@[i].0 == (r2 as usize, c2 as usize),
        decreases 8 - r,
    {
        let mut c: usize = 0;
        while c < 8
            invariant
                *game_state == g,
                g.wf(),
                r < 8,
                c <= 8,
                on_board(king_sq),
                king_sq == g.board.king_loc(g.active_color),
                active_color == g.active_color,
                forall|i: int| 0 <= i < checkers@.len() ==> on_board(#[trigger] checkers@[i].0),
                forall|i: int| 0 <= i < checkers@.len() ==> checker_at(g, #[trigger] checkers@[i].0.0 as int, checkers@[i].0.1 as int)
                    && checkers@[i].1 == g.board.at(checkers@[i].0.0 as int, checkers@[i].0.1 as int).unwrap().piece_type
                    && sq_index(checkers@[i].0) < 8 * r + c,
                forall|i: int, j: int| 0 <= i < j < checkers@.len() ==> sq_index(#[trigger] checkers@[i].0) < sq_index(#[trigger] checkers@[j].0),
                forall|r2: int, c2: int| #[trigger] checker_at(g, r2, c2) && (r2 < r || (r2 == r && c2 < c)) ==>
                    exists|i: int| 0 <= i < checkers@.len() && #[trigger] checkers@[i].0 == (r2 as usize, c2 as usize),
            decreases 8 - c,
        {
            let ghost before = checkers@;
            if let Some(p) = game_state.board.get(r, c) {
                if p.color != active_color && game_state.board.piece_attacks_square(p, (r, c), king_sq) {
                    checkers.push(((r, c), p.piece_type));
                    proof {
                        assert(checkers@[before.len() as int] == ((r, c), p.piece_type));
                        assert forall|r2: int, c2: int| #[trigger] checker_at(g, r2, c2) && (r2 < r || (r2 == r && c2 < c + 1)) implies
                            exists|i: int| 0 <= i < checkers@.len() && #[trigger] checkers@[i].0 == (r2 as usize, c2 as usize) by {
                            if r2 == r && c2 == c {
                                assert(checkers@[before.len() as int].0 == (r2 as usize, c2 as usize));
                            } else {
                                let i = choose|i: int| 0 <= i < before.len() && #[trigger] before[i].0 == (r2 as usize, c2 as usize);
                                assert(checkers@[i] == before[i]);
                            }
                        }
                    }
                }
            }
            c = c + 1;
        }
        r = r + 1;
    }
    let ghost kp_ok = king_at_home(g);
    let mut result: Vec<Move> = Vec::new();
    let mut targets: Vec<(usize, usize)> = Vec::new();
    let king_from = king_sq;
    let ghost kings = if kp_ok {
        moves_to_targets(g, king_sq, Piece { piece_type: PieceType::King, color: active_color },
            target_seq(PieceType::King, king_sq, active_color), false)
    } else {
        Seq::<Move>::empty()
    };
    match game_state.board.get(king_from.0, king_from.1) {
        Some(kp) => {
            if kp.color == active_color && kp.piece_type == PieceType::King {
                generate_piece_targets_into(PieceType::King, king_from, active_color, &mut targets);
                generate_from_square(game_state, king_from, kp, &targets, false, &mut result);
                assert forall|m: Move| m.0 == king_from && spec_generated(g, m) implies #[trigger] targets@.contains(m.1) by {}
            }
        },
        None => {},
    }
    assert(result@ == kings);
    assert forall|m: Move| #[trigger] result@.contains(m) <==> (kp_ok && m.0 == king_sq && spec_generated(g, m)) by {}
    if checkers.len() != 1 {
        proof {
            assert(!exists|cs: (usize, usize)| #[trigger] sole_checker(g, cs)) by {
                if exists|cs: (usize, usize)| #[trigger] sole_checker(g, cs) {
                    let cs = choose|cs: (usize, usize)| #[trigger] sole_checker(g, cs);
                    let i = choose|i: int| 0 <= i < checkers@.len() && #[trigger] checkers@[i].0 == (cs.0 as usize, cs.1 as usize);
                    assert(checkers@.len() > 1);
                    let j: int = if i == 0 { 1 } else { 0 };
                    assert(checker_at(g, checkers@[j].0.0 as int, checkers@[j].0.1 as int));
                    if i < j {
                        assert(sq_index(checkers@[i].0) < sq_index(checkers@[j].0));
                    } else {
                        assert(sq_index(checkers@[j].0) < sq_index(checkers@[i].0));
                    }
                }
            }
            assert forall|m: Move| #[trigger] result@.contains(m) <==> spec_evasion(g, m) by {}
        }
        return result;
    }
    assert(checkers@.len() > 0);
    let checker_sq = checkers[0].0;
    let checker_pt = checkers[0].1;
    proof {
        assert(checker_at(g, checker_sq.0 as int, checker_sq.1 as int));
        assert forall|r2: int, c2: int| #[trigger] checker_at(g, r2, c2) implies r2 == checker_sq.0 && c2 == checker_sq.1 by {
            let i = choose|i: int| 0 <= i < checkers@.len() && #[trigger] checkers@[i].0 == (r2 as usize, c2 as usize);
            assert(i == 0);
        }
        assert(sole_checker(g, checker_sq));
    }
    let mut block_squares: Vec<(usize, usize)> = Vec::new();
    if checker_pt == PieceType::Bishop || checker_pt == PieceType::Rook || checker_pt == PieceType::Queen {
        block_squares = checker_line_squares(king_sq, checker_sq);
    }
    let ghost base = result@;
    assert(base + block_rows(g, checker_sq, 0) =~= base);
    let mut r2: usize = 0;
    while r2 < 8
        invariant
            *game_state == g,
            g.wf(),
            active_color == g.active_color,
            r2 <= 8,
            king_sq == g.board.king_loc(g.active_color),
            on_board(checker_sq),
            checker_pt == g.board.at(checker_sq.0 as int, checker_sq.1 as int).unwrap().piece_type,
            forall|t: (usize, usize)| #[trigger] block_squares@.contains(t) <==> (is_slider(checker_pt) && on_line_between(king_sq, checker_sq, t)),
            forall|m: Move| #[trigger] base.contains(m) <==> (kp_ok && m.0 == king_sq && spec_generated(g, m)),
            kp_ok == king_at_home(g),
            forall|m: Move| #[trigger] result@.contains(m) <==> base.contains(m)
                || (m.0.0 < r2 && block_or_capture(g, checker_sq, m)),
            forall|m: Move| #[trigger] result@.contains(m) ==> (kp_ok && m.0 == king_sq) || m.0.0 < r2,
            result@.no_duplicates(),
            result@ == base + block_rows(g, checker_sq, r2 as int),
        decreases 8 - r2,
    {
        let mut c2: usize = 0;
        while c2 < 8
            invariant
                *game_state == g,
                g.wf(),
                active_color == g.active_color,
                r2 < 8,
                c2 <= 8,
                king_sq == g.board.king_loc(g.active_color),
                on_board(checker_sq),
                checker_pt == g.board.at(checker_sq.0 as int, checker_sq.1 as int).unwrap().piece_type,
                forall|t: (usize, usize)| #[trigger] block_squares@.contains(t) <==> (is_slider(checker_pt) && on_line_between(king_sq, checker_sq, t)),
                forall|m: Move| #[trigger] base.contains(m) <==> (kp_ok && m.0 == king_sq && spec_generated(g, m)),
                kp_ok == king_at_home(g),
                forall|m: Move| #[trigger] result@.contains(m) <==> base.contains(m)
                    || (sq_before(m.0, r2 as int, c2 as int) && block_or_capture(g, checker_sq, m)),
                forall|m: Move| #[trigger] result@.contains(m) ==> (kp_ok && m.0 == king_sq) || sq_before(m.0, r2 as int, c2 as int),
                result@.no_duplicates(),
                result@ == base + block_rows(g, checker_sq, r2 as int) + block_row(g, checker_sq, r2 as int, c2 as int),
            decreases 8 - c2,
        {
            let ghost sq_base = result@;
            if let Some(p) = game_state.board.get(r2, c2) {
                if p.color == active_color && p.piece_type != PieceType::King {
                    let from = (r2, c2);
                    assert(g.board.at(r2 as int, c2 as int) == Some(p));
                    assert forall|m: Move| #[trigger] result@.contains(m) implies m.0 != from by {
                        if m.0 == from {
                            assert(!sq_before(m.0, r2 as int, c2 as int));
                            assert(kp_ok && m.0 == king_sq);
                            assert(g.board.at(king_sq.0 as int, king_sq.1 as int) == Some(p));
                        }
                    }
                    generate_piece_targets_into(p.piece_type, from, active_color, &mut targets);
                    let mut btargets: Vec<(usize, usize)> = Vec::new();
                    let mut i: usize = 0;
                    while i < targets.len()
                        invariant
                            i <= targets@.len(),
                            targets@ == target_seq(p.piece_type, from, p.color),
                            targets@.no_duplicates(),
                            forall|t: (usize, usize)| #[trigger] targets@.contains(t) <==> spec_is_target(p.piece_type, from.0 as int, from.1 as int, p.color, t.0 as int, t.1 as int),
                            king_sq == g.board.king_loc(g.active_color),
                            checker_pt == g.board.at(checker_sq.0 as int, checker_sq.1 as int).unwrap().piece_type,
                            forall|t: (usize, usize)| #[trigger] block_squares@.contains(t) <==> (is_slider(checker_pt) && on_line_between(king_sq, checker_sq, t)),
                            btargets@ == answer_targets(g, checker_sq, targets@.take(i as int)),
                            btargets@.no_duplicates(),
                            forall|t: (usize, usize)| #[trigger] btargets@.contains(t) <==> (targets@.take(i as int).contains(t) && answers_check(g, checker_sq, t)),
                        decreases targets@.len() - i,
                    {
                        let to = targets[i];
                        let ghost before_b = btargets@;
                        proof {
                            assert(targets@.take(i + 1) =~= targets@.take(i as int).push(to));
                            assert(!targets@.take(i as int).contains(to)) by {
                                if targets@.take(i as int).contains(to) {
                                    let k = choose|k: int| 0 <= k < i && targets@.take(i as int)[k] == to;
                                    assert(targets@[k] == targets@[i as int]);
                                }
                            }
                        }
                        if same_sq(to, checker_sq) || vec_contains_square(&block_squares, to) {
                            proof {
                                lemma_push_no_duplicates(before_b, to);
                            }
                            btargets.push(to);
                        }
                        proof {
                            let ti = targets@.take(i + 1);
                            assert(ti.drop_last() =~= targets@.take(i as int));
                            assert(ti.last() == to);
                            assert(btargets@ =~= answer_targets(g, checker_sq, ti));
                            assert forall|t: (usize, usize)| #[trigger] btargets@.contains(t) <==> (ti.contains(t) && answers_check(g, checker_sq, t)) by {
                                lemma_push_contains(targets@.take(i as int), to, t);
                                lemma_push_contains(before_b, to, t);
                            }
                        }
                        i = i + 1;
                    }
                    proof {
                        assert(targets@.take(targets@.len() as int) =~= targets@);
                    }
                    generate_from_square(game_state, from, p, &btargets, false, &mut result);
                    proof {
                        assert forall|m: Move| #[trigger] result@.contains(m) <==> base.contains(m)
                            || (sq_before(m.0, r2 as int, c2 + 1) && block_or_capture(g, checker_sq, m)) by {
                            if m.0 == from && spec_generated(g, m) {
                                assert(targets@.contains(m.1));
                            }
                        }
                    }
                }
            }
            proof {
                assert(result@ =~= sq_base + block_square(g, checker_sq, r2 as int, c2 as int));
                assert(result@ =~= base + block_rows(g, checker_sq, r2 as int) + block_row(g, checker_sq, r2 as int, c2 + 1));
                assert forall|m: Move| #[trigger] result@.contains(m) <==> base.contains(m)
                    || (sq_before(m.0, r2 as int, c2 + 1) && block_or_capture(g, checker_sq, m)) by {
                    if m.0 == (r2, c2) && block_or_capture(g, checker_sq, m) {
                        assert(g.board.at(r2 as int, c2 as int) is Some);
                    }
                }
            }
            c2 = c2 + 1;
        }
        proof {
            assert(result@ =~= base + block_rows(g, checker_sq, r2 + 1));
            assert forall|m: Move| #[trigger] result@.contains(m) <==> base.contains(m)
                || (m.0.0 < r2 + 1 && block_or_capture(g, checker_sq, m)) by {
                if block_or_capture(g, checker_sq, m) {
                    assert(m.0.1 < 8);
                }
            }
        }
        r2 = r2 + 1;
    }
    proof {
        assert forall|m: Move| #[trigger] result@.contains(m) <==> spec_evasion(g, m) by {
            if exists|cs: (usize, usize)| #[trigger] sole_checker(g, cs) && block_or_capture(g, cs, m) {
                let cs = choose|cs: (usize, usize)| #[trigger] sole_checker(g, cs) && block_or_capture(g, cs, m);
                assert(cs == checker_sq);
            }
            if block_or_capture(g, checker_sq, m) {
                assert(sole_checker(g, checker_sq));
                assert(m.0.0 < 8);
            }
        }
        let cs = choose|cs: (usize, usize)| #[trigger] sole_checker(g, cs);
        assert(cs == checker_sq);
        assert(result@ == evasion_list(g));
    }
    result
}

} // verus!
