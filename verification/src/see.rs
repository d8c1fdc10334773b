//! Static exchange evaluation: who attacks a square most cheaply, and what
//! the capture sequence on a square is worth.
use vstd::prelude::*;
use crate::pieces::{Color, Piece, PieceType, spec_opposite, spec_piece_value, piece_value_cp, opposite_color};
use crate::board::{Board, on_board, iabs, sgn, scale, line_len, line_aligned};

verus! {

/// The square `k` steps from `(fr, fc)` in direction `(dr, dc)`.
pub open spec fn ray_r(fr: int, dr: int, k: int) -> int {
    fr + scale(k, dr)
}

/// The squares 1..k-1 along the ray lie on the board and are empty.
pub open spec fn ray_empty_before(b: Board, fr: int, fc: int, dr: int, dc: int, k: int) -> bool {
    forall|j: int| 1 <= j < k ==> #[trigger] b.at(ray_r(fr, dr, j), ray_r(fc, dc, j)) is None
        && 0 <= ray_r(fr, dr, j) < 8 && 0 <= ray_r(fc, dc, j) < 8
}

/// The first piece met along the ray, at step `k`, is of `color` and one of `types`.
pub open spec fn ray_hit(b: Board, fr: int, fc: int, dr: int, dc: int, k: int, color: Color, types: Seq<PieceType>) -> bool {
    &&& k >= 1
    &&& 0 <= ray_r(fr, dr, k) < 8
    &&& 0 <= ray_r(fc, dc, k) < 8
    &&& ray_empty_before(b, fr, fc, dr, dc, k)
    &&& b.at(ray_r(fr, dr, k), ray_r(fc, dc, k)) matches Some(p)
    &&& p.color == color
    &&& types.contains(p.piece_type)
}

fn contains_type(types: &[PieceType], t: PieceType) -> (b: bool)
    ensures
        b == types@.contains(t),
{
    let mut i: usize = 0;
    while i < types.len()
        invariant
            i <= types.len(),
            forall|k: int| 0 <= k < i ==> types@[k] != t,
        decreases types.len() - i,
    {
        if types[i] == t {
            assert(types@[i as int] == t);
            return true;
        }
        i = i + 1;
    }
    false
}

/// Walks from `from` in direction `(dr, dc)` and returns the first piece
/// met, when it is of `color` and one of `piece_types`.
pub fn scan_ray(board: &Board, from: (usize, usize), dr: i32, dc: i32, color: Color, piece_types: &[PieceType]) -> (res: Option<((usize, usize), Piece)>)
    requires
        on_board(from),
        -1 <= dr <= 1,
        -1 <= dc <= 1,
        dr != 0 || dc != 0,
    ensures
        res matches Some((sq, p)) ==> exists|k: int| #![trigger scale(k, dr as int)] ray_hit(*board, from.0 as int, from.1 as int, dr as int, dc as int, k, color, piece_types@)
            && sq.0 == ray_r(from.0 as int, dr as int, k) && sq.1 == ray_r(from.1 as int, dc as int, k)
            && board.at(sq.0 as int, sq.1 as int) == Some(p),
        res is None ==> forall|k: int| !#[trigger] ray_hit(*board, from.0 as int, from.1 as int, dr as int, dc as int, k, color, piece_types@),
{
    let ghost fr = from.0 as int;
    let ghost fc = from.1 as int;
    let mut r: i32 = from.0 as i32 + dr;
    let mut c: i32 = from.1 as i32 + dc;
    let mut k: i32 = 1;
    while 0 <= r && r < 8 && 0 <= c && c < 8
        invariant
            on_board(from),
            fr == from.0,
            fc == from.1,
            -1 <= dr <= 1,
            -1 <= dc <= 1,
            dr != 0 || dc != 0,
            1 <= k <= 8,
            r == ray_r(fr, dr as int, k as int),
            c == ray_r(fc, dc as int, k as int),
            ray_empty_before(*board, fr, fc, dr as int, dc as int, k as int),
        decreases 8 - k,
    {
        let (ur, uc) = (r as usize, c as usize);
        if let Some(p) = board.get(ur, uc) {
            if p.color == color && contains_type(piece_types, p.piece_type) {
                assert(ray_hit(*board, fr, fc, dr as int, dc as int, k as int, color, piece_types@));
                return Some(((ur, uc), p));
            }
            assert forall|k2: int| !#[trigger] ray_hit(*board, fr, fc, dr as int, dc as int, k2, color, piece_types@) by {
                if k2 > k {
                    assert(board.at(ray_r(fr, dr as int, k as int), ray_r(fc, dc as int, k as int)) is Some);
                } else if 1 <= k2 && k2 < k {
                    assert(board.at(ray_r(fr, dr as int, k2), ray_r(fc, dc as int, k2)) is None);
                }
            }
            return None;
        }
        assert(k <= 7);
        r = r + dr;
        c = c + dc;
        k = k + 1;
        assert(ray_empty_before(*board, fr, fc, dr as int, dc as int, k as int)) by {
            assert forall|j: int| 1 <= j < k implies #[trigger] board.at(ray_r(fr, dr as int, j), ray_r(fc, dc as int, j)) is None
                && 0 <= ray_r(fr, dr as int, j) < 8 && 0 <= ray_r(fc, dc as int, j) < 8 by {
                if j < k - 1 {
                    assert(board.at(ray_r(fr, dr as int, j), ray_r(fc, dc as int, j)) is None);
                }
            }
        }
    }
    assert forall|k2: int| !#[trigger] ray_hit(*board, fr, fc, dr as int, dc as int, k2, color, piece_types@) by {
        if k2 >= k && ray_hit(*board, fr, fc, dr as int, dc as int, k2, color, piece_types@) {
            if k2 > k {
                assert(0 <= ray_r(fr, dr as int, k as int) < 8 && 0 <= ray_r(fc, dc as int, k as int) < 8);
            }
        }
    }
    None
}


/// The value used to rank attackers: the king counts as 10000.
pub open spec fn att_val(p: Piece) -> int {
    if p.piece_type == PieceType::King { 10000 } else { spec_piece_value(p.piece_type) as int }
}

/// The squares on a line between `(r, c)` and `(tr, tc)`, seen from either end.
pub proof fn lemma_line_coords(r: int, c: int, tr: int, tc: int, j: int)
    requires
        line_aligned(r, c, tr, tc),
    ensures
        ray_r(tr, sgn(r - tr), line_len(r, c, tr, tc)) == r,
        ray_r(tc, sgn(c - tc), line_len(r, c, tr, tc)) == c,
        ray_r(tr, sgn(r - tr), j) == r + scale(line_len(r, c, tr, tc) - j, sgn(tr - r)),
        ray_r(tc, sgn(c - tc), j) == c + scale(line_len(r, c, tr, tc) - j, sgn(tc - c)),
{
}

pub open spec fn slider_types(diagonal: bool) -> Seq<PieceType> {
    if diagonal { seq![PieceType::Bishop, PieceType::Queen] } else { seq![PieceType::Rook, PieceType::Queen] }
}

/// A slider attacking `(tr, tc)` is the first piece on the ray from
/// `(tr, tc)` towards it.
pub proof fn lemma_slider_attack_ray_hit(b: Board, r: int, c: int, tr: int, tc: int, color: Color)
    requires
        0 <= r < 8,
        0 <= c < 8,
        0 <= tr < 8,
        0 <= tc < 8,
        b.attacker_at(r, c, tr, tc, color),
        b.at(r, c).unwrap().piece_type == PieceType::Bishop || b.at(r, c).unwrap().piece_type == PieceType::Rook
            || b.at(r, c).unwrap().piece_type == PieceType::Queen,
    ensures
        ray_hit(b, tr, tc, sgn(r - tr), sgn(c - tc), line_len(r, c, tr, tc), color,
            slider_types(r != tr && c != tc)),
        (b.at(r, c).unwrap().piece_type == PieceType::Bishop ==> r != tr && c != tc),
        (b.at(r, c).unwrap().piece_type == PieceType::Rook ==> r == tr || c == tc),
{
    let n = line_len(r, c, tr, tc);
    let dr = sgn(r - tr);
    let dc = sgn(c - tc);
    lemma_line_coords(r, c, tr, tc, n);
    assert forall|j: int| 1 <= j < n implies #[trigger] b.at(ray_r(tr, dr, j), ray_r(tc, dc, j)) is None
        && 0 <= ray_r(tr, dr, j) < 8 && 0 <= ray_r(tc, dc, j) < 8 by {
        lemma_line_coords(r, c, tr, tc, j);
        assert(b.ray_step_empty(r, c, tr, tc, n - j));
    }
    let p = b.at(r, c).unwrap();
    assert(slider_types(r != tr && c != tc).contains(p.piece_type)) by {
        if r != tr && c != tc {
            if p.piece_type == PieceType::Bishop { assert(slider_types(true)[0] == p.piece_type); }
            else { assert(slider_types(true)[1] == p.piece_type); }
        } else {
            if p.piece_type == PieceType::Rook { assert(slider_types(false)[0] == p.piece_type); }
            else { assert(slider_types(false)[1] == p.piece_type); }
        }
    }
}

/// The first piece on a ray from `(tr, tc)`, if it is a slider moving along
/// that kind of line, attacks `(tr, tc)`.
pub proof fn lemma_ray_hit_attacks(b: Board, tr: int, tc: int, dr: int, dc: int, k: int, color: Color)
    requires
        0 <= tr < 8,
        0 <= tc < 8,
        -1 <= dr <= 1,
        -1 <= dc <= 1,
        dr != 0 || dc != 0,
        ray_hit(b, tr, tc, dr, dc, k, color, slider_types(dr != 0 && dc != 0)),
    ensures
        b.attacker_at(ray_r(tr, dr, k), ray_r(tc, dc, k), tr, tc, color),
{
    let r = ray_r(tr, dr, k);
    let c = ray_r(tc, dc, k);
    let p = b.at(r, c).unwrap();
    assert(line_aligned(r, c, tr, tc));
    assert(line_len(r, c, tr, tc) == k);
    assert(sgn(r - tr) == dr);
    assert(sgn(c - tc) == dc);
    assert forall|j: int| 1 <= j < line_len(r, c, tr, tc) implies #[trigger] b.ray_step_empty(r, c, tr, tc, j) by {
        lemma_line_coords(r, c, tr, tc, k - j);
        assert(b.at(ray_r(tr, dr, k - j), ray_r(tc, dc, k - j)) is None);
    }
    let types = slider_types(dr != 0 && dc != 0);
    assert(types.contains(p.piece_type));
    let i = choose|i: int| 0 <= i < types.len() && types[i] == p.piece_type;
    assert(p.piece_type == PieceType::Bishop || p.piece_type == PieceType::Rook || p.piece_type == PieceType::Queen);
}


pub type Attacker = Option<((usize, usize), Piece)>;

/// The running best attacker is an attacker with value `sv`, and every
/// attacker covered by `cov` is worth at least `sv`.
pub open spec fn good(b: Board, tr: int, tc: int, color: Color, sm: Attacker, sv: i32, cov: spec_fn(int, int, PieceType) -> bool) -> bool {
    &&& (sm matches Some((sq, p)) ==> on_board(sq) && b.at(sq.0 as int, sq.1 as int) == Some(p)
        && b.attacker_at(sq.0 as int, sq.1 as int, tr, tc, color) && sv == att_val(p))
    &&& (sm is None ==> sv == i32::MAX)
    &&& forall|r: int, c: int| 0 <= r < 8 && 0 <= c < 8 && #[trigger] b.attacker_at(r, c, tr, tc, color)
        && cov(r, c, b.at(r, c).unwrap().piece_type) ==> att_val(b.at(r, c).unwrap()) >= sv
}

fn value_for_exchange(p: Piece) -> (v: i32)
    ensures
        v == att_val(p),
{
    if p.piece_type == PieceType::King { 10000 } else { piece_value_cp(p.piece_type) }
}

/// Looks at one square for an attacker of kind `kind`.
fn check_square(
    b: &Board, tr: usize, tc: usize, color: Color, r: i32, c: i32, kind: PieceType,
    sm: &mut Attacker, sv: &mut i32, Ghost(cov): Ghost<spec_fn(int, int, PieceType) -> bool>,
)
    requires
        tr < 8,
        tc < 8,
        -2 <= r < 10,
        -2 <= c < 10,
        good(*b, tr as int, tc as int, color, *old(sm), *old(sv), cov),
        (0 <= r < 8 && 0 <= c < 8) ==> (b.at(r as int, c as int) matches Some(p) && p.color == color && p.piece_type == kind
            ==> b.attacker_at(r as int, c as int, tr as int, tc as int, color)),
    ensures
        good(*b, tr as int, tc as int, color, *final(sm), *final(sv),
            |r2: int, c2: int, t: PieceType| cov(r2, c2, t) || (r2 == r && c2 == c && t == kind)),
        *final(sm) == keep_cheaper(*old(sm), square_probe(*b, color, r as int, c as int, kind)),
{
    if 0 <= r && r < 8 && 0 <= c && c < 8 {
        let (ur, uc) = (r as usize, c as usize);
        if let Some(p) = b.get(ur, uc) {
            if p.color == color && p.piece_type == kind {
                let val = value_for_exchange(p);
                if val < *sv {
                    *sv = val;
                    *sm = Some(((ur, uc), p));
                }
            }
        }
    }
}

/// The first piece met from `(tr, tc)` along `(dr, dc)`, when it is a
/// piece of `color` that moves along such a ray.
fn probe_ray(b: &Board, tr: usize, tc: usize, color: Color, dr: i32, dc: i32) -> (found: Attacker)
    requires
        tr < 8,
        tc < 8,
        -1 <= dr <= 1,
        -1 <= dc <= 1,
        dr != 0 || dc != 0,
    ensures
        found matches Some((sq, p)) ==> exists|k: int| #![trigger scale(k, dr as int)] ray_hit(*b, tr as int, tc as int, dr as int, dc as int, k, color, ray_types(dr as int, dc as int))
            && sq.0 == ray_r(tr as int, dr as int, k) && sq.1 == ray_r(tc as int, dc as int, k)
            && b.at(sq.0 as int, sq.1 as int) == Some(p),
        found is None ==> forall|k: int| !#[trigger] ray_hit(*b, tr as int, tc as int, dr as int, dc as int, k, color, ray_types(dr as int, dc as int)),
        found == ray_probe(*b, tr as int, tc as int, color, dr as int, dc as int),
{
    let diag = dr != 0 && dc != 0;
    let types: [PieceType; 2] = if diag { [PieceType::Bishop, PieceType::Queen] } else { [PieceType::Rook, PieceType::Queen] };
    let ts: &[PieceType] = types.as_slice();
    assert(ts@ == ray_types(dr as int, dc as int)) by {
        assert(ts@ =~= slider_types(diag));
    }
    let found = scan_ray(b, (tr, tc), dr, dc, color, ts);
    proof {
        match found {
            Some((sq, p)) => {
                let k = choose|k: int| #![trigger scale(k, dr as int)] ray_hit(*b, tr as int, tc as int, dr as int, dc as int, k, color, ts@)
                    && sq.0 == ray_r(tr as int, dr as int, k) && sq.1 == ray_r(tc as int, dc as int, k)
                    && b.at(sq.0 as int, sq.1 as int) == Some(p);
                lemma_ray_probe_found(*b, tr as int, tc as int, color, dr as int, dc as int, k);
            },
            None => {
                assert forall|k: int| !#[trigger] ray_hit(*b, tr as int, tc as int, dr as int, dc as int, k, color, ray_types(dr as int, dc as int)) by {
                    assert(!ray_hit(*b, (tr, tc).0 as int, (tr, tc).1 as int, dr as int, dc as int, k, color, ts@));
                }
                lemma_ray_probe_none(*b, tr as int, tc as int, color, dr as int, dc as int);
            },
        }
    }
    found
}

/// Looks along one ray for a slider of the kinds that move along it.
#[verifier::rlimit(40)]
fn check_ray(
    b: &Board, tr: usize, tc: usize, color: Color, dr: i32, dc: i32,
    sm: &mut Attacker, sv: &mut i32, Ghost(cov): Ghost<spec_fn(int, int, PieceType) -> bool>,
)
    requires
        tr < 8,
        tc < 8,
        -1 <= dr <= 1,
        -1 <= dc <= 1,
        dr != 0 || dc != 0,
        good(*b, tr as int, tc as int, color, *old(sm), *old(sv), cov),
    ensures
        good(*b, tr as int, tc as int, color, *final(sm), *final(sv),
            |r2: int, c2: int, t: PieceType| cov(r2, c2, t) || (slider_types(dr != 0 && dc != 0).contains(t)
                && line_aligned(r2, c2, tr as int, tc as int) && sgn(r2 - tr) == dr && sgn(c2 - tc) == dc)),
        *final(sm) == keep_cheaper(*old(sm), ray_probe(*b, tr as int, tc as int, color, dr as int, dc as int)),
{
    let diag = dr != 0 && dc != 0;
    let found = probe_ray(b, tr, tc, color, dr, dc);
    let ghost ts = slider_types(diag);
    assert(ts == ray_types(dr as int, dc as int));

    let ghost gtr = tr as int;
    let ghost gtc = tc as int;
    let ghost newcov = |r2: int, c2: int, t: PieceType| cov(r2, c2, t) || (slider_types(dr != 0 && dc != 0).contains(t)
        && line_aligned(r2, c2, tr as int, tc as int) && sgn(r2 - tr) == dr && sgn(c2 - tc) == dc);
    match found {
        Some((sq, p)) => {
            let ghost k = choose|k: int| #![trigger scale(k, dr as int)] ray_hit(*b, gtr, gtc, dr as int, dc as int, k, color, ts)
                && sq.0 == ray_r(gtr, dr as int, k) && sq.1 == ray_r(gtc, dc as int, k)
                && b.at(sq.0 as int, sq.1 as int) == Some(p);
            proof {
                lemma_ray_hit_attacks(*b, gtr, gtc, dr as int, dc as int, k, color);
            }
            let val = value_for_exchange(p);
            let ghost old_sv = *sv;
            if val < *sv {
                *sv = val;
                *sm = Some((sq, p));
            }
            assert forall|r: int, c: int| 0 <= r < 8 && 0 <= c < 8 && #[trigger] b.attacker_at(r, c, gtr, gtc, color)
                && newcov(r, c, b.at(r, c).unwrap().piece_type) implies att_val(b.at(r, c).unwrap()) >= *sv by {
                if !cov(r, c, b.at(r, c).unwrap().piece_type) {
                    let t = b.at(r, c).unwrap().piece_type;
                    assert(t == PieceType::Bishop || t == PieceType::Rook || t == PieceType::Queen) by {
                        let i = choose|i: int| 0 <= i < slider_types(diag).len() && slider_types(diag)[i] == t;
                    }
                    lemma_slider_attack_ray_hit(*b, r, c, gtr, gtc, color);
                    let n = line_len(r, c, gtr, gtc);
                    lemma_line_coords(r, c, gtr, gtc, n);
                    if n < k {
                        assert(b.at(ray_r(gtr, dr as int, n), ray_r(gtc, dc as int, n)) is None);
                    } else if n > k {
                        assert(b.at(ray_r(gtr, dr as int, k), ray_r(gtc, dc as int, k)) is None);
                    }
                }
            }
        },
        None => {
            assert forall|r: int, c: int| 0 <= r < 8 && 0 <= c < 8 && #[trigger] b.attacker_at(r, c, gtr, gtc, color)
                && newcov(r, c, b.at(r, c).unwrap().piece_type) implies att_val(b.at(r, c).unwrap()) >= *sv by {
                if !cov(r, c, b.at(r, c).unwrap().piece_type) {
                    let t = b.at(r, c).unwrap().piece_type;
                    assert(t == PieceType::Bishop || t == PieceType::Rook || t == PieceType::Queen) by {
                        let i = choose|i: int| 0 <= i < slider_types(diag).len() && slider_types(diag)[i] == t;
                    }
                    lemma_slider_attack_ray_hit(*b, r, c, gtr, gtc, color);
                    assert(sgn(r - gtr) == dr && sgn(c - gtc) == dc);
                    assert((r != gtr && c != gtc) == diag);
                    assert(ray_hit(*b, gtr, gtc, dr as int, dc as int, line_len(r, c, gtr, gtc), color, ts));
                    assert(found is None);
                    assert(!ray_hit(*b, (tr, tc).0 as int, (tr, tc).1 as int, dr as int, dc as int, line_len(r, c, gtr, gtc), color, ts));
                }
            }
        },
    }
}

/// The candidate standing on `(r, c)`: a piece of `color` and kind `kind`
/// there, or nothing (also off the board).
pub open spec fn square_probe(b: Board, color: Color, r: int, c: int, kind: PieceType) -> Attacker {
    if 0 <= r < 8 && 0 <= c < 8 && b.at(r, c) is Some && b.at(r, c).unwrap().color == color
        && b.at(r, c).unwrap().piece_type == kind {
        Some(((r as usize, c as usize), b.at(r, c).unwrap()))
    } else {
        None
    }
}

/// The first piece met from `(tr, tc)` along `(dr, dc)`, when it is a piece
/// of `color` that moves along such a ray.
#[verifier::opaque]
pub open spec fn ray_probe(b: Board, tr: int, tc: int, color: Color, dr: int, dc: int) -> Attacker {
    if exists|k: int| #[trigger] ray_hit(b, tr, tc, dr, dc, k, color, ray_types(dr, dc)) {
        let k = choose|k: int| #[trigger] ray_hit(b, tr, tc, dr, dc, k, color, ray_types(dr, dc));
        Some(((ray_r(tr, dr, k) as usize, ray_r(tc, dc, k) as usize), b.at(ray_r(tr, dr, k), ray_r(tc, dc, k)).unwrap()))
    } else {
        None
    }
}

/// The sliders that move along a ray in direction `(dr, dc)`.
pub open spec fn ray_types(dr: int, dc: int) -> Seq<PieceType> {
    slider_types(dr != 0 && dc != 0)
}

/// A candidate replaces the running choice only when strictly cheaper.
pub open spec fn keep_cheaper(best: Attacker, cand: Attacker) -> Attacker {
    match cand {
        Some((_, p)) => match best {
            Some((_, q)) => if att_val(p) < att_val(q) { cand } else { best },
            None => cand,
        },
        None => best,
    }
}

pub open spec fn cheaper_step() -> spec_fn(Attacker, Attacker) -> Attacker {
    |best: Attacker, cand: Attacker| keep_cheaper(best, cand)
}

pub open spec fn knight_offset(j: int) -> (int, int) {
    if j == 0 { (-2, -1) } else if j == 1 { (-2, 1) } else if j == 2 { (-1, -2) } else if j == 3 { (-1, 2) }
    else if j == 4 { (1, -2) } else if j == 5 { (1, 2) } else if j == 6 { (2, -1) } else { (2, 1) }
}

pub open spec fn ray_direction(j: int) -> (int, int) {
    if j == 0 { (-1, -1) } else if j == 1 { (-1, 1) } else if j == 2 { (1, -1) } else if j == 3 { (1, 1) }
    else if j == 4 { (-1, 0) } else if j == 5 { (1, 0) } else if j == 6 { (0, -1) } else { (0, 1) }
}

/// The king-square candidate `j` of the 3x3 block around `(tr, tc)`, row by
/// row; the centre is no candidate.
pub open spec fn king_probe(b: Board, tr: int, tc: int, color: Color, j: int) -> Attacker {
    if j == 4 {
        None
    } else {
        let dr: int = if j < 3 { -1 } else if j < 6 { 0 } else { 1 };
        let dc: int = if j == 0 || j == 3 || j == 6 { -1 } else if j == 1 || j == 7 { 0 } else { 1 };
        square_probe(b, color, tr + dr, tc + dc, PieceType::King)
    }
}

/// The attacker candidates of `(tr, tc)` in the order they are examined: the
/// two pawn squares, the eight knight squares, the first piece on each of the
/// eight rays, and the king squares row by row.
pub open spec fn attacker_probes(b: Board, tr: int, tc: int, color: Color) -> Seq<Attacker> {
    let pr = tr - crate::board::pawn_dir(color);
    seq![square_probe(b, color, pr, tc - 1, PieceType::Pawn), square_probe(b, color, pr, tc + 1, PieceType::Pawn)]
        + Seq::new(8, |j: int| square_probe(b, color, tr + knight_offset(j).0, tc + knight_offset(j).1, PieceType::Knight))
        + Seq::new(8, |j: int| ray_probe(b, tr, tc, color, ray_direction(j).0, ray_direction(j).1))
        + Seq::new(9, |j: int| king_probe(b, tr, tc, color, j))
}

/// The cheapest attacker of `(tr, tc)`: the first examined among equally
/// cheap ones.
pub open spec fn cheapest_attacker(b: Board, tr: int, tc: int, color: Color) -> Attacker {
    attacker_probes(b, tr, tc, color).fold_left(None, cheaper_step())
}

proof fn lemma_probes_index(b: Board, tr: int, tc: int, color: Color, n: int)
    requires
        0 <= n < 27,
    ensures
        attacker_probes(b, tr, tc, color).len() == 27,
        n < 2 ==> attacker_probes(b, tr, tc, color)[n]
            == square_probe(b, color, tr - crate::board::pawn_dir(color), tc - 1 + 2 * n, PieceType::Pawn),
        2 <= n < 10 ==> attacker_probes(b, tr, tc, color)[n]
            == square_probe(b, color, tr + knight_offset(n - 2).0, tc + knight_offset(n - 2).1, PieceType::Knight),
        10 <= n < 18 ==> attacker_probes(b, tr, tc, color)[n]
            == ray_probe(b, tr, tc, color, ray_direction(n - 10).0, ray_direction(n - 10).1),
        18 <= n ==> attacker_probes(b, tr, tc, color)[n] == king_probe(b, tr, tc, color, n - 18),
{
    let pr = tr - crate::board::pawn_dir(color);
    let a = seq![square_probe(b, color, pr, tc - 1, PieceType::Pawn), square_probe(b, color, pr, tc + 1, PieceType::Pawn)];
    let kn = Seq::new(8, |j: int| square_probe(b, color, tr + knight_offset(j).0, tc + knight_offset(j).1, PieceType::Knight));
    let ry = Seq::new(8, |j: int| ray_probe(b, tr, tc, color, ray_direction(j).0, ray_direction(j).1));
    let kg = Seq::new(9, |j: int| king_probe(b, tr, tc, color, j));
    assert(attacker_probes(b, tr, tc, color) == a + kn + ry + kg);
    if n < 2 {
        assert((a + kn + ry + kg)[n] == a[n]);
    } else if n < 10 {
        assert((a + kn + ry + kg)[n] == kn[n - 2]);
    } else if n < 18 {
        assert((a + kn + ry + kg)[n] == ry[n - 10]);
    } else {
        assert((a + kn + ry + kg)[n] == kg[n - 18]);
    }
}

proof fn lemma_probe_fold_step(s: Seq<Attacker>, n: int)
    requires
        0 <= n < s.len(),
    ensures
        s.take(n + 1).fold_left(None, cheaper_step()) == keep_cheaper(s.take(n).fold_left(None, cheaper_step()), s[n]),
{
    assert(s.take(n + 1).drop_last() =~= s.take(n));
}

proof fn lemma_ray_probe_found(b: Board, tr: int, tc: int, color: Color, dr: int, dc: int, k: int)
    requires
        ray_hit(b, tr, tc, dr, dc, k, color, ray_types(dr, dc)),
    ensures
        ray_probe(b, tr, tc, color, dr, dc)
            == Some(((ray_r(tr, dr, k) as usize, ray_r(tc, dc, k) as usize), b.at(ray_r(tr, dr, k), ray_r(tc, dc, k)).unwrap())),
{
    reveal(ray_probe);
    let types = ray_types(dr, dc);
    let k2 = choose|k2: int| #[trigger] ray_hit(b, tr, tc, dr, dc, k2, color, types);
    lemma_ray_hit_unique(b, tr, tc, dr, dc, k, k2, color, types);
}

proof fn lemma_ray_probe_none(b: Board, tr: int, tc: int, color: Color, dr: int, dc: int)
    requires
        forall|k: int| !#[trigger] ray_hit(b, tr, tc, dr, dc, k, color, ray_types(dr, dc)),
    ensures
        ray_probe(b, tr, tc, color, dr, dc) == None::<((usize, usize), Piece)>,
{
    reveal(ray_probe);
}

/// At most one step of a ray holds its first piece.
proof fn lemma_ray_hit_unique(b: Board, fr: int, fc: int, dr: int, dc: int, k1: int, k2: int, color: Color, types: Seq<PieceType>)
    requires
        ray_hit(b, fr, fc, dr, dc, k1, color, types),
        ray_hit(b, fr, fc, dr, dc, k2, color, types),
    ensures
        k1 == k2,
{
    if k1 < k2 {
        assert(b.at(ray_r(fr, dr, k1), ray_r(fc, dc, k1)) is None);
    } else if k2 < k1 {
        assert(b.at(ray_r(fr, dr, k2), ray_r(fc, dc, k2)) is None);
    }
}

/// The least valuable piece of `attacker_color` attacking `target` (pawns,
/// then knights, bishops and queens on diagonals, rooks and queens on lines,
/// then the king), or None when nothing of that colour attacks it.
pub fn find_smallest_attacker(board: &Board, target: (usize, usize), attacker_color: Color) -> (res: Attacker)
    requires
        on_board(target),
    ensures
        res matches Some((sq, p)) ==> on_board(sq) && board.at(sq.0 as int, sq.1 as int) == Some(p)
            && board.attacker_at(sq.0 as int, sq.1 as int, target.0 as int, target.1 as int, attacker_color)
            && forall|r: int, c: int| 0 <= r < 8 && 0 <= c < 8
                && #[trigger] board.attacker_at(r, c, target.0 as int, target.1 as int, attacker_color)
                ==> att_val(p) <= att_val(board.at(r, c).unwrap()),
        res is None <==> !board.attacked_by(target.0 as int, target.1 as int, attacker_color),
        res == cheapest_attacker(*board, target.0 as int, target.1 as int, attacker_color),
{
    let (tr, tc) = target;
    let mut smallest: Attacker = None;
    let mut smallest_val: i32 = i32::MAX;
    let ghost mut cov: spec_fn(int, int, PieceType) -> bool = |r: int, c: int, t: PieceType| false;
    let ghost gtr = tr as int;
    let ghost gtc = tc as int;
    let ghost probes = attacker_probes(*board, gtr, gtc, attacker_color);
    let off: i32 = if attacker_color == Color::White { -1 } else { 1 };
    let r0 = tr as i32;
    let c0 = tc as i32;
    // pawns
    check_square(board, tr, tc, attacker_color, r0 + off, c0 - 1, PieceType::Pawn, &mut smallest, &mut smallest_val, Ghost(cov));
    proof {
        cov = |r2: int, c2: int, t: PieceType| cov(r2, c2, t) || (r2 == r0 + off && c2 == c0 - 1 && t == PieceType::Pawn);
        lemma_probes_index(*board, gtr, gtc, attacker_color, 0);
        lemma_probe_fold_step(probes, 0);
        assert(probes.take(0) =~= Seq::<Attacker>::empty());
    }
    check_square(board, tr, tc, attacker_color, r0 + off, c0 + 1, PieceType::Pawn, &mut smallest, &mut smallest_val, Ghost(cov));
    proof {
        cov = |r2: int, c2: int, t: PieceType| cov(r2, c2, t) || (r2 == r0 + off && c2 == c0 + 1 && t == PieceType::Pawn);
        lemma_probes_index(*board, gtr, gtc, attacker_color, 1);
        lemma_probe_fold_step(probes, 1);
    }
    // knights
    let kd: [(i32, i32); 8] = [(-2, -1), (-2, 1), (-1, -2), (-1, 2), (1, -2), (1, 2), (2, -1), (2, 1)];
    let mut i: usize = 0;
    while i < 8
        invariant
            i <= 8,
            tr < 8,
            tc < 8,
            r0 == tr,
            c0 == tc,
            gtr == tr,
            gtc == tc,
            kd@ == seq![(-2i32, -1i32), (-2i32, 1i32), (-1i32, -2i32), (-1i32, 2i32), (1i32, -2i32), (1i32, 2i32), (2i32, -1i32), (2i32, 1i32)],
            probes == attacker_probes(*board, gtr, gtc, attacker_color),
            smallest == probes.take(2 + i).fold_left(None, cheaper_step()),
            good(*board, gtr, gtc, attacker_color, smallest, smallest_val,
                |r2: int, c2: int, t: PieceType| cov(r2, c2, t) || (t == PieceType::Knight
                    && exists|j: int| #![trigger kd@[j]] 0 <= j < i && r2 == r0 + kd@[j].0 && c2 == c0 + kd@[j].1)),
        decreases 8 - i,
    {
        let (dr, dc) = kd[i];
        let ghost cv = |r2: int, c2: int, t: PieceType| cov(r2, c2, t) || (t == PieceType::Knight
            && exists|j: int| #![trigger kd@[j]] 0 <= j < i && r2 == r0 + kd@[j].0 && c2 == c0 + kd@[j].1);
        check_square(board, tr, tc, attacker_color, r0 + dr, c0 + dc, PieceType::Knight, &mut smallest, &mut smallest_val, Ghost(cv));
        proof {
            lemma_probes_index(*board, gtr, gtc, attacker_color, 2 + i);
            lemma_probe_fold_step(probes, 2 + i);
            assert(knight_offset(i as int) == (dr as int, dc as int)) by {
                if i == 0 { assert(kd@[0] == (-2i32, -1i32)); }
                else if i == 1 { assert(kd@[1] == (-2i32, 1i32)); }
                else if i == 2 { assert(kd@[2] == (-1i32, -2i32)); }
                else if i == 3 { assert(kd@[3] == (-1i32, 2i32)); }
                else if i == 4 { assert(kd@[4] == (1i32, -2i32)); }
                else if i == 5 { assert(kd@[5] == (1i32, 2i32)); }
                else if i == 6 { assert(kd@[6] == (2i32, -1i32)); }
                else { assert(kd@[7] == (2i32, 1i32)); }
            }
        }
        assert forall|r2: int, c2: int, t: PieceType| #![trigger cov(r2, c2, t)] (cv(r2, c2, t) || (r2 == r0 + dr && c2 == c0 + dc && t == PieceType::Knight))
            == (cov(r2, c2, t) || (t == PieceType::Knight
                && exists|j: int| #![trigger kd@[j]] 0 <= j < i + 1 && r2 == r0 + kd@[j].0 && c2 == c0 + kd@[j].1)) by {
            if r2 == r0 + dr && c2 == c0 + dc && t == PieceType::Knight {
                assert(r2 == r0 + kd@[i as int].0 && c2 == c0 + kd@[i as int].1);
            }
        }
        i = i + 1;
    }
    proof {
        cov = |r2: int, c2: int, t: PieceType| cov(r2, c2, t) || (t == PieceType::Knight
            && exists|j: int| #![trigger kd@[j]] 0 <= j < 8 && r2 == r0 + kd@[j].0 && c2 == c0 + kd@[j].1);
    }
    // diagonal and straight rays
    let dirs: [(i32, i32); 8] = [(-1, -1), (-1, 1), (1, -1), (1, 1), (-1, 0), (1, 0), (0, -1), (0, 1)];
    let mut d: usize = 0;
    while d < 8
        invariant
            d <= 8,
            tr < 8,
            tc < 8,
            gtr == tr,
            gtc == tc,
            dirs@ == seq![(-1i32, -1i32), (-1i32, 1i32), (1i32, -1i32), (1i32, 1i32), (-1i32, 0i32), (1i32, 0i32), (0i32, -1i32), (0i32, 1i32)],
            probes == attacker_probes(*board, gtr, gtc, attacker_color),
            smallest == probes.take(10 + d).fold_left(None, cheaper_step()),
            good(*board, gtr, gtc, attacker_color, smallest, smallest_val,
                |r2: int, c2: int, t: PieceType| cov(r2, c2, t) || exists|j: int| #![trigger dirs@[j]] 0 <= j < d
                    && slider_types(dirs@[j].0 != 0 && dirs@[j].1 != 0).contains(t)
                    && line_aligned(r2, c2, gtr, gtc) && sgn(r2 - gtr) == dirs@[j].0 && sgn(c2 - gtc) == dirs@[j].1),
        decreases 8 - d,
    {
        let (dr, dc) = dirs[d];
        let ghost cv = |r2: int, c2: int, t: PieceType| cov(r2, c2, t) || exists|j: int| #![trigger dirs@[j]] 0 <= j < d
            && slider_types(dirs@[j].0 != 0 && dirs@[j].1 != 0).contains(t)
            && line_aligned(r2, c2, gtr, gtc) && sgn(r2 - gtr) == dirs@[j].0 && sgn(c2 - gtc) == dirs@[j].1;
        check_ray(board, tr, tc, attacker_color, dr, dc, &mut smallest, &mut smallest_val, Ghost(cv));
        proof {
            lemma_probes_index(*board, gtr, gtc, attacker_color, 10 + d);
            lemma_probe_fold_step(probes, 10 + d);
            assert(ray_direction(d as int) == (dr as int, dc as int)) by {
                if d == 0 { assert(dirs@[0] == (-1i32, -1i32)); }
                else if d == 1 { assert(dirs@[1] == (-1i32, 1i32)); }
                else if d == 2 { assert(dirs@[2] == (1i32, -1i32)); }
                else if d == 3 { assert(dirs@[3] == (1i32, 1i32)); }
                else if d == 4 { assert(dirs@[4] == (-1i32, 0i32)); }
                else if d == 5 { assert(dirs@[5] == (1i32, 0i32)); }
                else if d == 6 { assert(dirs@[6] == (0i32, -1i32)); }
                else { assert(dirs@[7] == (0i32, 1i32)); }
            }
        }
        assert forall|r2: int, c2: int, t: PieceType| #![trigger cov(r2, c2, t)] (cv(r2, c2, t) || (slider_types(dr != 0 && dc != 0).contains(t)
                && line_aligned(r2, c2, tr as int, tc as int) && sgn(r2 - tr) == dr && sgn(c2 - tc) == dc))
            == (cov(r2, c2, t) || exists|j: int| #![trigger dirs@[j]] 0 <= j < d + 1
                && slider_types(dirs@[j].0 != 0 && dirs@[j].1 != 0).contains(t)
                && line_aligned(r2, c2, gtr, gtc) && sgn(r2 - gtr) == dirs@[j].0 && sgn(c2 - gtc) == dirs@[j].1) by {
            if slider_types(dr != 0 && dc != 0).contains(t) && line_aligned(r2, c2, tr as int, tc as int) && sgn(r2 - tr) == dr && sgn(c2 - tc) == dc {
                assert(dirs@[d as int] == (dr, dc));
            }
        }
        d = d + 1;
    }
    proof {
        cov = |r2: int, c2: int, t: PieceType| cov(r2, c2, t) || exists|j: int| #![trigger dirs@[j]] 0 <= j < 8
            && slider_types(dirs@[j].0 != 0 && dirs@[j].1 != 0).contains(t)
            && line_aligned(r2, c2, gtr, gtc) && sgn(r2 - gtr) == dirs@[j].0 && sgn(c2 - gtc) == dirs@[j].1;
    }
    // king
    let mut kr: i32 = -1;
    while kr <= 1
        invariant
            -1 <= kr <= 2,
            tr < 8,
            tc < 8,
            r0 == tr,
            c0 == tc,
            gtr == tr,
            gtc == tc,
            good(*board, gtr, gtc, attacker_color, smallest, smallest_val,
                |r2: int, c2: int, t: PieceType| cov(r2, c2, t) || (t == PieceType::King && (r2 != r0 || c2 != c0)
                    && iabs(r2 - r0) <= 1 && iabs(c2 - c0) <= 1 && r2 - r0 < kr)),
            probes == attacker_probes(*board, gtr, gtc, attacker_color),
            smallest == probes.take(18 + 3 * (kr + 1)).fold_left(None, cheaper_step()),
        decreases 2 - kr,
    {
        let mut kc: i32 = -1;
        while kc <= 1
            invariant
                -1 <= kr <= 1,
                -1 <= kc <= 2,
                tr < 8,
                tc < 8,
                r0 == tr,
                c0 == tc,
                gtr == tr,
                gtc == tc,
                good(*board, gtr, gtc, attacker_color, smallest, smallest_val,
                    |r2: int, c2: int, t: PieceType| cov(r2, c2, t) || (t == PieceType::King && (r2 != r0 || c2 != c0)
                        && iabs(r2 - r0) <= 1 && iabs(c2 - c0) <= 1 && (r2 - r0 < kr || (r2 - r0 == kr && c2 - c0 < kc)))),
                probes == attacker_probes(*board, gtr, gtc, attacker_color),
                smallest == probes.take(18 + 3 * (kr + 1) + (kc + 1)).fold_left(None, cheaper_step()),
            decreases 2 - kc,
        {
            let ghost cv = |r2: int, c2: int, t: PieceType| cov(r2, c2, t) || (t == PieceType::King && (r2 != r0 || c2 != c0)
                && iabs(r2 - r0) <= 1 && iabs(c2 - c0) <= 1 && (r2 - r0 < kr || (r2 - r0 == kr && c2 - c0 < kc)));
            proof {
                lemma_probes_index(*board, gtr, gtc, attacker_color, 18 + 3 * (kr + 1) + (kc + 1));
                lemma_probe_fold_step(probes, 18 + 3 * (kr + 1) + (kc + 1));
            }
            if kr != 0 || kc != 0 {
                check_square(board, tr, tc, attacker_color, r0 + kr, c0 + kc, PieceType::King, &mut smallest, &mut smallest_val, Ghost(cv));
            }
            kc = kc + 1;
        }
        kr = kr + 1;
    }
    proof {
        let fin = |r2: int, c2: int, t: PieceType| cov(r2, c2, t) || (t == PieceType::King && (r2 != r0 || c2 != c0)
            && iabs(r2 - r0) <= 1 && iabs(c2 - c0) <= 1 && r2 - r0 < 2);
        assert forall|r: int, c: int| 0 <= r < 8 && 0 <= c < 8 && #[trigger] board.attacker_at(r, c, gtr, gtc, attacker_color)
            implies fin(r, c, board.at(r, c).unwrap().piece_type) by {
            let p = board.at(r, c).unwrap();
            if p.piece_type == PieceType::Pawn {
            } else if p.piece_type == PieceType::Knight {
                let dr2 = r - gtr;
                let dc2 = c - gtc;
                if dr2 == -2 && dc2 == -1 { assert(kd@[0] == (-2i32, -1i32)); }
                else if dr2 == -2 && dc2 == 1 { assert(kd@[1] == (-2i32, 1i32)); }
                else if dr2 == -1 && dc2 == -2 { assert(kd@[2] == (-1i32, -2i32)); }
                else if dr2 == -1 && dc2 == 2 { assert(kd@[3] == (-1i32, 2i32)); }
                else if dr2 == 1 && dc2 == -2 { assert(kd@[4] == (1i32, -2i32)); }
                else if dr2 == 1 && dc2 == 2 { assert(kd@[5] == (1i32, 2i32)); }
                else if dr2 == 2 && dc2 == -1 { assert(kd@[6] == (2i32, -1i32)); }
                else { assert(kd@[7] == (2i32, 1i32)); }
            } else if p.piece_type == PieceType::King {
            } else {
                lemma_slider_attack_ray_hit(*board, r, c, gtr, gtc, attacker_color);
                let sr = sgn(r - gtr);
                let sc = sgn(c - gtc);
                if sr == -1 && sc == -1 { assert(dirs@[0] == (-1i32, -1i32)); }
                else if sr == -1 && sc == 1 { assert(dirs@[1] == (-1i32, 1i32)); }
                else if sr == 1 && sc == -1 { assert(dirs@[2] == (1i32, -1i32)); }
                else if sr == 1 && sc == 1 { assert(dirs@[3] == (1i32, 1i32)); }
                else if sr == -1 && sc == 0 { assert(dirs@[4] == (-1i32, 0i32)); }
                else if sr == 1 && sc == 0 { assert(dirs@[5] == (1i32, 0i32)); }
                else if sr == 0 && sc == -1 { assert(dirs@[6] == (0i32, -1i32)); }
                else { assert(dirs@[7] == (0i32, 1i32)); }
            }
        }
        if smallest is None {
            assert(!board.attacked_by(gtr, gtc, attacker_color));
        }
        lemma_probes_index(*board, gtr, gtc, attacker_color, 0);
        assert(probes.take(27) =~= probes);
    }
    smallest
}


pub const SEE_PENALTY_MIN_CP: i32 = 80;
pub const SEE_PENALTY_MAX_CP: i32 = 300;
pub const QSEE_CAPTURE_TOLERANCE: i32 = -50;
const MINOR_PAWN_ATTACK_PENALTY: i32 = 1200;

/// The values of a sequence of `i32`s, as integers.
pub open spec fn int_values(s: Seq<i32>) -> Seq<int> {
    s.map_values(|x: i32| x as int)
}

/// The running balances of the capture sequence on `dest`, continuing from
/// `gains`: the cheapest attacker of `side` takes `target`, the piece standing
/// there, and the next balance is the taken piece's value less the previous
/// balance; the sequence ends when `side` has no attacker, when a king has
/// captured, or at 32 balances.
pub open spec fn exchange_gains(b: Board, dest: (usize, usize), side: Color, target: Piece, gains: Seq<int>) -> Seq<int>
    decreases 32 - gains.len(),
{
    if gains.len() >= 32 || gains.len() == 0 {
        gains
    } else {
        match cheapest_attacker(b, dest.0 as int, dest.1 as int, side) {
            None => gains,
            Some((sq, p)) => {
                let next = gains.push(spec_piece_value(target.piece_type) as int - gains.last());
                if p.piece_type == PieceType::King {
                    next
                } else {
                    exchange_gains(b.with(sq.0 as int, sq.1 as int, None).with(dest.0 as int, dest.1 as int, Some(p)),
                        dest, spec_opposite(side), p, next)
                }
            }
        }
    }
}

/// Folds the balances back from the end: at each step the side to capture
/// may stop instead, so a balance becomes the negated better of stopping
/// (keeping it) and going on.
pub open spec fn settle_gains(gains: Seq<int>) -> int
    decreases gains.len(),
{
    if gains.len() == 0 {
        0
    } else if gains.len() == 1 {
        gains[0]
    } else {
        let n = gains.len() - 1;
        let stop = -gains[n - 1];
        let m = if stop >= gains[n] { stop } else { gains[n] };
        settle_gains(gains.drop_last().update(n - 1, -m))
    }
}

/// The exchange value on `dest` for the side that has just moved there,
/// having captured `captured_val`.
pub open spec fn see_value(b: Board, side_just_moved: Color, dest: (usize, usize), captured_val: int) -> int {
    match b.at(dest.0 as int, dest.1 as int) {
        None => captured_val,
        Some(p) => settle_gains(exchange_gains(b, dest, spec_opposite(side_just_moved), p, seq![captured_val])),
    }
}

/// Static exchange evaluation on `dest`, whose piece has just moved there
/// (capturing a piece worth `captured_val`): both sides recapture with their
/// cheapest attacker while it pays, and the result is the net material for
/// the side that moved.
pub fn see_dest_estimate(board_after: &Board, side_just_moved: Color, dest: (usize, usize), captured_val: i32) -> (r: i32)
    requires
        on_board(dest),
        -1_000_000_000 <= captured_val <= 1_000_000_000,
    ensures
        board_after.at(dest.0 as int, dest.1 as int) is None ==> r == captured_val,
        !board_after.attacked_by(dest.0 as int, dest.1 as int, spec_opposite(side_just_moved)) ==> r == captured_val,
        r <= captured_val,
        r >= -iabs(captured_val as int) - 640_000,
        r == see_value(*board_after, side_just_moved, dest, captured_val as int),
{
    let moved_piece = match board_after.get(dest.0, dest.1) {
        Some(p) => p,
        None => return captured_val,
    };
    let mut board = *board_after;
    let mut gain: [i32; 32] = [0i32; 32];
    let mut depth: usize = 0;
    gain[0] = captured_val;
    let mut attacker_side = opposite_color(side_just_moved);
    let mut target_piece = moved_piece;
    let ghost fwd = exchange_gains(*board_after, dest, spec_opposite(side_just_moved), moved_piece, seq![captured_val as int]);
    proof {
        assert(int_values(gain@).take(1) =~= seq![captured_val as int]);
    }
    let first = find_smallest_attacker(&board, dest, attacker_side);
    if first.is_none() {
        return captured_val;
    }
    loop
        invariant_except_break
            on_board(dest),
            depth < 32,
            -1_000_000_000 <= captured_val <= 1_000_000_000,
            board.at(dest.0 as int, dest.1 as int) == Some(target_piece),
            forall|i: int| 0 <= i <= depth ==> -iabs(captured_val as int) - 20_000 * i <= #[trigger] gain@[i] <= iabs(captured_val as int) + 20_000 * i,
            gain@[0] == captured_val,
            exchange_gains(board, dest, attacker_side, target_piece, int_values(gain@).take(depth + 1)) == fwd,
        ensures
            depth < 32,
            -1_000_000_000 <= captured_val <= 1_000_000_000,
            forall|i: int| 0 <= i <= depth ==> -iabs(captured_val as int) - 20_000 * i <= #[trigger] gain@[i] <= iabs(captured_val as int) + 20_000 * i,
            gain@[0] == captured_val,
            int_values(gain@).take(depth + 1) == fwd,
        decreases 32 - depth,
    {
        let ghost cur = int_values(gain@).take(depth + 1);
        let attacker = find_smallest_attacker(&board, dest, attacker_side);
        if attacker.is_none() {
            break;
        }
        let (attacker_sq, attacker_piece) = attacker.unwrap();
        proof {
            assert(attacker_sq != dest) by {
                assert(board.attacker_at(attacker_sq.0 as int, attacker_sq.1 as int, dest.0 as int, dest.1 as int, attacker_side));
            }
        }
        if depth + 1 >= 32 {
            break;
        }
        depth = depth + 1;
        let target_val = piece_value_cp(target_piece.piece_type);
        gain[depth] = -gain[depth - 1] + target_val;
        proof {
            assert(int_values(gain@).take(depth + 1) =~= cur.push(spec_piece_value(target_piece.piece_type) as int - cur.last()));
        }
        board.set(attacker_sq.0, attacker_sq.1, None);
        board.set(dest.0, dest.1, Some(attacker_piece));
        target_piece = attacker_piece;
        attacker_side = opposite_color(attacker_side);
        if target_piece.piece_type == PieceType::King {
            break;
        }
    }
    let ghost res = settle_gains(fwd);
    while depth > 0
        invariant
            depth < 32,
            -1_000_000_000 <= captured_val <= 1_000_000_000,
            forall|i: int| 0 <= i <= depth ==> -iabs(captured_val as int) - 640_000 <= #[trigger] gain@[i] <= iabs(captured_val as int) + 640_000,
            depth == 0 ==> gain@[0] <= captured_val,
            depth > 0 ==> gain@[0] == captured_val,
            settle_gains(int_values(gain@).take(depth + 1)) == res,
        decreases depth,
    {
        let ghost cur = int_values(gain@).take(depth + 1);
        let a = gain[depth - 1];
        let bnext = gain[depth];
        let neg_a = -a;
        let m = if neg_a >= bnext { neg_a } else { bnext };
        gain[depth - 1] = -m;
        depth = depth - 1;
        proof {
            assert(int_values(gain@).take(depth + 1) =~= cur.drop_last().update(depth as int, -(m as int)));
        }
    }
    gain[0]
}


pub open spec fn spec_apply_for_side(v: int, side: Color) -> int {
    if side == Color::White { v } else { -v }
}

/// `v` for White, `-v` for Black.
pub fn apply_for_side(v: i32, side: Color) -> (r: i32)
    requires
        v > i32::MIN,
    ensures
        r == spec_apply_for_side(v as int, side),
{
    if side == Color::White { v } else { -v }
}

/// The exchange value on `to` after a move that captured `captured`.
pub fn see_after(board: &Board, side: Color, to: (usize, usize), captured: Option<Piece>) -> (r: i32)
    requires
        on_board(to),
    ensures
        r <= (match captured { Some(p) => spec_piece_value(p.piece_type) as int, None => 0 }),
        !board.attacked_by(to.0 as int, to.1 as int, spec_opposite(side))
            ==> r == (match captured { Some(p) => spec_piece_value(p.piece_type) as int, None => 0 }),
        r == see_value(*board, side, to, match captured { Some(p) => spec_piece_value(p.piece_type) as int, None => 0 }),
{
    let cap = match captured {
        Some(p) => piece_value_cp(p.piece_type),
        None => 0,
    };
    see_dest_estimate(board, side, to, cap)
}

/// Whether a pawn of `attacker` attacks `sq`.
pub fn attacked_by_pawn(board: &Board, sq: (usize, usize), attacker: Color) -> (a: bool)
    requires
        on_board(sq),
    ensures
        a == board.pawn_attacked_by(sq.0 as int, sq.1 as int, attacker),
{
    board.is_square_pawn_attacked_by(attacker, sq)
}

/// A knight or bishop that lands where an enemy pawn attacks it costs 1200.
pub fn pawn_attacked_minor_penalty(post_after: &Board, side: Color, to: (usize, usize), moved_pt: PieceType) -> (pen: i32)
    requires
        on_board(to),
    ensures
        pen == (if (moved_pt == PieceType::Knight || moved_pt == PieceType::Bishop)
            && post_after.pawn_attacked_by(to.0 as int, to.1 as int, spec_opposite(side)) { 1200int } else { 0int }),
{
    if moved_pt != PieceType::Knight && moved_pt != PieceType::Bishop {
        return 0;
    }
    let opp = opposite_color(side);
    if attacked_by_pawn(post_after, to, opp) { MINOR_PAWN_ATTACK_PENALTY } else { 0 }
}

pub open spec fn clamp_int(x: int, lo: int, hi: int) -> int {
    if x < lo { lo } else if x > hi { hi } else { x }
}

/// The value of the piece on `sq`, or 0.
pub open spec fn value_at(b: Board, sq: (usize, usize)) -> int {
    match b.at(sq.0 as int, sq.1 as int) { Some(p) => spec_piece_value(p.piece_type) as int, None => 0 }
}

pub open spec fn type_at(b: Board, sq: (usize, usize)) -> Option<PieceType> {
    match b.at(sq.0 as int, sq.1 as int) { Some(p) => Some(p.piece_type), None => None }
}

/// The penalty, from White's point of view, for a move whose destination
/// exchange value is `see`.
pub open spec fn spec_see_penalty(see: int, moved: Option<PieceType>, is_capture: bool, moved_is_pawn: bool, side: Color) -> int {
    if see >= 0 {
        0
    } else {
        let pen = match moved {
            Some(PieceType::Queen) => clamp_int(-see * 6, 600, 6000),
            Some(PieceType::Rook) => clamp_int(-see * 4, SEE_PENALTY_MIN_CP as int, 3000),
            _ => clamp_int(-see, SEE_PENALTY_MIN_CP as int, SEE_PENALTY_MAX_CP as int),
        };
        spec_apply_for_side(-pen, side)
            + (if !is_capture && moved_is_pawn { spec_apply_for_side(-(SEE_PENALTY_MIN_CP as int), side) } else { 0 })
    }
}

/// Penalty for a non-checking move whose destination loses material in the
/// exchange; checking moves are left to the search.
pub fn apply_destination_see_penalties(
    base_board: &Board,
    post_after: &Board,
    side: Color,
    from: (usize, usize),
    to: (usize, usize),
    is_capture: bool,
    moved_is_pawn: bool,
    gives_check: bool,
    _moved_is_queen: bool,
) -> (delta: i32)
    requires
        on_board(from),
        on_board(to),
    ensures
        gives_check ==> delta == 0,
        !gives_check ==> delta == spec_see_penalty(see_value(*post_after, side, to, value_at(*base_board, to)),
            type_at(*base_board, from), is_capture, moved_is_pawn, side),
        !gives_check && !post_after.attacked_by(to.0 as int, to.1 as int, spec_opposite(side)) ==> delta == 0,
{
    if gives_check {
        return 0;
    }
    let mut delta: i32 = 0;
    let captured = base_board.get(to.0, to.1);
    let see = see_after(post_after, side, to, captured);
    let moved_pt = match base_board.get(from.0, from.1) { Some(p) => Some(p.piece_type), None => None };
    if see < 0 {
        let pen: i32 = match moved_pt {
            Some(PieceType::Queen) => {
                let x: i64 = -(see as i64) * 6;
                if x < 600 { 600 } else if x > 6000 { 6000 } else { x as i32 }
            },
            Some(PieceType::Rook) => {
                let x: i64 = -(see as i64) * 4;
                if x < SEE_PENALTY_MIN_CP as i64 { SEE_PENALTY_MIN_CP } else if x > 3000 { 3000 } else { x as i32 }
            },
            _ => {
                let x: i64 = -(see as i64);
                if x < SEE_PENALTY_MIN_CP as i64 { SEE_PENALTY_MIN_CP } else if x > SEE_PENALTY_MAX_CP as i64 { SEE_PENALTY_MAX_CP } else { x as i32 }
            },
        };
        delta = delta + apply_for_side(-pen, side);
        if !is_capture && moved_is_pawn {
            delta = delta + apply_for_side(-SEE_PENALTY_MIN_CP, side);
        }
    }
    proof {
        let cv = match base_board.at(to.0 as int, to.1 as int) { Some(p) => spec_piece_value(p.piece_type) as int, None => 0 };
        assert(see <= cv);
        assert(delta == spec_see_penalty(see as int, moved_pt, is_capture, moved_is_pawn, side));
    }
    delta
}

/// The first square (row by row) holding the king of `color`.
pub fn find_king_square(board: &Board, color: Color) -> (res: Option<(usize, usize)>)
    ensures
        res matches Some(sq) ==> on_board(sq) && board.at(sq.0 as int, sq.1 as int) == Some(Piece { piece_type: PieceType::King, color })
            && forall|r: int, c: int| 0 <= r < 8 && 0 <= c < 8 && (r < sq.0 || (r == sq.0 && c < sq.1)) ==>
                #[trigger] board.at(r, c) != Some(Piece { piece_type: PieceType::King, color }),
        res is None ==> forall|r: int, c: int| 0 <= r < 8 && 0 <= c < 8 ==>
            #[trigger] board.at(r, c) != Some(Piece { piece_type: PieceType::King, color }),
{
    let mut r: usize = 0;
    while r < 8
        invariant
            r <= 8,
            forall|r2: int, c2: int| 0 <= r2 < r && 0 <= c2 < 8 ==>
                #[trigger] board.at(r2, c2) != Some(Piece { piece_type: PieceType::King, color }),
        decreases 8 - r,
    {
        let mut c: usize = 0;
        while c < 8
            invariant
                r < 8,
                c <= 8,
                forall|r2: int, c2: int| 0 <= r2 < r && 0 <= c2 < 8 ==>
                    #[trigger] board.at(r2, c2) != Some(Piece { piece_type: PieceType::King, color }),
                forall|c2: int| 0 <= c2 < c ==> #[trigger] board.at(r as int, c2) != Some(Piece { piece_type: PieceType::King, color }),
            decreases 8 - c,
        {
            if let Some(p) = board.get(r, c) {
                if p.color == color && p.piece_type == PieceType::King {
                    return Some((r, c));
                }
            }
            c = c + 1;
        }
        r = r + 1;
    }
    None
}

pub open spec fn spec_adjacent(a: (usize, usize), b: (usize, usize)) -> bool {
    iabs(a.0 - b.0) <= 1 && iabs(a.1 - b.1) <= 1
}

fn squares_adjacent(a: (usize, usize), b: (usize, usize)) -> (adj: bool)
    ensures
        adj == spec_adjacent(a, b),
{
    let dr = if a.0 > b.0 { a.0 - b.0 } else { b.0 - a.0 };
    let dc = if a.1 > b.1 { a.1 - b.1 } else { b.1 - a.1 };
    dr <= 1 && dc <= 1
}

/// `sq` holds the king of `color`, and no square before it (row by row) does.
pub open spec fn first_king(b: Board, color: Color, sq: (usize, usize)) -> bool {
    &&& on_board(sq)
    &&& b.at(sq.0 as int, sq.1 as int) == Some(Piece { piece_type: PieceType::King, color })
    &&& forall|r: int, c: int| 0 <= r < 8 && 0 <= c < 8 && (r < sq.0 || (r == sq.0 && c < sq.1)) ==>
        #[trigger] b.at(r, c) != Some(Piece { piece_type: PieceType::King, color })
}

/// The king of the other side, next to `to`, can take the piece of `side`
/// there and stand on `to` unattacked.
pub open spec fn king_takes_safely(b: Board, side: Color, to: (usize, usize)) -> bool {
    let opp = spec_opposite(side);
    exists|k: (usize, usize)| #[trigger] first_king(b, opp, k)
        && spec_adjacent(k, to)
        && (b.at(to.0 as int, to.1 as int) matches Some(p) && p.color == side)
        && !b.with(k.0 as int, k.1 as int, None).with(to.0 as int, to.1 as int, Some(Piece { piece_type: PieceType::King, color: opp }))
            .attacked_by(to.0 as int, to.1 as int, side)
}

proof fn lemma_first_king_unique(b: Board, color: Color, k1: (usize, usize), k2: (usize, usize))
    requires
        first_king(b, color, k1),
        first_king(b, color, k2),
    ensures
        k1 == k2,
{
    if k1.0 < k2.0 || (k1.0 == k2.0 && k1.1 < k2.1) {
        assert(b.at(k1.0 as int, k1.1 as int) != Some(Piece { piece_type: PieceType::King, color }));
    } else if k2.0 < k1.0 || (k2.0 == k1.0 && k2.1 < k1.1) {
        assert(b.at(k2.0 as int, k2.1 as int) != Some(Piece { piece_type: PieceType::King, color }));
    }
}

/// The penalty when the enemy king can take the piece that just moved to
/// `to` without landing on an attacked square; None when it cannot.
pub fn king_can_safely_capture(post_after: &Board, side: Color, to: (usize, usize), moved_pt: PieceType) -> (res: Option<i32>)
    requires
        on_board(to),
    ensures
        res is Some <==> king_takes_safely(*post_after, side, to),
        res matches Some(pen) ==> pen == clamp_int(
            (match moved_pt {
                PieceType::Queen => 900int * 8,
                PieceType::Rook => 500int * 8,
                PieceType::Bishop | PieceType::Knight => 300int * 10,
                _ => 200int * 8,
            }), 2400, 8000),
        res is Some ==> (post_after.at(to.0 as int, to.1 as int) matches Some(p) && p.color == side),
{
    let opp = opposite_color(side);
    let king_sq = match find_king_square(post_after, opp) {
        Some(k) => k,
        None => {
            proof {
                assert forall|k: (usize, usize)| !#[trigger] first_king(*post_after, opp, k) by {
                    if first_king(*post_after, opp, k) {
                        assert(post_after.at(k.0 as int, k.1 as int) == Some(Piece { piece_type: PieceType::King, color: opp }));
                    }
                }
            }
            return None;
        },
    };
    proof {
        assert(first_king(*post_after, opp, king_sq));
        assert forall|k: (usize, usize)| #[trigger] first_king(*post_after, opp, k) implies k == king_sq by {
            lemma_first_king_unique(*post_after, opp, k, king_sq);
        }
    }
    if !squares_adjacent(king_sq, to) {
        return None;
    }
    let on_to = match post_after.get(to.0, to.1) {
        Some(p) => p,
        None => return None,
    };
    if on_to.color != side {
        return None;
    }
    let mut after_kx = *post_after;
    after_kx.set(king_sq.0, king_sq.1, None);
    after_kx.set(to.0, to.1, Some(Piece::new(PieceType::King, opp)));
    if after_kx.is_square_attacked_by_opponent(to, opp) {
        return None;
    }
    proof {
        assert(first_king(*post_after, opp, king_sq));
    }
    let base_pen: i32 = match moved_pt {
        PieceType::Queen => 900,
        PieceType::Rook => 500,
        PieceType::Bishop | PieceType::Knight => 300,
        _ => 200,
    };
    let scale_f: i32 = match moved_pt {
        PieceType::Queen | PieceType::Rook => 8,
        PieceType::Bishop | PieceType::Knight => 10,
        _ => 8,
    };
    let v = base_pen * scale_f;
    Some(if v < 2400 { 2400 } else if v > 8000 { 8000 } else { v })
}

} // verus!
