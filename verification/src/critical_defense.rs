//! Defence of the weak squares f2 (White) and f7 (Black): when two or more
//! enemy pieces bear on it, a move that adds a defender or blocks an attack
//! earns a bonus.
use vstd::prelude::*;
use crate::pieces::{Color, Piece, PieceType, spec_opposite, opposite_color};
use crate::board::{Board, on_board, iabs, scale};
use crate::see::{scan_ray, ray_hit, ray_r, slider_types, apply_for_side, spec_apply_for_side};

verus! {

pub const CRITICAL_DEFENSE_BONUS: i32 = 400;
pub const BLOCKING_BONUS: i32 = 200;

pub open spec fn ind(x: bool) -> int {
    if x { 1 } else { 0 }
}

/// `(r, c)` is on the board and holds a piece of `color` and kind `t`.
pub open spec fn piece_is(b: Board, r: int, c: int, color: Color, t: PieceType) -> bool {
    &&& 0 <= r < 8
    &&& 0 <= c < 8
    &&& b.at(r, c) matches Some(p)
    &&& p.color == color
    &&& p.piece_type == t
}

/// Along the ray from `sq` in direction `(dr, dc)`, the first piece is a
/// slider of `color` moving that way (bishop or queen on a diagonal, rook
/// or queen on a line).
pub open spec fn ray_has_hit(b: Board, sq: (usize, usize), dr: int, dc: int, color: Color, diag: bool) -> bool {
    exists|k: int| #[trigger] ray_hit(b, sq.0 as int, sq.1 as int, dr, dc, k, color, slider_types(diag))
}

/// The square of that slider.
pub open spec fn ray_hit_sq(b: Board, sq: (usize, usize), dr: int, dc: int, color: Color, diag: bool) -> (int, int) {
    let k = choose|k: int| #[trigger] ray_hit(b, sq.0 as int, sq.1 as int, dr, dc, k, color, slider_types(diag));
    (ray_r(sq.0 as int, dr, k), ray_r(sq.1 as int, dc, k))
}

proof fn lemma_ray_hit_unique(b: Board, r: int, c: int, dr: int, dc: int, k1: int, k2: int, color: Color, ts: Seq<PieceType>)
    requires
        ray_hit(b, r, c, dr, dc, k1, color, ts),
        ray_hit(b, r, c, dr, dc, k2, color, ts),
    ensures
        k1 == k2,
{
    if k1 < k2 {
        assert(b.at(ray_r(r, dr, k1), ray_r(c, dc, k1)) is None);
    }
    if k2 < k1 {
        assert(b.at(ray_r(r, dr, k2), ray_r(c, dc, k2)) is None);
    }
}

/// The first slider of `color` along a ray from `sq`, if that is what the
/// first piece on the ray is.
fn scan_ray_for_attacker(board: &Board, sq: (usize, usize), dr: i32, dc: i32, color: Color, diag: bool) -> (res: Option<(usize, usize)>)
    requires
        on_board(sq),
        -1 <= dr <= 1,
        -1 <= dc <= 1,
        dr != 0 || dc != 0,
    ensures
        (res is Some) == ray_has_hit(*board, sq, dr as int, dc as int, color, diag),
        res matches Some(a) ==> on_board(a) && (a.0 as int, a.1 as int) == ray_hit_sq(*board, sq, dr as int, dc as int, color, diag),
{
    let types: [PieceType; 2] = if diag { [PieceType::Bishop, PieceType::Queen] } else { [PieceType::Rook, PieceType::Queen] };
    let ts: &[PieceType] = types.as_slice();
    assert(ts@ == slider_types(diag)) by {
        assert(ts@ =~= slider_types(diag));
    }
    match scan_ray(board, sq, dr, dc, color, ts) {
        Some((a, _p)) => {
            proof {
                let k = choose|k: int| #![trigger scale(k, dr as int)] ray_hit(*board, sq.0 as int, sq.1 as int, dr as int, dc as int, k, color, ts@)
                    && a.0 == ray_r(sq.0 as int, dr as int, k) && a.1 == ray_r(sq.1 as int, dc as int, k);
                assert(ray_hit(*board, sq.0 as int, sq.1 as int, dr as int, dc as int, k, color, slider_types(diag)));
                let k2 = choose|k: int| #[trigger] ray_hit(*board, sq.0 as int, sq.1 as int, dr as int, dc as int, k, color, slider_types(diag));
                lemma_ray_hit_unique(*board, sq.0 as int, sq.1 as int, dr as int, dc as int, k, k2, color, slider_types(diag));
            }
            Some(a)
        },
        None => {
            proof {
                assert forall|k: int| !#[trigger] ray_hit(*board, sq.0 as int, sq.1 as int, dr as int, dc as int, k, color, slider_types(diag)) by {
                    assert(!ray_hit(*board, sq.0 as int, sq.1 as int, dr as int, dc as int, k, color, ts@));
                }
            }
            None
        },
    }
}

fn piece_is_exec(board: &Board, r: i64, c: i64, color: Color, t: PieceType) -> (n: i32)
    requires
        -8 <= r <= 16,
        -8 <= c <= 16,
    ensures
        n == ind(piece_is(*board, r as int, c as int, color, t)),
{
    if r >= 0 && r < 8 && c >= 0 && c < 8 {
        match board.get(r as usize, c as usize) {
            Some(p) => if p.color == color && p.piece_type == t { 1 } else { 0 },
            None => 0,
        }
    } else {
        0
    }
}

pub open spec fn spec_pawn_knight_attackers(b: Board, sq: (usize, usize), color: Color) -> int {
    let r = sq.0 as int;
    let c = sq.1 as int;
    let pr = r + (if color == Color::White { -1int } else { 1int });
    ind(piece_is(b, pr, c - 1, color, PieceType::Pawn)) + ind(piece_is(b, pr, c + 1, color, PieceType::Pawn))
    + ind(piece_is(b, r - 2, c - 1, color, PieceType::Knight)) + ind(piece_is(b, r - 2, c + 1, color, PieceType::Knight))
    + ind(piece_is(b, r - 1, c - 2, color, PieceType::Knight)) + ind(piece_is(b, r - 1, c + 2, color, PieceType::Knight))
    + ind(piece_is(b, r + 1, c - 2, color, PieceType::Knight)) + ind(piece_is(b, r + 1, c + 2, color, PieceType::Knight))
    + ind(piece_is(b, r + 2, c - 1, color, PieceType::Knight)) + ind(piece_is(b, r + 2, c + 1, color, PieceType::Knight))
}

pub open spec fn spec_slider_attackers(b: Board, sq: (usize, usize), color: Color) -> int {
    ind(ray_has_hit(b, sq, -1, -1, color, true)) + ind(ray_has_hit(b, sq, -1, 1, color, true))
    + ind(ray_has_hit(b, sq, 1, -1, color, true)) + ind(ray_has_hit(b, sq, 1, 1, color, true))
    + ind(ray_has_hit(b, sq, -1, 0, color, false)) + ind(ray_has_hit(b, sq, 1, 0, color, false))
    + ind(ray_has_hit(b, sq, 0, -1, color, false)) + ind(ray_has_hit(b, sq, 0, 1, color, false))
}

pub open spec fn spec_king_attackers(b: Board, sq: (usize, usize), color: Color) -> int {
    let r = sq.0 as int;
    let c = sq.1 as int;
    ind(piece_is(b, r - 1, c - 1, color, PieceType::King)) + ind(piece_is(b, r - 1, c, color, PieceType::King))
    + ind(piece_is(b, r - 1, c + 1, color, PieceType::King)) + ind(piece_is(b, r, c - 1, color, PieceType::King))
    + ind(piece_is(b, r, c + 1, color, PieceType::King)) + ind(piece_is(b, r + 1, c - 1, color, PieceType::King))
    + ind(piece_is(b, r + 1, c, color, PieceType::King)) + ind(piece_is(b, r + 1, c + 1, color, PieceType::King))
}

/// The number of pieces of `color` attacking `sq`: pawns, knights, the
/// first slider on each of the eight rays, and kings.
pub open spec fn spec_count_attackers(b: Board, sq: (usize, usize), color: Color) -> int {
    spec_pawn_knight_attackers(b, sq, color) + spec_slider_attackers(b, sq, color) + spec_king_attackers(b, sq, color)
}

fn pawn_knight_attackers(board: &Board, sq: (usize, usize), attacker_color: Color) -> (n: i32)
    requires
        on_board(sq),
    ensures
        n == spec_pawn_knight_attackers(*board, sq, attacker_color),
        0 <= n <= 10,
{
    let r = sq.0 as i64;
    let c = sq.1 as i64;
    let pr: i64 = if attacker_color == Color::White { r - 1 } else { r + 1 };
    let a1 = piece_is_exec(board, pr, c - 1, attacker_color, PieceType::Pawn);
    let a2 = piece_is_exec(board, pr, c + 1, attacker_color, PieceType::Pawn);
    let n1 = piece_is_exec(board, r - 2, c - 1, attacker_color, PieceType::Knight);
    let n2 = piece_is_exec(board, r - 2, c + 1, attacker_color, PieceType::Knight);
    let n3 = piece_is_exec(board, r - 1, c - 2, attacker_color, PieceType::Knight);
    let n4 = piece_is_exec(board, r - 1, c + 2, attacker_color, PieceType::Knight);
    let n5 = piece_is_exec(board, r + 1, c - 2, attacker_color, PieceType::Knight);
    let n6 = piece_is_exec(board, r + 1, c + 2, attacker_color, PieceType::Knight);
    let n7 = piece_is_exec(board, r + 2, c - 1, attacker_color, PieceType::Knight);
    let n8 = piece_is_exec(board, r + 2, c + 1, attacker_color, PieceType::Knight);
    a1 + a2 + n1 + n2 + n3 + n4 + n5 + n6 + n7 + n8
}

fn slider_attackers(board: &Board, sq: (usize, usize), attacker_color: Color) -> (n: i32)
    requires
        on_board(sq),
    ensures
        n == spec_slider_attackers(*board, sq, attacker_color),
        0 <= n <= 8,
{
    let d1: i32 = if scan_ray_for_attacker(board, sq, -1, -1, attacker_color, true).is_some() { 1 } else { 0 };
    let d2: i32 = if scan_ray_for_attacker(board, sq, -1, 1, attacker_color, true).is_some() { 1 } else { 0 };
    let d3: i32 = if scan_ray_for_attacker(board, sq, 1, -1, attacker_color, true).is_some() { 1 } else { 0 };
    let d4: i32 = if scan_ray_for_attacker(board, sq, 1, 1, attacker_color, true).is_some() { 1 } else { 0 };
    let l1: i32 = if scan_ray_for_attacker(board, sq, -1, 0, attacker_color, false).is_some() { 1 } else { 0 };
    let l2: i32 = if scan_ray_for_attacker(board, sq, 1, 0, attacker_color, false).is_some() { 1 } else { 0 };
    let l3: i32 = if scan_ray_for_attacker(board, sq, 0, -1, attacker_color, false).is_some() { 1 } else { 0 };
    let l4: i32 = if scan_ray_for_attacker(board, sq, 0, 1, attacker_color, false).is_some() { 1 } else { 0 };
    d1 + d2 + d3 + d4 + l1 + l2 + l3 + l4
}

fn king_attackers(board: &Board, sq: (usize, usize), attacker_color: Color) -> (n: i32)
    requires
        on_board(sq),
    ensures
        n == spec_king_attackers(*board, sq, attacker_color),
        0 <= n <= 8,
{
    let r = sq.0 as i64;
    let c = sq.1 as i64;
    let k1 = piece_is_exec(board, r - 1, c - 1, attacker_color, PieceType::King);
    let k2 = piece_is_exec(board, r - 1, c, attacker_color, PieceType::King);
    let k3 = piece_is_exec(board, r - 1, c + 1, attacker_color, PieceType::King);
    let k4 = piece_is_exec(board, r, c - 1, attacker_color, PieceType::King);
    let k5 = piece_is_exec(board, r, c + 1, attacker_color, PieceType::King);
    let k6 = piece_is_exec(board, r + 1, c - 1, attacker_color, PieceType::King);
    let k7 = piece_is_exec(board, r + 1, c, attacker_color, PieceType::King);
    let k8 = piece_is_exec(board, r + 1, c + 1, attacker_color, PieceType::King);
    k1 + k2 + k3 + k4 + k5 + k6 + k7 + k8
}

/// The number of pieces of `attacker_color` bearing on `sq`.
fn count_attackers(board: &Board, sq: (usize, usize), attacker_color: Color) -> (n: i32)
    requires
        on_board(sq),
    ensures
        n == spec_count_attackers(*board, sq, attacker_color),
        0 <= n <= 26,
{
    pawn_knight_attackers(board, sq, attacker_color) + slider_attackers(board, sq, attacker_color)
        + king_attackers(board, sq, attacker_color)
}

/// Whether the squares strictly between two squares of a diagonal are empty.
fn is_clear_diagonal(board: &Board, from: (usize, usize), to: (usize, usize)) -> (clear: bool)
    requires
        on_board(from),
        on_board(to),
        from != to,
        iabs(to.0 - from.0) == iabs(to.1 - from.1),
    ensures
        clear == board.path_clear(from.0 as int, from.1 as int, to.0 as int, to.1 as int),
{
    board.path_clear_exec(from, to)
}

/// Whether the squares strictly between two squares of a rank or file are empty.
fn is_clear_line(board: &Board, from: (usize, usize), to: (usize, usize)) -> (clear: bool)
    requires
        on_board(from),
        on_board(to),
        from != to,
        from.0 == to.0 || from.1 == to.1,
    ensures
        clear == board.path_clear(from.0 as int, from.1 as int, to.0 as int, to.1 as int),
{
    board.path_clear_exec(from, to)
}

/// 1 when the piece on `moved_to` belongs to `defender_color` and attacks `sq`.
pub open spec fn spec_moved_defends(b: Board, sq: (usize, usize), defender_color: Color, moved_to: (usize, usize)) -> int {
    match b.at(moved_to.0 as int, moved_to.1 as int) {
        Some(p) => ind(p.color == defender_color
            && b.piece_attacks(p, moved_to.0 as int, moved_to.1 as int, sq.0 as int, sq.1 as int)),
        None => 0,
    }
}

fn count_defenders_for_piece_type(board: &Board, sq: (usize, usize), defender_color: Color, moved_to: (usize, usize)) -> (n: i32)
    requires
        on_board(sq),
        on_board(moved_to),
    ensures
        n == spec_moved_defends(*board, sq, defender_color, moved_to),
{
    match board.get(moved_to.0, moved_to.1) {
        Some(p) => {
            if p.color != defender_color {
                return 0;
            }
            let dr = sq.0 as i64 - moved_to.0 as i64;
            let dc = sq.1 as i64 - moved_to.1 as i64;
            let adr = if dr >= 0 { dr } else { -dr };
            let adc = if dc >= 0 { dc } else { -dc };
            let defends = match p.piece_type {
                PieceType::Pawn => {
                    let pawn_dir: i64 = if defender_color == Color::White { 1 } else { -1 };
                    dr == pawn_dir && adc == 1
                },
                PieceType::Knight => (adr == 2 && adc == 1) || (adr == 1 && adc == 2),
                PieceType::Bishop => adr == adc && dr != 0 && is_clear_diagonal(board, moved_to, sq),
                PieceType::Rook => (dr == 0 || dc == 0) && (dr != 0 || dc != 0) && is_clear_line(board, moved_to, sq),
                PieceType::Queen => (adr == adc && dr != 0 && is_clear_diagonal(board, moved_to, sq))
                    || ((dr == 0 || dc == 0) && (dr != 0 || dc != 0) && is_clear_line(board, moved_to, sq)),
                PieceType::King => adr <= 1 && adc <= 1 && (dr != 0 || dc != 0),
            };
            if defends { 1 } else { 0 }
        },
        None => 0,
    }
}

/// `point` lies strictly between `a` and `b` on the line through them.
pub open spec fn spec_on_line_between(a: (int, int), b: (int, int), point: (int, int)) -> bool {
    let dr = b.0 - a.0;
    let dc = b.1 - a.1;
    let pr = point.0 - a.0;
    let pc = point.1 - a.1;
    &&& pr * dc - pc * dr == 0
    &&& if dr != 0 {
        (pr > 0 && dr > 0 && pr < dr) || (pr < 0 && dr < 0 && pr > dr)
    } else if dc != 0 {
        (pc > 0 && dc > 0 && pc < dc) || (pc < 0 && dc < 0 && pc > dc)
    } else {
        false
    }
}

fn is_on_line_between(a: (usize, usize), b: (usize, usize), point: (usize, usize)) -> (r: bool)
    requires
        on_board(a),
        on_board(b),
        on_board(point),
    ensures
        r == spec_on_line_between((a.0 as int, a.1 as int), (b.0 as int, b.1 as int), (point.0 as int, point.1 as int)),
{
    let ar = a.0 as i64;
    let ac = a.1 as i64;
    let dr = b.0 as i64 - ar;
    let dc = b.1 as i64 - ac;
    let pr = point.0 as i64 - ar;
    let pc = point.1 as i64 - ac;
    assert(-8 <= pr <= 8 && -8 <= dc <= 8 && -8 <= pc <= 8 && -8 <= dr <= 8);
    assert(-64 <= pr * dc <= 64) by (nonlinear_arith)
        requires -8 <= pr <= 8, -8 <= dc <= 8;
    assert(-64 <= pc * dr <= 64) by (nonlinear_arith)
        requires -8 <= pc <= 8, -8 <= dr <= 8;
    let cross = pr * dc - pc * dr;
    if cross != 0 {
        return false;
    }
    if dr != 0 {
        (pr > 0 && dr > 0 && pr < dr) || (pr < 0 && dr < 0 && pr > dr)
    } else if dc != 0 {
        (pc > 0 && dc > 0 && pc < dc) || (pc < 0 && dc < 0 && pc > dc)
    } else {
        false
    }
}

/// Along direction `(dr, dc)` from the critical square, an enemy slider
/// attacked it before the move, the move landed between the two, and no
/// enemy slider attacks along that ray afterwards.
pub open spec fn blocks_dir(base: Board, post: Board, crit: (usize, usize), to: (usize, usize), opp: Color, dr: int, dc: int, diag: bool) -> bool {
    &&& ray_has_hit(base, crit, dr, dc, opp, diag)
    &&& spec_on_line_between(ray_hit_sq(base, crit, dr, dc, opp, diag), (crit.0 as int, crit.1 as int), (to.0 as int, to.1 as int))
    &&& !ray_has_hit(post, crit, dr, dc, opp, diag)
}

pub open spec fn spec_blocks(base: Board, post: Board, crit: (usize, usize), to: (usize, usize), opp: Color) -> bool {
    ||| blocks_dir(base, post, crit, to, opp, -1, -1, true)
    ||| blocks_dir(base, post, crit, to, opp, -1, 1, true)
    ||| blocks_dir(base, post, crit, to, opp, 1, -1, true)
    ||| blocks_dir(base, post, crit, to, opp, 1, 1, true)
    ||| blocks_dir(base, post, crit, to, opp, -1, 0, false)
    ||| blocks_dir(base, post, crit, to, opp, 1, 0, false)
    ||| blocks_dir(base, post, crit, to, opp, 0, -1, false)
    ||| blocks_dir(base, post, crit, to, opp, 0, 1, false)
}

fn block_on_ray(base: &Board, post: &Board, crit: (usize, usize), to: (usize, usize), opp: Color, dr: i32, dc: i32, diag: bool) -> (b: bool)
    requires
        on_board(crit),
        on_board(to),
        -1 <= dr <= 1,
        -1 <= dc <= 1,
        dr != 0 || dc != 0,
    ensures
        b == blocks_dir(*base, *post, crit, to, opp, dr as int, dc as int, diag),
{
    if let Some(attacker_sq) = scan_ray_for_attacker(base, crit, dr, dc, opp, diag) {
        if is_on_line_between(attacker_sq, crit, to) {
            if scan_ray_for_attacker(post, crit, dr, dc, opp, diag).is_none() {
                return true;
            }
        }
    }
    false
}

fn blocks_attack_on_critical(
    base_board: &Board,
    post_after: &Board,
    critical_sq: (usize, usize),
    _from: (usize, usize),
    to: (usize, usize),
    side: Color,
) -> (b: bool)
    requires
        on_board(critical_sq),
        on_board(to),
    ensures
        b == spec_blocks(*base_board, *post_after, critical_sq, to, spec_opposite(side)),
{
    let opp = opposite_color(side);
    if block_on_ray(base_board, post_after, critical_sq, to, opp, -1, -1, true) { return true; }
    if block_on_ray(base_board, post_after, critical_sq, to, opp, -1, 1, true) { return true; }
    if block_on_ray(base_board, post_after, critical_sq, to, opp, 1, -1, true) { return true; }
    if block_on_ray(base_board, post_after, critical_sq, to, opp, 1, 1, true) { return true; }
    if block_on_ray(base_board, post_after, critical_sq, to, opp, -1, 0, false) { return true; }
    if block_on_ray(base_board, post_after, critical_sq, to, opp, 1, 0, false) { return true; }
    if block_on_ray(base_board, post_after, critical_sq, to, opp, 0, -1, false) { return true; }
    if block_on_ray(base_board, post_after, critical_sq, to, opp, 0, 1, false) { return true; }
    false
}

/// The weak square of a side: f2 for White, f7 for Black.
pub open spec fn critical_square(side: Color) -> (usize, usize) {
    if side == Color::Black { (6usize, 5usize) } else { (1usize, 5usize) }
}

pub open spec fn spec_critical_defense(base: Board, post: Board, side: Color, to: (usize, usize)) -> int {
    let crit = critical_square(side);
    let opp = spec_opposite(side);
    if !base.attacked_by(crit.0 as int, crit.1 as int, opp) || spec_count_attackers(base, crit, opp) <= 1 {
        0
    } else {
        let bonus = (if spec_moved_defends(post, crit, side, to) > spec_moved_defends(base, crit, side, to) {
            CRITICAL_DEFENSE_BONUS as int } else { 0 })
            + (if spec_blocks(base, post, crit, to, opp) { BLOCKING_BONUS as int } else { 0 });
        spec_apply_for_side(bonus, side)
    }
}

/// With the weak square attacked by two or more pieces, 400 for adding a
/// defender on it and 200 for blocking an attack on it (signed for the side).
pub fn critical_square_defense_bonus(
    base_board: &Board,
    post_after: &Board,
    side: Color,
    from: (usize, usize),
    to: (usize, usize),
) -> (d: i32)
    requires
        on_board(from),
        on_board(to),
    ensures
        d == spec_critical_defense(*base_board, *post_after, side, to),
{
    let critical_sq: (usize, usize) = match side {
        Color::Black => (6, 5),
        Color::White => (1, 5),
    };
    if !base_board.is_square_attacked_by_opponent(critical_sq, side) {
        return 0;
    }
    let attackers_before = count_attackers(base_board, critical_sq, opposite_color(side));
    if attackers_before <= 1 {
        return 0;
    }
    let mut bonus: i32 = 0;
    let defenders_before = count_defenders_for_piece_type(base_board, critical_sq, side, to);
    let defenders_after = count_defenders_for_piece_type(post_after, critical_sq, side, to);
    if defenders_after > defenders_before {
        bonus = bonus + CRITICAL_DEFENSE_BONUS;
    }
    if blocks_attack_on_critical(base_board, post_after, critical_sq, from, to, side) {
        bonus = bonus + BLOCKING_BONUS;
    }
    apply_for_side(bonus, side)
}

} // verus!
