//! Root-move adjustments for tactics: enemy knight forks with check,
//! hanging pieces, checks that leave few replies, knights chased by pawns,
//! threatened pieces and enemy pawns about to promote.
use vstd::prelude::*;
use crate::pieces::{Color, Piece, PieceType, spec_opposite, opposite_color, piece_value_cp, spec_piece_value};
use crate::board::{Board, on_board, iabs, same_square};
use crate::game_state::{GameState, CastlingRights};
use crate::movegen::{Move, find_all_valid_moves, spec_generated, legal_moves, lists_legal_moves, lemma_listing_len};
use crate::see::{see_dest_estimate, see_value, apply_for_side, spec_apply_for_side, find_king_square, attacked_by_pawn,
    find_smallest_attacker, SEE_PENALTY_MIN_CP, SEE_PENALTY_MAX_CP};
use crate::root_heuristics::{spec_simulate, simulate_move, center_score, spec_center_score,
    CHECK_TIEBREAK_BASE, CHECK_MOBILITY_BONUS_0, CHECK_MOBILITY_BONUS_1_2, CHECK_MOBILITY_BONUS_3_5,
    KNIGHT_SAFE_EVAC_REWARD, KNIGHT_CENTER_EXTRA_D4, KNIGHT_CENTER_STEP, KNIGHT_SAFE_TO_SPECIFIC_REWARD,
    KNIGHT_IGNORE_PAWN_THREAT_PENALTY, KNIGHT_NON_EVAC_DEMOTION};

verus! {

pub const KNIGHT_CHECK_PENALTY: i32 = 300;
pub const KNIGHT_FORK_BONUS_PENALTY: i32 = 700;

pub open spec fn knight_step(a: (int, int), b: (int, int)) -> bool {
    (iabs(a.0 - b.0) == 2 && iabs(a.1 - b.1) == 1) || (iabs(a.0 - b.0) == 1 && iabs(a.1 - b.1) == 2)
}

/// The enemy knight on `(r, c)` can jump to `(r + dr, c + dc)` giving check
/// to the king on `king` while attacking the piece just moved to `to`, a
/// queen, rook, bishop or knight of `side`.
pub open spec fn fork_term(b: Board, side: Color, king: (usize, usize), to: (usize, usize), r: int, c: int, dr: int, dc: int) -> int {
    let d = (r + dr, c + dc);
    if 0 <= d.0 < 8 && 0 <= d.1 < 8
        && !(b.at(d.0, d.1) matches Some(q) && q.color == spec_opposite(side))
        && knight_step(d, (king.0 as int, king.1 as int))
        && knight_step(d, (to.0 as int, to.1 as int))
        && (b.at(to.0 as int, to.1 as int) matches Some(p) && p.color == side
            && (p.piece_type == PieceType::Queen || p.piece_type == PieceType::Rook
                || p.piece_type == PieceType::Bishop || p.piece_type == PieceType::Knight)) {
        KNIGHT_CHECK_PENALTY + KNIGHT_FORK_BONUS_PENALTY
    } else {
        0
    }
}

pub open spec fn forks_from(b: Board, side: Color, king: (usize, usize), to: (usize, usize), r: int, c: int) -> int {
    fork_term(b, side, king, to, r, c, -2, -1) + fork_term(b, side, king, to, r, c, -2, 1)
    + fork_term(b, side, king, to, r, c, -1, -2) + fork_term(b, side, king, to, r, c, -1, 2)
    + fork_term(b, side, king, to, r, c, 1, -2) + fork_term(b, side, king, to, r, c, 1, 2)
    + fork_term(b, side, king, to, r, c, 2, -1) + fork_term(b, side, king, to, r, c, 2, 1)
}

/// The fork penalties of the enemy knights on the first `n` squares.
pub open spec fn fork_total(b: Board, side: Color, king: (usize, usize), to: (usize, usize), n: int) -> int
    decreases n,
{
    if n <= 0 {
        0
    } else {
        fork_total(b, side, king, to, n - 1) + (match b.squares@[n - 1] {
            Some(p) => if p.color == spec_opposite(side) && p.piece_type == PieceType::Knight {
                forks_from(b, side, king, to, (n - 1) / 8, (n - 1) % 8)
            } else { 0 },
            None => 0,
        })
    }
}

fn fork_term_exec(b: &Board, side: Color, king: (usize, usize), to: (usize, usize), r: i64, c: i64, dr: i64, dc: i64) -> (v: i32)
    requires
        0 <= r < 8,
        0 <= c < 8,
        -2 <= dr <= 2,
        -2 <= dc <= 2,
        on_board(king),
        on_board(to),
    ensures
        v == fork_term(*b, side, king, to, r as int, c as int, dr as int, dc as int),
{
    let dest_r = r + dr;
    let dest_c = c + dc;
    if dest_r < 0 || dest_r >= 8 || dest_c < 0 || dest_c >= 8 {
        return 0;
    }
    let opp = opposite_color(side);
    if let Some(q) = b.get(dest_r as usize, dest_c as usize) {
        if q.color == opp {
            return 0;
        }
    }
    let kr = dest_r - king.0 as i64;
    let kc = dest_c - king.1 as i64;
    let akr = if kr >= 0 { kr } else { -kr };
    let akc = if kc >= 0 { kc } else { -kc };
    let gives_check = (akr == 2 && akc == 1) || (akr == 1 && akc == 2);
    if !gives_check {
        return 0;
    }
    let tr = dest_r - to.0 as i64;
    let tc = dest_c - to.1 as i64;
    let atr = if tr >= 0 { tr } else { -tr };
    let atc = if tc >= 0 { tc } else { -tc };
    let attacks_dest = (atr == 2 && atc == 1) || (atr == 1 && atc == 2);
    let forks_moved_piece = if attacks_dest {
        match b.get(to.0, to.1) {
            Some(p) => p.color == side && (p.piece_type == PieceType::Queen || p.piece_type == PieceType::Rook
                || p.piece_type == PieceType::Bishop || p.piece_type == PieceType::Knight),
            None => false,
        }
    } else {
        false
    };
    if forks_moved_piece { KNIGHT_CHECK_PENALTY + KNIGHT_FORK_BONUS_PENALTY } else { 0 }
}

fn forks_from_exec(b: &Board, side: Color, king: (usize, usize), to: (usize, usize), r: i64, c: i64) -> (v: i32)
    requires
        0 <= r < 8,
        0 <= c < 8,
        on_board(king),
        on_board(to),
    ensures
        v == forks_from(*b, side, king, to, r as int, c as int),
        0 <= v <= 8000,
{
    let t1 = fork_term_exec(b, side, king, to, r, c, -2, -1);
    let t2 = fork_term_exec(b, side, king, to, r, c, -2, 1);
    let t3 = fork_term_exec(b, side, king, to, r, c, -1, -2);
    let t4 = fork_term_exec(b, side, king, to, r, c, -1, 2);
    let t5 = fork_term_exec(b, side, king, to, r, c, 1, -2);
    let t6 = fork_term_exec(b, side, king, to, r, c, 1, 2);
    let t7 = fork_term_exec(b, side, king, to, r, c, 2, -1);
    let t8 = fork_term_exec(b, side, king, to, r, c, 2, 1);
    t1 + t2 + t3 + t4 + t5 + t6 + t7 + t8
}

/// Penalty (signed for the side) for letting an enemy knight jump with
/// check onto a square from which it also attacks the piece just moved.
pub fn opponent_knight_check_fork_penalty(post_after: &Board, side: Color, to: (usize, usize)) -> (d: i32)
    requires
        on_board(to),
    ensures
        (forall|r: int, c: int| 0 <= r < 8 && 0 <= c < 8 ==>
            #[trigger] post_after.at(r, c) != Some(Piece { piece_type: PieceType::King, color: side })) ==> d == 0,
        forall|k: (usize, usize)| on_board(k) && post_after.at(k.0 as int, k.1 as int) == Some(Piece { piece_type: PieceType::King, color: side })
            && (forall|r: int, c: int| 0 <= r < 8 && 0 <= c < 8 && (r < k.0 || (r == k.0 && c < k.1)) ==>
                #[trigger] post_after.at(r, c) != Some(Piece { piece_type: PieceType::King, color: side }))
            ==> d == spec_apply_for_side(-fork_total(*post_after, side, k, to, 64), side),
{
    let king = find_king_square(post_after, side);
    let (king_r, king_c) = match king {
        Some(k) => k,
        None => return 0,
    };
    let mut total: i32 = 0;
    let mut i: usize = 0;
    while i < 64
        invariant
            i <= 64,
            on_board(to),
            on_board((king_r, king_c)),
            total == fork_total(*post_after, side, (king_r, king_c), to, i as int),
            0 <= total <= 8000 * i,
        decreases 64 - i,
    {
        let r = i / 8;
        let c = i % 8;
        assert(post_after.squares@[i as int] == post_after.at(r as int, c as int));
        let t: i32 = match post_after.squares[i] {
            Some(p) => if p.color != side && p.piece_type == PieceType::Knight {
                forks_from_exec(post_after, side, (king_r, king_c), to, r as i64, c as i64)
            } else { 0 },
            None => 0,
        };
        total = total + t;
        i = i + 1;
    }
    proof {
        assert forall|k: (usize, usize)| on_board(k) && post_after.at(k.0 as int, k.1 as int) == Some(Piece { piece_type: PieceType::King, color: side })
            && (forall|r: int, c: int| 0 <= r < 8 && 0 <= c < 8 && (r < k.0 || (r == k.0 && c < k.1)) ==>
                #[trigger] post_after.at(r, c) != Some(Piece { piece_type: PieceType::King, color: side }))
            implies k == (king_r, king_c) by {
            if king_r < k.0 || (king_r == k.0 && king_c < k.1) {
                assert(post_after.at(king_r as int, king_c as int) != Some(Piece { piece_type: PieceType::King, color: side }));
            }
        }
    }
    apply_for_side(-total, side)
}

/// The position with `b` on the board and `side` to move, no castling
/// rights and no en-passant square.
pub open spec fn position_of(b: Board, side: Color) -> GameState {
    GameState {
        board: b,
        active_color: side,
        castling: CastlingRights { wk: false, wq: false, bk: false, bq: false },
        en_passant: None,
        half_move_clock: 0,
        full_move_number: 1,
    }
}

/// The reply bonus for a checked side with `n` legal replies: 50 for none,
/// 20 for one or two, 10 for three to five, else 0.
pub open spec fn mobility_bonus(n: int) -> int {
    if n == 0 {
        CHECK_MOBILITY_BONUS_0 as int
    } else if n <= 2 {
        CHECK_MOBILITY_BONUS_1_2 as int
    } else if n <= 5 {
        CHECK_MOBILITY_BONUS_3_5 as int
    } else {
        0
    }
}

/// Bonus for a check by how many replies the checked side has: 50 for
/// none, 20 for one or two, 10 for three to five, else 0.
pub fn check_mobility_bonus_for_side(post_after: &Board, checked_side: Color) -> (bonus: i32)
    requires
        post_after.wf(),
    ensures
        bonus == mobility_bonus(legal_moves(position_of(*post_after, checked_side)).len() as int),
        lists_legal_moves(position_of(*post_after, checked_side), legal_moves(position_of(*post_after, checked_side))),
        (bonus == CHECK_MOBILITY_BONUS_0) <==> (forall|m: Move| !#[trigger] spec_generated(position_of(*post_after, checked_side), m)),
{
    let mut opp_state = GameState::from_board_and_side(*post_after, checked_side);
    assert(opp_state == position_of(*post_after, checked_side));
    let ghost g0 = opp_state;
    let replies = find_all_valid_moves(&mut opp_state);
    let n = replies.len();
    proof {
        lemma_listing_len(g0, replies@);
        if n > 0 {
            assert(replies@.contains(replies@[0]));
            assert(spec_generated(g0, replies@[0]));
        } else {
            assert forall|m: Move| !#[trigger] spec_generated(position_of(*post_after, checked_side), m) by {
                if spec_generated(g0, m) {
                    assert(replies@.contains(m));
                }
            }
        }
    }
    if n == 0 {
        CHECK_MOBILITY_BONUS_0
    } else if n <= 2 {
        CHECK_MOBILITY_BONUS_1_2
    } else if n <= 5 {
        CHECK_MOBILITY_BONUS_3_5
    } else {
        0
    }
}

/// The penalty for one hanging piece of kind `t` whose exchange value is `see`.
pub open spec fn hang_penalty(t: PieceType, see: int) -> int {
    match t {
        PieceType::Queen => crate::see::clamp_int(-see * 8, 400, 6000),
        PieceType::Rook => crate::see::clamp_int(-see * 3, 300, 2000),
        PieceType::Knight | PieceType::Bishop => crate::see::clamp_int(-see * 2, SEE_PENALTY_MIN_CP as int, 800),
        _ => crate::see::clamp_int(-see, SEE_PENALTY_MIN_CP as int, SEE_PENALTY_MAX_CP as int) / 2,
    }
}

fn hang_penalty_exec(t: PieceType, see: i32) -> (pen: i32)
    requires
        -640_000 <= see < 0,
    ensures
        pen == hang_penalty(t, see as int),
        40 <= pen <= 6000,
{
    match t {
        PieceType::Queen => {
            let x = -see * 8;
            if x < 400 { 400 } else if x > 6000 { 6000 } else { x }
        },
        PieceType::Rook => {
            let x = -see * 3;
            if x < 300 { 300 } else if x > 2000 { 2000 } else { x }
        },
        PieceType::Knight | PieceType::Bishop => {
            let x = -see * 2;
            if x < SEE_PENALTY_MIN_CP { SEE_PENALTY_MIN_CP } else if x > 800 { 800 } else { x }
        },
        _ => {
            let x = -see;
            let y = if x < SEE_PENALTY_MIN_CP { SEE_PENALTY_MIN_CP } else if x > SEE_PENALTY_MAX_CP { SEE_PENALTY_MAX_CP } else { x };
            y / 2
        },
    }
}

pub open spec fn own_attacked_at(b: Board, side: Color, r: int, c: int) -> bool {
    &&& b.at(r, c) matches Some(p)
    &&& p.color == side
    &&& b.attacked_by(r, c, spec_opposite(side))
}

/// The check part of the adjustment: for a check, 10 plus the reply bonus of
/// the checked side.
pub open spec fn check_term(gives_check: bool, post: Board, opp: Color) -> int {
    if gives_check {
        CHECK_TIEBREAK_BASE as int + mobility_bonus(legal_moves(position_of(post, opp)).len() as int)
    } else {
        0
    }
}

pub open spec fn hang_and_check(hang: int, cb: int, side: Color) -> int {
    spec_apply_for_side(-hang + cb, side)
}

/// The hanging-piece entry of square `(r, c)`: a piece of `side` other than
/// the one on `to`, attacked by the other side and losing its exchange,
/// gives its penalty and a count of one.
pub open spec fn hang_entry(b: Board, side: Color, to: (usize, usize), r: int, c: int) -> (int, int) {
    let see = see_value(b, side, (r as usize, c as usize), 0);
    if (r != to.0 || c != to.1) && own_attacked_at(b, side, r, c) && see < 0 {
        (hang_penalty(b.at(r, c).unwrap().piece_type, see), 1)
    } else {
        (0, 0)
    }
}

/// The hanging-piece entries of the first `c` squares of row `r`, added up.
pub open spec fn hang_row(b: Board, side: Color, to: (usize, usize), r: int, c: int) -> (int, int)
    decreases c,
{
    if c <= 0 {
        (0, 0)
    } else {
        let p = hang_row(b, side, to, r, c - 1);
        let e = hang_entry(b, side, to, r, c - 1);
        (p.0 + e.0, p.1 + e.1)
    }
}

/// The hanging-piece entries of the first `r` rows, added up.
pub open spec fn hang_rows(b: Board, side: Color, to: (usize, usize), r: int) -> (int, int)
    decreases r,
{
    if r <= 0 {
        (0, 0)
    } else {
        let p = hang_rows(b, side, to, r - 1);
        let e = hang_row(b, side, to, r - 1, 8);
        (p.0 + e.0, p.1 + e.1)
    }
}

/// The hanging penalty after a move to `to`: each hanging piece's penalty,
/// plus 100 for every hanging piece beyond the first.
pub open spec fn hang_total(b: Board, side: Color, to: (usize, usize)) -> int {
    let t = hang_rows(b, side, to, 8);
    t.0 + (if t.1 > 1 { 100 * (t.1 - 1) } else { 0 })
}

/// Penalty for own pieces left hanging after the move (each by its losing
/// exchange, plus 100 for every hanging piece beyond the first), and for a
/// check a bonus of 10 plus the reply bonus; signed for the side.
pub fn self_hang_or_check_mobility(
    _base_board: &Board,
    post_after: &Board,
    side: Color,
    _from: (usize, usize),
    to: (usize, usize),
    gives_check: bool,
    opp: Color,
) -> (d: i32)
    requires
        on_board(to),
        gives_check ==> post_after.wf(),
    ensures
        d == hang_and_check(hang_total(*post_after, side, to), check_term(gives_check, *post_after, opp), side),
        0 <= hang_total(*post_after, side, to) <= 400_000,
{
    let mut total_penalty: i32 = 0;
    let mut hanging_pieces_found: i32 = 0;
    let mut r: usize = 0;
    while r < 8
        invariant
            r <= 8,
            on_board(to),
            0 <= hanging_pieces_found <= 8 * r,
            0 <= total_penalty <= 6000 * hanging_pieces_found,
            (total_penalty as int, hanging_pieces_found as int) == hang_rows(*post_after, side, to, r as int),
        decreases 8 - r,
    {
        let mut c: usize = 0;
        while c < 8
            invariant
                r < 8,
                c <= 8,
                on_board(to),
                0 <= hanging_pieces_found <= 8 * r + c,
                0 <= total_penalty <= 6000 * hanging_pieces_found,
                total_penalty as int == hang_rows(*post_after, side, to, r as int).0 + hang_row(*post_after, side, to, r as int, c as int).0,
                hanging_pieces_found as int == hang_rows(*post_after, side, to, r as int).1 + hang_row(*post_after, side, to, r as int, c as int).1,
            decreases 8 - c,
        {
            if !(same_square((r, c), to)) {
                if let Some(p) = post_after.get(r, c) {
                    if p.color == side && post_after.is_square_attacked_by_opponent((r, c), side) {
                        let see = see_dest_estimate(post_after, side, (r, c), 0);
                        if see < 0 {
                            proof {
                                assert(own_attacked_at(*post_after, side, r as int, c as int));
                            }
                            hanging_pieces_found = hanging_pieces_found + 1;
                            let pen = hang_penalty_exec(p.piece_type, see);
                            total_penalty = total_penalty + pen;
                        }
                    }
                }
            }
            c = c + 1;
        }
        r = r + 1;
    }
    if hanging_pieces_found > 1 {
        total_penalty = total_penalty + 100 * (hanging_pieces_found - 1);
    }
    let hang_pen: i32 = if total_penalty > 0 { -total_penalty } else { 0 };
    let mut check_bonus: i32 = 0;
    if gives_check {
        check_bonus = check_bonus + CHECK_TIEBREAK_BASE;
        check_bonus = check_bonus + check_mobility_bonus_for_side(post_after, opp);
    }
    let d = apply_for_side(hang_pen + check_bonus, side);
    proof {
        assert(d == hang_and_check(hang_total(*post_after, side, to), check_bonus as int, side));
    }
    d
}

/// `(tr, tc)` is a knight jump from `from` that does not land on a piece
/// of `side`.
pub open spec fn knight_target(b: Board, side: Color, from: (usize, usize), t: (usize, usize)) -> bool {
    &&& on_board(t)
    &&& knight_step((from.0 as int, from.1 as int), (t.0 as int, t.1 as int))
    &&& !(b.at(t.0 as int, t.1 as int) matches Some(occ) && occ.color == side)
}

/// The jump by `(dr, dc)` from `from` as a list: the landing square when it
/// is a safe knight target, else nothing.
pub open spec fn safe_jump(b: Board, side: Color, from: (usize, usize), dr: int, dc: int) -> Seq<(usize, usize)> {
    let nr = from.0 + dr;
    let nc = from.1 + dc;
    if 0 <= nr < 8 && 0 <= nc < 8 && knight_safe_target(b, side, from, (nr as usize, nc as usize)) {
        seq![(nr as usize, nc as usize)]
    } else {
        Seq::empty()
    }
}

/// The safe knight jumps from `from`, in the order the jumps are tried.
pub open spec fn safe_jumps(b: Board, side: Color, from: (usize, usize)) -> Seq<(usize, usize)> {
    safe_jump(b, side, from, 2, 1) + safe_jump(b, side, from, 2, -1)
        + safe_jump(b, side, from, -2, 1) + safe_jump(b, side, from, -2, -1)
        + safe_jump(b, side, from, 1, 2) + safe_jump(b, side, from, 1, -2)
        + safe_jump(b, side, from, -1, 2) + safe_jump(b, side, from, -1, -2)
}

fn try_knight_square(
    board: &Board,
    side: Color,
    from: (usize, usize),
    dr: i64,
    dc: i64,
    v: &mut Vec<(usize, usize)>,
)
    requires
        on_board(from),
        (dr == 1 || dr == -1 || dr == 2 || dr == -2),
        (dc == 1 || dc == -1 || dc == 2 || dc == -2),
        iabs(dr as int) != iabs(dc as int),
    ensures
        forall|t: (usize, usize)| #[trigger] final(v)@.contains(t) <==> old(v)@.contains(t)
            || (knight_safe_target(*board, side, from, t) && t.0 == from.0 + dr && t.1 == from.1 + dc),
        final(v)@ == old(v)@ + safe_jump(*board, side, from, dr as int, dc as int),
{
    let nr = from.0 as i64 + dr;
    let nc = from.1 as i64 + dc;
    if nr < 0 || nr > 7 || nc < 0 || nc > 7 {
        assert(v@ =~= v@ + safe_jump(*board, side, from, dr as int, dc as int));
        return;
    }
    let t = (nr as usize, nc as usize);
    if let Some(occ) = board.get(t.0, t.1) {
        if occ.color == side {
            assert(v@ =~= v@ + safe_jump(*board, side, from, dr as int, dc as int));
            return;
        }
    }
    let (sim, _) = simulate_move(board, from, t, None);
    if !sim.is_square_attacked_by_opponent(t, side) || see_dest_estimate(&sim, side, t, 0) >= 0 {
        let ghost before = v@;
        v.push(t);
        proof {
            assert forall|x: (usize, usize)| #[trigger] v@.contains(x) <==> before.contains(x) || x == t by {
                crate::seq_facts::lemma_push_contains(before, t, x);
            }
            assert(v@ =~= before + safe_jump(*board, side, from, dr as int, dc as int));
        }
    } else {
        assert(v@ =~= v@ + safe_jump(*board, side, from, dr as int, dc as int));
    }
}

/// A knight jump from `from` to `t` that lands on a square the enemy does
/// not attack after the jump, or where the exchange does not lose.
pub open spec fn knight_safe_target(b: Board, side: Color, from: (usize, usize), t: (usize, usize)) -> bool {
    knight_target(b, side, from, t) && lands_safely(b, side, from, t)
}

/// The knight jumps from `from` that land on a square the enemy does not
/// attack after the jump, or where the exchange does not lose (in the order
/// of the jumps tried).
pub fn knight_safe_squares(board: &Board, side: Color, from: (usize, usize)) -> (v: Vec<(usize, usize)>)
    requires
        on_board(from),
    ensures
        forall|t: (usize, usize)| #[trigger] v@.contains(t) <==> knight_safe_target(*board, side, from, t),
        v@ == safe_jumps(*board, side, from),
{
    let mut v: Vec<(usize, usize)> = Vec::new();
    try_knight_square(board, side, from, 2, 1, &mut v);
    try_knight_square(board, side, from, 2, -1, &mut v);
    try_knight_square(board, side, from, -2, 1, &mut v);
    try_knight_square(board, side, from, -2, -1, &mut v);
    try_knight_square(board, side, from, 1, 2, &mut v);
    try_knight_square(board, side, from, 1, -2, &mut v);
    try_knight_square(board, side, from, -1, 2, &mut v);
    try_knight_square(board, side, from, -1, -2, &mut v);
    proof {
        assert(v@ =~= safe_jumps(*board, side, from));
        assert forall|t: (usize, usize)| #[trigger] knight_safe_target(*board, side, from, t) implies v@.contains(t) by {
            let dr = t.0 - from.0;
            let dc = t.1 - from.1;
            assert(t == ((from.0 + dr) as usize, (from.1 + dc) as usize));
        }
    }
    v
}

fn contains_square(v: &Vec<(usize, usize)>, sq: (usize, usize)) -> (b: bool)
    ensures
        b == v@.contains(sq),
{
    let mut i: usize = 0;
    while i < v.len()
        invariant
            i <= v@.len(),
            forall|j: int| 0 <= j < i ==> v@[j] != sq,
        decreases v@.len() - i,
    {
        if same_square(v[i], sq) {
            return true;
        }
        i = i + 1;
    }
    false
}

/// A knight of `side` on `(r, c)` that an enemy pawn attacks.
pub open spec fn chased_knight(b: Board, side: Color, r: int, c: int) -> bool {
    &&& b.at(r, c) == Some(Piece { piece_type: PieceType::Knight, color: side })
    &&& b.pawn_attacked_by(r, c, spec_opposite(side))
}

/// The bonus for a knight fleeing a pawn to a safe square: 3, 20 per centre
/// square, 1 more on d4.
pub open spec fn knight_flight_bonus(to: (usize, usize)) -> int {
    KNIGHT_SAFE_EVAC_REWARD + 80 + (if to == (3usize, 3usize) { KNIGHT_CENTER_EXTRA_D4 as int } else { 0 })
}

/// After the move `from`-`to` the piece on `to` is not attacked, or its
/// exchange does not lose.
pub open spec fn lands_safely(b: Board, side: Color, from: (usize, usize), to: (usize, usize)) -> bool {
    let sim = spec_simulate(b, from, to, None);
    !sim.attacked_by(to.0 as int, to.1 as int, spec_opposite(side)) || see_value(sim, side, to, 0) >= 0
}

/// The chased-knight adjustment of the move `from`-`to` (see
/// `knight_evacuations_priority`), signed for the side.
pub open spec fn knight_evac_term(b: Board, side: Color, from: (usize, usize), to: (usize, usize), gives_check: bool) -> int {
    if gives_check || !(exists|r: int, c: int| 0 <= r < 8 && 0 <= c < 8 && #[trigger] chased_knight(b, side, r, c)) {
        0
    } else if !chased_knight(b, side, from.0 as int, from.1 as int) {
        -spec_apply_for_side(500, side)
    } else if lands_safely(b, side, from, to) {
        spec_apply_for_side(knight_flight_bonus(to), side)
    } else {
        -spec_apply_for_side(150, side)
    }
}

/// With knights of the side attacked by enemy pawns: 500 against moves that
/// do not move one of them, and for moving one, a bonus when it lands safely
/// (not attacked, or not losing the exchange) and 150 against otherwise;
/// signed for the side.
pub fn knight_evacuations_priority(
    base_board: &Board,
    side: Color,
    from: (usize, usize),
    to: (usize, usize),
    gives_check: bool,
) -> (d: i32)
    requires
        on_board(from),
        on_board(to),
    ensures
        gives_check ==> d == 0,
        !gives_check && !(exists|r: int, c: int| 0 <= r < 8 && 0 <= c < 8 && #[trigger] chased_knight(*base_board, side, r, c)) ==> d == 0,
        !gives_check && (exists|r: int, c: int| 0 <= r < 8 && 0 <= c < 8 && #[trigger] chased_knight(*base_board, side, r, c))
            && !chased_knight(*base_board, side, from.0 as int, from.1 as int) ==> d == -spec_apply_for_side(500, side),
        !gives_check && chased_knight(*base_board, side, from.0 as int, from.1 as int) ==>
            d == (if lands_safely(*base_board, side, from, to) { spec_apply_for_side(knight_flight_bonus(to), side) }
                else { -spec_apply_for_side(150, side) }),
        d == knight_evac_term(*base_board, side, from, to, gives_check),
{
    if gives_check {
        return 0;
    }
    let opp = opposite_color(side);
    let mut attacked_knights: Vec<(usize, usize)> = Vec::new();
    let mut r: usize = 0;
    while r < 8
        invariant
            r <= 8,
            opp == spec_opposite(side),
            forall|sq: (usize, usize)| #[trigger] attacked_knights@.contains(sq) ==> on_board(sq) && chased_knight(*base_board, side, sq.0 as int, sq.1 as int),
            forall|r2: int, c2: int| 0 <= r2 < r && 0 <= c2 < 8 && #[trigger] chased_knight(*base_board, side, r2, c2)
                ==> attacked_knights@.contains((r2 as usize, c2 as usize)),
        decreases 8 - r,
    {
        let mut c: usize = 0;
        while c < 8
            invariant
                r < 8,
                c <= 8,
                opp == spec_opposite(side),
                forall|sq: (usize, usize)| #[trigger] attacked_knights@.contains(sq) ==> on_board(sq) && chased_knight(*base_board, side, sq.0 as int, sq.1 as int),
                forall|r2: int, c2: int| 0 <= r2 < r && 0 <= c2 < 8 && #[trigger] chased_knight(*base_board, side, r2, c2)
                    ==> attacked_knights@.contains((r2 as usize, c2 as usize)),
                forall|c2: int| 0 <= c2 < c && #[trigger] chased_knight(*base_board, side, r as int, c2)
                    ==> attacked_knights@.contains((r, c2 as usize)),
            decreases 8 - c,
        {
            let occ = base_board.get(r, c);
            let is_chased = match occ {
                Some(p) => p.color == side && p.piece_type == PieceType::Knight && attacked_by_pawn(base_board, (r, c), opp),
                None => false,
            };
            proof {
                if chased_knight(*base_board, side, r as int, c as int) {
                    assert(occ == Some(Piece { piece_type: PieceType::Knight, color: side }));
                    assert(base_board.pawn_attacked_by(r as int, c as int, opp));
                }
            }
            proof {
                if is_chased {
                    assert(base_board.at(r as int, c as int) == Some(Piece { piece_type: PieceType::Knight, color: side }));
                }
                assert(is_chased == chased_knight(*base_board, side, r as int, c as int));
            }
            if is_chased {
                let ghost before = attacked_knights@;
                attacked_knights.push((r, c));
                proof {
                    assert forall|sq: (usize, usize)| #[trigger] attacked_knights@.contains(sq) implies on_board(sq) && chased_knight(*base_board, side, sq.0 as int, sq.1 as int) by {
                        crate::seq_facts::lemma_push_contains(before, (r, c), sq);
                    }
                    assert forall|r2: int, c2: int| 0 <= r2 < r && 0 <= c2 < 8 && #[trigger] chased_knight(*base_board, side, r2, c2)
                        implies attacked_knights@.contains((r2 as usize, c2 as usize)) by {
                        crate::seq_facts::lemma_push_contains(before, (r, c), (r2 as usize, c2 as usize));
                    }
                    assert forall|c2: int| 0 <= c2 < c + 1 && #[trigger] chased_knight(*base_board, side, r as int, c2)
                        implies attacked_knights@.contains((r, c2 as usize)) by {
                        crate::seq_facts::lemma_push_contains(before, (r, c), (r, c2 as usize));
                    }
                }
            }
            c = c + 1;
        }
        r = r + 1;
    }
    if attacked_knights.len() == 0 {
        proof {
            assert forall|r2: int, c2: int| 0 <= r2 < 8 && 0 <= c2 < 8 implies !#[trigger] chased_knight(*base_board, side, r2, c2) by {
                if chased_knight(*base_board, side, r2, c2) {
                    assert(attacked_knights@.contains((r2 as usize, c2 as usize)));
                }
            }
        }
        return 0;
    }
    proof {
        assert(attacked_knights@.contains(attacked_knights@[0]));
        let sq = attacked_knights@[0];
        assert(chased_knight(*base_board, side, sq.0 as int, sq.1 as int));
    }
    let mut delta: i32 = 0;
    if !contains_square(&attacked_knights, from) {
        delta = delta - apply_for_side(500, side);
    } else if let Some(p) = base_board.get(from.0, from.1) {
        if p.piece_type == PieceType::Knight {
            let (sim, _) = simulate_move(base_board, from, to, None);
            let dest_attacked = sim.is_square_attacked_by_opponent(to, side);
            let see1 = see_dest_estimate(&sim, side, to, 0);
            if !dest_attacked || see1 >= 0 {
                let mut evac: i32 = KNIGHT_SAFE_EVAC_REWARD;
                let mut k: usize = 0;
                while k < 4
                    invariant
                        k <= 4,
                        evac == KNIGHT_SAFE_EVAC_REWARD + 20 * k,
                    decreases 4 - k,
                {
                    let v = 20 - KNIGHT_CENTER_STEP * 1;
                    evac = evac + if v > 0 { v } else { 0 };
                    k = k + 1;
                }
                if same_square(to, (3, 3)) {
                    evac = evac + KNIGHT_CENTER_EXTRA_D4;
                }
                delta = delta + apply_for_side(evac, side);
            } else {
                delta = delta - apply_for_side(150, side);
            }
        }
    }
    delta
}

/// Centre bonus for a knight's new square, 80 more on d4 and 80 more on one
/// of its safe squares, and 4 more for fleeing a pawn to a safe square.
pub open spec fn spec_knight_evac_bonus(to: (usize, usize), on_safe: bool, by_pawn: bool) -> int {
    let cb = spec_center_score(to) + (if to == (3usize, 3usize) { 80int } else { 0 }) + (if on_safe { 80int } else { 0 });
    (if cb > 0 { cb } else { 0 }) + (if by_pawn && on_safe { KNIGHT_SAFE_TO_SPECIFIC_REWARD as int } else { 0 })
}

fn knight_evacuation_bonus(to: (usize, usize), knight_safe: &Vec<(usize, usize)>, by_pawn: bool) -> (b: i32)
    requires
        on_board(to),
    ensures
        b == spec_knight_evac_bonus(to, knight_safe@.len() > 0 && knight_safe@.contains(to), by_pawn),
        0 <= b <= 224,
{
    let mut bonus: i32 = 0;
    let mut cb = center_score(to);
    if same_square(to, (3, 3)) {
        cb = cb + 80;
    }
    let on_safe = knight_safe.len() > 0 && contains_square(knight_safe, to);
    if on_safe {
        cb = cb + 80;
    }
    bonus = bonus + if cb > 0 { cb } else { 0 };
    if by_pawn && on_safe {
        bonus = bonus + KNIGHT_SAFE_TO_SPECIFIC_REWARD;
    }
    bonus
}

pub open spec fn is_color_piece(b: Board, r: int, c: int, color: Color) -> bool {
    b.at(r, c) matches Some(p) && p.color == color
}

/// The enemy pawn on column `col` one step from promotion can still promote
/// after the move `to`: it was not taken, and it can advance or capture.
pub open spec fn promo_threat_at(base: Board, post: Board, side: Color, to: (usize, usize), col: int) -> bool {
    let opp = spec_opposite(side);
    let pr: int = if opp == Color::White { 6 } else { 1 };
    let qr: int = if opp == Color::White { 7 } else { 0 };
    let pawn = Piece { piece_type: PieceType::Pawn, color: opp };
    let can_advance = base.at(qr, col) is None && !(to.0 == qr && to.1 == col);
    let left = col > 0 && is_color_piece(base, qr, col - 1, side) && !(to.0 == qr && to.1 == col - 1);
    let right = col < 7 && is_color_piece(base, qr, col + 1, side) && is_color_piece(post, qr, col + 1, side);
    &&& base.at(pr, col) == Some(pawn)
    &&& !(to.0 == pr && to.1 == col)
    &&& post.at(pr, col) == Some(pawn)
    &&& (can_advance || left || right)
}

/// The promotion threats on the first `n` columns, 1200 each against the side.
pub open spec fn promo_threat_sum(base: Board, post: Board, side: Color, to: (usize, usize), n: int) -> int
    decreases n,
{
    if n <= 0 {
        0
    } else {
        promo_threat_sum(base, post, side, to, n - 1)
            + (if promo_threat_at(base, post, side, to, n - 1) { if side == Color::White { -1200int } else { 1200int } } else { 0 })
    }
}

fn detect_opponent_promotion_threat(
    base_board: &Board,
    post_after: &Board,
    side: Color,
    _from: (usize, usize),
    to: (usize, usize),
) -> (t: i32)
    ensures
        t == promo_threat_sum(*base_board, *post_after, side, to, 8),
        -9600 <= t <= 9600,
{
    let opp = opposite_color(side);
    let promotion_rank: usize = match opp {
        Color::White => 6,
        Color::Black => 1,
    };
    let promotion_square_rank: usize = match opp {
        Color::White => 7,
        Color::Black => 0,
    };
    let mut threat_penalty: i32 = 0;
    let mut col: usize = 0;
    while col < 8
        invariant
            col <= 8,
            opp == spec_opposite(side),
            promotion_rank == (if opp == Color::White { 6usize } else { 1usize }),
            promotion_square_rank == (if opp == Color::White { 7usize } else { 0usize }),
            threat_penalty == promo_threat_sum(*base_board, *post_after, side, to, col as int),
            -1200 * col <= threat_penalty <= 1200 * col,
        decreases 8 - col,
    {
        let mut threat = false;
        if let Some(p) = base_board.get(promotion_rank, col) {
            if p.color == opp && p.piece_type == PieceType::Pawn && !same_square(to, (promotion_rank, col)) {
                let pawn_still_exists = match post_after.get(promotion_rank, col) {
                    Some(q) => q.color == opp && q.piece_type == PieceType::Pawn,
                    None => false,
                };
                if pawn_still_exists {
                    let can_advance_straight = base_board.get(promotion_square_rank, col).is_none();
                    let blocked_straight_by_us = same_square(to, (promotion_square_rank, col));
                    let mut can_capture_diagonal = false;
                    if col > 0 {
                        if let Some(piece) = base_board.get(promotion_square_rank, col - 1) {
                            if piece.color == side {
                                can_capture_diagonal = !same_square(to, (promotion_square_rank, col - 1));
                            }
                        }
                    }
                    if col < 7 {
                        if let Some(piece) = base_board.get(promotion_square_rank, col + 1) {
                            if piece.color == side {
                                let piece_still_there = match post_after.get(promotion_square_rank, col + 1) {
                                    Some(q) => q.color == side,
                                    None => false,
                                };
                                if piece_still_there {
                                    can_capture_diagonal = true;
                                }
                            }
                        }
                    }
                    threat = (can_advance_straight && !blocked_straight_by_us) || can_capture_diagonal;
                }
            }
        }
        proof {
            let pawn = Piece { piece_type: PieceType::Pawn, color: opp };
            assert(threat == promo_threat_at(*base_board, *post_after, side, to, col as int));
        }
        if threat {
            let penalty_value: i32 = match side {
                Color::White => -1200,
                Color::Black => 1200,
            };
            threat_penalty = threat_penalty + penalty_value;
        }
        col = col + 1;
    }
    threat_penalty
}

/// Some piece of `side` stands on a square the other side attacks.
pub open spec fn some_own_piece_attacked(b: Board, side: Color) -> bool {
    exists|r: int, c: int| 0 <= r < 8 && 0 <= c < 8 && #[trigger] own_attacked_at(b, side, r, c)
}

/// The evacuation reward base of a piece kind.
pub open spec fn evac_base_value(pt: PieceType) -> int {
    match pt {
        PieceType::Queen => 800,
        PieceType::Rook => 600,
        PieceType::Bishop | PieceType::Knight => 500,
        PieceType::Pawn => 300,
        PieceType::King => 1000,
    }
}

/// The penalty for leaving a piece of this kind under a real threat.
pub open spec fn neglect_value(pt: PieceType) -> int {
    match pt {
        PieceType::Knight | PieceType::Bishop => 200,
        PieceType::Rook => 120,
        PieceType::Queen => 80,
        PieceType::Pawn => 40,
        PieceType::King => 400,
    }
}

/// The cheapest enemy attacker of `sq` is worth no more than a piece of kind `pt`.
pub open spec fn cheap_attacker(b: Board, side: Color, sq: (usize, usize), pt: PieceType) -> bool {
    match crate::see::cheapest_attacker(b, sq.0 as int, sq.1 as int, spec_opposite(side)) {
        Some((_, a)) => spec_piece_value(a.piece_type) <= spec_piece_value(pt),
        None => false,
    }
}

/// The adjustment for the threatened piece of kind `pt` of `side` on `sq`
/// (attacked by a pawn when `by_pawn`): when the move takes it away, the
/// evacuation reward (a tenth of it against a dearer attacker, knight extras
/// added) if it lands safely, else minus half the base; when it stays and the
/// threat is real (a cheap attacker wins the exchange), a penalty, smaller
/// for a knight that had a safe square.
pub open spec fn threatened_term(base: Board, post: Board, side: Color, from: (usize, usize), to: (usize, usize),
    sq: (usize, usize), pt: PieceType, by_pawn: bool) -> int
{
    let opp = spec_opposite(side);
    let chased = pt == PieceType::Knight && by_pawn;
    if sq == from {
        let base_evac = evac_base_value(pt);
        let factor: int = if cheap_attacker(base, side, sq, pt) { 1 } else { 10 };
        let on_safe = chased && knight_safe_target(base, side, sq, to);
        let evac = if !post.attacked_by(to.0 as int, to.1 as int, opp) || see_value(post, side, to, 0) >= 0 {
            base_evac / factor + (if pt == PieceType::Knight { spec_knight_evac_bonus(to, on_safe, by_pawn) } else { 0 })
        } else {
            -base_evac / 2
        };
        spec_apply_for_side(evac, side)
    } else if post.at(sq.0 as int, sq.1 as int) is None || !post.attacked_by(sq.0 as int, sq.1 as int, opp) {
        0
    } else if !(cheap_attacker(base, side, sq, pt) && see_value(base, opp, sq, 0) > 0) {
        0
    } else if chased && exists|t: (usize, usize)| #[trigger] knight_safe_target(base, side, sq, t) {
        -spec_apply_for_side(KNIGHT_IGNORE_PAWN_THREAT_PENALTY + KNIGHT_NON_EVAC_DEMOTION, side)
    } else {
        -spec_apply_for_side(neglect_value(pt) + (if by_pawn { 400int } else { 0int }), side)
    }
}

/// The threat entry of square `(r, c)`: the adjustment for a piece of
/// `side` there that the other side attacks before the move.
pub open spec fn threat_entry(base: Board, post: Board, side: Color, from: (usize, usize), to: (usize, usize), r: int, c: int) -> int {
    if own_attacked_at(base, side, r, c) {
        threatened_term(base, post, side, from, to, (r as usize, c as usize), base.at(r, c).unwrap().piece_type,
            base.pawn_attacked_by(r, c, spec_opposite(side)))
    } else {
        0
    }
}

/// The threat entries of the first `c` squares of row `r`, added up.
pub open spec fn threat_row(base: Board, post: Board, side: Color, from: (usize, usize), to: (usize, usize), r: int, c: int) -> int
    decreases c,
{
    if c <= 0 { 0 } else { threat_row(base, post, side, from, to, r, c - 1) + threat_entry(base, post, side, from, to, r, c - 1) }
}

/// The threat entries of the first `r` rows, added up.
pub open spec fn threat_rows(base: Board, post: Board, side: Color, from: (usize, usize), to: (usize, usize), r: int) -> int
    decreases r,
{
    if r <= 0 { 0 } else { threat_rows(base, post, side, from, to, r - 1) + threat_row(base, post, side, from, to, r - 1, 8) }
}

fn evac_base(pt: PieceType) -> (v: i32)
    ensures
        v == evac_base_value(pt),
        300 <= v <= 1000,
{
    match pt {
        PieceType::Queen => 800,
        PieceType::Rook => 600,
        PieceType::Bishop | PieceType::Knight => 500,
        PieceType::Pawn => 300,
        PieceType::King => 1000,
    }
}

fn neglect_penalty(pt: PieceType) -> (v: i32)
    ensures
        v == neglect_value(pt),
        40 <= v <= 400,
{
    match pt {
        PieceType::Knight | PieceType::Bishop => 200,
        PieceType::Rook => 120,
        PieceType::Queen => 80,
        PieceType::Pawn => 40,
        PieceType::King => 400,
    }
}

/// The adjustment for one threatened piece of the side on `sq`.
fn threatened_piece_term(
    base_board: &Board,
    post_after: &Board,
    side: Color,
    from: (usize, usize),
    to: (usize, usize),
    sq: (usize, usize),
    pt: PieceType,
    by_pawn: bool,
) -> (d: i32)
    requires
        on_board(from),
        on_board(to),
        on_board(sq),
    ensures
        d == threatened_term(*base_board, *post_after, side, from, to, sq, pt, by_pawn),
        -1300 <= d <= 1300,
{
    let opp = opposite_color(side);
    let knight_safe: Vec<(usize, usize)> = if pt == PieceType::Knight && by_pawn {
        knight_safe_squares(base_board, side, sq)
    } else {
        Vec::new()
    };
    let moved_it = same_square(sq, from);
    let still_attacked = if moved_it {
        post_after.is_square_attacked_by_opponent(to, side)
    } else if post_after.get(sq.0, sq.1).is_none() {
        false
    } else {
        post_after.is_square_attacked_by_opponent(sq, side)
    };
    let piece_val = piece_value_cp(pt);
    if moved_it {
        let see_new = see_dest_estimate(post_after, side, to, 0);
        let is_genuine_threat = match find_smallest_attacker(base_board, sq, opp) {
            Some((_, attacker)) => piece_value_cp(attacker.piece_type) <= piece_val,
            None => false,
        };
        let base_evac = evac_base(pt);
        let threat_factor: i32 = if is_genuine_threat { 1 } else { 10 };
        let evac_bonus: i32 = if !still_attacked || see_new >= 0 {
            let mut bonus = base_evac / threat_factor;
            if pt == PieceType::Knight {
                bonus = bonus + knight_evacuation_bonus(to, &knight_safe, by_pawn);
            }
            bonus
        } else {
            -base_evac / 2
        };
        proof {
            assert(-base_evac / 2 == (-(base_evac as int)) / 2) by {
                assert(base_evac == 300 || base_evac == 500 || base_evac == 600 || base_evac == 800 || base_evac == 1000);
            }
            if pt == PieceType::Knight && by_pawn {
                assert(knight_safe@.contains(to) ==> knight_safe@.len() > 0);
            } else {
                assert(!knight_safe@.contains(to));
            }
        }
        apply_for_side(evac_bonus, side)
    } else {
        if !still_attacked {
            return 0;
        }
        let is_genuine_threat = match find_smallest_attacker(base_board, sq, opp) {
            Some((_, attacker)) => {
                if piece_value_cp(attacker.piece_type) > piece_val {
                    false
                } else {
                    let see = see_dest_estimate(base_board, opp, sq, 0);
                    see > 0
                }
            },
            None => false,
        };
        if !is_genuine_threat {
            return 0;
        }
        proof {
            if pt == PieceType::Knight && by_pawn {
                if knight_safe.len() > 0 {
                    assert(knight_safe@.contains(knight_safe@[0]));
                    assert(knight_safe_target(*base_board, side, sq, knight_safe@[0]));
                }
                if exists|t: (usize, usize)| #[trigger] knight_safe_target(*base_board, side, sq, t) {
                    let t = choose|t: (usize, usize)| #[trigger] knight_safe_target(*base_board, side, sq, t);
                    assert(knight_safe@.contains(t));
                }
            }
        }
        if pt == PieceType::Knight && by_pawn && knight_safe.len() > 0 {
            -apply_for_side(KNIGHT_IGNORE_PAWN_THREAT_PENALTY + KNIGHT_NON_EVAC_DEMOTION, side)
        } else {
            let pen = neglect_penalty(pt);
            let val = if by_pawn { pen + 400 } else { pen };
            -apply_for_side(val, side)
        }
    }
}

/// For a move that does not give check: the promotion-threat penalty, plus
/// for every piece of the side attacked before the move either an
/// evacuation bonus (when this move takes it away; a penalty when it lands
/// where it still loses material) or a penalty when the threat is real
/// and remains; signed for the side.
pub fn threat_resolution_and_evacuation(
    base_board: &Board,
    post_after: &Board,
    side: Color,
    from: (usize, usize),
    to: (usize, usize),
    gives_check: bool,
) -> (d: i32)
    requires
        on_board(from),
        on_board(to),
    ensures
        gives_check ==> d == 0,
        !gives_check ==> d == promo_threat_sum(*base_board, *post_after, side, to, 8) + threat_rows(*base_board, *post_after, side, from, to, 8),
        !gives_check && !some_own_piece_attacked(*base_board, side) ==> d == promo_threat_sum(*base_board, *post_after, side, to, 8),
        -100_000 <= d <= 100_000,
{
    if gives_check {
        return 0;
    }
    let opp = opposite_color(side);
    let mut delta = detect_opponent_promotion_threat(base_board, post_after, side, from, to);
    let ghost promo = delta;
    let mut r: usize = 0;
    while r < 8
        invariant
            r <= 8,
            on_board(from),
            on_board(to),
            opp == spec_opposite(side),
            promo == promo_threat_sum(*base_board, *post_after, side, to, 8),
            -9600 <= promo <= 9600,
            promo - 10400 * r <= delta <= promo + 10400 * r,
            !some_own_piece_attacked(*base_board, side) ==> delta == promo,
            delta == promo + threat_rows(*base_board, *post_after, side, from, to, r as int),
        decreases 8 - r,
    {
        let mut c: usize = 0;
        while c < 8
            invariant
                r < 8,
                c <= 8,
                on_board(from),
                on_board(to),
                opp == spec_opposite(side),
                promo == promo_threat_sum(*base_board, *post_after, side, to, 8),
                -9600 <= promo <= 9600,
                promo - 10400 * r - 1300 * c <= delta <= promo + 10400 * r + 1300 * c,
                !some_own_piece_attacked(*base_board, side) ==> delta == promo,
                delta == promo + threat_rows(*base_board, *post_after, side, from, to, r as int)
                    + threat_row(*base_board, *post_after, side, from, to, r as int, c as int),
            decreases 8 - c,
        {
            if let Some(p) = base_board.get(r, c) {
                if p.color == side && base_board.is_square_attacked_by_opponent((r, c), side) {
                    proof {
                        assert(own_attacked_at(*base_board, side, r as int, c as int));
                    }
                    let pawn_attacks = attacked_by_pawn(base_board, (r, c), opp);
                    let t = threatened_piece_term(base_board, post_after, side, from, to, (r, c), p.piece_type, pawn_attacks);
                    delta = delta + t;
                }
            }
            c = c + 1;
        }
        r = r + 1;
    }
    delta
}

} // verus!
