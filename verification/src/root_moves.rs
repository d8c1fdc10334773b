//! Scoring of root moves: the search score of a move adjusted by the root
//! heuristics, with safety limits so that the heuristics cannot turn a
//! losing move into a winning one.
use vstd::prelude::*;
use crate::pieces::{Color, Piece, PieceType, spec_opposite, opposite_color, capture_value_cp, spec_capture_value,
    spec_piece_value, piece_value_cp};
use crate::board::{Board, on_board, same_square};
use crate::movegen::Move;
use crate::see::{apply_destination_see_penalties, spec_apply_for_side};
use crate::root_heuristics::{simulate_move, spec_simulate, endgame_50move_scaling, spec_endgame_scaling,
    king_safety_root_heuristics, queen_kingside_pressure_bonus, ROOT_CAPTURE_BONUS_DIV};
use crate::tactics::{threat_resolution_and_evacuation, knight_evacuations_priority, self_hang_or_check_mobility, position_of};
use crate::game_state::{GameState, CastlingRights};
use crate::movegen::{find_all_valid_moves, spec_generated, generated_list};
use crate::move_picker::{move_pair, insert_by_score, sort_by_score, lemma_insert_by_score};
use crate::tt::{TranspositionTable, decode_move, spec_decode_move};
use crate::zobrist::{ZobristKeys, compute_zobrist_full};

verus! {

/// Appends the moves to `v`.
pub fn get_root_moves(moves: &Vec<Move>, v: &mut Vec<Move>)
    ensures
        final(v)@ == old(v)@ + moves@,
{
    let ghost start = v@;
    let mut i: usize = 0;
    while i < moves.len()
        invariant
            i <= moves@.len(),
            v@ == start + moves@.take(i as int),
        decreases moves@.len() - i,
    {
        v.push(moves[i]);
        proof {
            assert(moves@.take(i as int + 1) =~= moves@.take(i as int).push(moves@[i as int]));
        }
        i = i + 1;
    }
    proof {
        assert(moves@.take(moves@.len() as int) =~= moves@);
    }
}

/// Development bonus: 5 for a knight to c3/f3 (c6/f6 for Black), 3 for a
/// bishop to c4/f4 (c5/f5 for Black); signed for the side.
pub open spec fn spec_root_move_bonus(b: Board, from: (usize, usize), to: (usize, usize), side: Color) -> int {
    match b.at(from.0 as int, from.1 as int) {
        None => 0,
        Some(p) => {
            let kr: usize = if side == Color::White { 2 } else { 5 };
            let br: usize = if side == Color::White { 3 } else { 4 };
            let bonus: int = if p.piece_type == PieceType::Knight && (to == (kr, 2usize) || to == (kr, 5usize)) {
                5
            } else if p.piece_type == PieceType::Bishop && (to == (br, 2usize) || to == (br, 5usize)) {
                3
            } else {
                0
            };
            spec_apply_for_side(bonus, side)
        },
    }
}

pub fn root_move_bonus(board: &Board, from: (usize, usize), to: (usize, usize), side: Color) -> (b: i32)
    requires
        on_board(from),
    ensures
        b == spec_root_move_bonus(*board, from, to, side),
        -5 <= b <= 5,
{
    let piece = match board.get(from.0, from.1) {
        Some(p) => p,
        None => return 0,
    };
    let pt = piece.piece_type;
    let mut bonus: i32 = 0;
    if pt == PieceType::Knight {
        match side {
            Color::White => {
                if same_square(to, (2, 2)) || same_square(to, (2, 5)) {
                    bonus = bonus + 5;
                }
            },
            Color::Black => {
                if same_square(to, (5, 2)) || same_square(to, (5, 5)) {
                    bonus = bonus + 5;
                }
            },
        }
    }
    if pt == PieceType::Bishop {
        match side {
            Color::White => {
                if same_square(to, (3, 2)) || same_square(to, (3, 5)) {
                    bonus = bonus + 3;
                }
            },
            Color::Black => {
                if same_square(to, (4, 2)) || same_square(to, (4, 5)) {
                    bonus = bonus + 3;
                }
            },
        }
    }
    match side {
        Color::White => bonus,
        Color::Black => -bonus,
    }
}

/// The parts of the root adjustment that do not depend on exchange
/// estimates: development, capture bonus, fifty-move scaling, king safety
/// and queen pressure.
pub open spec fn exact_root_terms(b: Board, side: Color, from: (usize, usize), to: (usize, usize), base_hmc: u32,
    is_capture: bool, moved_is_pawn: bool, score_raw: i32) -> int
{
    let post0 = spec_simulate(b, from, to, None);
    let capture = match b.at(to.0 as int, to.1 as int) {
        Some(q) => spec_capture_value(q.piece_type) / ROOT_CAPTURE_BONUS_DIV,
        None => 0,
    };
    let king = match b.at(from.0 as int, from.1 as int) {
        Some(p) => if p.piece_type == PieceType::King {
            (if post0.attacked_by(to.0 as int, to.1 as int, spec_opposite(side)) { -50int } else { 0int })
                + (if is_capture { -5int } else { 0int })
        } else { 0int },
        None => 0int,
    };
    let queen = match b.at(from.0 as int, from.1 as int) {
        Some(p) => if p.piece_type == PieceType::Queen {
            let t = crate::root_heuristics::pressure_targets(side);
            let hits = (if post0.attacked_by(t.0.0 as int, t.0.1 as int, side) { 1int } else { 0int })
                + (if post0.attacked_by(t.1.0 as int, t.1.1 as int, side) { 1int } else { 0int });
            if hits > 0 { spec_apply_for_side(hits, side) } else { 0int }
        } else { 0int },
        None => 0int,
    };
    spec_root_move_bonus(b, from, to, side) + capture
        + spec_endgame_scaling(side, score_raw as int, base_hmc as int, is_capture, moved_is_pawn) + king + queen
}

/// The terms of the adjustment that rest on the position after the move:
/// the destination exchange penalty, threats and evacuations, chased
/// knights, hanging pieces and check replies.
pub open spec fn estimate_root_terms(b: Board, side: Color, from: (usize, usize), to: (usize, usize),
    is_capture: bool, moved_is_pawn: bool) -> int
{
    let post = spec_simulate(b, from, to, None);
    let opp = spec_opposite(side);
    let gives_check = post.in_check(opp);
    let see_pen = if gives_check { 0 } else {
        crate::see::spec_see_penalty(crate::see::see_value(post, side, to, crate::see::value_at(b, to)),
            crate::see::type_at(b, from), is_capture, moved_is_pawn, side)
    };
    let threat = if gives_check { 0 } else {
        crate::tactics::promo_threat_sum(b, post, side, to, 8) + crate::tactics::threat_rows(b, post, side, from, to, 8)
    };
    let knight = crate::tactics::knight_evac_term(b, side, from, to, gives_check);
    let hang = crate::tactics::hang_and_check(crate::tactics::hang_total(post, side, to),
        crate::tactics::check_term(gives_check, post, opp), side);
    see_pen + threat + knight + hang
}

/// The adjusted score of a root move: the search score plus all the root
/// heuristics.
pub open spec fn adjusted_root_score(b: Board, side: Color, from: (usize, usize), to: (usize, usize), base_hmc: u32,
    is_capture: bool, moved_is_pawn: bool, score_raw: i32) -> int
{
    score_raw + exact_root_terms(b, side, from, to, base_hmc, is_capture, moved_is_pawn, score_raw)
        + estimate_root_terms(b, side, from, to, is_capture, moved_is_pawn)
}

/// The most the root heuristics together move a score, either way.
pub const ROOT_HEURISTICS_RANGE: i32 = 521_000;

/// Below the fifty-move threshold the root heuristics shift the search score
/// by an amount that does not depend on it.
pub proof fn lemma_root_shift_independent(b: Board, side: Color, from: (usize, usize), to: (usize, usize), base_hmc: u32,
    is_capture: bool, moved_is_pawn: bool, s1: i32, s2: i32)
    requires
        base_hmc < crate::root_heuristics::ENDGAME_HMC_THRESHOLD,
    ensures
        adjusted_root_score(b, side, from, to, base_hmc, is_capture, moved_is_pawn, s1) - s1
            == adjusted_root_score(b, side, from, to, base_hmc, is_capture, moved_is_pawn, s2) - s2,
{
}

/// The development, capture, fifty-move, king-safety and queen-pressure terms.
fn exact_root_part(
    base_board: &Board,
    side: Color,
    from: (usize, usize),
    to: (usize, usize),
    base_hmc: u32,
    is_capture: bool,
    moved_is_pawn: bool,
    score_raw: i32,
) -> (e: i32)
    requires
        on_board(from),
        on_board(to),
        score_raw > i32::MIN,
        base_hmc <= i32::MAX,
    ensures
        e == exact_root_terms(*base_board, side, from, to, base_hmc, is_capture, moved_is_pawn, score_raw),
        -1000 <= e <= 1000,
{
    let rmb = root_move_bonus(base_board, from, to, side);
    let mut capture: i32 = 0;
    if let Some(captured) = base_board.get(to.0, to.1) {
        capture = capture_value_cp(captured.piece_type) / ROOT_CAPTURE_BONUS_DIV;
    }
    let endgame = endgame_50move_scaling(side, score_raw, base_hmc, is_capture, moved_is_pawn);
    let king = king_safety_root_heuristics(base_board, side, from, to, is_capture);
    let queen = queen_kingside_pressure_bonus(base_board, side, from, to);
    rmb + capture + endgame + king + queen
}

/// The exchange-estimate terms: destination exchange penalty, threats and
/// evacuations, chased knights, hanging pieces and check replies.
#[verifier::rlimit(40)]
fn estimate_root_part(
    base_board: &Board,
    post_after: &Board,
    side: Color,
    from: (usize, usize),
    to: (usize, usize),
    is_capture: bool,
    moved_is_pawn: bool,
    gives_check: bool,
    moved_is_queen: bool,
) -> (e: i32)
    requires
        post_after.wf(),
        on_board(from),
        on_board(to),
        *post_after == spec_simulate(*base_board, from, to, None),
        gives_check == post_after.in_check(spec_opposite(side)),
    ensures
        -520_000 <= e <= 520_000,
        e == estimate_root_terms(*base_board, side, from, to, is_capture, moved_is_pawn),
{
    let opp = opposite_color(side);
    let see_pen = apply_destination_see_penalties(base_board, post_after, side, from, to, is_capture, moved_is_pawn, gives_check, moved_is_queen);
    assert(-6080 <= see_pen <= 6080);
    let threat = threat_resolution_and_evacuation(base_board, post_after, side, from, to, gives_check);
    let knight = knight_evacuations_priority(base_board, side, from, to, gives_check);
    let hang = self_hang_or_check_mobility(base_board, post_after, side, from, to, gives_check, opp);
    proof {
        let cb = crate::tactics::check_term(gives_check, *post_after, opp);
        assert(0 <= cb <= 60);
        assert(-400_100 <= hang <= 400_100);
    }
    see_pen + threat + knight + hang
}

/// The search score of a root move plus the root heuristics: development,
/// exchange penalties, threats and evacuations, knights chased by pawns,
/// capture bonus, fifty-move scaling, king safety, hanging pieces and check
/// replies, and queen pressure.
pub fn adjust_root_score(
    base_board: &Board,
    side: Color,
    from: (usize, usize),
    to: (usize, usize),
    base_hmc: u32,
    is_capture: bool,
    moved_is_pawn: bool,
    score_raw: i32,
) -> (adjusted: i32)
    requires
        base_board.wf(),
        on_board(from),
        on_board(to),
        -(i32::MAX - ROOT_HEURISTICS_RANGE) <= score_raw <= i32::MAX - ROOT_HEURISTICS_RANGE,
        base_hmc <= i32::MAX,
    ensures
        adjusted == adjusted_root_score(*base_board, side, from, to, base_hmc, is_capture, moved_is_pawn, score_raw),
{
    let (post_after, moved_probe) = simulate_move(base_board, from, to, None);
    let opp = opposite_color(side);
    let gives_check = post_after.is_side_in_check(opp);
    let moved_is_queen = match moved_probe {
        Some(p) => p.piece_type == PieceType::Queen,
        None => false,
    };
    let exact = exact_root_part(base_board, side, from, to, base_hmc, is_capture, moved_is_pawn, score_raw);
    let rest = estimate_root_part(base_board, &post_after, side, from, to, is_capture, moved_is_pawn, gives_check, moved_is_queen);
    let adjusted = score_raw + exact + rest;
    adjusted
}

/// The adjusted score (White's view), limited so that a move losing for
/// the side stays losing, no better than the search score: at most it for
/// White below zero, at least it for Black above zero; a drawn score does not
/// sink below -10.
pub open spec fn root_limit(a: int, score_raw: int, side: Color) -> int {
    let a1 = if side == Color::White && score_raw < 0 {
        if a < score_raw { a } else { score_raw }
    } else if side == Color::Black && score_raw > 0 {
        if a > score_raw { a } else { score_raw }
    } else {
        a
    };
    if score_raw == 0 { if a1 > -10 { a1 } else { -10 } } else { a1 }
}

/// The root score of a move: the adjustment limited as above.
pub fn adjusted_root_eval_for_move(
    base_board: &Board,
    side: Color,
    from: (usize, usize),
    to: (usize, usize),
    base_hmc: u32,
    score_raw: i32,
    is_capture: bool,
    moved_is_pawn: bool,
) -> (adj: i32)
    requires
        base_board.wf(),
        on_board(from),
        on_board(to),
        -(i32::MAX - ROOT_HEURISTICS_RANGE) <= score_raw <= i32::MAX - ROOT_HEURISTICS_RANGE,
        base_hmc <= i32::MAX,
    ensures
        adj == root_limit(adjusted_root_score(*base_board, side, from, to, base_hmc, is_capture, moved_is_pawn, score_raw),
            score_raw as int, side),
        score_raw < 0 && side == Color::White ==> adj <= score_raw,
        score_raw > 0 && side == Color::Black ==> adj >= score_raw,
        score_raw == 0 ==> adj >= -10,
{
    let a = adjust_root_score(base_board, side, from, to, base_hmc, is_capture, moved_is_pawn, score_raw);
    let mut adj = a;
    if side == Color::White && score_raw < 0 {
        adj = if adj < score_raw { adj } else { score_raw };
    } else if side == Color::Black && score_raw > 0 {
        adj = if adj > score_raw { adj } else { score_raw };
    }
    if score_raw == 0 {
        adj = if adj > -10 { adj } else { -10 };
    }
    assert(adj == root_limit(a as int, score_raw as int, side));
    adj
}

/// The heuristics cannot turn a losing move into a winning one: a score
/// below zero is never raised for White, a score above zero is never lowered
/// for Black; a drawn score never sinks below -10; a score good for the side
/// passes unchanged.
pub proof fn lemma_root_limit_safety(a: int, score_raw: int, side: Color)
    ensures
        score_raw < 0 && side == Color::White ==> root_limit(a, score_raw, side) <= score_raw,
        score_raw > 0 && side == Color::Black ==> root_limit(a, score_raw, side) >= score_raw,
        score_raw == 0 ==> root_limit(a, score_raw, side) >= -10,
        score_raw > 0 && side == Color::White ==> root_limit(a, score_raw, side) == a,
        score_raw < 0 && side == Color::Black ==> root_limit(a, score_raw, side) == a,
{
}

/// The board after the first `n` moves of `line`, each played as a
/// simulated move.
pub open spec fn line_board(b: Board, line: Seq<Move>, n: int) -> Board
    decreases n,
{
    if n <= 0 { b } else { spec_simulate(line_board(b, line, n - 1), line[n - 1].0, line[n - 1].1, line[n - 1].2) }
}

/// The side to move after `n` moves from `root_side`'s turn.
pub open spec fn line_side(root_side: Color, n: int) -> Color {
    if n % 2 == 0 { root_side } else { spec_opposite(root_side) }
}

/// The table holds an entry for the position (hashed with no castling
/// rights and no en-passant square) whose best move goes like `m`.
pub open spec fn tt_suggests(tt: TranspositionTable, keys: ZobristKeys, b: Board, side: Color, m: Move) -> bool {
    match tt.spec_probe(keys.hash(b, side, CastlingRights { wk: false, wq: false, bk: false, bq: false }, None)) {
        Some(e) => spec_decode_move(e.best_from, e.best_to) == move_pair(m),
        None => false,
    }
}

/// `m` is the first move of `s` with its from- and to-squares.
pub open spec fn first_of_pair(s: Seq<Move>, m: Move) -> bool {
    exists|k: int| 0 <= k < s.len() && s[k] == m && forall|j: int| 0 <= j < k ==> move_pair(#[trigger] s[j]) != move_pair(m)
}

/// Some legal move of `side` in the position `b` is the table's suggestion there.
pub open spec fn pv_extends(tt: TranspositionTable, keys: ZobristKeys, b: Board, side: Color) -> bool {
    exists|m: Move| #[trigger] spec_generated(position_of(b, side), m) && tt_suggests(tt, keys, b, side, m)
}

/// The principal variation starting with the root move: each further move
/// is the table's best move for the position reached (with no castling
/// rights or en-passant square in the hash), taken while it is legal there,
/// up to `max_len` moves.
pub fn build_pv_for_root(
    keys: &ZobristKeys,
    board: &Board,
    root_side: Color,
    from: (usize, usize),
    to: (usize, usize),
    root_promo: Option<char>,
    tt: &TranspositionTable,
    max_len: usize,
) -> (pv: Vec<Move>)
    requires
        keys.wf(),
        tt.inv(),
        board.wf(),
        on_board(from),
        on_board(to),
    ensures
        pv@.len() >= 1,
        pv@[0] == (from, to, root_promo),
        pv@.len() <= (if max_len > 1 { max_len as int } else { 1 }),
        forall|i: int| 1 <= i < pv@.len() ==> #[trigger] spec_generated(
            position_of(line_board(*board, pv@, i), line_side(root_side, i)), pv@[i]),
        forall|i: int| 1 <= i < pv@.len() ==> #[trigger] tt_suggests(*tt, *keys, line_board(*board, pv@, i), line_side(root_side, i), pv@[i]),
        pv@.len() < max_len ==> !pv_extends(*tt, *keys, line_board(*board, pv@, pv@.len() as int), line_side(root_side, pv@.len() as int)),
        forall|i: int| 1 <= i < pv@.len() ==> #[trigger] first_of_pair(
            generated_list(position_of(line_board(*board, pv@, i), line_side(root_side, i)), false), pv@[i]),
{
    let mut pv: Vec<Move> = Vec::new();
    pv.push((from, to, root_promo));
    let (first, _) = simulate_move(board, from, to, root_promo);
    let mut tmp = first;
    let mut side = opposite_color(root_side);
    let no_rights = CastlingRights::none();
    proof {
        assert(line_board(*board, pv@, 0) == *board);
        assert(tmp == line_board(*board, pv@, 1));
    }
    let mut k: usize = 1;
    while k < max_len
        invariant
            keys.wf(),
            tt.inv(),
            board.wf(),
            1 <= k,
            pv@.len() == k,
            k <= (if max_len > 1 { max_len as int } else { 1 }),
            pv@[0] == (from, to, root_promo),
            tmp.wf(),
            tmp == line_board(*board, pv@, k as int),
            side == line_side(root_side, k as int),
            no_rights == (CastlingRights { wk: false, wq: false, bk: false, bq: false }),
            forall|i: int| 1 <= i < pv@.len() ==> #[trigger] spec_generated(
                position_of(line_board(*board, pv@, i), line_side(root_side, i)), pv@[i]),
            forall|i: int| 1 <= i < pv@.len() ==> #[trigger] tt_suggests(*tt, *keys, line_board(*board, pv@, i), line_side(root_side, i), pv@[i]),
            forall|i: int| 1 <= i < pv@.len() ==> #[trigger] first_of_pair(
                generated_list(position_of(line_board(*board, pv@, i), line_side(root_side, i)), false), pv@[i]),
        ensures
            1 <= pv@.len(),
            pv@[0] == (from, to, root_promo),
            pv@.len() <= (if max_len > 1 { max_len as int } else { 1 }),
            tmp == line_board(*board, pv@, pv@.len() as int),
            side == line_side(root_side, pv@.len() as int),
            forall|i: int| 1 <= i < pv@.len() ==> #[trigger] spec_generated(
                position_of(line_board(*board, pv@, i), line_side(root_side, i)), pv@[i]),
            forall|i: int| 1 <= i < pv@.len() ==> #[trigger] tt_suggests(*tt, *keys, line_board(*board, pv@, i), line_side(root_side, i), pv@[i]),
            pv@.len() < max_len ==> !pv_extends(*tt, *keys, tmp, side),
            forall|i: int| 1 <= i < pv@.len() ==> #[trigger] first_of_pair(
                generated_list(position_of(line_board(*board, pv@, i), line_side(root_side, i)), false), pv@[i]),
        decreases max_len - k,
    {
        let key = compute_zobrist_full(keys, &tmp, side, &no_rights, None);
        let entry = match tt.probe(key) {
            Some(e) => e,
            None => {
                proof {
                    assert forall|m: Move| !(#[trigger] spec_generated(position_of(tmp, side), m) && tt_suggests(*tt, *keys, tmp, side, m)) by {}
                }
                break;
            },
        };
        let (nf, nt) = decode_move(entry.best_from, entry.best_to);
        let mut gs = GameState::from_board_and_side(tmp, side);
        assert(gs == position_of(tmp, side));
        let legals = find_all_valid_moves(&mut gs);
        let mut found: Option<Move> = None;
        let mut j: usize = 0;
        while j < legals.len()
            invariant_except_break
                found is None,
            invariant
                j <= legals@.len(),
                found matches Some(m) ==> legals@.contains(m) && move_pair(m) == (nf, nt) && first_of_pair(legals@, m),
                found is None ==> forall|k: int| 0 <= k < j ==> move_pair(#[trigger] legals@[k]) != (nf, nt),
            ensures
                found matches Some(m) ==> legals@.contains(m) && move_pair(m) == (nf, nt) && first_of_pair(legals@, m),
                found is None ==> forall|k: int| 0 <= k < legals@.len() ==> move_pair(#[trigger] legals@[k]) != (nf, nt),
            decreases legals@.len() - j,
        {
            let m = legals[j];
            if same_square(m.0, nf) && same_square(m.1, nt) {
                proof {
                    assert(legals@.contains(legals@[j as int]));
                    assert(first_of_pair(legals@, m)) by {
                        assert(legals@[j as int] == m);
                        assert(move_pair(m) == (nf, nt));
                        assert(forall|k: int| 0 <= k < j ==> move_pair(#[trigger] legals@[k]) != move_pair(m));
                        assert(0 <= j < legals@.len() && legals@[j as int] == m
                            && forall|k: int| 0 <= k < j ==> move_pair(#[trigger] legals@[k]) != move_pair(m));
                    }
                }
                found = Some(m);
                break;
            }
            j = j + 1;
        }
        match found {
            Some(m) => {
                let ghost old_pv = pv@;
                pv.push(m);
                proof {
                    assert(spec_generated(position_of(tmp, side), m));
                    assert(tt_suggests(*tt, *keys, tmp, side, m));
                    assert(first_of_pair(generated_list(position_of(tmp, side), false), m));
                    assert forall|n: int| 0 <= n <= k implies #[trigger] line_board(*board, pv@, n) == line_board(*board, old_pv, n) by {
                        lemma_line_board_prefix(*board, old_pv, pv@, n);
                    }
                }
                let (next, _) = simulate_move(&tmp, m.0, m.1, m.2);
                tmp = next;
                side = opposite_color(side);
                k = k + 1;
                proof {
                    assert(line_board(*board, pv@, k as int) == spec_simulate(line_board(*board, pv@, k - 1), pv@[k - 1].0, pv@[k - 1].1, pv@[k - 1].2));
                }
            },
            None => {
                proof {
                    assert forall|m: Move| !(#[trigger] spec_generated(position_of(tmp, side), m) && tt_suggests(*tt, *keys, tmp, side, m)) by {
                        if spec_generated(position_of(tmp, side), m) {
                            assert(legals@.contains(m));
                            let k = choose|k: int| 0 <= k < legals@.len() && legals@[k] == m;
                            assert(move_pair(legals@[k]) != (nf, nt));
                        }
                    }
                }
                break;
            },
        }
    }
    pv
}

proof fn lemma_line_board_prefix(b: Board, s: Seq<Move>, t: Seq<Move>, n: int)
    requires
        0 <= n <= s.len(),
        s.len() <= t.len(),
        forall|i: int| 0 <= i < s.len() ==> s[i] == t[i],
    ensures
        line_board(b, t, n) == line_board(b, s, n),
    decreases n,
{
    if n > 0 {
        lemma_line_board_prefix(b, s, t, n - 1);
    }
}

/// A small ordering nudge for root moves, scaled by the game phase (0 to
/// 24): castling and developing a minor piece from the back rank are
/// preferred, quiet queen moves are put back, more so with undeveloped
/// minors, long queen leaps and deep queen advances.
pub open spec fn spec_root_order_bias(b: Board, side: Color, from: (usize, usize), to: (usize, usize), phase: int) -> int {
    let scale = if phase < 0 { 0 } else if phase > 24 { 24 } else { phase };
    let back: int = if side == Color::White { 0 } else { 7 };
    match b.at(from.0 as int, from.1 as int) {
        Some(p) => if p.color != side { 0 } else {
            let is_capture = b.at(to.0 as int, to.1 as int) is Some;
            let castle = if p.piece_type == PieceType::King && from.0 == back && (to.1 == 6 || to.1 == 2) { (10 * scale) / 24 } else { 0 };
            let develop = if (p.piece_type == PieceType::Knight || p.piece_type == PieceType::Bishop) && from.0 == back { (8 * scale) / 24 } else { 0 };
            let queen = if p.piece_type == PieceType::Queen && !is_capture {
                let und = undeveloped_minors(b, side, 8);
                let d1: int = 9 + (if und >= 3 { 6int } else if und >= 2 { 3int } else { 0int });
                let manhattan = crate::board::iabs(from.0 - to.0) + crate::board::iabs(from.1 - to.1);
                let d2 = d1 + (if manhattan >= 3 { 4int } else { 0int });
                let deep = if side == Color::White { to.0 >= 3 } else { to.0 <= 4 };
                let d3 = d2 + (if deep { 3int } else { 0int });
                (d3 * scale) / 24
            } else { 0 };
            castle + develop - queen
        },
        None => 0,
    }
}

/// The number of the side's knights and bishops on the first `n` files of its back rank.
pub open spec fn undeveloped_minors(b: Board, side: Color, n: int) -> int
    decreases n,
{
    if n <= 0 {
        0
    } else {
        let back: int = if side == Color::White { 0 } else { 7 };
        undeveloped_minors(b, side, n - 1) + (match b.at(back, n - 1) {
            Some(p) => if p.color == side && (p.piece_type == PieceType::Knight || p.piece_type == PieceType::Bishop) { 1int } else { 0int },
            None => 0int,
        })
    }
}

pub fn root_move_order_bias(board: &Board, side: Color, from: (usize, usize), to: (usize, usize), phase: i32) -> (bias: i32)
    requires
        on_board(from),
        on_board(to),
    ensures
        bias == spec_root_order_bias(*board, side, from, to, phase as int),
{
    let scale = if phase < 0 { 0 } else if phase > 24 { 24 } else { phase };
    let mut bias: i32 = 0;
    let piece = match board.get(from.0, from.1) {
        Some(p) => {
            if p.color != side {
                return 0;
            }
            p
        },
        None => return 0,
    };
    let is_capture = board.get(to.0, to.1).is_some();
    let back_r: usize = if side == Color::White { 0 } else { 7 };
    if piece.piece_type == PieceType::King {
        if from.0 == back_r && (to.1 == 6 || to.1 == 2) {
            bias = bias + (10 * scale) / 24;
        }
    }
    if piece.piece_type == PieceType::Knight || piece.piece_type == PieceType::Bishop {
        if from.0 == back_r {
            bias = bias + (8 * scale) / 24;
        }
    }
    if piece.piece_type == PieceType::Queen && !is_capture {
        let mut demote: i32 = 9;
        let mut undeveloped: i32 = 0;
        let mut fc: usize = 0;
        while fc < 8
            invariant
                fc <= 8,
                back_r == (if side == Color::White { 0usize } else { 7usize }),
                undeveloped == undeveloped_minors(*board, side, fc as int),
                0 <= undeveloped <= fc,
            decreases 8 - fc,
        {
            if let Some(p) = board.get(back_r, fc) {
                if p.color == side && (p.piece_type == PieceType::Knight || p.piece_type == PieceType::Bishop) {
                    undeveloped = undeveloped + 1;
                }
            }
            fc = fc + 1;
        }
        if undeveloped >= 3 {
            demote = demote + 6;
        } else if undeveloped >= 2 {
            demote = demote + 3;
        }
        let dr = if from.0 > to.0 { from.0 - to.0 } else { to.0 - from.0 };
        let dc = if from.1 > to.1 { from.1 - to.1 } else { to.1 - from.1 };
        let manhattan = (dr + dc) as i32;
        if manhattan >= 3 {
            demote = demote + 4;
        }
        let deep_adv = match side {
            Color::White => to.0 >= 3,
            Color::Black => to.0 <= 4,
        };
        if deep_adv {
            demote = demote + 3;
        }
        assert(0 <= demote * scale <= 22 * 24) by (nonlinear_arith)
            requires
                9 <= demote <= 22,
                0 <= scale <= 24;
        bias = bias - (demote * scale) / 24;
    }
    bias
}

/// Moves the table's best move for the position (hashed with no castling
/// rights or en-passant square) to the front, keeping the order of the
/// rest; without such an entry or move the list is left as it is.
pub fn reorder_with_tt_hint(ordered: &mut Vec<Move>, keys: &ZobristKeys, tt: &TranspositionTable, board: &Board, side: Color)
    requires
        keys.wf(),
        tt.inv(),
    ensures
        final(ordered)@.len() == old(ordered)@.len(),
        (exists|i: int| 0 <= i < old(ordered)@.len() && #[trigger] tt_suggests(*tt, *keys, *board, side, old(ordered)@[i]))
            ==> exists|p: int| 0 <= p < old(ordered)@.len() && tt_suggests(*tt, *keys, *board, side, #[trigger] old(ordered)@[p])
                && (forall|j: int| 0 <= j < p ==> !tt_suggests(*tt, *keys, *board, side, #[trigger] old(ordered)@[j]))
                && final(ordered)@ == seq![old(ordered)@[p]] + old(ordered)@.remove(p),
        !(exists|i: int| 0 <= i < old(ordered)@.len() && #[trigger] tt_suggests(*tt, *keys, *board, side, old(ordered)@[i]))
            ==> final(ordered)@ == old(ordered)@,
        forall|m: Move| #[trigger] final(ordered)@.contains(m) <==> old(ordered)@.contains(m),
{
    let no_rights = CastlingRights::none();
    assert(no_rights == (CastlingRights { wk: false, wq: false, bk: false, bq: false }));
    let key = compute_zobrist_full(keys, board, side, &no_rights, None);
    if let Some(entry) = tt.probe(key) {
        let bm = decode_move(entry.best_from, entry.best_to);
        let mut pos: usize = 0;
        while pos < ordered.len()
            invariant
                pos <= ordered@.len(),
                ordered@ == old(ordered)@,
                tt.spec_probe(keys.hash(*board, side, CastlingRights { wk: false, wq: false, bk: false, bq: false }, None)) == Some(entry),
                bm == spec_decode_move(entry.best_from, entry.best_to),
                forall|j: int| 0 <= j < pos ==> move_pair(#[trigger] ordered@[j]) != bm,
            decreases ordered@.len() - pos,
        {
            let m = ordered[pos];
            if same_square(m.0, bm.0) && same_square(m.1, bm.1) {
                let ghost before = ordered@;
                let first = ordered.remove(pos);
                ordered.insert(0, first);
                proof {
                    assert(tt_suggests(*tt, *keys, *board, side, first));
                    assert(ordered@ =~= seq![before[pos as int]] + before.remove(pos as int));
                    lemma_front_members(before, pos as int);
                    assert forall|j: int| 0 <= j < pos implies !tt_suggests(*tt, *keys, *board, side, #[trigger] before[j]) by {
                        assert(move_pair(before[j]) != bm);
                    }
                }
                return;
            }
            pos = pos + 1;
        }
        proof {
            assert forall|i: int| 0 <= i < old(ordered)@.len() implies !#[trigger] tt_suggests(*tt, *keys, *board, side, old(ordered)@[i]) by {
                assert(move_pair(ordered@[i]) != bm);
            }
        }
    } else {
        proof {
            assert forall|i: int| 0 <= i < old(ordered)@.len() implies !#[trigger] tt_suggests(*tt, *keys, *board, side, old(ordered)@[i]) by {}
        }
    }
}

/// A piece's weight in the phase count: knights and bishops 1, rooks 2,
/// queens 4, others and empty squares 0.
pub open spec fn phase_weight(p: Option<Piece>) -> int {
    match p {
        Some(p) => match p.piece_type {
            PieceType::Knight | PieceType::Bishop => 1,
            PieceType::Rook => 2,
            PieceType::Queen => 4,
            _ => 0,
        },
        None => 0,
    }
}

/// The weights of the first `n` squares in row-major order.
pub open spec fn phase_count(b: Board, n: int) -> int
    decreases n,
{
    if n <= 0 { 0 } else { phase_count(b, n - 1) + phase_weight(b.at((n - 1) / 8, (n - 1) % 8)) }
}

/// The phase that scales the root ordering nudge: the weights over the
/// whole board, at most 24.
pub open spec fn root_phase(b: Board) -> int {
    let s = phase_count(b, 64);
    if s > 24 { 24 } else { s }
}

proof fn lemma_phase_count_bounds(b: Board, n: int)
    ensures
        0 <= phase_count(b, n),
        n >= 0 ==> phase_count(b, n) <= 4 * n,
    decreases n,
{
    if n > 0 {
        lemma_phase_count_bounds(b, n - 1);
    }
}

/// The phase of the position for ordering root moves.
pub fn root_phase_proxy(board: &Board) -> (phase: i32)
    ensures
        phase == root_phase(*board),
{
    let mut phase: i32 = 0;
    let mut r: usize = 0;
    while r < 8
        invariant
            r <= 8,
            phase == phase_count(*board, 8 * r),
        decreases 8 - r,
    {
        let mut c: usize = 0;
        while c < 8
            invariant
                r < 8,
                c <= 8,
                phase == phase_count(*board, 8 * r + c),
            decreases 8 - c,
        {
            proof {
                lemma_phase_count_bounds(*board, 8 * r + c);
                let n = 8 * r + c;
                assert(n / 8 == r && n % 8 == c) by (nonlinear_arith)
                    requires n == 8 * r + c, 0 <= c < 8, 0 <= r;
            }
            let w: i32 = match board.get(r, c) {
                Some(p) => match p.piece_type {
                    PieceType::Knight | PieceType::Bishop => 1,
                    PieceType::Rook => 2,
                    PieceType::Queen => 4,
                    _ => 0,
                },
                None => 0,
            };
            phase = phase + w;
            c = c + 1;
        }
        r = r + 1;
    }
    if phase > 24 { 24 } else { phase }
}

/// Each move paired with its ordering nudge.
pub open spec fn biased_moves(b: Board, side: Color, phase: int, s: Seq<Move>) -> Seq<(Move, int)> {
    s.map_values(|m: Move| (m, spec_root_order_bias(b, side, m.0, m.1, phase)))
}

pub open spec fn int_scores(v: Seq<(Move, i32)>) -> Seq<(Move, int)> {
    v.map_values(|x: (Move, i32)| (x.0, x.1 as int))
}

/// Orders the pairs by score, highest first, keeping the order of equal
/// scores.
pub(crate) fn sort_scored_desc(v: &Vec<(Move, i32)>) -> (r: Vec<(Move, i32)>)
    ensures
        int_scores(r@) == sort_by_score(int_scores(v@)),
{
    let mut r: Vec<(Move, i32)> = Vec::new();
    let mut k: usize = 0;
    proof {
        assert(int_scores(v@).take(0) =~= Seq::<(Move, int)>::empty());
        assert(int_scores(r@) =~= Seq::<(Move, int)>::empty());
    }
    while k < v.len()
        invariant
            k <= v@.len(),
            int_scores(r@) == sort_by_score(int_scores(v@).take(k as int)),
        decreases v@.len() - k,
    {
        let x = v[k];
        let mut p: usize = 0;
        while p < r.len() && r[p].1 >= x.1
            invariant
                p <= r@.len(),
                forall|q: int| 0 <= q < p ==> #[trigger] r@[q].1 >= x.1,
            decreases r@.len() - p,
        {
            p = p + 1;
        }
        let ghost old_r = r@;
        r.insert(p, x);
        proof {
            let sx = (x.0, x.1 as int);
            let so = int_scores(old_r);
            assert forall|q: int| 0 <= q < p implies #[trigger] so[q].1 >= sx.1 by {
                assert(old_r[q].1 >= x.1);
            }
            if (p as int) < so.len() {
                assert(so[p as int].1 < sx.1);
            }
            lemma_insert_by_score(so, sx, p as int);
            assert(int_scores(r@) =~= so.insert(p as int, sx));
            let sv = int_scores(v@);
            assert(sv.take(k + 1).drop_last() =~= sv.take(k as int));
            assert(sv.take(k + 1).last() == sx);
        }
        k = k + 1;
    }
    proof {
        assert(int_scores(v@).take(v@.len() as int) =~= int_scores(v@));
    }
    r
}

/// The opening-aware ordering of the root moves: from depth 1 on, a stable
/// sort by `root_move_order_bias` at the position's phase, largest nudge
/// first; at depth 0 the order stays.
pub fn order_root_moves_by_bias(ordered: &mut Vec<Move>, board: &Board, side: Color, depth_now: usize)
    requires
        forall|i: int| 0 <= i < old(ordered)@.len() ==> on_board(#[trigger] old(ordered)@[i].0) && on_board(old(ordered)@[i].1),
    ensures
        final(ordered)@.len() == old(ordered)@.len(),
        forall|m: Move| #[trigger] final(ordered)@.contains(m) <==> old(ordered)@.contains(m),
        depth_now == 0 ==> final(ordered)@ == old(ordered)@,
        depth_now >= 1 ==> final(ordered)@ == sort_by_score(biased_moves(*board, side, root_phase(*board), old(ordered)@))
            .map_values(|x: (Move, int)| x.0),
{
    let phase = root_phase_proxy(board);
    if depth_now < 1 {
        return;
    }
    let mut scored: Vec<(Move, i32)> = Vec::new();
    let mut i: usize = 0;
    while i < ordered.len()
        invariant
            i <= ordered@.len(),
            ordered@ == old(ordered)@,
            phase == root_phase(*board),
            forall|j: int| 0 <= j < ordered@.len() ==> on_board(#[trigger] ordered@[j].0) && on_board(ordered@[j].1),
            int_scores(scored@) == biased_moves(*board, side, phase as int, ordered@.take(i as int)),
        decreases ordered@.len() - i,
    {
        let m = ordered[i];
        assert(on_board(ordered@[i as int].0));
        let bias = root_move_order_bias(board, side, m.0, m.1, phase);
        let ghost old_scored = scored@;
        scored.push((m, bias));
        proof {
            assert(ordered@.take(i + 1) =~= ordered@.take(i as int).push(m));
            assert(int_scores(scored@) =~= int_scores(old_scored).push((m, bias as int)));
            assert(biased_moves(*board, side, phase as int, ordered@.take(i + 1))
                =~= biased_moves(*board, side, phase as int, ordered@.take(i as int)).push((m, bias as int)));
            assert(int_scores(scored@) =~= biased_moves(*board, side, phase as int, ordered@.take(i + 1)));
        }
        i = i + 1;
    }
    proof {
        assert(ordered@.take(ordered@.len() as int) =~= ordered@);
    }
    let sorted = sort_scored_desc(&scored);
    let ghost target = sort_by_score(biased_moves(*board, side, root_phase(*board), old(ordered)@));
    proof {
        assert(int_scores(sorted@) == target);
        assert(sorted@.len() == target.len());
    }
    let mut out: Vec<Move> = Vec::new();
    let mut k: usize = 0;
    while k < sorted.len()
        invariant
            k <= sorted@.len(),
            int_scores(sorted@) == target,
            out@ == target.take(k as int).map_values(|x: (Move, int)| x.0),
        decreases sorted@.len() - k,
    {
        let m = sorted[k].0;
        out.push(m);
        proof {
            assert(int_scores(sorted@)[k as int].0 == m);
            assert(target.take(k + 1) =~= target.take(k as int).push(target[k as int]));
            assert(out@ =~= target.take(k + 1).map_values(|x: (Move, int)| x.0));
        }
        k = k + 1;
    }
    proof {
        assert(target.take(target.len() as int) =~= target);
        assert forall|m: Move| #[trigger] out@.contains(m) <==> old(ordered)@.contains(m) by {
            lemma_biased_order_members(*board, side, root_phase(*board), old(ordered)@, m);
        }
        lemma_biased_order_members(*board, side, root_phase(*board), old(ordered)@, old(ordered)@[0]);
    }
    *ordered = out;
}

/// Moving the entry at `p` to the front keeps the same entries.
pub(crate) proof fn lemma_front_members(s: Seq<Move>, p: int)
    requires
        0 <= p < s.len(),
    ensures
        forall|m: Move| #[trigger] (seq![s[p]] + s.remove(p)).contains(m) <==> s.contains(m),
{
    broadcast use vstd::seq_lib::group_seq_properties;
    assert(s.remove(p) =~= s.subrange(0, p) + s.subrange(p + 1, s.len() as int));
    assert(s =~= s.subrange(0, p) + seq![s[p]] + s.subrange(p + 1, s.len() as int));
    assert forall|m: Move| #[trigger] (seq![s[p]] + s.remove(p)).contains(m) <==> s.contains(m) by {
        assert((s.subrange(0, p) + seq![s[p]] + s.subrange(p + 1, s.len() as int)).contains(m)
            <==> (s.subrange(0, p) + seq![s[p]]).contains(m) || s.subrange(p + 1, s.len() as int).contains(m));
    }
}

/// Inserting by score adds exactly the one entry.
proof fn lemma_insert_by_score_members(r: Seq<(Move, int)>, x: (Move, int), y: (Move, int))
    ensures
        insert_by_score(r, x).len() == r.len() + 1,
        insert_by_score(r, x).contains(y) <==> (r.contains(y) || y == x),
    decreases r.len(),
{
    broadcast use vstd::seq_lib::group_seq_properties;
    if r.len() == 0 {
        assert(seq![x][0] == x);
    } else if r[0].1 >= x.1 {
        lemma_insert_by_score_members(r.drop_first(), x, y);
        assert(r =~= seq![r[0]] + r.drop_first());
    }
}

/// Sorting by score keeps the entries.
pub(crate) proof fn lemma_sort_by_score_members(v: Seq<(Move, int)>, y: (Move, int))
    ensures
        sort_by_score(v).len() == v.len(),
        sort_by_score(v).contains(y) <==> v.contains(y),
    decreases v.len(),
{
    broadcast use vstd::seq_lib::group_seq_properties;
    if v.len() > 0 {
        lemma_sort_by_score_members(v.drop_last(), y);
        lemma_insert_by_score_members(sort_by_score(v.drop_last()), v.last(), y);
        assert(v =~= v.drop_last().push(v.last()));
    }
}

/// The moves ordered by their nudges are the moves given.
proof fn lemma_biased_order_members(b: Board, side: Color, phase: int, s: Seq<Move>, m: Move)
    ensures
        sort_by_score(biased_moves(b, side, phase, s)).map_values(|x: (Move, int)| x.0).len() == s.len(),
        sort_by_score(biased_moves(b, side, phase, s)).map_values(|x: (Move, int)| x.0).contains(m) <==> s.contains(m),
{
    let bm = biased_moves(b, side, phase, s);
    let srt = sort_by_score(bm);
    let out = srt.map_values(|x: (Move, int)| x.0);
    let y = (m, spec_root_order_bias(b, side, m.0, m.1, phase));
    lemma_sort_by_score_members(bm, y);
    if out.contains(m) {
        let i = choose|i: int| 0 <= i < out.len() && out[i] == m;
        let e = srt[i];
        lemma_sort_by_score_members(bm, e);
        assert(srt.contains(e));
        let j = choose|j: int| 0 <= j < bm.len() && bm[j] == e;
        assert(s[j] == m);
    }
    if s.contains(m) {
        let j = choose|j: int| 0 <= j < s.len() && s[j] == m;
        assert(bm[j] == y);
        assert(bm.contains(y));
        let i = choose|i: int| 0 <= i < srt.len() && srt[i] == y;
        assert(out[i] == m);
    }
}

/// The board the root ordering looks at for a move: the piece (a pawn that
/// promotes as a queen) lifted from `from` and put on `to`, nothing else
/// moved.
pub open spec fn priority_board(b: Board, m: Move) -> Board {
    match b.at(m.0.0 as int, m.0.1 as int) {
        Some(p) => {
            let p1 = if p.piece_type == PieceType::Pawn && m.2 is Some {
                Piece { piece_type: PieceType::Queen, color: p.color }
            } else {
                p
            };
            let b1 = b.with(m.1.0 as int, m.1.1 as int, Some(p1)).with(m.0.0 as int, m.0.1 as int, None);
            if p1.piece_type == PieceType::King { b1.with_king(p1.color, m.1) } else { b1 }
        },
        None => b,
    }
}

/// The priority of a root move: 10000 when it gives check on that board,
/// plus the value of the piece on its target square, plus 900 for a
/// promotion.
pub open spec fn root_priority(b: Board, side: Color, m: Move) -> int {
    (if b.at(m.0.0 as int, m.0.1 as int) is Some && priority_board(b, m).in_check(spec_opposite(side)) { 10000int } else { 0 })
        + (match b.at(m.1.0 as int, m.1.1 as int) {
            Some(q) => spec_piece_value(q.piece_type) as int,
            None => 0,
        })
        + (if m.2 is Some { 900int } else { 0 })
}

/// Every move of the list goes from a square of the board to one.
pub open spec fn moves_on_board(s: Seq<Move>) -> bool {
    forall|i: int| 0 <= i < s.len() ==> on_board(#[trigger] s[i].0) && on_board(s[i].1)
}

/// Each move paired with its priority.
pub open spec fn prioritized(b: Board, side: Color, s: Seq<Move>) -> Seq<(Move, int)> {
    s.map_values(|m: Move| (m, root_priority(b, side, m)))
}

fn root_priority_of(board: &Board, side: Color, m: Move) -> (v: i32)
    requires
        board.wf(),
        on_board(m.0),
        on_board(m.1),
    ensures
        v == root_priority(*board, side, m),
{
    let (from, to, promo) = m;
    let mut check = false;
    if let Some(mp) = board.get(from.0, from.1) {
        let mp1 = if mp.piece_type == PieceType::Pawn && promo.is_some() {
            Piece { piece_type: PieceType::Queen, color: mp.color }
        } else {
            mp
        };
        let mut b1 = *board;
        b1.set(to.0, to.1, Some(mp1));
        b1.set(from.0, from.1, None);
        if mp1.piece_type == PieceType::King {
            b1.set_king_location(mp1.color, to);
        }
        assert(b1 == priority_board(*board, m));
        check = b1.is_side_in_check(opposite_color(side));
    }
    let cap = match board.get(to.0, to.1) {
        Some(q) => piece_value_cp(q.piece_type),
        None => 0,
    };
    (if check { 10000 } else { 0 }) + cap + (if promo.is_some() { 900 } else { 0 })
}

proof fn lemma_prioritized_members(b: Board, side: Color, s: Seq<Move>, m: Move)
    ensures
        sort_by_score(prioritized(b, side, s)).map_values(|x: (Move, int)| x.0).len() == s.len(),
        sort_by_score(prioritized(b, side, s)).map_values(|x: (Move, int)| x.0).contains(m) <==> s.contains(m),
{
    let bm = prioritized(b, side, s);
    let srt = sort_by_score(bm);
    let out = srt.map_values(|x: (Move, int)| x.0);
    let y = (m, root_priority(b, side, m));
    lemma_sort_by_score_members(bm, y);
    if out.contains(m) {
        let i = choose|i: int| 0 <= i < out.len() && out[i] == m;
        let e = srt[i];
        lemma_sort_by_score_members(bm, e);
        assert(srt.contains(e));
        let j = choose|j: int| 0 <= j < bm.len() && bm[j] == e;
        assert(s[j] == m);
    }
    if s.contains(m) {
        let j = choose|j: int| 0 <= j < s.len() && s[j] == m;
        assert(bm[j] == y);
        assert(bm.contains(y));
        let i = choose|i: int| 0 <= i < srt.len() && srt[i] == y;
        assert(out[i] == m);
    }
}

/// The root moves ordered for the first iteration: by `root_priority`,
/// highest first, equal priorities in their order.
pub fn order_root_moves_by_priority(ordered: &mut Vec<Move>, board: &Board, side: Color)
    requires
        moves_on_board(old(ordered)@),
        board.wf(),
    ensures
        final(ordered)@ == sort_by_score(prioritized(*board, side, old(ordered)@)).map_values(|x: (Move, int)| x.0),
        final(ordered)@.len() == old(ordered)@.len(),
        forall|m: Move| #[trigger] final(ordered)@.contains(m) <==> old(ordered)@.contains(m),
{
    let mut scored: Vec<(Move, i32)> = Vec::new();
    let mut i: usize = 0;
    while i < ordered.len()
        invariant
            i <= ordered@.len(),
            ordered@ == old(ordered)@,
            board.wf(),
            forall|j: int| 0 <= j < ordered@.len() ==> on_board(#[trigger] ordered@[j].0) && on_board(ordered@[j].1),
            int_scores(scored@) == prioritized(*board, side, ordered@.take(i as int)),
        decreases ordered@.len() - i,
    {
        let m = ordered[i];
        assert(on_board(ordered@[i as int].0));
        let pr = root_priority_of(board, side, m);
        let ghost old_scored = scored@;
        scored.push((m, pr));
        proof {
            assert(ordered@.take(i + 1) =~= ordered@.take(i as int).push(m));
            assert(int_scores(scored@) =~= int_scores(old_scored).push((m, pr as int)));
            assert(prioritized(*board, side, ordered@.take(i + 1))
                =~= prioritized(*board, side, ordered@.take(i as int)).push((m, pr as int)));
        }
        i = i + 1;
    }
    proof {
        assert(ordered@.take(ordered@.len() as int) =~= ordered@);
    }
    let sorted = sort_scored_desc(&scored);
    let ghost target = sort_by_score(prioritized(*board, side, old(ordered)@));
    proof {
        assert(int_scores(sorted@) == target);
        assert(sorted@.len() == target.len());
    }
    let mut out: Vec<Move> = Vec::new();
    let mut k: usize = 0;
    while k < sorted.len()
        invariant
            k <= sorted@.len(),
            int_scores(sorted@) == target,
            out@ == target.take(k as int).map_values(|x: (Move, int)| x.0),
        decreases sorted@.len() - k,
    {
        let m = sorted[k].0;
        out.push(m);
        proof {
            assert(int_scores(sorted@)[k as int].0 == m);
            assert(target.take(k + 1) =~= target.take(k as int).push(target[k as int]));
            assert(out@ =~= target.take(k + 1).map_values(|x: (Move, int)| x.0));
        }
        k = k + 1;
    }
    proof {
        assert(target.take(target.len() as int) =~= target);
        assert forall|m: Move| #[trigger] out@.contains(m) <==> old(ordered)@.contains(m) by {
            lemma_prioritized_members(*board, side, old(ordered)@, m);
        }
        lemma_prioritized_members(*board, side, old(ordered)@, ((0usize, 0usize), (0usize, 0usize), None));
    }
    *ordered = out;
}

} // verus!
