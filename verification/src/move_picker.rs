//! Staged move picker: instead of scoring and sorting every move up front,
//! moves are handed out stage by stage: the transposition-table move, good
//! captures (by exchange estimate and MVV-LVA), killer moves, quiet moves by
//! history, and last the losing captures. A from-to pair is handed out at
//! most once.
use vstd::prelude::*;
use crate::pieces::{Color, Piece, PieceType, piece_value_cp, spec_opposite, spec_piece_value};
use crate::board::{Board, on_board, opt_square_is, same_square};
use crate::heuristics::{SearchHeuristics};
use crate::see::{see_dest_estimate, see_value};
use crate::ordering::landing_piece;
use crate::tt::{decode_move, spec_decode_move};
use crate::movegen::Move;

verus! {

/// A move with its ordering score.
#[derive(Clone, Copy)]
struct ScoredMove {
    from: (usize, usize),
    to: (usize, usize),
    promo: Option<char>,
    score: i32,
}

#[derive(Clone, Copy, PartialEq, Eq, Structural)]
enum Stage {
    TtMove,
    GenerateCaptures,
    GoodCaptures,
    Killers,
    GenerateQuiets,
    Quiets,
    BadCaptures,
    Done,
}

spec fn rank(s: Stage) -> int {
    match s {
        Stage::TtMove => 0,
        Stage::GenerateCaptures => 1,
        Stage::GoodCaptures => 2,
        Stage::Killers => 3,
        Stage::GenerateQuiets => 4,
        Stage::Quiets => 5,
        Stage::BadCaptures => 6,
        Stage::Done => 7,
    }
}

pub open spec fn move_pair(m: Move) -> ((usize, usize), (usize, usize)) {
    (m.0, m.1)
}

/// Some move of `moves` goes between the squares of `p`.
pub open spec fn has_pair(moves: Seq<Move>, p: ((usize, usize), (usize, usize))) -> bool {
    exists|i: int| 0 <= i < moves.len() && #[trigger] move_pair(moves[i]) == p
}

spec fn sm_move(s: ScoredMove) -> Move {
    (s.from, s.to, s.promo)
}

/// The move is an en-passant capture in the position `b` with en-passant
/// square `ep`.
pub open spec fn is_ep_move(b: Board, ep: Option<(usize, usize)>, m: Move) -> bool {
    &&& ep == Some(m.1)
    &&& b.at(m.0.0 as int, m.0.1 as int) matches Some(p) && p.piece_type == PieceType::Pawn
    &&& (b.at(m.1.0 as int, m.1.1 as int) is None)
}

/// Captures (en passant included) and promotions: the moves of the capture
/// stages. All other moves are quiet.
pub open spec fn is_tactical(b: Board, ep: Option<(usize, usize)>, m: Move) -> bool {
    (b.at(m.1.0 as int, m.1.1 as int) is Some) || is_ep_move(b, ep, m) || (m.2 is Some)
}

spec fn holds_move(v: Seq<ScoredMove>, m: Move) -> bool {
    exists|i: int| 0 <= i < v.len() && #[trigger] sm_move(v[i]) == m
}

spec fn no_dup(s: Seq<((usize, usize), (usize, usize))>) -> bool {
    forall|i: int, j: int| 0 <= i < j < s.len() ==> #[trigger] s[i] != #[trigger] s[j]
}

spec fn sorted_desc(v: Seq<ScoredMove>) -> bool {
    forall|i: int, j: int| 0 <= i < j < v.len() ==> #[trigger] v[i].score >= #[trigger] v[j].score
}

/// A list of scored moves as pairs of move and score.
spec fn scored(v: Seq<ScoredMove>) -> Seq<(Move, int)> {
    v.map_values(|x: ScoredMove| (sm_move(x), x.score as int))
}

/// `x` placed after the leading entries of `r` that score at least as much.
pub open spec fn insert_by_score(r: Seq<(Move, int)>, x: (Move, int)) -> Seq<(Move, int)>
    decreases r.len(),
{
    if r.len() == 0 {
        seq![x]
    } else if r[0].1 >= x.1 {
        seq![r[0]] + insert_by_score(r.drop_first(), x)
    } else {
        seq![x] + r
    }
}

/// `v` ordered by score, highest first, entries of equal score in their
/// order in `v`.
pub open spec fn sort_by_score(v: Seq<(Move, int)>) -> Seq<(Move, int)>
    decreases v.len(),
{
    if v.len() == 0 {
        v
    } else {
        insert_by_score(sort_by_score(v.drop_last()), v.last())
    }
}

/// Inserting after the first `p` entries, where those score at least as
/// much as `x` and the next scores less, is inserting at `p`.
pub proof fn lemma_insert_by_score(r: Seq<(Move, int)>, x: (Move, int), p: int)
    requires
        0 <= p <= r.len(),
        forall|q: int| 0 <= q < p ==> #[trigger] r[q].1 >= x.1,
        p < r.len() ==> r[p].1 < x.1,
    ensures
        insert_by_score(r, x) == r.insert(p, x),
    decreases p,
{
    if p == 0 {
        if r.len() == 0 {
            assert(r.insert(0, x) =~= seq![x]);
        } else {
            assert(r.insert(0, x) =~= seq![x] + r);
        }
    } else {
        let t = r.drop_first();
        assert forall|q: int| 0 <= q < p - 1 implies #[trigger] t[q].1 >= x.1 by {
            assert(t[q] == r[q + 1]);
        }
        if p - 1 < t.len() {
            assert(t[p - 1] == r[p]);
        }
        lemma_insert_by_score(t, x, p - 1);
        assert(r.insert(p, x) =~= seq![r[0]] + t.insert(p - 1, x));
    }
}

/// The value of a piece, 0 for none.
pub open spec fn value_or_zero(p: Option<Piece>) -> int {
    match p {
        Some(x) => spec_piece_value(x.piece_type) as int,
        None => 0,
    }
}

/// The promotion bonus of the capture scores.
pub open spec fn promo_score(promo: Option<char>) -> int {
    match promo {
        Some(c) => if c == 'q' || c == 'Q' { 900 } else if c == 'r' || c == 'R' { 500 }
            else if c == 'b' || c == 'B' { 330 } else if c == 'n' || c == 'N' { 320 } else { 0 },
        None => 0,
    }
}

/// The piece a capture takes: the one beside the mover en passant, else the
/// one on the destination.
pub open spec fn captured_by(b: Board, m: Move, is_ep: bool) -> Option<Piece> {
    if is_ep { b.at(m.0.0 as int, m.1.1 as int) } else { b.at(m.1.0 as int, m.1.1 as int) }
}

/// The board the capture scores look at: the mover (a pawn of the side to
/// move when `from` is empty), or its promotion piece, on the destination,
/// with the pawn taken en passant removed.
pub open spec fn scoring_board(b: Board, to_move: Color, m: Move, is_ep: bool) -> Board {
    let moved = match b.at(m.0.0 as int, m.0.1 as int) {
        Some(p) => p,
        None => Piece { piece_type: PieceType::Pawn, color: to_move },
    };
    let landing = landing_piece(moved, m.2);
    let b1 = b.with(m.0.0 as int, m.0.1 as int, None);
    let b2 = if is_ep { b1.with(m.0.0 as int, m.1.1 as int, None) } else { b1 };
    let b3 = b2.with(m.1.0 as int, m.1.1 as int, Some(landing));
    if landing.piece_type == PieceType::King { b3.with_king(landing.color, m.1) } else { b3 }
}

/// The score of a capture or promotion: the exchange estimate on the
/// destination times 100, plus MVV-LVA (ten times the captured value less
/// the mover's) and the promotion bonus.
pub open spec fn capture_score(b: Board, ep: Option<(usize, usize)>, to_move: Color, m: Move) -> int {
    let is_ep = is_ep_move(b, ep, m);
    let cap = value_or_zero(captured_by(b, m, is_ep));
    see_value(scoring_board(b, to_move, m, is_ep), to_move, m.1, cap) * 100
        + cap * 10 - value_or_zero(b.at(m.0.0 as int, m.0.1 as int)) + promo_score(m.2)
}

/// The piece kind a promotion letter names.
pub open spec fn promo_letter_type(c: char) -> Option<PieceType> {
    if c == 'q' || c == 'Q' { Some(PieceType::Queen) } else if c == 'r' || c == 'R' { Some(PieceType::Rook) }
    else if c == 'b' || c == 'B' { Some(PieceType::Bishop) } else if c == 'n' || c == 'N' { Some(PieceType::Knight) }
    else { None }
}

/// A promotion whose new piece, put on the destination with `from`
/// emptied, checks the other side.
pub open spec fn promotion_checks(b: Board, to_move: Color, m: Move) -> bool {
    match m.2 {
        Some(c) => match promo_letter_type(c) {
            Some(pt) => b.with(m.0.0 as int, m.0.1 as int, None).with(m.1.0 as int, m.1.1 as int, Some(Piece { piece_type: pt, color: to_move }))
                .in_check(spec_opposite(to_move)),
            None => false,
        },
        None => false,
    }
}

/// A capture or promotion handed out before the killers: one that does not
/// lose in the exchange, or a promotion giving check.
pub open spec fn is_good_capture(b: Board, ep: Option<(usize, usize)>, to_move: Color, m: Move) -> bool {
    capture_score(b, ep, to_move, m) >= 0 || promotion_checks(b, to_move, m)
}

/// The captures and promotions of `moves` that are good (`good`) or losing
/// (`!good`), with their scores, in the order of `moves`.
pub open spec fn captures_of(moves: Seq<Move>, b: Board, ep: Option<(usize, usize)>, to_move: Color, good: bool) -> Seq<(Move, int)>
    decreases moves.len(),
{
    if moves.len() == 0 {
        Seq::empty()
    } else {
        let rest = captures_of(moves.drop_last(), b, ep, to_move, good);
        let m = moves.last();
        if is_tactical(b, ep, m) && is_good_capture(b, ep, to_move, m) == good {
            rest.push((m, capture_score(b, ep, to_move, m)))
        } else {
            rest
        }
    }
}

/// The score of a quiet move: counter-move bonus and continuation score
/// after the previous move, history score, and 50000 near the fifty-move limit.
pub open spec fn quiet_score(h: SearchHeuristics, to_move: Color, hmc: u32, prev: Option<((usize, usize), (usize, usize))>,
    from: (usize, usize), to: (usize, usize)) -> int
{
    (match prev {
        Some(pm) => (if h.counter_at(to_move, pm.0, pm.1) == crate::heuristics::flat_move(from, to) { 200_000int } else { 0int })
            + clamp_to(trunc_div(h.cont_at(to_move, pm.1, from, to) as int, 16), -150_000, 150_000),
        None => 0int,
    }) + clamp_to(trunc_div(h.history_at(to_move, from, to) as int, 32), -200_000, 200_000)
        + (if hmc >= 80 { 50_000int } else { 0int })
}

/// The quiet moves of `moves` with their scores, in the order of `moves`.
pub open spec fn quiets_of(moves: Seq<Move>, b: Board, ep: Option<(usize, usize)>, h: SearchHeuristics, to_move: Color, hmc: u32,
    prev: Option<((usize, usize), (usize, usize))>) -> Seq<(Move, int)>
    decreases moves.len(),
{
    if moves.len() == 0 {
        Seq::empty()
    } else {
        let rest = quiets_of(moves.drop_last(), b, ep, h, to_move, hmc, prev);
        let m = moves.last();
        if !is_tactical(b, ep, m) {
            rest.push((m, quiet_score(h, to_move, hmc, prev, m.0, m.1)))
        } else {
            rest
        }
    }
}

/// The moves of a list of scored moves.
pub open spec fn firsts(v: Seq<(Move, int)>) -> Seq<Move> {
    v.map_values(|x: (Move, int)| x.0)
}

/// A killer pair as a move of the list: the first move with its squares,
/// when there is one and its destination is empty.
pub open spec fn killer_entry(moves: Seq<Move>, b: Board, k: Option<((usize, usize), (usize, usize))>) -> Seq<Move> {
    match k {
        Some(p) => if has_pair(moves, p) && b.at(p.1.0 as int, p.1.1 as int) is None {
            seq![moves[first_with_pair(moves, p)]]
        } else {
            Seq::empty()
        },
        None => Seq::empty(),
    }
}

/// The order in which a picker tries the moves in the position `b` with
/// en-passant square `ep` and heuristics `h`: the table move, the good
/// captures by score, the two killers, the quiet moves by score, and the
/// losing captures by score (scores highest first, ties in list order).
pub open spec fn picker_plan(
    moves: Seq<Move>,
    tt: Option<Move>,
    killers: Seq<Option<((usize, usize), (usize, usize))>>,
    to_move: Color,
    hmc: u32,
    prev: Option<((usize, usize), (usize, usize))>,
    b: Board,
    ep: Option<(usize, usize)>,
    h: SearchHeuristics,
) -> Seq<Move> {
    (match tt { Some(m) => seq![m], None => Seq::<Move>::empty() })
        + firsts(sort_by_score(captures_of(moves, b, ep, to_move, true)))
        + killer_entry(moves, b, killers[0])
        + killer_entry(moves, b, killers[1])
        + firsts(sort_by_score(quiets_of(moves, b, ep, h, to_move, hmc, prev)))
        + firsts(sort_by_score(captures_of(moves, b, ep, to_move, false)))
}

/// The first move of `plan` whose from-to pair is not in `done`.
pub open spec fn first_fresh(plan: Seq<Move>, done: Seq<((usize, usize), (usize, usize))>) -> Option<Move>
    decreases plan.len(),
{
    if plan.len() == 0 {
        None
    } else if !done.contains(move_pair(plan[0])) {
        Some(plan[0])
    } else {
        first_fresh(plan.drop_first(), done)
    }
}

proof fn lemma_first_fresh_at(plan: Seq<Move>, done: Seq<((usize, usize), (usize, usize))>, k: int)
    requires
        0 <= k < plan.len(),
        forall|i: int| 0 <= i < k ==> done.contains(move_pair(#[trigger] plan[i])),
        !done.contains(move_pair(plan[k])),
    ensures
        first_fresh(plan, done) == Some(plan[k]),
    decreases k,
{
    if k > 0 {
        assert(done.contains(move_pair(plan[0])));
        let t = plan.drop_first();
        assert forall|i: int| 0 <= i < k - 1 implies done.contains(move_pair(#[trigger] t[i])) by {
            assert(t[i] == plan[i + 1]);
        }
        assert(t[k - 1] == plan[k]);
        lemma_first_fresh_at(t, done, k - 1);
    }
}

proof fn lemma_first_fresh_none(plan: Seq<Move>, done: Seq<((usize, usize), (usize, usize))>)
    requires
        forall|i: int| 0 <= i < plan.len() ==> done.contains(move_pair(#[trigger] plan[i])),
    ensures
        first_fresh(plan, done) is None,
    decreases plan.len(),
{
    if plan.len() > 0 {
        assert(done.contains(move_pair(plan[0])));
        let t = plan.drop_first();
        assert forall|i: int| 0 <= i < t.len() implies done.contains(move_pair(#[trigger] t[i])) by {
            assert(t[i] == plan[i + 1]);
        }
        lemma_first_fresh_none(t, done);
    }
}

/// Indexing into six lists put end to end.
proof fn lemma_six_index(a: Seq<Move>, b: Seq<Move>, c: Seq<Move>, d: Seq<Move>, e: Seq<Move>, f: Seq<Move>, i: int)
    requires
        0 <= i < a.len() + b.len() + c.len() + d.len() + e.len() + f.len(),
    ensures
        (a + b + c + d + e + f).len() == a.len() + b.len() + c.len() + d.len() + e.len() + f.len(),
        (a + b + c + d + e + f)[i] == (
            if i < a.len() { a[i] }
            else if i < a.len() + b.len() { b[i - a.len()] }
            else if i < a.len() + b.len() + c.len() { c[i - a.len() - b.len()] }
            else if i < a.len() + b.len() + c.len() + d.len() { d[i - a.len() - b.len() - c.len()] }
            else if i < a.len() + b.len() + c.len() + d.len() + e.len() { e[i - a.len() - b.len() - c.len() - d.len()] }
            else { f[i - a.len() - b.len() - c.len() - d.len() - e.len()] }),
{
    let ab = a + b;
    let abc = ab + c;
    let abcd = abc + d;
    let abcde = abcd + e;
    if i < abcde.len() {
        assert((abcde + f)[i] == abcde[i]);
        if i < abcd.len() {
            assert(abcde[i] == abcd[i]);
            if i < abc.len() {
                assert(abcd[i] == abc[i]);
                if i < ab.len() {
                    assert(abc[i] == ab[i]);
                }
            }
        }
    }
}

/// `n` cut to the range `lo..=hi`.
pub open spec fn clamp_to(n: int, lo: int, hi: int) -> int {
    if n < lo { lo } else if n > hi { hi } else { n }
}

/// Integer division rounding toward zero, as `/` does on machine integers.
pub open spec fn trunc_div(a: int, b: int) -> int {
    if a >= 0 { a / b } else { -((-a) / b) }
}

pub struct MovePicker {
    stage: Stage,
    tt_move: Option<Move>,
    good_captures: Vec<ScoredMove>,
    bad_captures: Vec<ScoredMove>,
    killers: [Option<((usize, usize), (usize, usize))>; 2],
    quiets: Vec<ScoredMove>,
    all_moves: Vec<Move>,
    capture_idx: usize,
    killer_idx: usize,
    quiet_idx: usize,
    bad_capture_idx: usize,
    to_move: Color,
    half_move_clock: u32,
    prev_move: Option<((usize, usize), (usize, usize))>,
    searched: Vec<((usize, usize), (usize, usize))>,
    /// The position and en-passant square the captures were classified in.
    class_pos: Ghost<(Board, Option<(usize, usize)>)>,
    /// Whether the quiet moves were classified in that same position.
    same_pos: Ghost<bool>,
}

proof fn lemma_insert_contains<A>(s: Seq<A>, p: int, x: A, y: A)
    requires
        0 <= p <= s.len(),
    ensures
        s.insert(p, x).contains(y) <==> (s.contains(y) || y == x),
{
    s.insert_ensures(p, x);
    let t = s.insert(p, x);
    if t.contains(y) {
        let k = choose|k: int| 0 <= k < t.len() && t[k] == y;
        if k < p {
            assert(s[k] == y);
        } else if k > p {
            assert(t[(k - 1) + 1] == s[k - 1]);
            assert(s[k - 1] == y);
        }
    }
    if s.contains(y) {
        let k = choose|k: int| 0 <= k < s.len() && s[k] == y;
        if k < p {
            assert(t[k] == y);
        } else {
            assert(t[k + 1] == y);
        }
    }
    if y == x {
        assert(t[p] == y);
    }
}

/// The moves of `v` ordered by score, highest first; moves with equal
/// scores keep their order.
fn sort_by_score_desc(v: &Vec<ScoredMove>) -> (r: Vec<ScoredMove>)
    ensures
        r@.len() == v@.len(),
        sorted_desc(r@),
        forall|x: ScoredMove| #[trigger] r@.contains(x) <==> v@.contains(x),
        scored(r@) == sort_by_score(scored(v@)),
{
    let mut r: Vec<ScoredMove> = Vec::new();
    let mut k: usize = 0;
    proof {
        assert(scored(v@).take(0) =~= Seq::<(Move, int)>::empty());
        assert(scored(r@) =~= Seq::<(Move, int)>::empty());
    }
    while k < v.len()
        invariant
            k <= v@.len(),
            r@.len() == k,
            sorted_desc(r@),
            forall|x: ScoredMove| #[trigger] r@.contains(x) <==> v@.take(k as int).contains(x),
            scored(r@) == sort_by_score(scored(v@).take(k as int)),
        decreases v@.len() - k,
    {
        let x = v[k];
        let mut p: usize = 0;
        while p < r.len() && r[p].score >= x.score
            invariant
                p <= r@.len(),
                forall|q: int| 0 <= q < p ==> #[trigger] r@[q].score >= x.score,
            decreases r@.len() - p,
        {
            p = p + 1;
        }
        let ghost old_r = r@;
        r.insert(p, x);
        proof {
            let sx = (sm_move(x), x.score as int);
            let so = scored(old_r);
            assert forall|q: int| 0 <= q < p implies #[trigger] so[q].1 >= sx.1 by {
                assert(old_r[q].score >= x.score);
            }
            if (p as int) < so.len() {
                assert(so[p as int].1 < sx.1);
            }
            lemma_insert_by_score(so, sx, p as int);
            assert(scored(r@) =~= so.insert(p as int, sx));
            let sv = scored(v@);
            assert(sv.take(k + 1).drop_last() =~= sv.take(k as int));
            assert(sv.take(k + 1).last() == sx);
            old_r.insert_ensures(p as int, x);
            assert(v@.take(k as int + 1) =~= v@.take(k as int).push(x));
            assert forall|y: ScoredMove| #[trigger] r@.contains(y) <==> v@.take(k as int + 1).contains(y) by {
                lemma_insert_contains(old_r, p as int, x, y);
                crate::seq_facts::lemma_push_contains(v@.take(k as int), x, y);
            }
            assert forall|i: int, j: int| 0 <= i < j < r@.len() implies #[trigger] r@[i].score >= #[trigger] r@[j].score by {
                if j < p {
                } else if j == p {
                } else if i < p {
                    assert(r@[j] == old_r[j - 1]);
                    if p < old_r.len() {
                        assert(old_r[p as int].score < x.score);
                    }
                } else if i == p {
                    assert(r@[j] == old_r[j - 1]);
                    assert(old_r[p as int].score < x.score);
                    if j - 1 > p {
                        assert(old_r[p as int].score >= old_r[j - 1].score);
                    }
                } else {
                    assert(r@[i] == old_r[i - 1]);
                    assert(r@[j] == old_r[j - 1]);
                }
            }
        }
        k = k + 1;
    }
    proof {
        assert(v@.take(v@.len() as int) =~= v@);
        assert(scored(v@).take(v@.len() as int) =~= scored(v@));
    }
    r
}

fn promo_piece_type(pc: char, default: PieceType) -> (pt: PieceType)
    ensures
        pt == (if pc == 'q' || pc == 'Q' { PieceType::Queen }
            else if pc == 'r' || pc == 'R' { PieceType::Rook }
            else if pc == 'b' || pc == 'B' { PieceType::Bishop }
            else if pc == 'n' || pc == 'N' { PieceType::Knight }
            else { default }),
{
    if pc == 'q' || pc == 'Q' {
        PieceType::Queen
    } else if pc == 'r' || pc == 'R' {
        PieceType::Rook
    } else if pc == 'b' || pc == 'B' {
        PieceType::Bishop
    } else if pc == 'n' || pc == 'N' {
        PieceType::Knight
    } else {
        default
    }
}

fn is_ep_exec(board: &Board, ep_target: Option<(usize, usize)>, from: (usize, usize), to: (usize, usize)) -> (b: bool)
    requires
        on_board(from),
        on_board(to),
    ensures
        b == is_ep_move(*board, ep_target, (from, to, None)),
{
    if !opt_square_is(ep_target, to) {
        return false;
    }
    let pawn_from = match board.get(from.0, from.1) {
        Some(p) => p.piece_type == PieceType::Pawn,
        None => false,
    };
    pawn_from && board.get(to.0, to.1).is_none()
}

impl MovePicker {
    spec fn moves_on_board(moves: Seq<Move>) -> bool {
        forall|i: int| 0 <= i < moves.len() ==> on_board(#[trigger] moves[i].0) && on_board(moves[i].1)
    }

    /// The moves the picker chooses from.
    pub closed spec fn moves(&self) -> Seq<Move> {
        self.all_moves@
    }

    /// The from-to pairs handed out so far, in order.
    pub closed spec fn returned(&self) -> Seq<((usize, usize), (usize, usize))> {
        self.searched@
    }

    /// The transposition-table move, while it is still to be handed out.
    pub closed spec fn tt_pending(&self) -> Option<Move> {
        if self.stage == Stage::TtMove { self.tt_move } else { None }
    }

    /// The picker has been used with one position only: `next` has been
    /// called with `board` and `ep` (or not called at all).
    pub closed spec fn used_with(&self, board: Board, ep: Option<(usize, usize)>) -> bool {
        &&& self.same_pos@
        &&& rank(self.stage) >= 2 ==> self.class_pos@ == (board, ep)
    }

    pub closed spec fn wf(&self) -> bool {
        let moves = self.all_moves@;
        let cp = self.class_pos@;
        &&& Self::moves_on_board(moves)
        &&& self.tt_move matches Some(m) ==> moves.contains(m)
        &&& no_dup(self.searched@)
        &&& forall|i: int| 0 <= i < self.searched@.len() ==> has_pair(moves, #[trigger] self.searched@[i])
        &&& rank(self.stage) == 0 ==> self.searched@.len() == 0
        &&& rank(self.stage) < 2 ==> self.good_captures@.len() == 0 && self.bad_captures@.len() == 0
            && self.capture_idx == 0 && self.bad_capture_idx == 0
        &&& rank(self.stage) < 5 ==> self.quiets@.len() == 0 && self.quiet_idx == 0
        &&& self.killer_idx <= 2
        &&& forall|i: int| 0 <= i < self.good_captures@.len() ==> moves.contains(#[trigger] sm_move(self.good_captures@[i]))
        &&& forall|i: int| 0 <= i < self.bad_captures@.len() ==> moves.contains(#[trigger] sm_move(self.bad_captures@[i]))
        &&& forall|i: int| 0 <= i < self.quiets@.len() ==> moves.contains(#[trigger] sm_move(self.quiets@[i]))
        &&& rank(self.stage) >= 2 ==> forall|m: Move| #[trigger] moves.contains(m) && is_tactical(cp.0, cp.1, m)
            ==> holds_move(self.good_captures@, m) || holds_move(self.bad_captures@, m)
        &&& rank(self.stage) >= 5 && self.same_pos@ ==> forall|m: Move| #[trigger] moves.contains(m) && !is_tactical(cp.0, cp.1, m)
            ==> holds_move(self.quiets@, m)
        &&& self.capture_idx <= self.good_captures@.len()
        &&& self.quiet_idx <= self.quiets@.len()
        &&& self.bad_capture_idx <= self.bad_captures@.len()
        &&& rank(self.stage) >= 3 ==> self.capture_idx == self.good_captures@.len()
        &&& rank(self.stage) >= 6 ==> self.quiet_idx == self.quiets@.len()
        &&& rank(self.stage) >= 7 ==> self.bad_capture_idx == self.bad_captures@.len()
        &&& forall|i: int| 0 <= i < self.capture_idx ==> self.searched@.contains(#[trigger] move_pair(sm_move(self.good_captures@[i])))
        &&& forall|i: int| 0 <= i < self.quiet_idx ==> self.searched@.contains(#[trigger] move_pair(sm_move(self.quiets@[i])))
        &&& forall|i: int| 0 <= i < self.bad_capture_idx ==> self.searched@.contains(#[trigger] move_pair(sm_move(self.bad_captures@[i])))
        &&& self.prev_move matches Some(pm) ==> on_board(pm.0) && on_board(pm.1)
    }

    /// The order in which this picker tries the moves in the position `b`
    /// with en-passant square `ep` and heuristics `h` (see `picker_plan`).
    #[verifier::opaque]
    pub closed spec fn plan(&self, b: Board, ep: Option<(usize, usize)>, h: SearchHeuristics) -> Seq<Move> {
        picker_plan(self.all_moves@, self.tt_move, self.killers@, self.to_move, self.half_move_clock, self.prev_move, b, ep, h)
    }

    spec fn killers_done(&self, b: Board) -> int {
        (if self.killer_idx >= 1 { killer_entry(self.all_moves@, b, self.killers@[0]).len() as int } else { 0 })
            + (if self.killer_idx >= 2 { killer_entry(self.all_moves@, b, self.killers@[1]).len() as int } else { 0 })
    }

    /// How many entries of the plan the picker has gone past.
    spec fn cursor(&self, b: Board) -> int {
        let t: int = if self.tt_move is Some { 1 } else { 0 };
        let g = self.good_captures@.len() as int;
        let k = killer_entry(self.all_moves@, b, self.killers@[0]).len() + killer_entry(self.all_moves@, b, self.killers@[1]).len();
        let q = self.quiets@.len() as int;
        match self.stage {
            Stage::TtMove => 0,
            Stage::GenerateCaptures => t,
            Stage::GoodCaptures => t + self.capture_idx,
            Stage::Killers => t + g + self.killers_done(b),
            Stage::GenerateQuiets => t + g + k,
            Stage::Quiets => t + g + k + self.quiet_idx,
            Stage::BadCaptures => t + g + k + q + self.bad_capture_idx,
            Stage::Done => t + g + k + q + self.bad_captures@.len(),
        }
    }

    /// The picker has been asked with the position `b`, en-passant square
    /// `ep` and heuristics `h` only (or not yet asked), so that it hands out
    /// the moves in the order of `plan(b, ep, h)`.
    pub closed spec fn follows(&self, b: Board, ep: Option<(usize, usize)>, h: SearchHeuristics) -> bool {
        let plan = self.plan(b, ep, h);
        let c = self.cursor(b);
        &&& self.lists_follow(b, ep, h)
        &&& 0 <= c <= plan.len()
        &&& forall|i: int| 0 <= i < c ==> self.searched@.contains(move_pair(#[trigger] plan[i]))
    }

    /// The lists built so far are those of the plan.
    spec fn lists_follow(&self, b: Board, ep: Option<(usize, usize)>, h: SearchHeuristics) -> bool {
        &&& rank(self.stage) < 3 ==> self.killer_idx == 0
        &&& rank(self.stage) < 6 ==> self.bad_capture_idx == 0
        &&& rank(self.stage) >= 2 ==> scored(self.good_captures@) == sort_by_score(captures_of(self.all_moves@, b, ep, self.to_move, true))
            && scored(self.bad_captures@) == sort_by_score(captures_of(self.all_moves@, b, ep, self.to_move, false))
        &&& rank(self.stage) >= 5 ==> scored(self.quiets@)
            == sort_by_score(quiets_of(self.all_moves@, b, ep, h, self.to_move, self.half_move_clock, self.prev_move))
    }

    /// A picker over `moves`. The table hint (from- and to-square numbers)
    /// becomes the first move when some move of the list has those squares.
    pub fn new(
        moves: Vec<Move>,
        tt_move_hint: Option<(u8, u8)>,
        killers: [Option<((usize, usize), (usize, usize))>; 2],
        to_move: Color,
        half_move_clock: u32,
        prev_move: Option<((usize, usize), (usize, usize))>,
    ) -> (mp: MovePicker)
        requires
            forall|i: int| 0 <= i < moves@.len() ==> on_board(#[trigger] moves@[i].0) && on_board(moves@[i].1),
            prev_move matches Some(pm) ==> on_board(pm.0) && on_board(pm.1),
        ensures
            mp.wf(),
            mp.moves() == moves@,
            mp.returned() == Seq::<((usize, usize), (usize, usize))>::empty(),
            forall|b: Board, ep: Option<(usize, usize)>| #[trigger] mp.used_with(b, ep),
            forall|b: Board, ep: Option<(usize, usize)>, h: SearchHeuristics| #[trigger] mp.follows(b, ep, h),
            forall|b: Board, ep: Option<(usize, usize)>, h: SearchHeuristics| #[trigger] mp.plan(b, ep, h)
                == picker_plan(moves@, mp.tt_pending(), killers@, to_move, half_move_clock, prev_move, b, ep, h),
            mp.tt_pending() == (match tt_move_hint {
                Some(h) => {
                    let bm = spec_decode_move(h.0, h.1);
                    if exists|i: int| 0 <= i < moves@.len() && move_pair(moves@[i]) == bm {
                        Some(moves@[first_with_pair(moves@, bm)])
                    } else {
                        None
                    }
                },
                None => None,
            }),
    {
        let tt_move = match tt_move_hint {
            Some((bf, bt)) => {
                let bm = decode_move(bf, bt);
                find_pair(&moves, bm.0, bm.1)
            },
            None => None,
        };
        let mp = MovePicker {
            stage: Stage::TtMove,
            tt_move,
            good_captures: Vec::new(),
            bad_captures: Vec::new(),
            killers,
            quiets: Vec::new(),
            all_moves: moves,
            capture_idx: 0,
            killer_idx: 0,
            quiet_idx: 0,
            bad_capture_idx: 0,
            to_move,
            half_move_clock,
            prev_move,
            searched: Vec::new(),
            class_pos: Ghost(vstd::pervasive::arbitrary()),
            same_pos: Ghost(true),
        };
        proof {
            reveal(MovePicker::plan);
        }
        mp
    }

    fn already_searched(&self, from: (usize, usize), to: (usize, usize)) -> (b: bool)
        ensures
            b == self.searched@.contains((from, to)),
    {
        let mut i: usize = 0;
        while i < self.searched.len()
            invariant
                i <= self.searched@.len(),
                forall|j: int| 0 <= j < i ==> #[trigger] self.searched@[j] != (from, to),
            decreases self.searched@.len() - i,
        {
            let (f, t) = self.searched[i];
            if same_square(f, from) && same_square(t, to) {
                return true;
            }
            i = i + 1;
        }
        false
    }
}

/// The index of the first move of `moves` with the given squares.
pub open spec fn first_with_pair(moves: Seq<Move>, p: ((usize, usize), (usize, usize))) -> int
    recommends
        exists|i: int| 0 <= i < moves.len() && move_pair(moves[i]) == p,
{
    choose|i: int| 0 <= i < moves.len() && move_pair(moves[i]) == p
        && forall|j: int| 0 <= j < i ==> move_pair(#[trigger] moves[j]) != p
}

/// The first move of `moves` going from `from` to `to`.
fn find_pair(moves: &Vec<Move>, from: (usize, usize), to: (usize, usize)) -> (r: Option<Move>)
    ensures
        r matches Some(m) ==> moves@.contains(m) && move_pair(m) == (from, to),
        (exists|i: int| 0 <= i < moves@.len() && move_pair(moves@[i]) == (from, to))
            ==> r == Some(moves@[first_with_pair(moves@, (from, to))]),
        !(exists|i: int| 0 <= i < moves@.len() && move_pair(moves@[i]) == (from, to)) ==> (r is None),
{
    let mut i: usize = 0;
    while i < moves.len()
        invariant
            i <= moves@.len(),
            forall|j: int| 0 <= j < i ==> move_pair(#[trigger] moves@[j]) != (from, to),
        decreases moves@.len() - i,
    {
        let m = moves[i];
        if same_square(m.0, from) && same_square(m.1, to) {
            proof {
                let p = (from, to);
                assert(move_pair(moves@[i as int]) == p);
                let k = first_with_pair(moves@, p);
                assert(0 <= i < moves@.len() && move_pair(moves@[i as int]) == p
                    && forall|j: int| 0 <= j < i ==> move_pair(#[trigger] moves@[j]) != p);
                assert(0 <= k < moves@.len() && move_pair(moves@[k]) == p
                    && forall|j: int| 0 <= j < k ==> move_pair(#[trigger] moves@[j]) != p);
                if k < i {
                    assert(move_pair(moves@[k]) != p);
                }
                if k > i {
                    assert(move_pair(moves@[i as int]) != p);
                }
                assert(moves@[i as int] == m);
            }
            return Some(m);
        }
        i = i + 1;
    }
    None
}

proof fn lemma_holds_move_sorted(v: Seq<ScoredMove>, r: Seq<ScoredMove>, m: Move)
    requires
        forall|x: ScoredMove| #[trigger] r.contains(x) <==> v.contains(x),
        holds_move(v, m),
    ensures
        holds_move(r, m),
{
    let i = choose|i: int| 0 <= i < v.len() && #[trigger] sm_move(v[i]) == m;
    assert(v.contains(v[i]));
    assert(r.contains(v[i]));
    let j = choose|j: int| 0 <= j < r.len() && r[j] == v[i];
    assert(sm_move(r[j]) == m);
}

proof fn lemma_holds_move_push(v: Seq<ScoredMove>, x: ScoredMove, m: Move)
    ensures
        holds_move(v.push(x), m) <==> (holds_move(v, m) || sm_move(x) == m),
{
    if holds_move(v, m) {
        let i = choose|i: int| 0 <= i < v.len() && #[trigger] sm_move(v[i]) == m;
        assert(sm_move(v.push(x)[i]) == m);
    }
    if sm_move(x) == m {
        assert(sm_move(v.push(x)[v.len() as int]) == m);
    }
    if holds_move(v.push(x), m) {
        let i = choose|i: int| 0 <= i < v.len() + 1 && #[trigger] sm_move(v.push(x)[i]) == m;
        if i < v.len() {
            assert(sm_move(v[i]) == m);
        }
    }
}

proof fn lemma_contains_elems_sorted(v: Seq<ScoredMove>, r: Seq<ScoredMove>, moves: Seq<Move>)
    requires
        forall|x: ScoredMove| #[trigger] r.contains(x) <==> v.contains(x),
        forall|i: int| 0 <= i < v.len() ==> moves.contains(#[trigger] sm_move(v[i])),
    ensures
        forall|i: int| 0 <= i < r.len() ==> moves.contains(#[trigger] sm_move(r[i])),
{
    assert forall|i: int| 0 <= i < r.len() implies moves.contains(#[trigger] sm_move(r[i])) by {
        assert(r.contains(r[i]));
        assert(v.contains(r[i]));
        let j = choose|j: int| 0 <= j < v.len() && v[j] == r[i];
        assert(moves.contains(sm_move(v[j])));
    }
}

impl MovePicker {
    /// Exchange estimate times 100, plus MVV-LVA and a promotion bonus.
    fn score_capture(
        &self,
        board: &Board,
        from: (usize, usize),
        to: (usize, usize),
        promo: Option<char>,
        is_ep: bool,
    ) -> (score: i32)
        requires
            on_board(from),
            on_board(to),
        ensures
            score == ({
                let m = (from, to, promo);
                let cap = value_or_zero(captured_by(*board, m, is_ep));
                see_value(scoring_board(*board, self.to_move, m, is_ep), self.to_move, to, cap) * 100
                    + cap * 10 - value_or_zero(board.at(from.0 as int, from.1 as int)) + promo_score(promo)
            }),
    {
        let moved = board.get(from.0, from.1);
        let captured = if is_ep { board.get(from.0, to.1) } else { board.get(to.0, to.1) };
        let cap_val: i32 = match captured {
            Some(p) => piece_value_cp(p.piece_type),
            None => 0,
        };
        let attacker_val: i32 = match moved {
            Some(p) => piece_value_cp(p.piece_type),
            None => 0,
        };
        let mvv_lva = cap_val * 10 - attacker_val;
        let promo_bonus: i32 = match promo {
            Some(c) => {
                if c == 'q' || c == 'Q' {
                    900
                } else if c == 'r' || c == 'R' {
                    500
                } else if c == 'b' || c == 'B' {
                    330
                } else if c == 'n' || c == 'N' {
                    320
                } else {
                    0
                }
            },
            None => 0,
        };
        let mut post = *board;
        post.set(from.0, from.1, None);
        if is_ep {
            post.set(from.0, to.1, None);
        }
        let mut moved_piece = match moved {
            Some(p) => p,
            None => Piece::new(PieceType::Pawn, self.to_move),
        };
        if let Some(pc) = promo {
            let pt = promo_piece_type(pc, moved_piece.piece_type);
            moved_piece = Piece::new(pt, moved_piece.color);
        }
        post.set(to.0, to.1, Some(moved_piece));
        if moved_piece.piece_type == PieceType::King {
            post.set_king_location(moved_piece.color, to);
        }
        let see = see_dest_estimate(&post, self.to_move, to, cap_val);
        see * 100 + mvv_lva + promo_bonus
    }

    /// Whether promoting on `to` gives check to the other side.
    fn promotion_gives_check(
        &self,
        board: &Board,
        from: (usize, usize),
        to: (usize, usize),
        promo: Option<char>,
    ) -> (b: bool)
        requires
            board.wf(),
            on_board(from),
            on_board(to),
        ensures
            b == promotion_checks(*board, self.to_move, (from, to, promo)),
    {
        let promo_char = match promo {
            Some(c) => c,
            None => return false,
        };
        let mut post = *board;
        post.set(from.0, from.1, None);
        let pt = if promo_char == 'q' || promo_char == 'Q' {
            PieceType::Queen
        } else if promo_char == 'r' || promo_char == 'R' {
            PieceType::Rook
        } else if promo_char == 'b' || promo_char == 'B' {
            PieceType::Bishop
        } else if promo_char == 'n' || promo_char == 'N' {
            PieceType::Knight
        } else {
            return false;
        };
        let promoted = Piece::new(pt, self.to_move);
        post.set(to.0, to.1, Some(promoted));
        let opp = match self.to_move {
            Color::White => Color::Black,
            Color::Black => Color::White,
        };
        post.is_side_in_check(opp)
    }

    /// Counter-move, continuation and history scores, and a bonus near the
    /// fifty-move limit.
    fn score_quiet(&self, from: (usize, usize), to: (usize, usize), heuristics: &SearchHeuristics) -> (score: i32)
        requires
            self.wf(),
            heuristics.wf(),
            on_board(from),
            on_board(to),
        ensures
            score == (match self.prev_move {
                Some(pm) => (if heuristics.counter_at(self.to_move, pm.0, pm.1) == crate::heuristics::flat_move(from, to) {
                    200_000int } else { 0int })
                    + clamp_to(trunc_div(heuristics.cont_at(self.to_move, pm.1, from, to) as int, 16), -150_000, 150_000),
                None => 0int,
            }) + clamp_to(trunc_div(heuristics.history_at(self.to_move, from, to) as int, 32), -200_000, 200_000)
                + (if self.half_move_clock >= 80 { 50_000int } else { 0int }),
    {
        let mut score: i32 = 0;
        if let Some((prev_from, prev_to)) = self.prev_move {
            if heuristics.is_counter_move(self.to_move, prev_from, prev_to, from, to) {
                score = score + 200_000;
            }
            let cont = heuristics.continuation_score(self.to_move, prev_to, from, to);
            let c = cont / 16;
            let cc = if c < -150_000 { -150_000 } else if c > 150_000 { 150_000 } else { c };
            score = score + cc;
        }
        let hist = heuristics.history_score(self.to_move, from, to);
        let h = hist / 32;
        let hc = if h < -200_000 { -200_000 } else if h > 200_000 { 200_000 } else { h };
        score = score + hc;
        if self.half_move_clock >= 80 {
            score = score + 50_000;
        }
        score
    }

    /// The captures and promotions among the moves, split into good ones
    /// (exchange estimate not negative, or a promotion giving check) and
    /// losing ones, each sorted by score, highest first.
    fn generate_captures(&self, board: &Board, ep_target: Option<(usize, usize)>) -> (r: (Vec<ScoredMove>, Vec<ScoredMove>))
        requires
            self.wf(),
            board.wf(),
        ensures
            forall|m: Move| #[trigger] self.all_moves@.contains(m) && is_tactical(*board, ep_target, m)
                ==> holds_move(r.0@, m) || holds_move(r.1@, m),
            forall|i: int| 0 <= i < r.0@.len() ==> self.all_moves@.contains(#[trigger] sm_move(r.0@[i])),
            forall|i: int| 0 <= i < r.1@.len() ==> self.all_moves@.contains(#[trigger] sm_move(r.1@[i])),
            sorted_desc(r.0@),
            sorted_desc(r.1@),
            scored(r.0@) == sort_by_score(captures_of(self.all_moves@, *board, ep_target, self.to_move, true)),
            scored(r.1@) == sort_by_score(captures_of(self.all_moves@, *board, ep_target, self.to_move, false)),
    {
        let mut good: Vec<ScoredMove> = Vec::new();
        let mut bad: Vec<ScoredMove> = Vec::new();
        let mut k: usize = 0;
        proof {
            assert(scored(good@) =~= Seq::<(Move, int)>::empty());
            assert(self.all_moves@.take(0) =~= Seq::<Move>::empty());
        }
        while k < self.all_moves.len()
            invariant
                self.wf(),
                board.wf(),
                k <= self.all_moves@.len(),
                scored(good@) == captures_of(self.all_moves@.take(k as int), *board, ep_target, self.to_move, true),
                scored(bad@) == captures_of(self.all_moves@.take(k as int), *board, ep_target, self.to_move, false),
                forall|j: int| 0 <= j < k && is_tactical(*board, ep_target, #[trigger] self.all_moves@[j])
                    ==> holds_move(good@, self.all_moves@[j]) || holds_move(bad@, self.all_moves@[j]),
                forall|i: int| 0 <= i < good@.len() ==> self.all_moves@.contains(#[trigger] sm_move(good@[i])),
                forall|i: int| 0 <= i < bad@.len() ==> self.all_moves@.contains(#[trigger] sm_move(bad@[i])),
            decreases self.all_moves@.len() - k,
        {
            let (from, to, promo) = self.all_moves[k];
            proof {
                assert(on_board(self.all_moves@[k as int].0) && on_board(self.all_moves@[k as int].1));
            }
            let is_ep = is_ep_exec(board, ep_target, from, to);
            let is_capture = board.get(to.0, to.1).is_some() || is_ep;
            let ghost gk = good@;
            let ghost bk = bad@;
            if is_capture || promo.is_some() {
                let score = self.score_capture(board, from, to, promo, is_ep);
                let is_checking_promo = if promo.is_some() {
                    self.promotion_gives_check(board, from, to, promo)
                } else {
                    false
                };
                let scored = ScoredMove { from, to, promo, score };
                proof {
                    assert(sm_move(scored) == self.all_moves@[k as int]);
                    assert(self.all_moves@.contains(self.all_moves@[k as int]));
                }
                proof {
                    assert(score == capture_score(*board, ep_target, self.to_move, self.all_moves@[k as int]));
                    assert(is_checking_promo == promotion_checks(*board, self.to_move, self.all_moves@[k as int]));
                }
                if score >= 0 || is_checking_promo {
                    good.push(scored);
                } else {
                    bad.push(scored);
                }
            }
            proof {
                let mk = self.all_moves@[k as int];
                assert(is_ep_move(*board, ep_target, mk) == is_ep_move(*board, ep_target, (from, to, None)));
                let tk = self.all_moves@.take(k + 1);
                assert(tk.drop_last() =~= self.all_moves@.take(k as int));
                assert(tk.last() == mk);
                assert(scored(good@) =~= captures_of(tk, *board, ep_target, self.to_move, true));
                assert(scored(bad@) =~= captures_of(tk, *board, ep_target, self.to_move, false));
                assert forall|j: int| 0 <= j < k + 1 && is_tactical(*board, ep_target, #[trigger] self.all_moves@[j])
                    implies holds_move(good@, self.all_moves@[j]) || holds_move(bad@, self.all_moves@[j]) by {
                    let mj = self.all_moves@[j];
                    if good@.len() > gk.len() {
                        lemma_holds_move_push(gk, good@.last(), mj);
                        assert(good@ =~= gk.push(good@.last()));
                    }
                    if bad@.len() > bk.len() {
                        lemma_holds_move_push(bk, bad@.last(), mj);
                        assert(bad@ =~= bk.push(bad@.last()));
                    }
                }
            }
            k = k + 1;
        }
        let sg = sort_by_score_desc(&good);
        let sb = sort_by_score_desc(&bad);
        proof {
            assert(self.all_moves@.take(self.all_moves@.len() as int) =~= self.all_moves@);
            lemma_contains_elems_sorted(good@, sg@, self.all_moves@);
            lemma_contains_elems_sorted(bad@, sb@, self.all_moves@);
            assert forall|m: Move| #[trigger] self.all_moves@.contains(m) && is_tactical(*board, ep_target, m)
                implies holds_move(sg@, m) || holds_move(sb@, m) by {
                let j = choose|j: int| 0 <= j < self.all_moves@.len() && self.all_moves@[j] == m;
                if holds_move(good@, m) {
                    lemma_holds_move_sorted(good@, sg@, m);
                } else {
                    lemma_holds_move_sorted(bad@, sb@, m);
                }
            }
        }
        (sg, sb)
    }

    /// The quiet moves, sorted by score, highest first.
    fn generate_quiets(&self, board: &Board, ep_target: Option<(usize, usize)>, heuristics: &SearchHeuristics) -> (r: Vec<ScoredMove>)
        requires
            self.wf(),
            heuristics.wf(),
        ensures
            forall|m: Move| #[trigger] self.all_moves@.contains(m) && !is_tactical(*board, ep_target, m)
                ==> holds_move(r@, m),
            forall|i: int| 0 <= i < r@.len() ==> self.all_moves@.contains(#[trigger] sm_move(r@[i])),
            sorted_desc(r@),
            scored(r@) == sort_by_score(quiets_of(self.all_moves@, *board, ep_target, *heuristics, self.to_move,
                self.half_move_clock, self.prev_move)),
    {
        let mut quiets: Vec<ScoredMove> = Vec::new();
        let mut k: usize = 0;
        proof {
            assert(scored(quiets@) =~= Seq::<(Move, int)>::empty());
            assert(self.all_moves@.take(0) =~= Seq::<Move>::empty());
        }
        while k < self.all_moves.len()
            invariant
                self.wf(),
                heuristics.wf(),
                k <= self.all_moves@.len(),
                scored(quiets@) == quiets_of(self.all_moves@.take(k as int), *board, ep_target, *heuristics, self.to_move,
                    self.half_move_clock, self.prev_move),
                forall|j: int| 0 <= j < k && !is_tactical(*board, ep_target, #[trigger] self.all_moves@[j])
                    ==> holds_move(quiets@, self.all_moves@[j]),
                forall|i: int| 0 <= i < quiets@.len() ==> self.all_moves@.contains(#[trigger] sm_move(quiets@[i])),
            decreases self.all_moves@.len() - k,
        {
            let (from, to, promo) = self.all_moves[k];
            proof {
                assert(on_board(self.all_moves@[k as int].0) && on_board(self.all_moves@[k as int].1));
            }
            let is_ep = is_ep_exec(board, ep_target, from, to);
            let is_capture = board.get(to.0, to.1).is_some() || is_ep;
            let ghost qk = quiets@;
            if !(is_capture || promo.is_some()) {
                let score = self.score_quiet(from, to, heuristics);
                let scored = ScoredMove { from, to, promo, score };
                proof {
                    assert(sm_move(scored) == self.all_moves@[k as int]);
                    assert(self.all_moves@.contains(self.all_moves@[k as int]));
                }
                quiets.push(scored);
            }
            proof {
                let mk = self.all_moves@[k as int];
                assert(is_ep_move(*board, ep_target, mk) == is_ep_move(*board, ep_target, (from, to, None)));
                let tk = self.all_moves@.take(k + 1);
                assert(tk.drop_last() =~= self.all_moves@.take(k as int));
                assert(tk.last() == mk);
                assert(scored(quiets@) =~= quiets_of(tk, *board, ep_target, *heuristics, self.to_move, self.half_move_clock, self.prev_move));
                assert forall|j: int| 0 <= j < k + 1 && !is_tactical(*board, ep_target, #[trigger] self.all_moves@[j])
                    implies holds_move(quiets@, self.all_moves@[j]) by {
                    let mj = self.all_moves@[j];
                    if quiets@.len() > qk.len() {
                        lemma_holds_move_push(qk, quiets@.last(), mj);
                        assert(quiets@ =~= qk.push(quiets@.last()));
                    }
                }
            }
            k = k + 1;
        }
        let sq = sort_by_score_desc(&quiets);
        proof {
            assert(self.all_moves@.take(self.all_moves@.len() as int) =~= self.all_moves@);
            lemma_contains_elems_sorted(quiets@, sq@, self.all_moves@);
            assert forall|m: Move| #[trigger] self.all_moves@.contains(m) && !is_tactical(*board, ep_target, m)
                implies holds_move(sq@, m) by {
                let j = choose|j: int| 0 <= j < self.all_moves@.len() && self.all_moves@[j] == m;
                lemma_holds_move_sorted(quiets@, sq@, m);
            }
        }
        sq
    }
}

spec fn stage_left(mp: MovePicker) -> int {
    match mp.stage {
        Stage::GoodCaptures => mp.good_captures@.len() - mp.capture_idx,
        Stage::Killers => 2 - mp.killer_idx,
        Stage::Quiets => mp.quiets@.len() - mp.quiet_idx,
        Stage::BadCaptures => mp.bad_captures@.len() - mp.bad_capture_idx,
        _ => 0,
    }
}

impl MovePicker {
    /// Every move has been handed out; `next` answers `None` from now on.
    pub closed spec fn is_done(&self) -> bool {
        self.stage == Stage::Done
    }

    /// Records `p` as handed out.
    fn mark_searched(&mut self, p: ((usize, usize), (usize, usize)))
        requires
            !old(self).searched@.contains(p),
            has_pair(old(self).all_moves@, p),
        ensures
            final(self).searched@ == old(self).searched@.push(p),
            final(self).stage == old(self).stage,
            final(self).tt_move == old(self).tt_move,
            final(self).good_captures == old(self).good_captures,
            final(self).bad_captures == old(self).bad_captures,
            final(self).quiets == old(self).quiets,
            final(self).all_moves == old(self).all_moves,
            final(self).capture_idx == old(self).capture_idx,
            final(self).killer_idx == old(self).killer_idx,
            final(self).quiet_idx == old(self).quiet_idx,
            final(self).bad_capture_idx == old(self).bad_capture_idx,
            final(self).killers == old(self).killers,
            final(self).to_move == old(self).to_move,
            final(self).half_move_clock == old(self).half_move_clock,
            final(self).prev_move == old(self).prev_move,
            final(self).class_pos == old(self).class_pos,
            final(self).same_pos == old(self).same_pos,
            no_dup(old(self).searched@) ==> no_dup(final(self).searched@),
    {
        let ghost before = self.searched@;
        self.searched.push(p);
        proof {
            assert forall|i2: int, j2: int| 0 <= i2 < j2 < self.searched@.len() && no_dup(before)
                implies #[trigger] self.searched@[i2] != #[trigger] self.searched@[j2] by {
                if j2 == before.len() {
                    assert(self.searched@[i2] == before[i2]);
                    assert(before.contains(before[i2]));
                } else {
                    assert(self.searched@[i2] == before[i2]);
                    assert(self.searched@[j2] == before[j2]);
                }
            }
        }
    }
}

proof fn lemma_done_complete(mp: MovePicker)
    requires
        mp.wf(),
        mp.stage == Stage::Done,
        mp.same_pos@,
    ensures
        forall|m: Move| #[trigger] mp.all_moves@.contains(m) ==> mp.searched@.contains(move_pair(m)),
{
    let cp = mp.class_pos@;
    assert forall|m: Move| #[trigger] mp.all_moves@.contains(m) implies mp.searched@.contains(move_pair(m)) by {
        if is_tactical(cp.0, cp.1, m) {
            if holds_move(mp.good_captures@, m) {
                let i = choose|i: int| 0 <= i < mp.good_captures@.len() && #[trigger] sm_move(mp.good_captures@[i]) == m;
                assert(mp.searched@.contains(move_pair(sm_move(mp.good_captures@[i]))));
            } else {
                let i = choose|i: int| 0 <= i < mp.bad_captures@.len() && #[trigger] sm_move(mp.bad_captures@[i]) == m;
                assert(mp.searched@.contains(move_pair(sm_move(mp.bad_captures@[i]))));
            }
        } else {
            let i = choose|i: int| 0 <= i < mp.quiets@.len() && #[trigger] sm_move(mp.quiets@[i]) == m;
            assert(mp.searched@.contains(move_pair(sm_move(mp.quiets@[i]))));
        }
    }
}

proof fn lemma_firsts_scored(v: Seq<ScoredMove>)
    ensures
        firsts(scored(v)).len() == v.len(),
        forall|i: int| 0 <= i < v.len() ==> firsts(scored(v))[i] == sm_move(#[trigger] v[i]),
{
}

impl MovePicker {
    spec fn tt_seg(&self) -> Seq<Move> {
        match self.tt_move { Some(m) => seq![m], None => Seq::<Move>::empty() }
    }

    spec fn good_seg(&self, b: Board, ep: Option<(usize, usize)>) -> Seq<Move> {
        firsts(sort_by_score(captures_of(self.all_moves@, b, ep, self.to_move, true)))
    }

    spec fn k0_seg(&self, b: Board) -> Seq<Move> {
        killer_entry(self.all_moves@, b, self.killers@[0])
    }

    spec fn k1_seg(&self, b: Board) -> Seq<Move> {
        killer_entry(self.all_moves@, b, self.killers@[1])
    }

    spec fn quiet_seg(&self, b: Board, ep: Option<(usize, usize)>, h: SearchHeuristics) -> Seq<Move> {
        firsts(sort_by_score(quiets_of(self.all_moves@, b, ep, h, self.to_move, self.half_move_clock, self.prev_move)))
    }

    spec fn bad_seg(&self, b: Board, ep: Option<(usize, usize)>) -> Seq<Move> {
        firsts(sort_by_score(captures_of(self.all_moves@, b, ep, self.to_move, false)))
    }

    /// Where each kind of entry stands in the plan.
    #[verifier::spinoff_prover]
    proof fn lemma_plan_shape(&self, b: Board, ep: Option<(usize, usize)>, h: SearchHeuristics)
        ensures
            self.plan(b, ep, h) == self.tt_seg() + self.good_seg(b, ep) + self.k0_seg(b) + self.k1_seg(b)
                + self.quiet_seg(b, ep, h) + self.bad_seg(b, ep),
            self.k0_seg(b).len() <= 1,
            self.k1_seg(b).len() <= 1,
            self.plan(b, ep, h).len() == self.tt_seg().len() + self.good_seg(b, ep).len() + self.k0_seg(b).len()
                + self.k1_seg(b).len() + self.quiet_seg(b, ep, h).len() + self.bad_seg(b, ep).len(),
            forall|i: int| 0 <= i < self.plan(b, ep, h).len() ==> #[trigger] self.plan(b, ep, h)[i] == (
                if i < self.tt_seg().len() { self.tt_seg()[i] }
                else if i < self.tt_seg().len() + self.good_seg(b, ep).len() { self.good_seg(b, ep)[i - self.tt_seg().len()] }
                else if i < self.tt_seg().len() + self.good_seg(b, ep).len() + self.k0_seg(b).len() {
                    self.k0_seg(b)[i - self.tt_seg().len() - self.good_seg(b, ep).len()] }
                else if i < self.tt_seg().len() + self.good_seg(b, ep).len() + self.k0_seg(b).len() + self.k1_seg(b).len() {
                    self.k1_seg(b)[i - self.tt_seg().len() - self.good_seg(b, ep).len() - self.k0_seg(b).len()] }
                else if i < self.tt_seg().len() + self.good_seg(b, ep).len() + self.k0_seg(b).len() + self.k1_seg(b).len()
                    + self.quiet_seg(b, ep, h).len() {
                    self.quiet_seg(b, ep, h)[i - self.tt_seg().len() - self.good_seg(b, ep).len() - self.k0_seg(b).len() - self.k1_seg(b).len()] }
                else { self.bad_seg(b, ep)[i - self.tt_seg().len() - self.good_seg(b, ep).len() - self.k0_seg(b).len()
                    - self.k1_seg(b).len() - self.quiet_seg(b, ep, h).len()] }),
    {
        reveal(MovePicker::plan);
        assert forall|i: int| 0 <= i < self.plan(b, ep, h).len() implies #[trigger] self.plan(b, ep, h)[i] == (
                if i < self.tt_seg().len() { self.tt_seg()[i] }
                else if i < self.tt_seg().len() + self.good_seg(b, ep).len() { self.good_seg(b, ep)[i - self.tt_seg().len()] }
                else if i < self.tt_seg().len() + self.good_seg(b, ep).len() + self.k0_seg(b).len() {
                    self.k0_seg(b)[i - self.tt_seg().len() - self.good_seg(b, ep).len()] }
                else if i < self.tt_seg().len() + self.good_seg(b, ep).len() + self.k0_seg(b).len() + self.k1_seg(b).len() {
                    self.k1_seg(b)[i - self.tt_seg().len() - self.good_seg(b, ep).len() - self.k0_seg(b).len()] }
                else if i < self.tt_seg().len() + self.good_seg(b, ep).len() + self.k0_seg(b).len() + self.k1_seg(b).len()
                    + self.quiet_seg(b, ep, h).len() {
                    self.quiet_seg(b, ep, h)[i - self.tt_seg().len() - self.good_seg(b, ep).len() - self.k0_seg(b).len() - self.k1_seg(b).len()] }
                else { self.bad_seg(b, ep)[i - self.tt_seg().len() - self.good_seg(b, ep).len() - self.k0_seg(b).len()
                    - self.k1_seg(b).len() - self.quiet_seg(b, ep, h).len()] }) by {
            lemma_six_index(self.tt_seg(), self.good_seg(b, ep), self.k0_seg(b), self.k1_seg(b), self.quiet_seg(b, ep, h), self.bad_seg(b, ep), i);
        }
    }
}

proof fn lemma_plan_fields(s0: MovePicker, s1: MovePicker)
    requires
        s1.all_moves@ == s0.all_moves@,
        s1.tt_move == s0.tt_move,
        s1.killers == s0.killers,
        s1.to_move == s0.to_move,
        s1.half_move_clock == s0.half_move_clock,
        s1.prev_move == s0.prev_move,
    ensures
        forall|b: Board, ep: Option<(usize, usize)>, h: SearchHeuristics| #[trigger] s1.plan(b, ep, h) == s0.plan(b, ep, h),
{
    reveal(MovePicker::plan);
}

/// The first move with a given pair exists when some move has the pair.
proof fn lemma_first_with_pair(moves: Seq<Move>, p: ((usize, usize), (usize, usize)), i: int)
    requires
        0 <= i < moves.len(),
        move_pair(moves[i]) == p,
    ensures
        0 <= first_with_pair(moves, p) < moves.len(),
        move_pair(moves[first_with_pair(moves, p)]) == p,
    decreases i,
{
    if exists|j: int| 0 <= j < i && move_pair(#[trigger] moves[j]) == p {
        let j = choose|j: int| 0 <= j < i && move_pair(#[trigger] moves[j]) == p;
        lemma_first_with_pair(moves, p, j);
    } else {
        assert(0 <= i < moves.len() && move_pair(moves[i]) == p && forall|j: int| 0 <= j < i ==> move_pair(#[trigger] moves[j]) != p);
    }
}

/// Handing out the plan entry at the cursor: it is the first fresh entry,
/// and the picker keeps following the plan.
#[verifier::spinoff_prover]
proof fn lemma_hand_out(s0: MovePicker, s1: MovePicker, b: Board, ep: Option<(usize, usize)>, h: SearchHeuristics, m: Move)
    requires
        s0.follows(b, ep, h),
        s0.cursor(b) < s0.plan(b, ep, h).len(),
        s0.plan(b, ep, h)[s0.cursor(b)] == m,
        !s0.searched@.contains(move_pair(m)),
        s1.plan(b, ep, h) == s0.plan(b, ep, h),
        s1.searched@ == s0.searched@.push(move_pair(m)),
        s1.cursor(b) == s0.cursor(b) + 1,
        s1.lists_follow(b, ep, h),
    ensures
        first_fresh(s0.plan(b, ep, h), s0.searched@) == Some(m),
        s1.follows(b, ep, h),
{
    let plan = s0.plan(b, ep, h);
    let c = s0.cursor(b);
    lemma_first_fresh_at(plan, s0.searched@, c);
    assert forall|i: int| 0 <= i < c + 1 implies s1.searched@.contains(move_pair(#[trigger] plan[i])) by {
        crate::seq_facts::lemma_push_contains(s0.searched@, move_pair(m), move_pair(plan[i]));
    }
}

/// Passing over the plan entry at the cursor, already handed out.
proof fn lemma_pass_over(s0: MovePicker, s1: MovePicker, b: Board, ep: Option<(usize, usize)>, h: SearchHeuristics, n: int)
    requires
        s0.follows(b, ep, h),
        0 <= n,
        s0.cursor(b) + n <= s0.plan(b, ep, h).len(),
        forall|i: int| s0.cursor(b) <= i < s0.cursor(b) + n ==> s0.searched@.contains(move_pair(#[trigger] s0.plan(b, ep, h)[i])),
        s1.plan(b, ep, h) == s0.plan(b, ep, h),
        s1.searched@ == s0.searched@,
        s1.cursor(b) == s0.cursor(b) + n,
        s1.lists_follow(b, ep, h),
    ensures
        s1.follows(b, ep, h),
{
}

proof fn lemma_has_pair_of_member(moves: Seq<Move>, m: Move)
    requires
        moves.contains(m),
    ensures
        has_pair(moves, move_pair(m)),
{
    let k = choose|k: int| 0 <= k < moves.len() && moves[k] == m;
    assert(move_pair(moves[k]) == move_pair(m));
}

impl MovePicker {
    #[verifier::spinoff_prover]
    proof fn lemma_plan_good_at(&self, b: Board, ep: Option<(usize, usize)>, h: SearchHeuristics)
        requires
            self.follows(b, ep, h),
            self.stage == Stage::GoodCaptures,
            self.capture_idx < self.good_captures@.len(),
        ensures
            self.cursor(b) < self.plan(b, ep, h).len(),
            self.plan(b, ep, h)[self.cursor(b)] == sm_move(self.good_captures@[self.capture_idx as int]),
    {
        self.lemma_plan_shape(b, ep, h);
        lemma_firsts_scored(self.good_captures@);
    }

    #[verifier::rlimit(40)]
    #[verifier::spinoff_prover]
    proof fn lemma_plan_quiet_at(&self, b: Board, ep: Option<(usize, usize)>, h: SearchHeuristics)
        requires
            self.follows(b, ep, h),
            self.stage == Stage::Quiets,
            self.quiet_idx < self.quiets@.len(),
        ensures
            self.cursor(b) < self.plan(b, ep, h).len(),
            self.plan(b, ep, h)[self.cursor(b)] == sm_move(self.quiets@[self.quiet_idx as int]),
    {
        self.lemma_plan_shape(b, ep, h);
        lemma_firsts_scored(self.good_captures@);
        lemma_firsts_scored(self.quiets@);
    }

    #[verifier::spinoff_prover]
    proof fn lemma_plan_bad_at(&self, b: Board, ep: Option<(usize, usize)>, h: SearchHeuristics)
        requires
            self.follows(b, ep, h),
            self.stage == Stage::BadCaptures,
            self.bad_capture_idx < self.bad_captures@.len(),
        ensures
            self.cursor(b) < self.plan(b, ep, h).len(),
            self.plan(b, ep, h)[self.cursor(b)] == sm_move(self.bad_captures@[self.bad_capture_idx as int]),
    {
        self.lemma_plan_shape(b, ep, h);
        lemma_firsts_scored(self.good_captures@);
        lemma_firsts_scored(self.quiets@);
        lemma_firsts_scored(self.bad_captures@);
    }

    #[verifier::spinoff_prover]
    proof fn lemma_plan_killer_at(&self, b: Board, ep: Option<(usize, usize)>, h: SearchHeuristics)
        requires
            self.follows(b, ep, h),
            self.stage == Stage::Killers,
            self.killer_idx < 2,
        ensures
            self.cursor(b) + killer_entry(self.all_moves@, b, self.killers@[self.killer_idx as int]).len() <= self.plan(b, ep, h).len(),
            forall|i: int| 0 <= i < killer_entry(self.all_moves@, b, self.killers@[self.killer_idx as int]).len() ==>
                self.plan(b, ep, h)[self.cursor(b) + i] == #[trigger] killer_entry(self.all_moves@, b, self.killers@[self.killer_idx as int])[i],
    {
        self.lemma_plan_shape(b, ep, h);
        lemma_firsts_scored(self.good_captures@);
    }

    /// Passing over a killer that is not handed out keeps the plan.
    #[verifier::spinoff_prover]
    proof fn lemma_killer_pass(&self, s1: MovePicker, b: Board, ep: Option<(usize, usize)>, h: SearchHeuristics)
        requires
            self.follows(b, ep, h),
            self.stage == Stage::Killers,
            self.killer_idx < 2,
            match self.killers@[self.killer_idx as int] {
                Some(p) => self.searched@.contains(p) || !has_pair(self.all_moves@, p) || b.at(p.1.0 as int, p.1.1 as int) is Some,
                None => true,
            },
            s1 == (MovePicker { killer_idx: (self.killer_idx + 1) as usize, ..*self }),
        ensures
            s1.follows(b, ep, h),
    {
        let entry = killer_entry(self.all_moves@, b, self.killers@[self.killer_idx as int]);
        let c = self.cursor(b);
        let plan = self.plan(b, ep, h);
        assert(c + entry.len() <= plan.len() && (entry.len() > 0 ==> plan[c] == entry[0])) by {
            self.lemma_plan_killer_at(b, ep, h);
        }
        if entry.len() > 0 {
            let p = self.killers@[self.killer_idx as int]->0;
            assert(move_pair(entry[0]) == p) by {
                let k = choose|k: int| 0 <= k < self.all_moves@.len() && #[trigger] move_pair(self.all_moves@[k]) == p;
                lemma_first_with_pair(self.all_moves@, p, k);
            }
        }
        assert forall|i: int| c <= i < c + entry.len() implies self.searched@.contains(move_pair(#[trigger] plan[i])) by {
            assert(i == c);
        }
        assert(s1.plan(b, ep, h) == plan) by {
            lemma_plan_fields(*self, s1);
        }
        assert(s1.cursor(b) == c + entry.len());
        lemma_pass_over(*self, s1, b, ep, h, entry.len() as int);
    }

    /// The plan's length, kind by kind.
    proof fn lemma_plan_len(&self, b: Board, ep: Option<(usize, usize)>, h: SearchHeuristics)
        ensures
            self.plan(b, ep, h).len() == self.tt_seg().len() + self.good_seg(b, ep).len() + self.k0_seg(b).len()
                + self.k1_seg(b).len() + self.quiet_seg(b, ep, h).len() + self.bad_seg(b, ep).len(),
    {
        reveal(MovePicker::plan);
    }

    /// Once done, a picker that followed its plan has handed out all of it.
    #[verifier::spinoff_prover]
    proof fn lemma_done_exhausted(&self, b: Board, ep: Option<(usize, usize)>, h: SearchHeuristics)
        requires
            self.follows(b, ep, h),
            self.stage == Stage::Done,
        ensures
            first_fresh(self.plan(b, ep, h), self.searched@) is None,
    {
        let plan = self.plan(b, ep, h);
        assert(self.cursor(b) == plan.len()) by {
            self.lemma_plan_len(b, ep, h);
            lemma_firsts_scored(self.good_captures@);
            lemma_firsts_scored(self.quiets@);
            lemma_firsts_scored(self.bad_captures@);
        }
        assert forall|i: int| 0 <= i < plan.len() implies self.searched@.contains(move_pair(#[trigger] plan[i])) by {}
        lemma_first_fresh_none(plan, self.searched@);
    }

    spec fn step_ok(s0: MovePicker, s1: MovePicker, r: Option<Move>, b: Board, ep: Option<(usize, usize)>, h: SearchHeuristics) -> bool {
        &&& s1.wf()
        &&& s1.all_moves@ == s0.all_moves@
        &&& s1.tt_move == s0.tt_move
        &&& s1.killers == s0.killers
        &&& s1.to_move == s0.to_move
        &&& s1.half_move_clock == s0.half_move_clock
        &&& s1.prev_move == s0.prev_move
        &&& match r {
            Some(m) => {
                &&& s0.all_moves@.contains(m)
                &&& !s0.searched@.contains(move_pair(m))
                &&& s1.searched@ == s0.searched@.push(move_pair(m))
                &&& s1.stage != Stage::Done
            },
            None => {
                &&& s1.searched@ == s0.searched@
                &&& (rank(s1.stage) > rank(s0.stage) || (rank(s1.stage) == rank(s0.stage) && stage_left(s1) < stage_left(s0)))
                &&& rank(s1.stage) <= 7
            },
        }
        &&& s0.used_with(b, ep) ==> s1.used_with(b, ep)
        &&& s0.follows(b, ep, h) ==> s1.follows(b, ep, h) && (r is Some ==> r == first_fresh(s0.plan(b, ep, h), s0.searched@))
    }

    /// Hands out the transposition-table move, if there is one.
    #[verifier::spinoff_prover]
    fn step_tt(&mut self, board: &Board, ep_target: Option<(usize, usize)>, heuristics: &SearchHeuristics) -> (r: Option<Move>)
        requires
            old(self).wf(),
            old(self).stage == Stage::TtMove,
        ensures
            Self::step_ok(*old(self), *final(self), r, *board, ep_target, *heuristics),
            r == old(self).tt_move,
    {
        let ghost s0 = *self;
        let ghost fol = s0.follows(*board, ep_target, *heuristics);
        let ghost pl = s0.plan(*board, ep_target, *heuristics);
        self.stage = Stage::GenerateCaptures;
        if let Some(mv) = self.tt_move {
            proof {
                lemma_has_pair_of_member(self.all_moves@, mv);
            }
            self.mark_searched((mv.0, mv.1));
            proof {
                lemma_plan_fields(s0, *self);
                if fol {
                    s0.lemma_plan_shape(*board, ep_target, *heuristics);
                    assert(pl[0] == mv);
                    lemma_hand_out(s0, *self, *board, ep_target, *heuristics, mv);
                }
            }
            return Some(mv);
        }
        proof {
            lemma_plan_fields(s0, *self);
            if fol {
                lemma_pass_over(s0, *self, *board, ep_target, *heuristics, 0);
            }
        }
        None
    }

    /// Classifies and scores the captures and promotions.
    #[verifier::spinoff_prover]
    fn step_generate_captures(&mut self, board: &Board, ep_target: Option<(usize, usize)>, heuristics: &SearchHeuristics)
        requires
            old(self).wf(),
            old(self).stage == Stage::GenerateCaptures,
            board.wf(),
        ensures
            Self::step_ok(*old(self), *final(self), None, *board, ep_target, *heuristics),
    {
        let ghost s0 = *self;
        let ghost fol = s0.follows(*board, ep_target, *heuristics);
        let (g, b) = self.generate_captures(board, ep_target);
        self.good_captures = g;
        self.bad_captures = b;
        let cp: Ghost<(Board, Option<(usize, usize)>)> = Ghost((*board, ep_target));
        self.class_pos = cp;
        self.stage = Stage::GoodCaptures;
        proof {
            lemma_plan_fields(s0, *self);
            if fol {
                lemma_pass_over(s0, *self, *board, ep_target, *heuristics, 0);
            }
        }
    }

    /// Hands out the next good capture not handed out yet, or moves on to the killers.
    #[verifier::rlimit(100)]
    #[verifier::spinoff_prover]
    fn step_good_capture(&mut self, board: &Board, ep_target: Option<(usize, usize)>, heuristics: &SearchHeuristics) -> (r: Option<Move>)
        requires
            old(self).wf(),
            old(self).stage == Stage::GoodCaptures,
        ensures
            Self::step_ok(*old(self), *final(self), r, *board, ep_target, *heuristics),
    {
        let ghost s0 = *self;
        let ghost fol = s0.follows(*board, ep_target, *heuristics);
        let ghost pl = s0.plan(*board, ep_target, *heuristics);
        if self.capture_idx < self.good_captures.len() {
            let mv = self.good_captures[self.capture_idx];
            self.capture_idx = self.capture_idx + 1;
            if !self.already_searched(mv.from, mv.to) {
                proof {
                    assert(self.all_moves@.contains(sm_move(self.good_captures@[self.capture_idx - 1])));
                    lemma_has_pair_of_member(self.all_moves@, sm_move(mv));
                }
                let ghost before = self.searched@;
                self.mark_searched((mv.from, mv.to));
                proof {
                    assert forall|i: int| 0 <= i < self.capture_idx implies self.searched@.contains(#[trigger] move_pair(sm_move(self.good_captures@[i]))) by {
                        crate::seq_facts::lemma_push_contains(before, (mv.from, mv.to), move_pair(sm_move(self.good_captures@[i])));
                    }
                    assert forall|i: int| 0 <= i < self.quiet_idx implies self.searched@.contains(#[trigger] move_pair(sm_move(self.quiets@[i]))) by {
                        crate::seq_facts::lemma_push_contains(before, (mv.from, mv.to), move_pair(sm_move(self.quiets@[i])));
                    }
                    assert forall|i: int| 0 <= i < self.bad_capture_idx implies self.searched@.contains(#[trigger] move_pair(sm_move(self.bad_captures@[i]))) by {
                        crate::seq_facts::lemma_push_contains(before, (mv.from, mv.to), move_pair(sm_move(self.bad_captures@[i])));
                    }
                    assert forall|i: int| 0 <= i < self.searched@.len() implies has_pair(self.all_moves@, #[trigger] self.searched@[i]) by {
                        if i < before.len() {
                            assert(self.searched@[i] == before[i]);
                        }
                    }
                }
                proof {
                    lemma_plan_fields(s0, *self);
                    if fol {
                        s0.lemma_plan_good_at(*board, ep_target, *heuristics);
                        lemma_hand_out(s0, *self, *board, ep_target, *heuristics, sm_move(mv));
                    }
                }
                return Some((mv.from, mv.to, mv.promo));
            }
            proof {
                lemma_plan_fields(s0, *self);
                if fol {
                    s0.lemma_plan_good_at(*board, ep_target, *heuristics);
                    lemma_pass_over(s0, *self, *board, ep_target, *heuristics, 1);
                }
            }
        } else {
            self.stage = Stage::Killers;
            proof {
                lemma_plan_fields(s0, *self);
                if fol {
                    lemma_pass_over(s0, *self, *board, ep_target, *heuristics, 0);
                }
            }
        }
        None
    }

    /// The move of the killer pair `k` to hand out: the first move of the
    /// list with its squares, when that pair has not been handed out yet and
    /// its destination is empty.
    #[verifier::spinoff_prover]
    fn killer_candidate(&self, board: &Board, k: Option<((usize, usize), (usize, usize))>) -> (found: Option<Move>)
        requires
            self.wf(),
        ensures
            match found {
                Some(mv) => {
                    &&& k == Some(move_pair(mv))
                    &&& killer_entry(self.all_moves@, *board, k) == seq![mv]
                    &&& self.all_moves@.contains(mv)
                    &&& !self.searched@.contains(move_pair(mv))
                },
                None => match k {
                    Some(p) => self.searched@.contains(p) || !has_pair(self.all_moves@, p) || board.at(p.1.0 as int, p.1.1 as int) is Some,
                    None => true,
                },
            },
    {
        match k {
            Some((kf, kt)) => {
                if self.already_searched(kf, kt) {
                    return None;
                }
                match find_pair(&self.all_moves, kf, kt) {
                    Some(mv) => {
                        proof {
                            let i = choose|i: int| 0 <= i < self.all_moves@.len() && self.all_moves@[i] == mv;
                            assert(on_board(self.all_moves@[i].1));
                            assert(move_pair(self.all_moves@[i]) == (kf, kt));
                        }
                        if board.get(kt.0, kt.1).is_none() {
                            proof {
                                assert(killer_entry(self.all_moves@, *board, k) =~= seq![mv]);
                            }
                            Some(mv)
                        } else {
                            None
                        }
                    },
                    None => None,
                }
            },
            None => None,
        }
    }

    /// Hands out the next killer that is a quiet move of the list, or moves
    /// on to the quiet moves.
    #[verifier::rlimit(100)]
    #[verifier::spinoff_prover]
    fn step_killer(&mut self, board: &Board, ep_target: Option<(usize, usize)>, heuristics: &SearchHeuristics) -> (r: Option<Move>)
        requires
            old(self).wf(),
            old(self).stage == Stage::Killers,
        ensures
            Self::step_ok(*old(self), *final(self), r, *board, ep_target, *heuristics),
    {
        let ghost s0 = *self;
        let ghost fol = s0.follows(*board, ep_target, *heuristics);
        if self.killer_idx < 2 {
            let k = self.killers[self.killer_idx];
            let found = self.killer_candidate(board, k);
            self.killer_idx = self.killer_idx + 1;
            match found {
                Some(mv) => {
                    proof {
                        lemma_has_pair_of_member(self.all_moves@, mv);
                    }
                    let ghost before = self.searched@;
                    self.mark_searched((mv.0, mv.1));
                    proof {
                        assert forall|i: int| 0 <= i < self.capture_idx implies self.searched@.contains(#[trigger] move_pair(sm_move(self.good_captures@[i]))) by {
                            crate::seq_facts::lemma_push_contains(before, (mv.0, mv.1), move_pair(sm_move(self.good_captures@[i])));
                        }
                        assert forall|i: int| 0 <= i < self.quiet_idx implies self.searched@.contains(#[trigger] move_pair(sm_move(self.quiets@[i]))) by {
                            crate::seq_facts::lemma_push_contains(before, (mv.0, mv.1), move_pair(sm_move(self.quiets@[i])));
                        }
                        assert forall|i: int| 0 <= i < self.bad_capture_idx implies self.searched@.contains(#[trigger] move_pair(sm_move(self.bad_captures@[i]))) by {
                            crate::seq_facts::lemma_push_contains(before, (mv.0, mv.1), move_pair(sm_move(self.bad_captures@[i])));
                        }
                        assert forall|i: int| 0 <= i < self.searched@.len() implies has_pair(self.all_moves@, #[trigger] self.searched@[i]) by {
                            if i < before.len() {
                                assert(self.searched@[i] == before[i]);
                            }
                        }
                    }
                    proof {
                        lemma_plan_fields(s0, *self);
                        if fol {
                            s0.lemma_plan_killer_at(*board, ep_target, *heuristics);
                            assert(killer_entry(s0.all_moves@, *board, s0.killers@[s0.killer_idx as int])[0] == mv);
                            lemma_hand_out(s0, *self, *board, ep_target, *heuristics, mv);
                        }
                    }
                    Some(mv)
                },
                None => {
                    proof {
                        lemma_plan_fields(s0, *self);
                        if fol {
                            s0.lemma_killer_pass(*self, *board, ep_target, *heuristics);
                        }
                    }
                    None
                },
            }
        } else {
            self.stage = Stage::GenerateQuiets;
            proof {
                lemma_plan_fields(s0, *self);
                if fol {
                    lemma_pass_over(s0, *self, *board, ep_target, *heuristics, 0);
                }
            }
            None
        }
    }

    /// Scores the quiet moves.
    #[verifier::spinoff_prover]
    fn step_generate_quiets(&mut self, board: &Board, ep_target: Option<(usize, usize)>, heuristics: &SearchHeuristics)
        requires
            old(self).wf(),
            old(self).stage == Stage::GenerateQuiets,
            heuristics.wf(),
        ensures
            Self::step_ok(*old(self), *final(self), None, *board, ep_target, *heuristics),
    {
        let ghost s0 = *self;
        let ghost fol = s0.follows(*board, ep_target, *heuristics);
        let q = self.generate_quiets(board, ep_target, heuristics);
        self.quiets = q;
        let ghost spv: bool = self.same_pos@ && (self.class_pos@ == (*board, ep_target));
        let sp: Ghost<bool> = Ghost(spv);
        self.same_pos = sp;
        self.stage = Stage::Quiets;
        proof {
            lemma_plan_fields(s0, *self);
            if fol {
                lemma_pass_over(s0, *self, *board, ep_target, *heuristics, 0);
            }
        }
    }

    /// Hands out the next quiet move not handed out yet, or moves on to the losing captures.
    #[verifier::rlimit(100)]
    #[verifier::spinoff_prover]
    fn step_quiet(&mut self, board: &Board, ep_target: Option<(usize, usize)>, heuristics: &SearchHeuristics) -> (r: Option<Move>)
        requires
            old(self).wf(),
            old(self).stage == Stage::Quiets,
        ensures
            Self::step_ok(*old(self), *final(self), r, *board, ep_target, *heuristics),
    {
        let ghost s0 = *self;
        let ghost fol = s0.follows(*board, ep_target, *heuristics);
        let ghost pl = s0.plan(*board, ep_target, *heuristics);
        if self.quiet_idx < self.quiets.len() {
            let mv = self.quiets[self.quiet_idx];
            self.quiet_idx = self.quiet_idx + 1;
            if !self.already_searched(mv.from, mv.to) {
                proof {
                    assert(self.all_moves@.contains(sm_move(self.quiets@[self.quiet_idx - 1])));
                    lemma_has_pair_of_member(self.all_moves@, sm_move(mv));
                }
                let ghost before = self.searched@;
                self.mark_searched((mv.from, mv.to));
                proof {
                    assert forall|i: int| 0 <= i < self.capture_idx implies self.searched@.contains(#[trigger] move_pair(sm_move(self.good_captures@[i]))) by {
                        crate::seq_facts::lemma_push_contains(before, (mv.from, mv.to), move_pair(sm_move(self.good_captures@[i])));
                    }
                    assert forall|i: int| 0 <= i < self.quiet_idx implies self.searched@.contains(#[trigger] move_pair(sm_move(self.quiets@[i]))) by {
                        crate::seq_facts::lemma_push_contains(before, (mv.from, mv.to), move_pair(sm_move(self.quiets@[i])));
                    }
                    assert forall|i: int| 0 <= i < self.bad_capture_idx implies self.searched@.contains(#[trigger] move_pair(sm_move(self.bad_captures@[i]))) by {
                        crate::seq_facts::lemma_push_contains(before, (mv.from, mv.to), move_pair(sm_move(self.bad_captures@[i])));
                    }
                    assert forall|i: int| 0 <= i < self.searched@.len() implies has_pair(self.all_moves@, #[trigger] self.searched@[i]) by {
                        if i < before.len() {
                            assert(self.searched@[i] == before[i]);
                        }
                    }
                }
                proof {
                    lemma_plan_fields(s0, *self);
                    if fol {
                        s0.lemma_plan_quiet_at(*board, ep_target, *heuristics);
                        lemma_hand_out(s0, *self, *board, ep_target, *heuristics, sm_move(mv));
                    }
                }
                return Some((mv.from, mv.to, mv.promo));
            }
            proof {
                lemma_plan_fields(s0, *self);
                if fol {
                    s0.lemma_plan_quiet_at(*board, ep_target, *heuristics);
                    lemma_pass_over(s0, *self, *board, ep_target, *heuristics, 1);
                }
            }
        } else {
            self.stage = Stage::BadCaptures;
            proof {
                lemma_plan_fields(s0, *self);
                if fol {
                    lemma_pass_over(s0, *self, *board, ep_target, *heuristics, 0);
                }
            }
        }
        None
    }

    /// Hands out the next losing capture not handed out yet, or finishes.
    #[verifier::rlimit(100)]
    #[verifier::spinoff_prover]
    fn step_bad_capture(&mut self, board: &Board, ep_target: Option<(usize, usize)>, heuristics: &SearchHeuristics) -> (r: Option<Move>)
        requires
            old(self).wf(),
            old(self).stage == Stage::BadCaptures,
        ensures
            Self::step_ok(*old(self), *final(self), r, *board, ep_target, *heuristics),
    {
        let ghost s0 = *self;
        let ghost fol = s0.follows(*board, ep_target, *heuristics);
        let ghost pl = s0.plan(*board, ep_target, *heuristics);
        if self.bad_capture_idx < self.bad_captures.len() {
            let mv = self.bad_captures[self.bad_capture_idx];
            self.bad_capture_idx = self.bad_capture_idx + 1;
            if !self.already_searched(mv.from, mv.to) {
                proof {
                    assert(self.all_moves@.contains(sm_move(self.bad_captures@[self.bad_capture_idx - 1])));
                    lemma_has_pair_of_member(self.all_moves@, sm_move(mv));
                }
                let ghost before = self.searched@;
                self.mark_searched((mv.from, mv.to));
                proof {
                    assert forall|i: int| 0 <= i < self.capture_idx implies self.searched@.contains(#[trigger] move_pair(sm_move(self.good_captures@[i]))) by {
                        crate::seq_facts::lemma_push_contains(before, (mv.from, mv.to), move_pair(sm_move(self.good_captures@[i])));
                    }
                    assert forall|i: int| 0 <= i < self.quiet_idx implies self.searched@.contains(#[trigger] move_pair(sm_move(self.quiets@[i]))) by {
                        crate::seq_facts::lemma_push_contains(before, (mv.from, mv.to), move_pair(sm_move(self.quiets@[i])));
                    }
                    assert forall|i: int| 0 <= i < self.bad_capture_idx implies self.searched@.contains(#[trigger] move_pair(sm_move(self.bad_captures@[i]))) by {
                        crate::seq_facts::lemma_push_contains(before, (mv.from, mv.to), move_pair(sm_move(self.bad_captures@[i])));
                    }
                    assert forall|i: int| 0 <= i < self.searched@.len() implies has_pair(self.all_moves@, #[trigger] self.searched@[i]) by {
                        if i < before.len() {
                            assert(self.searched@[i] == before[i]);
                        }
                    }
                }
                proof {
                    lemma_plan_fields(s0, *self);
                    if fol {
                        s0.lemma_plan_bad_at(*board, ep_target, *heuristics);
                        lemma_hand_out(s0, *self, *board, ep_target, *heuristics, sm_move(mv));
                    }
                }
                return Some((mv.from, mv.to, mv.promo));
            }
            proof {
                lemma_plan_fields(s0, *self);
                if fol {
                    s0.lemma_plan_bad_at(*board, ep_target, *heuristics);
                    lemma_pass_over(s0, *self, *board, ep_target, *heuristics, 1);
                }
            }
        } else {
            self.stage = Stage::Done;
            proof {
                lemma_plan_fields(s0, *self);
                if fol {
                    lemma_pass_over(s0, *self, *board, ep_target, *heuristics, 0);
                }
            }
        }
        None
    }

    /// The next move to search, or `None` once every move has been handed
    /// out. Each from-to pair comes out at most once, and a pending
    /// transposition-table move comes first. Asked always with one position
    /// and one set of heuristics, the picker hands out the moves in the
    /// order of its plan (see `picker_plan`), each from-to pair once.
    #[verifier::spinoff_prover]
    pub fn next(
        &mut self,
        board: &Board,
        ep_target: Option<(usize, usize)>,
        heuristics: &SearchHeuristics,
    ) -> (r: Option<Move>)
        requires
            old(self).wf(),
            board.wf(),
            heuristics.wf(),
        ensures
            final(self).wf(),
            final(self).moves() == old(self).moves(),
            match r {
                Some(m) => {
                    &&& old(self).moves().contains(m)
                    &&& !old(self).returned().contains(move_pair(m))
                    &&& final(self).returned() == old(self).returned().push(move_pair(m))
                },
                None => {
                    &&& final(self).returned() == old(self).returned()
                    &&& old(self).used_with(*board, ep_target) ==> forall|m: Move| #[trigger] old(self).moves().contains(m)
                        ==> final(self).returned().contains(move_pair(m))
                },
            },
            old(self).tt_pending() is Some ==> r == old(self).tt_pending(),
            old(self).used_with(*board, ep_target) ==> final(self).used_with(*board, ep_target),
            picker_step(*old(self), *final(self), r, *board, ep_target),
            (r is None) == final(self).is_done(),
            old(self).is_done() ==> (r is None),
            forall|b: Board, ep: Option<(usize, usize)>, h: SearchHeuristics| #[trigger] final(self).plan(b, ep, h) == old(self).plan(b, ep, h),
            old(self).follows(*board, ep_target, *heuristics) ==> final(self).follows(*board, ep_target, *heuristics)
                && r == first_fresh(old(self).plan(*board, ep_target, *heuristics), old(self).returned()),
    {
        let ghost s_in = *self;
        loop
            invariant
                self.wf(),
                board.wf(),
                heuristics.wf(),
                self.all_moves@ == s_in.all_moves@,
                self.searched@ == s_in.searched@,
                s_in == *old(self),
                s_in.tt_pending() is Some ==> self.stage == Stage::TtMove && self.tt_move == s_in.tt_move,
                s_in.used_with(*board, ep_target) ==> self.used_with(*board, ep_target),
                s_in.stage == Stage::Done ==> self.stage == Stage::Done,
                forall|b: Board, ep: Option<(usize, usize)>, h: SearchHeuristics| #[trigger] self.plan(b, ep, h) == s_in.plan(b, ep, h),
                s_in.follows(*board, ep_target, *heuristics) ==> self.follows(*board, ep_target, *heuristics),
            decreases 7 - rank(self.stage), stage_left(*self),
        {
            let ghost s0 = *self;
            let r = match self.stage {
                Stage::TtMove => self.step_tt(board, ep_target, heuristics),
                Stage::GenerateCaptures => {
                    self.step_generate_captures(board, ep_target, heuristics);
                    None
                },
                Stage::GoodCaptures => self.step_good_capture(board, ep_target, heuristics),
                Stage::Killers => self.step_killer(board, ep_target, heuristics),
                Stage::GenerateQuiets => {
                    self.step_generate_quiets(board, ep_target, heuristics);
                    None
                },
                Stage::Quiets => self.step_quiet(board, ep_target, heuristics),
                Stage::BadCaptures => self.step_bad_capture(board, ep_target, heuristics),
                Stage::Done => {
                    proof {
                        if s_in.used_with(*board, ep_target) {
                            lemma_done_complete(*self);
                        }
                        if s_in.follows(*board, ep_target, *heuristics) {
                            self.lemma_done_exhausted(*board, ep_target, *heuristics);
                        }
                    }
                    return None;
                },
            };
            proof {
                lemma_plan_fields(s0, *self);
            }
            if r.is_some() {
                return r;
            }
        }
    }
}

/// One call of `MovePicker::next` on `board` and `ep`: the moves stay, an
/// answered move is one of them whose from-to pair had not been handed out
/// and is now, and `None` leaves the handed-out pairs as they are and, for a
/// picker used with this position, means every move's pair is among them.
pub open spec fn picker_step(s0: MovePicker, s1: MovePicker, r: Option<Move>, board: Board, ep: Option<(usize, usize)>) -> bool {
    &&& s1.moves() == s0.moves()
    &&& (s0.used_with(board, ep) ==> s1.used_with(board, ep))
    &&& match r {
        Some(m) => {
            &&& s0.moves().contains(m)
            &&& !s0.returned().contains(move_pair(m))
            &&& s1.returned() == s0.returned().push(move_pair(m))
        },
        None => {
            &&& s1.returned() == s0.returned()
            &&& s0.used_with(board, ep) ==> forall|m: Move| #[trigger] s0.moves().contains(m)
                ==> s1.returned().contains(move_pair(m))
        },
    }
}

/// A run of calls of `next` on one position: `states[i + 1]` and
/// `results[i]` are the picker and the answer after call `i`.
pub open spec fn picker_run(states: Seq<MovePicker>, results: Seq<Option<Move>>, board: Board, ep: Option<(usize, usize)>) -> bool {
    &&& states.len() == results.len() + 1
    &&& forall|i: int| 0 <= i < results.len() ==> #[trigger] picker_step(states[i], states[i + 1], results[i], board, ep)
}

proof fn lemma_picker_prefix(states: Seq<MovePicker>, results: Seq<Option<Move>>, board: Board,
    ep: Option<(usize, usize)>, k: int)
    requires
        picker_run(states, results, board, ep),
        states[0].returned().len() == 0,
        0 <= k < states.len(),
    ensures
        states[k].returned().no_duplicates(),
        states[k].moves() == states[0].moves(),
        states[0].used_with(board, ep) ==> states[k].used_with(board, ep),
        forall|j: int, p: ((usize, usize), (usize, usize))| 0 <= j <= k && #[trigger] states[j].returned().contains(p)
            ==> states[k].returned().contains(p),
    decreases k,
{
    broadcast use vstd::seq_lib::group_seq_properties;
    if k > 0 {
        lemma_picker_prefix(states, results, board, ep, k - 1);
        let i = k - 1;
        assert(picker_step(states[i], states[i + 1], results[i], board, ep));
        assert(i + 1 == k);
        let s = states[k - 1].returned();
        match results[k - 1] {
            Some(m) => {
                let x = move_pair(m);
                assert forall|a: int, b: int| 0 <= a < s.push(x).len() && 0 <= b < s.push(x).len() && a != b
                    implies s.push(x)[a] != s.push(x)[b] by {
                    if a == s.len() {
                        assert(s.contains(s[b]));
                    } else if b == s.len() {
                        assert(s.contains(s[a]));
                    }
                }
            },
            None => {},
        }
    } else {
        assert(states[0].returned() =~= Seq::<((usize, usize), (usize, usize))>::empty());
    }
}

/// Over a run of `next` on one position from a picker that has handed out
/// nothing yet, the from-to pairs handed out are pairwise distinct, every
/// move handed out is one of the picker's moves, and once a call has
/// answered `None` (for a picker used with that position) every move's pair
/// has been handed out by the end of the run.
pub proof fn lemma_picker_run(states: Seq<MovePicker>, results: Seq<Option<Move>>, board: Board,
    ep: Option<(usize, usize)>)
    requires
        picker_run(states, results, board, ep),
        states[0].returned().len() == 0,
    ensures
        forall|k: int| 0 <= k < states.len() ==> #[trigger] states[k].returned().no_duplicates(),
        forall|i: int| 0 <= i < results.len() && #[trigger] results[i] is Some
            ==> states[0].moves().contains(results[i]->0),
        forall|i: int| 0 <= i < results.len() && #[trigger] results[i] is None && states[0].used_with(board, ep)
            ==> forall|m: Move| #[trigger] states[0].moves().contains(m)
                ==> states[states.len() - 1].returned().contains(move_pair(m)),
{
    assert forall|k: int| 0 <= k < states.len() implies #[trigger] states[k].returned().no_duplicates() by {
        lemma_picker_prefix(states, results, board, ep, k);
    }
    assert forall|i: int| 0 <= i < results.len() && #[trigger] results[i] is Some
        implies states[0].moves().contains(results[i]->0) by {
        lemma_picker_prefix(states, results, board, ep, i);
        assert(picker_step(states[i], states[i + 1], results[i], board, ep));
    }
    assert forall|i: int| 0 <= i < results.len() && #[trigger] results[i] is None && states[0].used_with(board, ep)
        implies forall|m: Move| #[trigger] states[0].moves().contains(m)
            ==> states[states.len() - 1].returned().contains(move_pair(m)) by {
        lemma_picker_prefix(states, results, board, ep, i);
        assert(picker_step(states[i], states[i + 1], results[i], board, ep));
        lemma_picker_prefix(states, results, board, ep, states.len() - 1);
        assert forall|m: Move| #[trigger] states[0].moves().contains(m)
            implies states[states.len() - 1].returned().contains(move_pair(m)) by {
            assert(states[i + 1].returned().contains(move_pair(m)));
        }
    }
}

} // verus!
