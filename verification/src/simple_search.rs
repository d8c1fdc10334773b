//! A simple search: depth-limited minimax over the legal moves, each line
//! played on a copy of the position, with the leaves scored by a position
//! evaluator handed in by the caller (White's view, given the board and the
//! side to move).
use vstd::prelude::*;
use crate::board::{Board, on_board, opt_square_is};
use crate::game_state::GameState;
use crate::movegen::{Move, find_all_valid_moves, generated_list, spec_generated};
use crate::movers::{PieceMover, spec_move_allowed, spec_move_result};
use crate::pieces::{Color, Piece, PieceType, spec_opposite};
use crate::tt::MATE_VALUE;

verus! {

/// The evaluator can be called on every position, gives one answer per
/// position, and never answers `i32::MIN` (whose negation does not fit).
pub open spec fn eval_ok<F: Fn(&Board, Color) -> i32>(eval: F) -> bool {
    &&& forall|b: &Board, c: Color| #[trigger] eval.requires((b, c))
    &&& forall|b: &Board, c: Color, w1: i32, w2: i32|
        #[trigger] eval.ensures((b, c), w1) && #[trigger] eval.ensures((b, c), w2) ==> w1 == w2
    &&& forall|b: &Board, c: Color, w: i32| #[trigger] eval.ensures((b, c), w) ==> w != i32::MIN
}

/// The evaluator's answer for board `b` with `c` to move.
pub open spec fn leaf_eval<F: Fn(&Board, Color) -> i32>(eval: F, b: Board, c: Color) -> i32 {
    choose|w: i32| eval.ensures((&b, c), w)
}

/// The capture flag handed to the mover: the target holds a piece, or a
/// pawn moves without promotion onto the en-passant square.
pub open spec fn search_capture_flag(g: GameState, m: Move) -> bool {
    g.board.at(m.1.0 as int, m.1.1 as int) is Some
        || (m.2 is None && (g.board.at(m.0.0 as int, m.0.1 as int) matches Some(p) && p.piece_type == PieceType::Pawn)
            && g.en_passant is Some && g.en_passant == Some(m.1))
}

/// The promotion piece named by a promotion letter, for the side to move.
pub open spec fn search_promo_piece(g: GameState, promo: Option<char>) -> Option<Piece> {
    match promo {
        Some(ch) => if ch == 'q' {
            Some(Piece { piece_type: PieceType::Queen, color: g.active_color })
        } else if ch == 'r' {
            Some(Piece { piece_type: PieceType::Rook, color: g.active_color })
        } else if ch == 'b' {
            Some(Piece { piece_type: PieceType::Bishop, color: g.active_color })
        } else if ch == 'n' {
            Some(Piece { piece_type: PieceType::Knight, color: g.active_color })
        } else {
            None
        },
        None => None,
    }
}

/// The position after `m` with the other side to move, when the mover plays
/// the move.
pub open spec fn child_state(g: GameState, m: Move) -> Option<GameState> {
    let cap = search_capture_flag(g, m);
    let promo = search_promo_piece(g, m.2);
    if spec_move_allowed(g, m.0, m.1, cap, promo) {
        let r = spec_move_result(g, m.0, m.1, cap, promo);
        Some(GameState { active_color: spec_opposite(r.active_color), ..r })
    } else {
        None
    }
}

/// The minimax value of `g` searched `depth` plies deep, seen from
/// `root`: at depth 0 the evaluator's score (negated for Black); with no
/// legal move, a mate score (worse for the mated side the sooner it comes)
/// or 0 for stalemate; otherwise the best child value for the side to move
/// (the greatest when it is `root`, else the least).
pub open spec fn minimax_value<F: Fn(&Board, Color) -> i32>(eval: F, g: GameState, depth: nat, root: Color) -> int
    decreases depth, 0nat,
{
    if depth == 0 {
        let w = leaf_eval(eval, g.board, g.active_color);
        if root == Color::White { w as int } else { -w }
    } else {
        let ms = generated_list(g, false);
        if ms.len() == 0 {
            if g.board.in_check(g.active_color) {
                if g.active_color == root { -MATE_VALUE - depth } else { MATE_VALUE + depth }
            } else {
                0
            }
        } else {
            best_of_children(eval, g, (depth - 1) as nat, root, ms, ms.len())
        }
    }
}

/// The best value among the children reached by the first `n` moves of `ms`
/// (moves the mover refuses are skipped), starting from the worst value for
/// the side to move.
pub open spec fn best_of_children<F: Fn(&Board, Color) -> i32>(eval: F, g: GameState, child_depth: nat, root: Color,
    ms: Seq<Move>, n: nat) -> int
    decreases child_depth, n + 1,
{
    if n == 0 {
        if g.active_color == root { i32::MIN as int } else { i32::MAX as int }
    } else {
        let prev = best_of_children(eval, g, child_depth, root, ms, (n - 1) as nat);
        match child_state(g, ms[n - 1]) {
            Some(c) => {
                let v = minimax_value(eval, c, child_depth, root);
                if g.active_color == root {
                    if v > prev { v } else { prev }
                } else {
                    if v < prev { v } else { prev }
                }
            },
            None => prev,
        }
    }
}

/// The value of the child a move leads to, when the mover accepts it.
#[verifier::opaque]
pub open spec fn child_value<F: Fn(&Board, Color) -> i32>(eval: F, g: GameState, m: Move, child_depth: nat, root: Color) -> int {
    minimax_value(eval, child_state(g, m).unwrap(), child_depth, root)
}

proof fn lemma_child_value<F: Fn(&Board, Color) -> i32>(eval: F, g: GameState, m: Move, child_depth: nat, root: Color)
    ensures
        child_value(eval, g, m, child_depth, root) == minimax_value(eval, child_state(g, m).unwrap(), child_depth, root),
{
    reveal(child_value);
}

proof fn lemma_best_of_children_bounds<F: Fn(&Board, Color) -> i32>(eval: F, g: GameState, child_depth: nat, root: Color,
    ms: Seq<Move>, n: nat)
    requires
        n <= ms.len(),
    ensures
        forall|i: int| 0 <= i < n && #[trigger] child_state(g, ms[i]) is Some ==> {
            let v = child_value(eval, g, ms[i], child_depth, root);
            let b = best_of_children(eval, g, child_depth, root, ms, n);
            if g.active_color == root { v <= b } else { b <= v }
        },
        (forall|i: int| 0 <= i < n ==> #[trigger] child_state(g, ms[i]) is None)
            ==> best_of_children(eval, g, child_depth, root, ms, n)
                == (if g.active_color == root { i32::MIN as int } else { i32::MAX as int }),
        (forall|i: int| 0 <= i < n && #[trigger] child_state(g, ms[i]) is Some
            ==> i32::MIN <= child_value(eval, g, ms[i], child_depth, root) <= i32::MAX)
            && (exists|i: int| 0 <= i < n && #[trigger] child_state(g, ms[i]) is Some)
            ==> exists|i: int| 0 <= i < n && #[trigger] child_state(g, ms[i]) is Some
                && best_of_children(eval, g, child_depth, root, ms, n) == child_value(eval, g, ms[i], child_depth, root),
    decreases n,
{
    reveal(child_value);
    if n > 0 {
        lemma_best_of_children_bounds(eval, g, child_depth, root, ms, (n - 1) as nat);
        let k = n - 1;
        let b = best_of_children(eval, g, child_depth, root, ms, n);
        let prev = best_of_children(eval, g, child_depth, root, ms, (n - 1) as nat);
        if child_state(g, ms[k]) is Some {
            let v = child_value(eval, g, ms[k], child_depth, root);
            assert(b == (if g.active_color == root { if v > prev { v } else { prev } } else { if v < prev { v } else { prev } }));
            if (forall|i: int| 0 <= i < n && #[trigger] child_state(g, ms[i]) is Some
                ==> i32::MIN <= child_value(eval, g, ms[i], child_depth, root) <= i32::MAX) {
                assert(i32::MIN <= v <= i32::MAX);
                if exists|i: int| 0 <= i < k && #[trigger] child_state(g, ms[i]) is Some {
                    let j = choose|i: int| 0 <= i < k && #[trigger] child_state(g, ms[i]) is Some
                        && prev == child_value(eval, g, ms[i], child_depth, root);
                    if b == prev {
                        assert(child_state(g, ms[j]) is Some && b == child_value(eval, g, ms[j], child_depth, root));
                    } else {
                        assert(b == child_value(eval, g, ms[k], child_depth, root));
                    }
                } else {
                    assert(b == child_value(eval, g, ms[k], child_depth, root));
                }
            }
        } else {
            assert(b == prev);
            if exists|i: int| 0 <= i < n && #[trigger] child_state(g, ms[i]) is Some {
                let i0 = choose|i: int| 0 <= i < n && #[trigger] child_state(g, ms[i]) is Some;
                assert(i0 < k);
            }
        }
    }
}

/// Minimax picks among the children: at a searched node with legal moves,
/// the value is at least every accepted child's value when the side to
/// move is the root side and at most every accepted child's value when it
/// is the other side; and, when the children's values lie in `i32` and some
/// child is accepted, it is the value of one of them.
pub proof fn lemma_minimax_picks_from_children<F: Fn(&Board, Color) -> i32>(eval: F, g: GameState, depth: nat, root: Color)
    requires
        depth > 0,
        generated_list(g, false).len() > 0,
    ensures
        forall|m: Move| generated_list(g, false).contains(m) && #[trigger] child_state(g, m) is Some ==> {
            let v = child_value(eval, g, m, (depth - 1) as nat, root);
            if g.active_color == root { v <= minimax_value(eval, g, depth, root) }
            else { minimax_value(eval, g, depth, root) <= v }
        },
        (forall|m: Move| generated_list(g, false).contains(m) && #[trigger] child_state(g, m) is Some
            ==> i32::MIN <= child_value(eval, g, m, (depth - 1) as nat, root) <= i32::MAX)
            && (exists|m: Move| generated_list(g, false).contains(m) && #[trigger] child_state(g, m) is Some)
            ==> exists|m: Move| generated_list(g, false).contains(m) && #[trigger] child_state(g, m) is Some
                && minimax_value(eval, g, depth, root) == child_value(eval, g, m, (depth - 1) as nat, root),
{
    reveal(child_value);
    let ms = generated_list(g, false);
    let cd = (depth - 1) as nat;
    lemma_best_of_children_bounds(eval, g, cd, root, ms, ms.len());
    assert(minimax_value(eval, g, depth, root) == best_of_children(eval, g, cd, root, ms, ms.len()));
    assert forall|m: Move| ms.contains(m) && #[trigger] child_state(g, m) is Some implies {
            let v = child_value(eval, g, m, cd, root);
            if g.active_color == root { v <= minimax_value(eval, g, depth, root) }
            else { minimax_value(eval, g, depth, root) <= v }
        } by {
        let i = choose|i: int| 0 <= i < ms.len() && ms[i] == m;
        assert(child_state(g, ms[i]) is Some);
    }
    if (forall|m: Move| ms.contains(m) && #[trigger] child_state(g, m) is Some
            ==> i32::MIN <= child_value(eval, g, m, cd, root) <= i32::MAX)
        && (exists|m: Move| ms.contains(m) && #[trigger] child_state(g, m) is Some) {
        let m0 = choose|m: Move| ms.contains(m) && #[trigger] child_state(g, m) is Some;
        let i0 = choose|i: int| 0 <= i < ms.len() && ms[i] == m0;
        assert(child_state(g, ms[i0]) is Some);
        assert forall|i: int| 0 <= i < ms.len() && #[trigger] child_state(g, ms[i]) is Some
            implies i32::MIN <= child_value(eval, g, ms[i], cd, root) <= i32::MAX by {
            assert(ms.contains(ms[i]));
        }
        let j = choose|i: int| 0 <= i < ms.len() && #[trigger] child_state(g, ms[i]) is Some
            && best_of_children(eval, g, cd, root, ms, ms.len()) == child_value(eval, g, ms[i], cd, root);
        assert(ms.contains(ms[j]));
    }
}

/// Where the search stops: at depth 0 and at a position without legal
/// moves, the values seen from the two sides are each other's negation; a
/// mated side to move scores below minus the mate value from its own view
/// and above the mate value from the other's, the deeper the search (the
/// sooner the mate) the more so; stalemate scores 0.
pub proof fn lemma_minimax_terminal<F: Fn(&Board, Color) -> i32>(eval: F, g: GameState, depth: nat)
    ensures
        minimax_value(eval, g, 0, Color::Black) == -minimax_value(eval, g, 0, Color::White),
        depth > 0 && generated_list(g, false).len() == 0 ==> {
            let me = g.active_color;
            let other = spec_opposite(g.active_color);
            &&& minimax_value(eval, g, depth, me) == -minimax_value(eval, g, depth, other)
            &&& g.board.in_check(me) ==> minimax_value(eval, g, depth, me) < -MATE_VALUE
                && minimax_value(eval, g, depth, other) > MATE_VALUE
                && minimax_value(eval, g, depth + 1, me) < minimax_value(eval, g, depth, me)
            &&& !g.board.in_check(me) ==> minimax_value(eval, g, depth, me) == 0
        },
{
    assert(spec_opposite(g.active_color) != g.active_color);
}

/// A child position has the other side to move, and it is the mover's
/// result for the move with the capture flag and promotion piece the search
/// hands over.
pub proof fn lemma_child_passes_turn(g: GameState, m: Move)
    ensures
        child_state(g, m) matches Some(c) ==> c.active_color == spec_opposite(g.active_color)
            && c.board == spec_move_result(g, m.0, m.1, search_capture_flag(g, m), search_promo_piece(g, m.2)).board,
{
    if child_state(g, m) is Some {
        let p = g.board.at(m.0.0 as int, m.0.1 as int).unwrap();
        assert(spec_move_result(g, m.0, m.1, search_capture_flag(g, m), search_promo_piece(g, m.2)).active_color
            == g.active_color) by {
            assert(p.piece_type == PieceType::Pawn || p.piece_type == PieceType::King || p.piece_type == PieceType::Knight
                || p.piece_type == PieceType::Bishop || p.piece_type == PieceType::Rook || p.piece_type == PieceType::Queen);
        }
    }
}

/// A position reached by a move the mover accepts is well formed again.
proof fn lemma_child_wf(g: GameState, m: Move)
    requires
        g.wf(),
        on_board(m.0),
        on_board(m.1),
        child_state(g, m) is Some,
    ensures
        child_state(g, m).unwrap().wf(),
{
}

/// The evaluator's answer, as its spec names it.
fn call_eval<F: Fn(&Board, Color) -> i32>(eval: &F, b: &Board, c: Color) -> (w: i32)
    requires
        eval_ok(*eval),
    ensures
        w == leaf_eval(*eval, *b, c),
        w != i32::MIN,
{
    let w = eval(b, c);
    proof {
        let w2 = leaf_eval(*eval, *b, c);
        assert(eval.ensures((b, c), w));
        assert(eval.ensures((b, c), w2));
    }
    w
}

/// The capture flag and promotion piece the search hands to the mover.
fn move_inputs(gs: &GameState, m: Move) -> (r: (bool, Option<Piece>))
    requires
        on_board(m.0),
        on_board(m.1),
    ensures
        r.0 == search_capture_flag(*gs, m),
        r.1 == search_promo_piece(*gs, m.2),
{
    let (from, to, promo) = m;
    let from_is_pawn = match gs.board.get(from.0, from.1) {
        Some(p) => p.piece_type == PieceType::Pawn,
        None => false,
    };
    let is_capture = gs.board.get(to.0, to.1).is_some()
        || (promo.is_none() && from_is_pawn && gs.en_passant.is_some() && opt_square_is(gs.en_passant, to));
    let side = gs.active_color;
    let promotion_piece = match promo {
        Some(ch) => if ch == 'q' {
            Some(Piece::new(PieceType::Queen, side))
        } else if ch == 'r' {
            Some(Piece::new(PieceType::Rook, side))
        } else if ch == 'b' {
            Some(Piece::new(PieceType::Bishop, side))
        } else if ch == 'n' {
            Some(Piece::new(PieceType::Knight, side))
        } else {
            None
        },
        None => None,
    };
    (is_capture, promotion_piece)
}

/// The minimax value of the position `depth` plies deep, from `root_side`'s
/// view (see `minimax_value`).
pub fn minimax<F: Fn(&Board, Color) -> i32>(state: &GameState, depth: usize, root_side: Color, eval: &F) -> (v: i32)
    requires
        state.wf(),
        eval_ok(*eval),
        depth <= i32::MAX - MATE_VALUE,
    ensures
        v == minimax_value(*eval, *state, depth as nat, root_side),
    decreases depth,
{
    if depth == 0 {
        let w = call_eval(eval, &state.board, state.active_color);
        return if root_side == Color::White { w } else { -w };
    }
    let mut state_copy = *state;
    let moves = find_all_valid_moves(&mut state_copy);
    let side = state.active_color;
    if moves.len() == 0 {
        let in_check = state_copy.board.is_side_in_check(side);
        let d = depth as i32;
        return if in_check {
            if side == root_side { -MATE_VALUE - d } else { MATE_VALUE + d }
        } else {
            0
        };
    }
    let maximizing = side == root_side;
    let mut best: i32 = if maximizing { i32::MIN } else { i32::MAX };
    let mut i: usize = 0;
    while i < moves.len()
        invariant
            state_copy == *state,
            state.wf(),
            eval_ok(*eval),
            0 < depth <= i32::MAX - MATE_VALUE,
            side == state.active_color,
            maximizing == (side == root_side),
            moves@ == generated_list(*state, false),
            forall|m: Move| #[trigger] moves@.contains(m) <==> spec_generated(*state, m),
            i <= moves@.len(),
            best == best_of_children(*eval, *state, (depth - 1) as nat, root_side, moves@, i as nat),
        decreases moves@.len() - i,
    {
        let m = moves[i];
        assert(moves@.contains(m));
        let (is_capture, promotion_piece) = move_inputs(&state_copy, m);
        let mut gs = state_copy;
        if PieceMover::move_piece(&mut gs, m.0, m.1, is_capture, promotion_piece) {
            gs.switch_player_turn();
            proof {
                lemma_child_wf(*state, m);
            }
            let val = minimax(&gs, depth - 1, root_side, eval);
            if maximizing {
                if val > best {
                    best = val;
                }
            } else {
                if val < best {
                    best = val;
                }
            }
        }
        i = i + 1;
    }
    best
}

/// The best root move found so far among the first `n` moves of `ms`, with
/// its value: the first move of greatest value among those the mover
/// accepts.
pub open spec fn root_best<F: Fn(&Board, Color) -> i32>(eval: F, g: GameState, child_depth: nat, ms: Seq<Move>, n: nat)
    -> Option<(Move, int)>
    decreases n,
{
    if n == 0 {
        None
    } else {
        let prev = root_best(eval, g, child_depth, ms, (n - 1) as nat);
        match child_state(g, ms[n - 1]) {
            Some(c) => {
                let v = minimax_value(eval, c, child_depth, g.active_color);
                match prev {
                    None => Some((ms[n - 1], v)),
                    Some(bv) => if v > bv.1 { Some((ms[n - 1], v)) } else { prev },
                }
            },
            None => prev,
        }
    }
}

/// The best root move among the first `n` moves: nothing exactly when the
/// mover accepts none of them; otherwise an accepted move at some index `i`
/// with its child's value, that value at least every accepted move's, and
/// greater than those of the accepted moves before `i`.
pub proof fn lemma_root_best_is_first_maximum<F: Fn(&Board, Color) -> i32>(eval: F, g: GameState, child_depth: nat,
    ms: Seq<Move>, n: nat)
    requires
        n <= ms.len(),
    ensures
        root_best(eval, g, child_depth, ms, n) is None
            <==> forall|j: int| 0 <= j < n ==> #[trigger] child_state(g, ms[j]) is None,
        root_best(eval, g, child_depth, ms, n) matches Some(b) ==> exists|i: int| {
            &&& 0 <= i < n
            &&& ms[i] == b.0
            &&& #[trigger] child_state(g, ms[i]) is Some
            &&& b.1 == child_value(eval, g, ms[i], child_depth, g.active_color)
            &&& forall|j: int| 0 <= j < n && #[trigger] child_state(g, ms[j]) is Some
                ==> child_value(eval, g, ms[j], child_depth, g.active_color) <= b.1
            &&& forall|j: int| 0 <= j < i && #[trigger] child_state(g, ms[j]) is Some
                ==> child_value(eval, g, ms[j], child_depth, g.active_color) < b.1
        },
    decreases n,
{
    if n > 0 {
        lemma_root_best_is_first_maximum(eval, g, child_depth, ms, (n - 1) as nat);
        let k = n - 1;
        let prev = root_best(eval, g, child_depth, ms, (n - 1) as nat);
        let r = root_best(eval, g, child_depth, ms, n);
        if child_state(g, ms[k]) is Some {
            let v = child_value(eval, g, ms[k], child_depth, g.active_color);
            lemma_child_value(eval, g, ms[k], child_depth, g.active_color);
            match prev {
                None => {
                    assert(r == Some((ms[k], v)));
                    assert forall|j: int| 0 <= j < n && #[trigger] child_state(g, ms[j]) is Some
                        implies child_value(eval, g, ms[j], child_depth, g.active_color) <= v by {
                        if j < k {
                            assert(child_state(g, ms[j]) is None);
                        }
                    }
                    assert forall|j: int| 0 <= j < k && #[trigger] child_state(g, ms[j]) is Some
                        implies child_value(eval, g, ms[j], child_depth, g.active_color) < v by {
                        assert(child_state(g, ms[j]) is None);
                    }
                },
                Some(bv) => {
                    let i = choose|i: int| {
                        &&& 0 <= i < (n - 1) as nat
                        &&& ms[i] == bv.0
                        &&& #[trigger] child_state(g, ms[i]) is Some
                        &&& bv.1 == child_value(eval, g, ms[i], child_depth, g.active_color)
                        &&& forall|j: int| 0 <= j < (n - 1) as nat && #[trigger] child_state(g, ms[j]) is Some
                            ==> child_value(eval, g, ms[j], child_depth, g.active_color) <= bv.1
                        &&& forall|j: int| 0 <= j < i && #[trigger] child_state(g, ms[j]) is Some
                            ==> child_value(eval, g, ms[j], child_depth, g.active_color) < bv.1
                    };
                    if v > bv.1 {
                        assert(r == Some((ms[k], v)));
                        assert forall|j: int| 0 <= j < n && #[trigger] child_state(g, ms[j]) is Some
                            implies child_value(eval, g, ms[j], child_depth, g.active_color) <= v by {}
                        assert forall|j: int| 0 <= j < k && #[trigger] child_state(g, ms[j]) is Some
                            implies child_value(eval, g, ms[j], child_depth, g.active_color) < v by {}
                    } else {
                        assert(r == prev);
                        assert(child_state(g, ms[i]) is Some);
                    }
                },
            }
        } else {
            assert(r == prev);
        }
    }
}

/// Search by plain minimax to a fixed depth.
pub struct SimpleSearch {}

impl SimpleSearch {
    /// The move of greatest minimax value for the side to move, searched
    /// `search_depth` plies deep, with its value and the depth; `None` when
    /// no legal move is accepted.
    pub fn find_best_move<F: Fn(&Board, Color) -> i32>(game_state: &GameState, search_depth: usize, eval: &F)
        -> (r: Option<((usize, usize), (usize, usize), Option<char>, i32, usize)>)
        requires
            game_state.wf(),
            eval_ok(*eval),
            1 <= search_depth <= i32::MAX - MATE_VALUE,
        ensures
            r == (match root_best(*eval, *game_state, (search_depth - 1) as nat, generated_list(*game_state, false),
                generated_list(*game_state, false).len()) {
                Some(b) => Some((b.0.0, b.0.1, b.0.2, b.1 as i32, search_depth)),
                None => None,
            }),
            r matches Some(x) ==> spec_generated(*game_state, (x.0, x.1, x.2)),
            r matches Some(x) ==> forall|m: Move| generated_list(*game_state, false).contains(m)
                && #[trigger] child_state(*game_state, m) is Some
                ==> child_value(*eval, *game_state, m, (search_depth - 1) as nat, game_state.active_color) <= x.3,
    {
        let mut gs_root = *game_state;
        let moves = find_all_valid_moves(&mut gs_root);
        if moves.len() == 0 {
            return None;
        }
        let root_side = game_state.active_color;
        let ghost n = moves@.len();
        let mut best: Option<(Move, i32)> = None;
        let mut i: usize = 0;
        while i < moves.len()
            invariant
                gs_root == *game_state,
                game_state.wf(),
                eval_ok(*eval),
                1 <= search_depth <= i32::MAX - MATE_VALUE,
                root_side == game_state.active_color,
                moves@ == generated_list(*game_state, false),
                forall|m: Move| #[trigger] moves@.contains(m) <==> spec_generated(*game_state, m),
                i <= moves@.len(),
                (match root_best(*eval, *game_state, (search_depth - 1) as nat, moves@, i as nat) {
                    Some(b) => best == Some((b.0, b.1 as i32)) && b.1 == b.1 as i32,
                    None => best is None,
                }),
                best matches Some(b) ==> moves@.contains(b.0),
            decreases moves@.len() - i,
        {
            let m = moves[i];
            assert(moves@.contains(m));
            let (is_capture, promotion_piece) = move_inputs(game_state, m);
            let mut gs = *game_state;
            if PieceMover::move_piece(&mut gs, m.0, m.1, is_capture, promotion_piece) {
                gs.switch_player_turn();
                proof {
                    lemma_child_wf(*game_state, m);
                }
                let score = minimax(&gs, search_depth - 1, root_side, eval);
                match best {
                    None => {
                        best = Some((m, score));
                    },
                    Some(b) => {
                        if score > b.1 {
                            best = Some((m, score));
                        }
                    },
                }
            }
            i = i + 1;
        }
        proof {
            let ms = generated_list(*game_state, false);
            let cd = (search_depth - 1) as nat;
            lemma_root_best_is_first_maximum(*eval, *game_state, cd, ms, ms.len());
            assert forall|m: Move| ms.contains(m) && #[trigger] child_state(*game_state, m) is Some
                implies best matches Some(b) && child_value(*eval, *game_state, m, cd, game_state.active_color) <= b.1 by {
                let j = choose|j: int| 0 <= j < ms.len() && ms[j] == m;
                assert(child_state(*game_state, ms[j]) is Some);
            }
        }
        match best {
            Some(b) => Some((b.0.0, b.0.1, b.0.2, b.1, search_depth)),
            None => None,
        }
    }
}

} // verus!
