//! Move-path counting ("perft"): the number of legal move sequences of a
//! given length from a position, used to check the move generator.
use vstd::prelude::*;
use crate::game_state::GameState;
use crate::board::on_board;
use crate::notation::push_char;
use crate::movegen::{Move, PerftMove, find_all_valid_moves, find_all_valid_moves_into_perft, spec_generated, perft_moves, lists_legal_moves, legal_moves};

verus! {

/// The number of legal move sequences of length `d` from `g`.
pub open spec fn perft_value(g: GameState, d: nat) -> int
    decreases d, 0nat,
{
    if d == 0 {
        1
    } else {
        subtree_total(g, (d - 1) as nat, legal_moves(g))
    }
}

/// The sum, over the moves of `ms`, of the number of legal move sequences of
/// length `d` from the position after the move.
pub open spec fn subtree_total(g: GameState, d: nat, ms: Seq<Move>) -> int
    decreases d, ms.len() + 1,
{
    if ms.len() == 0 {
        0
    } else {
        subtree_total(g, d, ms.drop_last()) + perft_value(g.spec_make_move(ms.last().0, ms.last().1, ms.last().2), d)
    }
}

/// 2 to the 64th: the counts are kept modulo this.
pub open spec fn count_modulus() -> int {
    0x1_0000_0000_0000_0000
}

pub open spec fn child_adder(g: GameState, d: nat) -> spec_fn(int, Move) -> int {
    |acc: int, m: Move| acc + perft_value(g.spec_make_move(m.0, m.1, m.2), d)
}

proof fn lemma_subtree_total_fold(g: GameState, d: nat, ms: Seq<Move>)
    ensures
        subtree_total(g, d, ms) == ms.fold_left(0int, child_adder(g, d)),
    decreases ms.len(),
{
    if ms.len() > 0 {
        lemma_subtree_total_fold(g, d, ms.drop_last());
    }
}

/// Two duplicate-free lists of the same moves give the same subtree total.
pub proof fn lemma_subtree_total_reorder(g: GameState, d: nat, s1: Seq<Move>, s2: Seq<Move>)
    requires
        s1.no_duplicates(),
        s2.no_duplicates(),
        forall|m: Move| #[trigger] s1.contains(m) <==> s2.contains(m),
    ensures
        subtree_total(g, d, s1) == subtree_total(g, d, s2),
{
    broadcast use vstd::seq_lib::to_multiset_contains;
    s1.lemma_multiset_has_no_duplicates();
    s2.lemma_multiset_has_no_duplicates();
    assert(s1.to_multiset() =~= s2.to_multiset()) by {
        assert forall|m: Move| s1.to_multiset().count(m) == s2.to_multiset().count(m) by {
            if s1.contains(m) {
                assert(s1.to_multiset().contains(m));
                assert(s2.to_multiset().contains(m));
            }
        }
    }
    let f = child_adder(g, d);
    assert(vstd::seq_lib::commutative_foldl(f)) by {
        assert forall|x: Move, y: Move, v: int| #[trigger] f(f(v, x), y) == f(f(v, y), x) by {}
    }
    vstd::seq_lib::lemma_fold_left_permutation(s1, s2, f, 0int);
    lemma_subtree_total_fold(g, d, s1);
    lemma_subtree_total_fold(g, d, s2);
}

/// Summing one-move counts counts the moves.
proof fn lemma_subtree_total_depth0(g: GameState, ms: Seq<Move>)
    ensures
        subtree_total(g, 0, ms) == ms.len(),
    decreases ms.len(),
{
    if ms.len() > 0 {
        lemma_subtree_total_depth0(g, ms.drop_last());
        assert(perft_value(g.spec_make_move(ms.last().0, ms.last().1, ms.last().2), 0) == 1);
    }
}

/// Any listing of the legal moves gives the count of `perft_value`.
pub proof fn lemma_perft_any_listing(g: GameState, d: nat, s: Seq<Move>)
    requires
        lists_legal_moves(g, s),
        d >= 1,
    ensures
        lists_legal_moves(g, legal_moves(g)),
        perft_value(g, d) == subtree_total(g, (d - 1) as nat, s),
        legal_moves(g).len() == s.len(),
{
    let l = legal_moves(g);
    assert(lists_legal_moves(g, l));
    lemma_subtree_total_reorder(g, (d - 1) as nat, l, s);
    lemma_subtree_total_depth0(g, l);
    lemma_subtree_total_depth0(g, s);
    lemma_subtree_total_reorder(g, 0, l, s);
}

/// Counts the move sequences of length `depth`, playing and taking back
/// each move on `gs` (the count is kept modulo 2^64).
fn perft_count_mut(gs: &mut GameState, depth: u32) -> (n: u64)
    requires
        old(gs).wf(),
    ensures
        *final(gs) == *old(gs),
        n as int == perft_value(*old(gs), depth as nat) % count_modulus(),
        depth >= 1 ==> lists_legal_moves(*old(gs), legal_moves(*old(gs))),
        depth == 1 ==> n == legal_moves(*old(gs)).len(),
    decreases depth,
{
    if depth == 0 {
        return 1;
    }
    let ghost g = *gs;
    let mut moves_buf: Vec<PerftMove> = Vec::new();
    find_all_valid_moves_into_perft(gs, &mut moves_buf);
    let ghost ms = perft_moves(moves_buf@);
    proof {
        lemma_perft_any_listing(g, depth as nat, ms);
    }
    if depth == 1 {
        proof {
            lemma_subtree_total_depth0(g, ms);
        }
        return moves_buf.len() as u64;
    }
    let mut nodes: u64 = 0;
    let mut i: usize = 0;
    while i < moves_buf.len()
        invariant
            *gs == g,
            g.wf(),
            i <= moves_buf@.len(),
            depth >= 2,
            ms == perft_moves(moves_buf@),
            forall|m: Move| #[trigger] ms.contains(m) <==> spec_generated(g, m),
            nodes as int == subtree_total(g, (depth - 1) as nat, ms.take(i as int)) % count_modulus(),
        decreases moves_buf@.len() - i,
    {
        let mv = moves_buf[i];
        let ghost m = (mv.from, mv.to, mv.promo);
        proof {
            assert(ms[i as int] == m);
            assert(ms.contains(m));
            assert(ms.take(i + 1).drop_last() =~= ms.take(i as int));
            assert(ms.take(i + 1).last() == m);
        }
        let undo = gs.make_move_fast(mv.from, mv.to, mv.promo);
        let c = perft_count_mut(gs, depth - 1);
        gs.unmake_move_fast(undo);
        proof {
            let a = subtree_total(g, (depth - 1) as nat, ms.take(i as int));
            let b = perft_value(g.spec_make_move(m.0, m.1, m.2), (depth - 1) as nat);
            vstd::arithmetic::div_mod::lemma_add_mod_noop(a, b, count_modulus());
            assert(subtree_total(g, (depth - 1) as nat, ms.take(i + 1)) == a + b);
        }
        nodes = nodes.wrapping_add(c);
        i = i + 1;
    }
    proof {
        assert(ms.take(moves_buf@.len() as int) =~= ms);
    }
    nodes
}

/// The number of legal move sequences of length `depth` from `gs`, modulo
/// 2^64; at depth 1, the number of legal moves.
pub fn perft_count(gs: &GameState, depth: u32) -> (n: u64)
    requires
        gs.wf(),
    ensures
        n as int == perft_value(*gs, depth as nat) % count_modulus(),
        depth == 1 ==> n == legal_moves(*gs).len(),
        depth == 1 ==> lists_legal_moves(*gs, legal_moves(*gs)),
{
    let mut work = *gs;
    perft_count_mut(&mut work, depth)
}

/// A move in coordinate notation, with the promotion letter when there is one.
pub open spec fn move_text(m: Move) -> Seq<char> {
    let base = seq![(97 + (m.0.1 as u8)) as char, (49 + (m.0.0 as u8)) as char,
        (97 + (m.1.1 as u8)) as char, (49 + (m.1.0 as u8)) as char];
    match m.2 {
        Some(pc) => base.push(pc),
        None => base,
    }
}

/// Counting to depth 0 gives the one empty sequence; counting to depth 1
/// counts the legal moves, whatever list of them is used.
pub proof fn lemma_perft_shallow(g: GameState, s: Seq<Move>)
    requires
        lists_legal_moves(g, s),
    ensures
        perft_value(g, 0) == 1,
        perft_value(g, 1) == s.len(),
{
    lemma_perft_any_listing(g, 1, s);
    lemma_subtree_total_depth0(g, s);
}

/// The text of a move between squares of the board names the move: two
/// such moves with the same text are the same move, and the text is four
/// characters long without a promotion and five with one, the fifth being
/// the promotion letter.
pub proof fn lemma_move_text_names_the_move(m1: Move, m2: Move)
    requires
        on_board(m1.0),
        on_board(m1.1),
        on_board(m2.0),
        on_board(m2.1),
    ensures
        move_text(m1) == move_text(m2) ==> m1 == m2,
        move_text(m1).len() == (if m1.2 is Some { 5int } else { 4int }),
        m1.2 matches Some(pc) ==> move_text(m1)[4] == pc,
        move_text(m1)[0] as int == 'a' as int + m1.0.1 && move_text(m1)[1] as int == '1' as int + m1.0.0,
        move_text(m1)[2] as int == 'a' as int + m1.1.1 && move_text(m1)[3] as int == '1' as int + m1.1.0,
{
    let t1 = move_text(m1);
    let t2 = move_text(m2);
    if t1 == t2 {
        assert(t1[0] == t2[0]);
        assert(t1[1] == t2[1]);
        assert(t1[2] == t2[2]);
        assert(t1[3] == t2[3]);
        let (a, b) = ((m1.0.1 as u8), (m2.0.1 as u8));
        assert(((97 + a) as char) == ((97 + b) as char) ==> a == b);
        let (a, b) = ((m1.0.0 as u8), (m2.0.0 as u8));
        assert(((49 + a) as char) == ((49 + b) as char) ==> a == b);
        let (a, b) = ((m1.1.1 as u8), (m2.1.1 as u8));
        assert(((97 + a) as char) == ((97 + b) as char) ==> a == b);
        let (a, b) = ((m1.1.0 as u8), (m2.1.0 as u8));
        assert(((49 + a) as char) == ((49 + b) as char) ==> a == b);
        assert(t1.len() == t2.len());
        if m1.2 is Some {
            assert(t1[4] == t2[4]);
        }
    }
}

fn move_string(from: (usize, usize), to: (usize, usize), promo: Option<char>) -> (s: String)
    requires
        from.0 < 8,
        from.1 < 8,
        to.0 < 8,
        to.1 < 8,
    ensures
        s@ == move_text((from, to, promo)),
{
    let mut s = String::new();
    push_char(&mut s, (97u8 + from.1 as u8) as char);
    push_char(&mut s, (49u8 + from.0 as u8) as char);
    push_char(&mut s, (97u8 + to.1 as u8) as char);
    push_char(&mut s, (49u8 + to.0 as u8) as char);
    if let Some(pc) = promo {
        push_char(&mut s, pc);
    }
    proof {
        assert(s@ =~= move_text((from, to, promo)));
    }
    s
}

/// `r` holds, in the order of `s`, each move's text and the number (modulo
/// 2^64) of move sequences of length `d` after it.
pub open spec fn divide_entries(g: GameState, d: nat, s: Seq<Move>, r: Seq<(String, u64)>) -> bool {
    &&& r.len() == s.len()
    &&& forall|i: int| 0 <= i < r.len() ==> #[trigger] r[i].0@ == move_text(s[i])
    &&& forall|i: int| 0 <= i < r.len() ==> #[trigger] r[i].1 as int
        == perft_value(g.spec_make_move(s[i].0, s[i].1, s[i].2), d) % count_modulus()
}

/// For each legal move, its text and the number of move sequences of
/// length `depth - 1` after it; nothing for depth 0. The entries' counts add
/// up to `perft_value(gs, depth)`.
pub fn perft_divide(gs: &GameState, depth: u32) -> (r: Vec<(String, u64)>)
    requires
        gs.wf(),
    ensures
        depth == 0 ==> r@.len() == 0,
        depth > 0 ==> exists|s: Seq<Move>| #[trigger] lists_legal_moves(*gs, s)
            && divide_entries(*gs, (depth - 1) as nat, s, r@)
            && perft_value(*gs, depth as nat) == subtree_total(*gs, (depth - 1) as nat, s),
        forall|i: int, j: int| 0 <= i < r@.len() && 0 <= j < r@.len() && i != j ==> #[trigger] r@[i].0@ != #[trigger] r@[j].0@,
{
    let mut result: Vec<(String, u64)> = Vec::new();
    if depth == 0 {
        return result;
    }
    let mut work = *gs;
    let ghost g = *gs;
    let moves = find_all_valid_moves(&mut work);
    proof {
        lemma_perft_any_listing(g, depth as nat, moves@);
    }
    let mut i: usize = 0;
    while i < moves.len()
        invariant
            work == g,
            g.wf(),
            depth > 0,
            i <= moves@.len(),
            result@.len() == i,
            forall|m: Move| #[trigger] moves@.contains(m) <==> spec_generated(g, m),
            forall|k: int| 0 <= k < i ==> #[trigger] result@[k].0@ == move_text(moves@[k]),
            forall|k: int| 0 <= k < i ==> #[trigger] result@[k].1 as int
                == perft_value(g.spec_make_move(moves@[k].0, moves@[k].1, moves@[k].2), (depth - 1) as nat) % count_modulus(),
        decreases moves@.len() - i,
    {
        let (from, to, promo) = moves[i];
        proof {
            assert(moves@.contains(moves@[i as int]));
        }
        let u = work.make_move_fast(from, to, promo);
        let count = perft_count_mut(&mut work, depth - 1);
        work.unmake_move_fast(u);
        let s = move_string(from, to, promo);
        result.push((s, count));
        i = i + 1;
    }
    proof {
        assert(lists_legal_moves(g, moves@));
        assert(divide_entries(g, (depth - 1) as nat, moves@, result@));
        assert forall|i: int, j: int| 0 <= i < result@.len() && 0 <= j < result@.len() && i != j
            implies #[trigger] result@[i].0@ != #[trigger] result@[j].0@ by {
            assert(moves@.contains(moves@[i]));
            assert(moves@.contains(moves@[j]));
            lemma_move_text_names_the_move(moves@[i], moves@[j]);
        }
    }
    result
}

} // verus!
