//! Move-ordering memory of a search: history scores, two killer moves per
//! ply, a counter move per previous move, and continuation history.
use vstd::prelude::*;
use crate::pieces::Color;
use crate::board::on_board;

verus! {

/// History scores stay within plus or minus this bound.
pub const HISTORY_CAP: i32 = 1_000_000;
pub const CONT_HISTORY_DIM: usize = 64;
pub const HISTORY_SIZE: usize = 8192;
pub const CONT_HISTORY_SIZE: usize = 524288;

pub open spec fn side_idx(c: Color) -> int {
    if c == Color::White { 0 } else { 1 }
}

pub open spec fn sq_idx(sq: (usize, usize)) -> int {
    sq.0 * 8 + sq.1
}

/// A move as one number: from-square times 64 plus to-square.
pub open spec fn flat_move(from: (usize, usize), to: (usize, usize)) -> int {
    sq_idx(from) * 64 + sq_idx(to)
}

/// The move a stored number stands for; negative numbers stand for none.
pub open spec fn unflat_move(m: i16) -> Option<((usize, usize), (usize, usize))> {
    if m < 0 {
        None
    } else {
        let f = (m / 64) as int;
        let t = (m % 64) as int;
        Some((((f / 8) as usize, (f % 8) as usize), ((t / 8) as usize, (t % 8) as usize)))
    }
}

/// `v` added to `bonus`, held within the history bound.
pub open spec fn capped_add(v: int, bonus: int) -> int {
    let s = v + bonus;
    if s > HISTORY_CAP { HISTORY_CAP as int } else if s < -HISTORY_CAP { -HISTORY_CAP } else { s }
}

/// The killer pair after a new killer `m`: it goes first and the old first
/// moves to second, unless it is the first already.
pub open spec fn killer_pair_after(k: (i16, i16), m: i16) -> (i16, i16) {
    if k.0 != m { (m, k.0) } else { k }
}

pub open spec fn pair_holds(k: (i16, i16), m: int) -> bool {
    k.0 == m || k.1 == m
}

pub struct SearchHeuristics {
    history: Vec<i32>,
    killers: Vec<(i16, i16)>,
    counter_moves: Vec<i16>,
    continuation_history: Vec<i32>,
}

impl SearchHeuristics {
    pub closed spec fn wf(&self) -> bool {
        &&& self.history@.len() == HISTORY_SIZE
        &&& self.counter_moves@.len() == HISTORY_SIZE
        &&& self.continuation_history@.len() == CONT_HISTORY_SIZE
        &&& forall|i: int| 0 <= i < HISTORY_SIZE ==> -HISTORY_CAP <= #[trigger] self.history@[i] <= HISTORY_CAP
        &&& forall|i: int| 0 <= i < CONT_HISTORY_SIZE
            ==> -HISTORY_CAP <= #[trigger] self.continuation_history@[i] <= HISTORY_CAP
    }

    /// The killer pairs, ply by ply.
    pub closed spec fn killers_view(&self) -> Seq<(i16, i16)> {
        self.killers@
    }

    /// The number of plies that have killer slots.
    pub closed spec fn killer_plies(&self) -> nat {
        self.killers@.len()
    }

    pub closed spec fn killer_pair(&self, ply: int) -> (i16, i16) {
        self.killers@[ply]
    }

    pub closed spec fn history_at(&self, side: Color, from: (usize, usize), to: (usize, usize)) -> i32 {
        self.history@[side_idx(side) * 4096 + flat_move(from, to)]
    }

    pub closed spec fn counter_at(&self, side: Color, prev_from: (usize, usize), prev_to: (usize, usize)) -> i16 {
        self.counter_moves@[side_idx(side) * 4096 + flat_move(prev_from, prev_to)]
    }

    pub closed spec fn cont_at(&self, side: Color, prev_to: (usize, usize), from: (usize, usize), to: (usize, usize)) -> i32 {
        self.continuation_history@[((side_idx(side) * 64 + sq_idx(prev_to)) * 64 + sq_idx(from)) * 64 + sq_idx(to)]
    }

    /// Empty tables: no killers (for `max(max_ply, 64)` plies), no counter
    /// moves, all scores zero.
    pub fn new(max_ply: usize) -> (h: SearchHeuristics)
        ensures
            h.wf(),
            h.killer_plies() == (if max_ply > 64 { max_ply as nat } else { 64nat }),
            forall|p: int| 0 <= p < h.killer_plies() ==> #[trigger] h.killer_pair(p) == (-1i16, -1i16),
            forall|s: Color, f: (usize, usize), t: (usize, usize)| on_board(f) && on_board(t)
                ==> #[trigger] h.history_at(s, f, t) == 0 && h.counter_at(s, f, t) == -1,
            forall|s: Color, p: (usize, usize), f: (usize, usize), t: (usize, usize)|
                on_board(p) && on_board(f) && on_board(t) ==> #[trigger] h.cont_at(s, p, f, t) == 0,
    {
        let n = if max_ply > 64 { max_ply } else { 64 };
        let mut killers: Vec<(i16, i16)> = Vec::new();
        let mut i: usize = 0;
        while i < n
            invariant
                i <= n,
                killers@.len() == i,
                forall|p: int| 0 <= p < i ==> #[trigger] killers@[p] == (-1i16, -1i16),
            decreases n - i,
        {
            killers.push((-1, -1));
            i = i + 1;
        }
        let mut h = SearchHeuristics {
            history: Vec::new(),
            killers,
            counter_moves: Vec::new(),
            continuation_history: Vec::new(),
        };
        h.fill_tables();
        h
    }

    /// Sets every history and continuation score to zero and every counter
    /// move to none, keeping the killers.
    fn fill_tables(&mut self)
        ensures
            final(self).killers_view() == old(self).killers_view(),
            final(self).wf(),
            forall|s: Color, f: (usize, usize), t: (usize, usize)| on_board(f) && on_board(t)
                ==> #[trigger] final(self).history_at(s, f, t) == 0 && final(self).counter_at(s, f, t) == -1,
            forall|s: Color, p: (usize, usize), f: (usize, usize), t: (usize, usize)|
                on_board(p) && on_board(f) && on_board(t) ==> #[trigger] final(self).cont_at(s, p, f, t) == 0,
    {
        let mut history: Vec<i32> = Vec::new();
        let mut counters: Vec<i16> = Vec::new();
        let mut i: usize = 0;
        while i < HISTORY_SIZE
            invariant
                i <= HISTORY_SIZE,
                history@.len() == i,
                counters@.len() == i,
                forall|j: int| 0 <= j < i ==> #[trigger] history@[j] == 0,
                forall|j: int| 0 <= j < i ==> #[trigger] counters@[j] == -1,
            decreases HISTORY_SIZE - i,
        {
            history.push(0);
            counters.push(-1);
            i = i + 1;
        }
        let mut cont: Vec<i32> = Vec::new();
        let mut j: usize = 0;
        while j < CONT_HISTORY_SIZE
            invariant
                j <= CONT_HISTORY_SIZE,
                cont@.len() == j,
                forall|k: int| 0 <= k < j ==> #[trigger] cont@[k] == 0,
            decreases CONT_HISTORY_SIZE - j,
        {
            cont.push(0);
            j = j + 1;
        }
        self.history = history;
        self.counter_moves = counters;
        self.continuation_history = cont;
        proof {
            assert forall|s: Color, p: (usize, usize), f: (usize, usize), t: (usize, usize)|
                on_board(p) && on_board(f) && on_board(t) implies #[trigger] self.cont_at(s, p, f, t) == 0 by {
                let idx = ((side_idx(s) * 64 + sq_idx(p)) * 64 + sq_idx(f)) * 64 + sq_idx(t);
                assert(0 <= idx < CONT_HISTORY_SIZE) by (nonlinear_arith)
                    requires
                        idx == ((side_idx(s) * 64 + sq_idx(p)) * 64 + sq_idx(f)) * 64 + sq_idx(t),
                        0 <= side_idx(s) <= 1,
                        0 <= sq_idx(p) < 64,
                        0 <= sq_idx(f) < 64,
                        0 <= sq_idx(t) < 64,
                ;
            }
        }
    }

    /// Forgets everything learnt: killers, counter moves and scores.
    pub fn clear(&mut self)
        ensures
            final(self).wf(),
            final(self).killer_plies() == old(self).killer_plies(),
            forall|p: int| 0 <= p < final(self).killer_plies() ==> #[trigger] final(self).killer_pair(p) == (-1i16, -1i16),
            forall|s: Color, f: (usize, usize), t: (usize, usize)| on_board(f) && on_board(t)
                ==> #[trigger] final(self).history_at(s, f, t) == 0 && final(self).counter_at(s, f, t) == -1,
            forall|s: Color, p: (usize, usize), f: (usize, usize), t: (usize, usize)|
                on_board(p) && on_board(f) && on_board(t) ==> #[trigger] final(self).cont_at(s, p, f, t) == 0,
    {
        let n = self.killers.len();
        let mut i: usize = 0;
        while i < n
            invariant
                i <= n,
                self.killers@.len() == n,
                forall|p: int| 0 <= p < i ==> #[trigger] self.killers@[p] == (-1i16, -1i16),
            decreases n - i,
        {
            self.killers.set(i, (-1, -1));
            i = i + 1;
        }
        self.fill_tables();
    }

    fn idx_side(side: Color) -> (i: usize)
        ensures
            i == side_idx(side),
    {
        match side {
            Color::White => 0,
            Color::Black => 1,
        }
    }

    fn sq_index(sq: (usize, usize)) -> (i: usize)
        requires
            on_board(sq),
        ensures
            i == sq_idx(sq),
            i < 64,
    {
        sq.0 * 8 + sq.1
    }

    fn flat(from: (usize, usize), to: (usize, usize)) -> (m: i16)
        requires
            on_board(from),
            on_board(to),
        ensures
            m == flat_move(from, to),
            0 <= m < 4096,
    {
        let from_sq = (from.0 * 8 + from.1) as i16;
        let to_sq = (to.0 * 8 + to.1) as i16;
        from_sq * 64 + to_sq
    }

    fn unflat(m: i16) -> (r: Option<((usize, usize), (usize, usize))>)
        ensures
            r == unflat_move(m),
    {
        if m < 0 {
            return None;
        }
        let from_sq = (m / 64) as usize;
        let to_sq = (m % 64) as usize;
        Some(((from_sq / 8, from_sq % 8), (to_sq / 8, to_sq % 8)))
    }

    fn continuation_index(side: Color, prev_to: (usize, usize), from: (usize, usize), to: (usize, usize)) -> (i: usize)
        requires
            on_board(prev_to),
            on_board(from),
            on_board(to),
        ensures
            i == ((side_idx(side) * 64 + sq_idx(prev_to)) * 64 + sq_idx(from)) * 64 + sq_idx(to),
            i < CONT_HISTORY_SIZE,
    {
        let s = Self::idx_side(side);
        let prev = Self::sq_index(prev_to);
        let f = Self::sq_index(from);
        let t = Self::sq_index(to);
        proof {
            assert(((s * 64 + prev) * 64 + f) * 64 + t < CONT_HISTORY_SIZE) by (nonlinear_arith)
                requires
                    s <= 1,
                    prev < 64,
                    f < 64,
                    t < 64,
            ;
        }
        ((s * CONT_HISTORY_DIM + prev) * CONT_HISTORY_DIM + f) * CONT_HISTORY_DIM + t
    }

    fn history_index(side: Color, from: (usize, usize), to: (usize, usize)) -> (i: usize)
        requires
            on_board(from),
            on_board(to),
        ensures
            i == side_idx(side) * 4096 + flat_move(from, to),
            i < HISTORY_SIZE,
    {
        Self::idx_side(side) * 4096 + Self::sq_index(from) * 64 + Self::sq_index(to)
    }

    /// Records `from`-`to` as the newest killer at `ply`; a ply beyond the
    /// table is ignored.
    pub fn add_killer(&mut self, ply: usize, from: (usize, usize), to: (usize, usize))
        requires
            old(self).wf(),
            on_board(from),
            on_board(to),
        ensures
            final(self).wf(),
            final(self).killer_plies() == old(self).killer_plies(),
            forall|p: int| 0 <= p < old(self).killer_plies() ==> #[trigger] final(self).killer_pair(p) == (
                if p == ply { killer_pair_after(old(self).killer_pair(p), flat_move(from, to) as i16) }
                else { old(self).killer_pair(p) }),
            forall|s: Color, f: (usize, usize), t: (usize, usize)|
                #[trigger] final(self).history_at(s, f, t) == old(self).history_at(s, f, t),
            forall|s: Color, f: (usize, usize), t: (usize, usize)|
                #[trigger] final(self).counter_at(s, f, t) == old(self).counter_at(s, f, t),
            forall|s: Color, p: (usize, usize), f: (usize, usize), t: (usize, usize)|
                #[trigger] final(self).cont_at(s, p, f, t) == old(self).cont_at(s, p, f, t),
    {
        if ply >= self.killers.len() {
            return;
        }
        let m = Self::flat(from, to);
        let k = self.killers[ply];
        if k.0 != m {
            self.killers.set(ply, (m, k.0));
        }
    }

    /// Whether `from`-`to` is one of the two killers at `ply`.
    pub fn is_killer(&self, ply: usize, from: (usize, usize), to: (usize, usize)) -> (b: bool)
        requires
            on_board(from),
            on_board(to),
        ensures
            b == (ply < self.killer_plies() && pair_holds(self.killer_pair(ply as int), flat_move(from, to))),
    {
        if ply >= self.killers.len() {
            return false;
        }
        let m = Self::flat(from, to);
        let k = self.killers[ply];
        k.0 == m || k.1 == m
    }

    /// The two killers at `ply` as moves.
    pub fn get_killers(&self, ply: usize) -> (r: [Option<((usize, usize), (usize, usize))>; 2])
        ensures
            ply >= self.killer_plies() ==> r@ == seq![None::<((usize, usize), (usize, usize))>, None],
            ply < self.killer_plies() ==> r@ == seq![unflat_move(self.killer_pair(ply as int).0),
                unflat_move(self.killer_pair(ply as int).1)],
    {
        if ply >= self.killers.len() {
            let r = [None, None];
            assert(r@ =~= seq![None::<((usize, usize), (usize, usize))>, None]);
            return r;
        }
        let k = self.killers[ply];
        let r = [Self::unflat(k.0), Self::unflat(k.1)];
        assert(r@ =~= seq![unflat_move(k.0), unflat_move(k.1)]);
        r
    }

    /// Records `from`-`to` as the answer to the previous move of `side`.
    pub fn set_counter_move(
        &mut self,
        side: Color,
        prev_from: (usize, usize),
        prev_to: (usize, usize),
        from: (usize, usize),
        to: (usize, usize),
    )
        requires
            old(self).wf(),
            on_board(prev_from),
            on_board(prev_to),
            on_board(from),
            on_board(to),
        ensures
            final(self).wf(),
            final(self).killers_view() == old(self).killers_view(),
            final(self).counter_at(side, prev_from, prev_to) == flat_move(from, to),
            forall|s: Color, pf: (usize, usize), pt: (usize, usize)|
                on_board(pf) && on_board(pt) && (s != side || pf != prev_from || pt != prev_to)
                ==> #[trigger] final(self).counter_at(s, pf, pt) == old(self).counter_at(s, pf, pt),
            forall|s: Color, f: (usize, usize), t: (usize, usize)|
                #[trigger] final(self).history_at(s, f, t) == old(self).history_at(s, f, t),
            forall|s: Color, p: (usize, usize), f: (usize, usize), t: (usize, usize)|
                #[trigger] final(self).cont_at(s, p, f, t) == old(self).cont_at(s, p, f, t),
    {
        let idx = Self::history_index(side, prev_from, prev_to);
        let m = Self::flat(from, to);
        self.counter_moves.set(idx, m);
        proof {
            assert forall|s: Color, pf: (usize, usize), pt: (usize, usize)|
                on_board(pf) && on_board(pt) && (s != side || pf != prev_from || pt != prev_to)
                implies #[trigger] self.counter_at(s, pf, pt) == old(self).counter_at(s, pf, pt) by {
                lemma_history_index_injective(s, pf, pt, side, prev_from, prev_to);
            }
        }
    }

    /// Whether `from`-`to` is the recorded answer to the previous move.
    pub fn is_counter_move(
        &self,
        side: Color,
        prev_from: (usize, usize),
        prev_to: (usize, usize),
        from: (usize, usize),
        to: (usize, usize),
    ) -> (b: bool)
        requires
            self.wf(),
            on_board(prev_from),
            on_board(prev_to),
            on_board(from),
            on_board(to),
        ensures
            b == (self.counter_at(side, prev_from, prev_to) == flat_move(from, to)),
    {
        let idx = Self::history_index(side, prev_from, prev_to);
        self.counter_moves[idx] == Self::flat(from, to)
    }

    /// Adds `bonus` to the history score of `from`-`to` for `side`, keeping
    /// it within the cap.
    pub fn add_history(&mut self, side: Color, from: (usize, usize), to: (usize, usize), bonus: i32)
        requires
            old(self).wf(),
            on_board(from),
            on_board(to),
            i32::MIN <= old(self).history_at(side, from, to) + bonus <= i32::MAX,
        ensures
            final(self).wf(),
            final(self).killers_view() == old(self).killers_view(),
            final(self).history_at(side, from, to) == capped_add(old(self).history_at(side, from, to) as int, bonus as int),
            forall|s: Color, f: (usize, usize), t: (usize, usize)|
                on_board(f) && on_board(t) && (s != side || f != from || t != to)
                ==> #[trigger] final(self).history_at(s, f, t) == old(self).history_at(s, f, t),
            forall|s: Color, f: (usize, usize), t: (usize, usize)|
                #[trigger] final(self).counter_at(s, f, t) == old(self).counter_at(s, f, t),
            forall|s: Color, p: (usize, usize), f: (usize, usize), t: (usize, usize)|
                #[trigger] final(self).cont_at(s, p, f, t) == old(self).cont_at(s, p, f, t),
    {
        let idx = Self::history_index(side, from, to);
        let cur = self.history[idx];
        assert(-HISTORY_CAP <= self.history@[idx as int] <= HISTORY_CAP);
        let mut v = cur + bonus;
        if v > HISTORY_CAP {
            v = HISTORY_CAP;
        }
        if v < -HISTORY_CAP {
            v = -HISTORY_CAP;
        }
        self.history.set(idx, v);
        proof {
            assert forall|s: Color, f: (usize, usize), t: (usize, usize)|
                on_board(f) && on_board(t) && (s != side || f != from || t != to)
                implies #[trigger] self.history_at(s, f, t) == old(self).history_at(s, f, t) by {
                lemma_history_index_injective(s, f, t, side, from, to);
            }
        }
    }

    /// Adds `bonus` to the continuation score of `from`-`to` after a move
    /// to `prev_to`, keeping it within the cap.
    pub fn add_continuation_history(
        &mut self,
        side: Color,
        prev_to: (usize, usize),
        from: (usize, usize),
        to: (usize, usize),
        bonus: i32,
    )
        requires
            old(self).wf(),
            on_board(prev_to),
            on_board(from),
            on_board(to),
            i32::MIN <= old(self).cont_at(side, prev_to, from, to) + bonus <= i32::MAX,
        ensures
            final(self).wf(),
            final(self).killers_view() == old(self).killers_view(),
            final(self).cont_at(side, prev_to, from, to) == capped_add(old(self).cont_at(side, prev_to, from, to) as int, bonus as int),
            forall|s: Color, p: (usize, usize), f: (usize, usize), t: (usize, usize)|
                on_board(p) && on_board(f) && on_board(t) && (s != side || p != prev_to || f != from || t != to)
                ==> #[trigger] final(self).cont_at(s, p, f, t) == old(self).cont_at(s, p, f, t),
            forall|s: Color, f: (usize, usize), t: (usize, usize)|
                #[trigger] final(self).history_at(s, f, t) == old(self).history_at(s, f, t),
            forall|s: Color, f: (usize, usize), t: (usize, usize)|
                #[trigger] final(self).counter_at(s, f, t) == old(self).counter_at(s, f, t),
    {
        let idx = Self::continuation_index(side, prev_to, from, to);
        let cur = self.continuation_history[idx];
        assert(-HISTORY_CAP <= self.continuation_history@[idx as int] <= HISTORY_CAP);
        let mut v = cur + bonus;
        if v > HISTORY_CAP {
            v = HISTORY_CAP;
        }
        if v < -HISTORY_CAP {
            v = -HISTORY_CAP;
        }
        self.continuation_history.set(idx, v);
        proof {
            assert forall|s: Color, p: (usize, usize), f: (usize, usize), t: (usize, usize)|
                on_board(p) && on_board(f) && on_board(t) && (s != side || p != prev_to || f != from || t != to)
                implies #[trigger] self.cont_at(s, p, f, t) == old(self).cont_at(s, p, f, t) by {
                lemma_cont_index_injective(s, p, f, t, side, prev_to, from, to);
            }
        }
    }

    pub fn history_score(&self, side: Color, from: (usize, usize), to: (usize, usize)) -> (v: i32)
        requires
            self.wf(),
            on_board(from),
            on_board(to),
        ensures
            v == self.history_at(side, from, to),
            -HISTORY_CAP <= v <= HISTORY_CAP,
    {
        let idx = Self::history_index(side, from, to);
        self.history[idx]
    }

    pub fn continuation_score(
        &self,
        side: Color,
        prev_to: (usize, usize),
        from: (usize, usize),
        to: (usize, usize),
    ) -> (v: i32)
        requires
            self.wf(),
            on_board(prev_to),
            on_board(from),
            on_board(to),
        ensures
            v == self.cont_at(side, prev_to, from, to),
            -HISTORY_CAP <= v <= HISTORY_CAP,
    {
        let idx = Self::continuation_index(side, prev_to, from, to);
        self.continuation_history[idx]
    }
}

proof fn lemma_history_index_injective(
    s1: Color, f1: (usize, usize), t1: (usize, usize),
    s2: Color, f2: (usize, usize), t2: (usize, usize),
)
    requires
        on_board(f1),
        on_board(t1),
        on_board(f2),
        on_board(t2),
        s1 != s2 || f1 != f2 || t1 != t2,
    ensures
        side_idx(s1) * 4096 + flat_move(f1, t1) != side_idx(s2) * 4096 + flat_move(f2, t2),
{
}

proof fn lemma_cont_index_injective(
    s1: Color, p1: (usize, usize), f1: (usize, usize), t1: (usize, usize),
    s2: Color, p2: (usize, usize), f2: (usize, usize), t2: (usize, usize),
)
    requires
        on_board(p1),
        on_board(f1),
        on_board(t1),
        on_board(p2),
        on_board(f2),
        on_board(t2),
        s1 != s2 || p1 != p2 || f1 != f2 || t1 != t2,
    ensures
        ((side_idx(s1) * 64 + sq_idx(p1)) * 64 + sq_idx(f1)) * 64 + sq_idx(t1)
            != ((side_idx(s2) * 64 + sq_idx(p2)) * 64 + sq_idx(f2)) * 64 + sq_idx(t2),
{
    let a1 = side_idx(s1);
    let b1 = sq_idx(p1);
    let c1 = sq_idx(f1);
    let d1 = sq_idx(t1);
    let a2 = side_idx(s2);
    let b2 = sq_idx(p2);
    let c2 = sq_idx(f2);
    let d2 = sq_idx(t2);
    assert(((a1 * 64 + b1) * 64 + c1) * 64 + d1 == a1 * 262144 + b1 * 4096 + c1 * 64 + d1) by (nonlinear_arith);
    assert(((a2 * 64 + b2) * 64 + c2) * 64 + d2 == a2 * 262144 + b2 * 4096 + c2 * 64 + d2) by (nonlinear_arith);
}

/// Every history and continuation score of well-formed tables lies within
/// the cap.
pub proof fn lemma_scores_within_cap(h: SearchHeuristics, side: Color, prev_to: (usize, usize), from: (usize, usize), to: (usize, usize))
    requires
        h.wf(),
        on_board(prev_to),
        on_board(from),
        on_board(to),
    ensures
        -HISTORY_CAP <= h.history_at(side, from, to) <= HISTORY_CAP,
        -HISTORY_CAP <= h.cont_at(side, prev_to, from, to) <= HISTORY_CAP,
{
    let s = side_idx(side);
    let p = sq_idx(prev_to);
    let f = sq_idx(from);
    let t = sq_idx(to);
    assert(s * 4096 + f * 64 + t < HISTORY_SIZE) by (nonlinear_arith)
        requires 0 <= s <= 1, 0 <= f < 64, 0 <= t < 64;
    assert(0 <= ((s * 64 + p) * 64 + f) * 64 + t < CONT_HISTORY_SIZE) by (nonlinear_arith)
        requires 0 <= s <= 1, 0 <= p < 64, 0 <= f < 64, 0 <= t < 64;
    assert(0 <= s * 4096 + f * 64 + t) by (nonlinear_arith)
        requires 0 <= s <= 1, 0 <= f < 64, 0 <= t < 64;
}

/// Decoding a stored move gives back the move that was stored.
pub proof fn lemma_unflat_flat(from: (usize, usize), to: (usize, usize))
    requires
        on_board(from),
        on_board(to),
    ensures
        unflat_move(flat_move(from, to) as i16) == Some((from, to)),
{
}

/// The newest killer is always one of the two killers of its ply, and a
/// killer already first stays where it is.
pub proof fn lemma_killer_after_add(k: (i16, i16), m: i16)
    ensures
        pair_holds(killer_pair_after(k, m), m as int),
        killer_pair_after(k, m).0 == m,
        pair_holds(k, m as int) && k.0 == m ==> killer_pair_after(k, m) == k,
{
}

/// A history score stays within the cap whatever is added to it.
pub proof fn lemma_capped_add_bounded(v: int, bonus: int)
    ensures
        -HISTORY_CAP <= capped_add(v, bonus) <= HISTORY_CAP,
{
}

} // verus!
