//! The state a search carries besides the position: options, the time
//! budget, the node counter and the transposition table.
use vstd::prelude::*;
use crate::tt::{TranspositionTable, pow2_for_hash_mb, DEFAULT_TT_POW2};
use vstd::arithmetic::power2::pow2;

verus! {

/// Extra time, in percent, granted in deterministic mode.
pub const DETERMINISTIC_TIME_BONUS_PCT: usize = 50;

#[verifier::external_type_specification]
#[verifier::external_body]
pub struct ExSystemTime(std::time::SystemTime);

/// `SystemTime::now`: the wall-clock time. Nothing is claimed of it.
#[verifier::external_body]
fn system_time_now() -> std::time::SystemTime {
    std::time::SystemTime::now()
}

/// `SystemTime::duration_since` with `UNIX_EPOCH`: the time elapsed since
/// the epoch, `None` where `t` lies before it (the call's `Err`). Nothing is
/// claimed of the duration.
#[verifier::external_body]
fn since_unix_epoch(t: std::time::SystemTime) -> Option<std::time::Duration> {
    t.duration_since(std::time::UNIX_EPOCH).ok()
}

/// `Duration::as_millis`: the whole milliseconds in `d`. Nothing is claimed
/// of the value.
#[verifier::external_body]
fn duration_as_millis(d: std::time::Duration) -> u128 {
    d.as_millis()
}

/// The wall clock in milliseconds since the Unix epoch, cut to 64 bits; a
/// clock set before the epoch reads 0.
fn unix_now_ms() -> u64 {
    match since_unix_epoch(system_time_now()) {
        Some(d) => duration_as_millis(d) as u64,
        None => 0,
    }
}

pub open spec fn sat_add(a: int, b: int, max: int) -> int {
    if a + b > max { max } else { a + b }
}

/// The budget in milliseconds actually granted for a request of `ms`: half
/// as much again in deterministic mode.
pub open spec fn granted_ms(ms: usize, deterministic: bool) -> int {
    if ms > 0 && deterministic {
        sat_add(ms as int, (if ms * DETERMINISTIC_TIME_BONUS_PCT > usize::MAX { usize::MAX as int } else { ms * DETERMINISTIC_TIME_BONUS_PCT }) / 100, usize::MAX as int)
    } else {
        ms as int
    }
}

pub struct SearchContext {
    deterministic: bool,
    parallel_search: bool,
    order_book_enabled: bool,
    start_ms: u64,
    deadline_ms: u64,
    node_count: u64,
    tt: TranspositionTable,
}

impl SearchContext {
    pub closed spec fn deterministic(&self) -> bool { self.deterministic }
    pub closed spec fn parallel(&self) -> bool { self.parallel_search }
    pub closed spec fn book(&self) -> bool { self.order_book_enabled }
    pub closed spec fn start(&self) -> u64 { self.start_ms }
    pub closed spec fn deadline(&self) -> u64 { self.deadline_ms }
    pub closed spec fn nodes(&self) -> u64 { self.node_count }
    pub closed spec fn table(&self) -> TranspositionTable { self.tt }

    /// Defaults: not deterministic, parallel search and book on, no time
    /// budget, no nodes, a table of the default size.
    pub fn new() -> (c: SearchContext)
        ensures
            !c.deterministic(),
            c.parallel(),
            c.book(),
            c.start() == 0,
            c.deadline() == 0,
            c.nodes() == 0,
            c.table().inv(),
            c.table().slots().len() == pow2(DEFAULT_TT_POW2 as nat),
            forall|key: u64| #[trigger] c.table().spec_probe(key) is None,
            c.table().all_empty(),
    {
        SearchContext {
            deterministic: false,
            parallel_search: true,
            order_book_enabled: true,
            start_ms: 0,
            deadline_ms: 0,
            node_count: 0,
            tt: TranspositionTable::new_with_default_size(),
        }
    }

    /// As `new`, with a table sized for `hash_mb` megabytes.
    pub fn new_with_hash_mb(hash_mb: usize) -> (c: SearchContext)
        requires
            hash_mb <= usize::MAX / 1048576usize,
        ensures
            !c.deterministic(),
            c.parallel(),
            c.book(),
            c.start() == 0,
            c.deadline() == 0,
            c.nodes() == 0,
            c.table().inv(),
            forall|key: u64| #[trigger] c.table().spec_probe(key) is None,
            c.table().all_empty(),
            exists|p: nat| #![trigger pow2(p)] 4 <= p <= 30 && c.table().slots().len() == pow2(p)
                && (p > 4 ==> pow2(p) <= (if hash_mb > 1 { hash_mb } else { 1 }) * 1024 * 1024 / 16)
                && (p < 30 ==> (if hash_mb > 1 { hash_mb } else { 1 }) * 1024 * 1024 / 16 < pow2(p + 1)),
    {
        let exp = pow2_for_hash_mb(hash_mb);
        SearchContext {
            deterministic: false,
            parallel_search: true,
            order_book_enabled: true,
            start_ms: 0,
            deadline_ms: 0,
            node_count: 0,
            tt: TranspositionTable::with_capacity_pow2(exp),
        }
    }

    /// A context for a helper searcher: options off (not deterministic, no
    /// parallel search, no book), no time budget, no nodes, and the table it
    /// is handed.
    pub fn new_smp_helper(shared_tt: TranspositionTable) -> (c: SearchContext)
        ensures
            !c.deterministic(),
            !c.parallel(),
            !c.book(),
            c.start() == 0,
            c.deadline() == 0,
            c.nodes() == 0,
            c.table() == shared_tt,
    {
        SearchContext {
            deterministic: false,
            parallel_search: false,
            order_book_enabled: false,
            start_ms: 0,
            deadline_ms: 0,
            node_count: 0,
            tt: shared_tt,
        }
    }

    pub fn set_deterministic(&mut self, on: bool)
        ensures
            final(self).deterministic() == on,
            final(self).parallel() == old(self).parallel(),
            final(self).book() == old(self).book(),
            final(self).start() == old(self).start(),
            final(self).deadline() == old(self).deadline(),
            final(self).nodes() == old(self).nodes(),
            final(self).table() == old(self).table(),
    {
        self.deterministic = on;
    }

    pub fn is_deterministic(&self) -> (b: bool)
        ensures
            b == self.deterministic(),
    {
        self.deterministic
    }

    pub fn set_parallel_search(&mut self, on: bool)
        ensures
            final(self).parallel() == on,
            final(self).deterministic() == old(self).deterministic(),
            final(self).book() == old(self).book(),
            final(self).start() == old(self).start(),
            final(self).deadline() == old(self).deadline(),
            final(self).nodes() == old(self).nodes(),
            final(self).table() == old(self).table(),
    {
        self.parallel_search = on;
    }

    pub fn is_parallel_search(&self) -> (b: bool)
        ensures
            b == self.parallel(),
    {
        self.parallel_search
    }

    pub fn set_order_book_enabled(&mut self, on: bool)
        ensures
            final(self).book() == on,
            final(self).deterministic() == old(self).deterministic(),
            final(self).parallel() == old(self).parallel(),
            final(self).start() == old(self).start(),
            final(self).deadline() == old(self).deadline(),
            final(self).nodes() == old(self).nodes(),
            final(self).table() == old(self).table(),
    {
        self.order_book_enabled = on;
    }

    pub fn get_order_book_enabled(&self) -> (b: bool)
        ensures
            b == self.book(),
    {
        self.order_book_enabled
    }

    /// Starts a budget of `ms` milliseconds (half as much again in
    /// deterministic mode) at the time `now_ms`; 0 switches the budget off.
    pub fn set_time_budget_ms_at(&mut self, ms: usize, now_ms: u64)
        ensures
            ms == 0 ==> final(self).start() == 0 && final(self).deadline() == 0,
            ms > 0 ==> final(self).start() == now_ms
                && final(self).deadline() == sat_add(now_ms as int, granted_ms(ms, old(self).deterministic()) as u64 as int, u64::MAX as int),
            final(self).deterministic() == old(self).deterministic(),
            final(self).parallel() == old(self).parallel(),
            final(self).book() == old(self).book(),
            final(self).nodes() == old(self).nodes(),
            final(self).table() == old(self).table(),
    {
        if ms == 0 {
            self.start_ms = 0;
            self.deadline_ms = 0;
            return;
        }
        let ms2 = if ms > 0 && self.deterministic {
            let m = match ms.checked_mul(DETERMINISTIC_TIME_BONUS_PCT) {
                Some(x) => x,
                None => usize::MAX,
            };
            ms.saturating_add(m / 100)
        } else {
            ms
        };
        self.start_ms = now_ms;
        self.deadline_ms = now_ms.saturating_add(ms2 as u64);
    }

    /// Starts a budget of `ms` milliseconds from the current time; 0
    /// switches the budget off.
    pub fn set_time_budget_ms(&mut self, ms: usize)
        ensures
            ms == 0 ==> final(self).start() == 0 && final(self).deadline() == 0,
            ms > 0 ==> final(self).deadline() == sat_add(final(self).start() as int, granted_ms(ms, old(self).deterministic()) as u64 as int, u64::MAX as int),
            final(self).deterministic() == old(self).deterministic(),
            final(self).parallel() == old(self).parallel(),
            final(self).book() == old(self).book(),
            final(self).nodes() == old(self).nodes(),
            final(self).table() == old(self).table(),
    {
        let now = unix_now_ms();
        self.set_time_budget_ms_at(ms, now);
    }

    pub fn clear_time_budget(&mut self)
        ensures
            final(self).start() == 0,
            final(self).deadline() == 0,
            final(self).deterministic() == old(self).deterministic(),
            final(self).parallel() == old(self).parallel(),
            final(self).book() == old(self).book(),
            final(self).nodes() == old(self).nodes(),
            final(self).table() == old(self).table(),
    {
        self.start_ms = 0;
        self.deadline_ms = 0;
    }

    /// Whether the budget has run out at time `now_ms` (never without a budget).
    pub fn time_is_up_at(&self, now_ms: u64) -> (b: bool)
        ensures
            b == (self.deadline() != 0 && now_ms >= self.deadline()),
    {
        let deadline = self.deadline_ms;
        if deadline == 0 {
            return false;
        }
        now_ms >= deadline
    }

    /// The time left at the clock reading `now_ms`.
    pub open spec fn remaining_at(&self, now_ms: u64) -> usize {
        if self.deadline() == 0 || now_ms >= self.deadline() { 0 } else { ((self.deadline() - now_ms) as u64) as usize }
    }

    /// Whether the budget has run out now: the answer of `time_is_up_at`
    /// for the wall clock's reading; without a budget, false.
    pub fn time_is_up(&self) -> (b: bool)
        ensures
            self.deadline() == 0 ==> !b,
    {
        if self.deadline_ms == 0 {
            return false;
        }
        let now = unix_now_ms();
        self.time_is_up_at(now)
    }

    /// The length of the budget, or 0 without a proper one.
    pub open spec fn budget(&self) -> usize {
        if self.start() == 0 || self.deadline() == 0 || self.deadline() < self.start() { 0 }
        else { ((self.deadline() - self.start()) as u64) as usize }
    }

    /// The length of the budget, or 0 without a proper one.
    pub fn time_budget_ms(&self) -> (ms: usize)
        ensures
            ms == self.budget(),
            ms == (if self.start() == 0 || self.deadline() == 0 || self.deadline() < self.start() { 0 }
                else { ((self.deadline() - self.start()) as u64) as usize }),
    {
        let start = self.start_ms;
        let deadline = self.deadline_ms;
        if start == 0 || deadline == 0 || deadline < start {
            return 0;
        }
        (deadline - start) as usize
    }

    /// The time left at `now_ms`, or 0 without a budget or past it.
    pub fn time_remaining_ms_at(&self, now_ms: u64) -> (ms: usize)
        ensures
            ms == (if self.deadline() == 0 || now_ms >= self.deadline() { 0 }
                else { ((self.deadline() - now_ms) as u64) as usize }),
    {
        let deadline = self.deadline_ms;
        if deadline == 0 {
            return 0;
        }
        if now_ms >= deadline { 0 } else { (deadline - now_ms) as usize }
    }

    /// The time left now: the answer of `time_remaining_ms_at` for the wall
    /// clock's reading, 0 without a budget.
    pub fn time_remaining_ms(&self) -> (ms: usize)
        ensures
            self.deadline() == 0 ==> ms == 0,
            exists|now_ms: u64| ms == #[trigger] self.remaining_at(now_ms),
    {
        if self.deadline_ms == 0 {
            assert(0usize == self.remaining_at(0));
            return 0;
        }
        let now = unix_now_ms();
        let ms = self.time_remaining_ms_at(now);
        assert(ms == self.remaining_at(now));
        ms
    }

    /// Moves a running deadline `add_ms` later (saturating); no budget, no change.
    pub fn extend_time_budget_ms(&mut self, add_ms: usize)
        ensures
            final(self).deadline() == (if add_ms == 0 || old(self).deadline() == 0 { old(self).deadline() as int }
                else { sat_add(old(self).deadline() as int, add_ms as u64 as int, u64::MAX as int) }),
            final(self).start() == old(self).start(),
            final(self).deterministic() == old(self).deterministic(),
            final(self).parallel() == old(self).parallel(),
            final(self).book() == old(self).book(),
            final(self).nodes() == old(self).nodes(),
            final(self).table() == old(self).table(),
    {
        if add_ms == 0 {
            return;
        }
        let deadline = self.deadline_ms;
        if deadline == 0 {
            return;
        }
        self.deadline_ms = deadline.saturating_add(add_ms as u64);
    }

    pub fn reset_search_telemetry(&mut self)
        ensures
            final(self).nodes() == 0,
            final(self).start() == old(self).start(),
            final(self).deadline() == old(self).deadline(),
            final(self).deterministic() == old(self).deterministic(),
            final(self).parallel() == old(self).parallel(),
            final(self).book() == old(self).book(),
            final(self).table() == old(self).table(),
    {
        self.node_count = 0;
    }

    pub fn get_nodes(&self) -> (n: u64)
        ensures
            n == self.nodes(),
    {
        self.node_count
    }

    /// Counts one more node (wrapping around at the top of the range).
    pub fn bump_node(&mut self)
        ensures
            final(self).nodes() == (if old(self).nodes() == u64::MAX { 0 } else { old(self).nodes() + 1 }),
            node_bumped(*old(self), *final(self)),
            final(self).start() == old(self).start(),
            final(self).deadline() == old(self).deadline(),
            final(self).deterministic() == old(self).deterministic(),
            final(self).parallel() == old(self).parallel(),
            final(self).book() == old(self).book(),
            final(self).table() == old(self).table(),
    {
        self.node_count = self.node_count.wrapping_add(1);
    }

    pub fn tt(&self) -> (t: &TranspositionTable)
        ensures
            *t == self.table(),
    {
        &self.tt
    }
}

impl Default for SearchContext {
    fn default() -> (c: SearchContext)
        ensures
            !c.deterministic(),
            c.parallel(),
            c.book(),
            c.start() == 0,
            c.deadline() == 0,
            c.nodes() == 0,
            c.table().inv(),
            forall|key: u64| #[trigger] c.table().spec_probe(key) is None,
            c.table().all_empty(),
    {
        SearchContext::new()
    }
}

/// Starts a time budget of `ms` milliseconds on the context; 0 switches
/// the budget off.
pub fn set_time_budget_ms(ctx: &mut SearchContext, ms: usize)
    ensures
        ms == 0 ==> final(ctx).start() == 0 && final(ctx).deadline() == 0,
        ms > 0 ==> final(ctx).deadline() == sat_add(final(ctx).start() as int, granted_ms(ms, old(ctx).deterministic()) as u64 as int, u64::MAX as int),
        final(ctx).nodes() == old(ctx).nodes(),
        final(ctx).table() == old(ctx).table(),
{
    ctx.set_time_budget_ms(ms);
}

/// Whether the context's time budget has run out (see
/// `SearchContext::time_is_up`).
pub fn time_is_up(ctx: &SearchContext) -> (b: bool)
    ensures
        ctx.deadline() == 0 ==> !b,
{
    ctx.time_is_up()
}

/// Extending a running budget by `add_ms` lengthens it by `add_ms` (where
/// nothing saturates); without a budget, the budget stays 0.
pub proof fn lemma_extend_lengthens_budget(c1: SearchContext, c2: SearchContext, add_ms: usize)
    requires
        c2.deadline() == (if add_ms == 0 || c1.deadline() == 0 { c1.deadline() as int }
            else { sat_add(c1.deadline() as int, add_ms as u64 as int, u64::MAX as int) }),
        c2.start() == c1.start(),
    ensures
        c1.deadline() == 0 ==> c2.deadline() == 0 && c2.budget() == 0 && c1.budget() == 0,
        c1.start() != 0 && c1.deadline() >= c1.start() && c1.deadline() + add_ms <= u64::MAX
            && c1.deadline() - c1.start() + add_ms <= usize::MAX
            ==> c2.budget() == c1.budget() + add_ms,
{
}

/// One call of `SearchContext::bump_node`: the node count one higher
/// (wrapping at the top of the range).
pub open spec fn node_bumped(c0: SearchContext, c1: SearchContext) -> bool {
    c1.nodes() == (if c0.nodes() == u64::MAX { 0 } else { c0.nodes() + 1 })
}

/// Counting nodes: after `k` calls of `bump_node` on a context (the
/// contexts in between given by `cs`, `k + 1` of them), the node count is
/// `k` higher, where that stays within `u64`.
pub proof fn lemma_bump_run(cs: Seq<SearchContext>)
    requires
        cs.len() >= 1,
        forall|i: int| 0 <= i < cs.len() - 1 ==> #[trigger] node_bumped(cs[i], cs[i + 1]),
        cs[0].nodes() + (cs.len() - 1) <= u64::MAX,
    ensures
        cs[cs.len() - 1].nodes() == cs[0].nodes() + (cs.len() - 1),
    decreases cs.len(),
{
    if cs.len() > 1 {
        let prefix = cs.drop_last();
        assert forall|i: int| 0 <= i < prefix.len() - 1 implies #[trigger] node_bumped(prefix[i], prefix[i + 1]) by {
            assert(node_bumped(cs[i], cs[i + 1]));
        }
        lemma_bump_run(prefix);
        let j = cs.len() - 2;
        assert(node_bumped(cs[j], cs[j + 1]));
    }
}

} // verus!
