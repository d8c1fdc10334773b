//! The stack of position keys met on the way to the current node, with a
//! count per key so that "has this position occurred" is answered at once.
use vstd::prelude::*;
use std::collections::HashMap;

verus! {

/// How many times `k` occurs in `s`.
pub open spec fn occurrences(s: Seq<u64>, k: u64) -> nat
    decreases s.len(),
{
    if s.len() == 0 {
        0
    } else {
        occurrences(s.drop_last(), k) + (if s.last() == k { 1nat } else { 0nat })
    }
}

/// Pushing `x` adds one occurrence of `x` and leaves the count of every
/// other key as it was.
pub proof fn lemma_occurrences_push(s: Seq<u64>, x: u64, k: u64)
    ensures
        occurrences(s.push(x), k) == occurrences(s, k) + (if x == k { 1nat } else { 0nat }),
{
    assert(s.push(x).drop_last() =~= s);
}

proof fn lemma_occurrences_prefix(s: Seq<u64>, n: int, k: u64)
    requires
        0 <= n <= s.len(),
    ensures
        occurrences(s.take(n), k) <= occurrences(s, k),
    decreases s.len(),
{
    if n == s.len() {
        assert(s.take(n) =~= s);
    } else {
        assert(s.take(n) =~= s.drop_last().take(n));
        lemma_occurrences_prefix(s.drop_last(), n, k);
    }
}

/// A key occurs in a stack exactly when its count is positive.
pub proof fn lemma_occurrences_positive(s: Seq<u64>, k: u64)
    ensures
        occurrences(s, k) > 0 <==> s.contains(k),
    decreases s.len(),
{
    if s.len() > 0 {
        lemma_occurrences_positive(s.drop_last(), k);
        if s.drop_last().contains(k) {
            let i = choose|i: int| 0 <= i < s.drop_last().len() && s.drop_last()[i] == k;
            assert(s[i] == k);
        }
        if s.contains(k) && s.last() != k {
            let i = choose|i: int| 0 <= i < s.len() && s[i] == k;
            assert(s.drop_last()[i] == k);
        }
        if s.last() == k {
            assert(s[s.len() - 1] == k);
        }
    }
}

/// The count kept for `k` is its number of occurrences in the stack, and
/// a key that does not occur has no count.
pub open spec fn count_matches(counts: Map<u64, u32>, s: Seq<u64>, k: u64) -> bool {
    if occurrences(s, k) > 0 {
        counts.contains_key(k) && counts[k] == occurrences(s, k)
    } else {
        !counts.contains_key(k)
    }
}

/// Popping right after a push gives back the pushed key and the stack from
/// before the push.
pub proof fn lemma_push_then_pop(s: Seq<u64>, k: u64)
    ensures
        s.push(k).len() > 0,
        s.push(k).last() == k,
        s.push(k).drop_last() == s,
{
    assert(s.push(k).drop_last() =~= s);
}

/// Popping a stack that holds `s` again and again gives its keys from the
/// top down: after `j` pops it holds the first `len - j` keys, and the next
/// pop gives key `len - 1 - j`.
pub proof fn lemma_pops_from_top(s: Seq<u64>, j: int)
    requires
        0 <= j < s.len(),
    ensures
        s.take(s.len() - j).len() > 0,
        s.take(s.len() - j).last() == s[s.len() - 1 - j],
        s.take(s.len() - j).drop_last() == s.take(s.len() - j - 1),
{
    assert(s.take(s.len() - j).drop_last() =~= s.take(s.len() - j - 1));
}

pub struct RepetitionStack {
    counts: HashMap<u64, u32>,
    stack: Vec<u64>,
}

impl View for RepetitionStack {
    type V = Seq<u64>;

    /// The keys from the bottom of the stack to its top.
    closed spec fn view(&self) -> Seq<u64> {
        self.stack@
    }
}

impl RepetitionStack {
    pub closed spec fn wf(&self) -> bool {
        forall|k: u64| #[trigger] count_matches(self.counts@, self.stack@, k)
    }

    pub fn new() -> (r: RepetitionStack)
        ensures
            r.wf(),
            r@ == Seq::<u64>::empty(),
    {
        let r = RepetitionStack { counts: HashMap::new(), stack: Vec::new() };
        assert forall|k: u64| #[trigger] count_matches(r.counts@, r.stack@, k) by {}
        r
    }

    /// A stack holding `keys`, the last of them on top.
    pub fn from_vec(keys: Vec<u64>) -> (r: RepetitionStack)
        requires
            forall|k: u64| #[trigger] occurrences(keys@, k) <= u32::MAX,
        ensures
            r.wf(),
            r@ == keys@,
    {
        let mut counts: HashMap<u64, u32> = HashMap::new();
        let mut i: usize = 0;
        while i < keys.len()
            invariant
                i <= keys@.len(),
                forall|k: u64| #[trigger] occurrences(keys@, k) <= u32::MAX,
                forall|k: u64| #[trigger] count_matches(counts@, keys@.take(i as int), k),
            decreases keys@.len() - i,
        {
            let key = keys[i];
            proof {
                assert(keys@.take(i as int + 1) =~= keys@.take(i as int).push(key));
                lemma_occurrences_push(keys@.take(i as int), key, key);
                lemma_occurrences_prefix(keys@, i as int + 1, key);
                assert(count_matches(counts@, keys@.take(i as int), key));
                assert(occurrences(keys@, key) <= u32::MAX);
            }
            let c: u32 = match counts.get(&key) {
                Some(v) => *v,
                None => 0,
            };
            let ghost old_counts = counts@;
            counts.insert(key, c + 1);
            proof {
                assert forall|k: u64| #[trigger] count_matches(counts@, keys@.take(i as int + 1), k) by {
                    lemma_occurrences_push(keys@.take(i as int), key, k);
                    assert(count_matches(old_counts, keys@.take(i as int), k));
                }
            }
            i = i + 1;
        }
        proof {
            assert(keys@.take(keys@.len() as int) =~= keys@);
        }
        RepetitionStack { counts, stack: keys }
    }

    /// Whether `key` is on the stack.
    pub fn contains(&self, key: &u64) -> (b: bool)
        requires
            self.wf(),
        ensures
            b == self@.contains(*key),
    {
        proof {
            assert(count_matches(self.counts@, self.stack@, *key));
            lemma_occurrences_positive(self.stack@, *key);
        }
        match self.counts.get(key) {
            Some(c) => *c > 0,
            None => false,
        }
    }

    /// How many times `key` is on the stack.
    pub fn count(&self, key: u64) -> (n: u32)
        requires
            self.wf(),
        ensures
            n == occurrences(self@, key),
    {
        proof {
            assert(count_matches(self.counts@, self.stack@, key));
        }
        match self.counts.get(&key) {
            Some(c) => *c,
            None => 0,
        }
    }

    /// The key on top of the stack.
    pub fn last(&self) -> (r: Option<u64>)
        ensures
            r == (if self@.len() > 0 { Some(self@.last()) } else { None }),
    {
        let n = self.stack.len();
        if n > 0 {
            Some(self.stack[n - 1])
        } else {
            None
        }
    }

    pub fn push(&mut self, key: u64)
        requires
            old(self).wf(),
            occurrences(old(self)@, key) < u32::MAX,
        ensures
            final(self).wf(),
            final(self)@ == old(self)@.push(key),
    {
        proof {
            assert(count_matches(self.counts@, self.stack@, key));
        }
        let c: u32 = match self.counts.get(&key) {
            Some(v) => *v,
            None => 0,
        };
        let ghost old_stack = self.stack@;
        let ghost old_counts = self.counts@;
        self.counts.insert(key, c + 1);
        self.stack.push(key);
        proof {
            assert forall|k: u64| #[trigger] count_matches(self.counts@, self.stack@, k) by {
                lemma_occurrences_push(old_stack, key, k);
                assert(count_matches(old_counts, old_stack, k));
            }
        }
    }

    /// Takes the top key off the stack.
    pub fn pop(&mut self) -> (r: Option<u64>)
        requires
            old(self).wf(),
        ensures
            final(self).wf(),
            old(self)@.len() == 0 ==> (r is None) && final(self)@ == old(self)@,
            old(self)@.len() > 0 ==> r == Some(old(self)@.last()) && final(self)@ == old(self)@.drop_last(),
    {
        let ghost old_stack = self.stack@;
        let ghost old_counts = self.counts@;
        match self.stack.pop() {
            Some(key) => {
                proof {
                    assert(old_stack =~= self.stack@.push(key));
                    lemma_occurrences_push(self.stack@, key, key);
                    assert(count_matches(old_counts, old_stack, key));
                }
                let c: u32 = match self.counts.get(&key) {
                    Some(v) => *v,
                    None => 0,
                };
                if c <= 1 {
                    self.counts.remove(&key);
                } else {
                    self.counts.insert(key, c - 1);
                }
                proof {
                    assert forall|k: u64| #[trigger] count_matches(self.counts@, self.stack@, k) by {
                        lemma_occurrences_push(self.stack@, key, k);
                        assert(count_matches(old_counts, old_stack, k));
                    }
                }
                Some(key)
            },
            None => None,
        }
    }
}

impl Default for RepetitionStack {
    fn default() -> (r: RepetitionStack)
        ensures
            r.wf(),
            r@ == Seq::<u64>::empty(),
    {
        RepetitionStack::new()
    }
}

} // verus!
