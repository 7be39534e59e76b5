use vstd::arithmetic::div_mod::{lemma_add_mod_noop, lemma_fundamental_div_mod, lemma_mod_mod, lemma_small_mod};
use vstd::prelude::*;

verus! {

/// Round-robin picker: a counter of the calls made, which wraps around at
/// the largest `usize`. Each call picks the counter modulo the list length.
pub struct RoundRobin(usize);

impl View for RoundRobin {
    type V = usize;

    closed spec fn view(&self) -> usize {
        self.0
    }
}

/// The counter after one more call.
pub open spec fn next_count(count: usize) -> usize {
    if count == usize::MAX {
        0
    } else {
        (count + 1) as usize
    }
}

/// The counter after `k` calls from `start`.
pub open spec fn count_after(start: usize, k: nat) -> usize
    decreases k,
{
    if k == 0 {
        start
    } else {
        next_count(count_after(start, (k - 1) as nat))
    }
}

/// The indices that `n` consecutive calls with the same `limit` pick, from a
/// selector whose counter is `start`.
pub open spec fn picks(start: usize, n: nat, limit: usize) -> Seq<usize> {
    Seq::new(n, |k: int| (count_after(start, k as nat) % limit) as usize)
}

impl RoundRobin {
    /// A selector whose first pick is index 0.
    pub fn new() -> (r: Self)
        ensures
            r@ == 0,
    {
        RoundRobin(0)
    }

    /// Picks an index below `limit` and counts the call.
    pub fn next_wrapping(&mut self, limit: usize) -> (r: usize)
        requires
            limit > 0,
        ensures
            r == old(self)@ % limit,
            final(self)@ == next_count(old(self)@),
    {
        let r = self.0 % limit;
        self.0 = if self.0 == usize::MAX {
            0
        } else {
            self.0 + 1
        };
        r
    }
}

proof fn lemma_count_after_wraps(start: usize, k: nat)
    ensures
        count_after(start, k) as int == (start + k) % (usize::MAX + 1),
    decreases k,
{
    let m = usize::MAX + 1;
    if k == 0 {
        lemma_small_mod(start as nat, m as nat);
    } else {
        lemma_count_after_wraps(start, (k - 1) as nat);
        let x = start + k - 1;
        lemma_add_mod_noop(x, 1, m);
        lemma_small_mod(1, m as nat);
        if x % m + 1 < m {
            lemma_small_mod((x % m + 1) as nat, m as nat);
        } else {
            assert(m % m == 0) by {
                lemma_fundamental_div_mod(m, m);
                lemma_small_mod(0, m as nat);
                vstd::arithmetic::div_mod::lemma_mod_self_0(m);
            }
        }
    }
}

proof fn lemma_pick_is_mod(start: usize, k: nat, limit: usize)
    requires
        limit > 0,
        k < limit,
        start + limit <= usize::MAX + 1 || (usize::MAX + 1) % (limit as int) == 0,
    ensures
        (count_after(start, k) % limit) as int == (start + k) % (limit as int),
{
    let m = usize::MAX + 1;
    lemma_count_after_wraps(start, k);
    if start + limit <= m {
        lemma_small_mod((start + k) as nat, m as nat);
    } else {
        lemma_fundamental_div_mod(m, limit as int);
        let q = m / (limit as int);
        assert(q > 0) by (nonlinear_arith)
            requires
                m == limit * q,
                m > 0,
                limit > 0,
        ;
        lemma_mod_mod(start + k, limit as int, q);
    }
}

/// Over any `limit` consecutive calls with the same `limit`, the selector
/// picks every index below `limit` exactly once, so each upstream of a list
/// of that length gets one pick in every such window. (A window in which the
/// counter wraps around is excluded unless `limit` divides the counter's
/// range.)
pub proof fn lemma_window_is_uniform(start: usize, limit: usize)
    requires
        limit > 0,
        start + limit <= usize::MAX + 1 || (usize::MAX + 1) % (limit as int) == 0,
    ensures
        picks(start, limit as nat, limit).len() == limit,
        picks(start, limit as nat, limit).no_duplicates(),
        forall|j: usize| j < limit ==> picks(start, limit as nat, limit).contains(j),
{
    let n = limit as int;
    let s = picks(start, limit as nat, limit);
    let r = (start as int) % n;
    assert forall|k: int| 0 <= k < n implies s[k] as int == if r + k < n {
        r + k
    } else {
        r + k - n
    } by {
        lemma_pick_is_mod(start, k as nat, limit);
        lemma_add_mod_noop(start as int, k, n);
        lemma_small_mod(k as nat, n as nat);
        if r + k < n {
            lemma_small_mod((r + k) as nat, n as nat);
        } else {
            vstd::arithmetic::div_mod::lemma_mod_add_multiples_vanish(r + k - n, n);
            lemma_small_mod((r + k - n) as nat, n as nat);
        }
    }
    assert forall|a: int, b: int| 0 <= a < s.len() && 0 <= b < s.len() && a != b implies s[a] != s[b] by {
    }
    assert forall|j: usize| j < limit implies s.contains(j) by {
        let k = if j >= r {
            j - r
        } else {
            j + n - r
        };
        assert(s[k] == j);
    }
}

} // verus!
