//! Bounded allocator for small integer tokens.

use vstd::prelude::*;

verus! {

/// Number of slots marked used in a slot sequence.
pub open spec fn count_used(s: Seq<bool>) -> nat
    decreases s.len(),
{
    if s.len() == 0 {
        0
    } else {
        count_used(s.drop_last()) + if s.last() {
            1nat
        } else {
            0nat
        }
    }
}

pub proof fn lemma_count_used_le_len(s: Seq<bool>)
    ensures
        count_used(s) <= s.len(),
    decreases s.len(),
{
    if s.len() > 0 {
        lemma_count_used_le_len(s.drop_last());
    }
}

pub proof fn lemma_count_used_full(s: Seq<bool>)
    requires
        forall|i: int| 0 <= i < s.len() ==> s[i],
    ensures
        count_used(s) == s.len(),
    decreases s.len(),
{
    if s.len() > 0 {
        lemma_count_used_full(s.drop_last());
    }
}

pub proof fn lemma_count_used_update(s: Seq<bool>, i: int, b: bool)
    requires
        0 <= i < s.len(),
    ensures
        count_used(s.update(i, b)) == count_used(s) - (if s[i] {
            1int
        } else {
            0int
        }) + (if b {
            1int
        } else {
            0int
        }),
    decreases s.len(),
{
    let t = s.update(i, b);
    if i == s.len() - 1 {
        assert(t.drop_last() =~= s.drop_last());
    } else {
        assert(t.drop_last() =~= s.drop_last().update(i, b));
        lemma_count_used_update(s.drop_last(), i, b);
        assert(t.last() == s.last());
    }
}

/// Hands out unused integer tokens from the fixed half-open range
/// `[base, base + capacity)` and takes them back.  The view is the
/// sequence of slot flags: slot `i` stands for token `base + i` and is
/// `true` while that token is out.
pub struct TokenGenerator {
    base: usize,
    used: Vec<bool>,
}

impl View for TokenGenerator {
    type V = Seq<bool>;

    closed spec fn view(&self) -> Seq<bool> {
        self.used@
    }
}

impl TokenGenerator {
    pub closed spec fn base_spec(self) -> int {
        self.base as int
    }

    pub open spec fn capacity(self) -> nat {
        self@.len()
    }

    /// How many tokens are currently handed out.
    pub open spec fn outstanding(self) -> nat {
        count_used(self@)
    }

    pub open spec fn wf(self) -> bool {
        self.base_spec() + self.capacity() <= usize::MAX
    }

    pub open spec fn in_range(self, t: usize) -> bool {
        self.base_spec() <= t < self.base_spec() + self.capacity()
    }

    pub open spec fn is_allocated(self, t: usize) -> bool {
        self.in_range(t) && self@[t - self.base_spec()]
    }

    /// Creates a generator for `[base, base + capacity)` with every token free.
    pub fn new(base: usize, capacity: usize) -> (r: TokenGenerator)
        requires
            base + capacity <= usize::MAX,
        ensures
            r.wf(),
            r.base_spec() == base,
            r.capacity() == capacity,
            r.outstanding() == 0,
            forall|t: usize| !r.is_allocated(t),
    {
        let mut used: Vec<bool> = Vec::new();
        let mut i: usize = 0;
        while i < capacity
            invariant
                i <= capacity,
                used@.len() == i,
                forall|j: int| 0 <= j < i ==> !used@[j],
                count_used(used@) == 0,
            decreases capacity - i,
        {
            let ghost prev = used@;
            used.push(false);
            proof {
                assert(used@.drop_last() =~= prev);
            }
            i = i + 1;
        }
        TokenGenerator { base, used }
    }

    /// Returns an unused token from the range, or `None` when all are taken.
    pub fn gen(&mut self) -> (r: Option<usize>)
        requires
            old(self).wf(),
        ensures
            final(self).wf(),
            final(self).base_spec() == old(self).base_spec(),
            final(self).capacity() == old(self).capacity(),
            match r {
                Some(t) => {
                    &&& old(self).in_range(t)
                    &&& !old(self).is_allocated(t)
                    &&& final(self).is_allocated(t)
                    &&& final(self)@ == old(self)@.update(t - old(self).base_spec(), true)
                    &&& forall|u: usize|
                        u != t ==> final(self).is_allocated(u) == old(self).is_allocated(u)
                    &&& final(self).outstanding() == old(self).outstanding() + 1
                },
                None => {
                    &&& final(self)@ == old(self)@
                    &&& old(self).outstanding() == old(self).capacity()
                },
            },
    {
        let ghost orig = self.used@;
        let n = self.used.len();
        let mut i: usize = 0;
        while i < n
            invariant
                i <= n,
                n == orig.len(),
                orig == old(self)@,
                self.used@ == orig,
                self.base == old(self).base,
                self.base + n <= usize::MAX,
                forall|j: int| 0 <= j < i ==> orig[j],
            decreases n - i,
        {
            if !self.used[i] {
                self.used[i] = true;
                proof {
                    lemma_count_used_update(orig, i as int, true);
                }
                return Some(self.base + i);
            }
            i = i + 1;
        }
        proof {
            lemma_count_used_full(orig);
        }
        None
    }

    /// Returns `t` to the free set; `false` if `t` was not currently allocated.
    pub fn restore(&mut self, t: usize) -> (r: bool)
        requires
            old(self).wf(),
        ensures
            final(self).wf(),
            final(self).base_spec() == old(self).base_spec(),
            final(self).capacity() == old(self).capacity(),
            r == old(self).is_allocated(t),
            r ==> {
                &&& !final(self).is_allocated(t)
                &&& final(self)@ == old(self)@.update(t - old(self).base_spec(), false)
                &&& forall|u: usize|
                    u != t ==> final(self).is_allocated(u) == old(self).is_allocated(u)
                &&& final(self).outstanding() + 1 == old(self).outstanding()
            },
            !r ==> final(self)@ == old(self)@,
    {
        let ghost orig = self.used@;
        if t >= self.base {
            let i = t - self.base;
            if i < self.used.len() {
                if self.used[i] {
                    self.used[i] = false;
                    proof {
                        lemma_count_used_update(orig, i as int, false);
                    }
                    return true;
                }
            }
        }
        false
    }
}

} // verus!
