//! The credential pool: a small set of shared LLM API keys, each `available`
//! or `in-use`, handed out one holder at a time.
//!
//! Checkout flips the first available key to in-use and hands its index out;
//! release flips it back unconditionally. The relational store arbitrates the
//! same state across processes; this model is what each transaction commits.

use vstd::prelude::*;

verus! {

/// The pool: one in-use flag per credential.
pub struct CredentialPool {
    pub in_use: Vec<bool>,
}

/// The first available credential at or after `i`.
pub open spec fn spec_first_available_from(s: Seq<bool>, i: int) -> Option<int>
    decreases s.len() - i,
{
    if i < 0 || i >= s.len() {
        None
    } else if !s[i] {
        Some(i)
    } else {
        spec_first_available_from(s, i + 1)
    }
}

/// What checkout hands out: the first available credential, if any.
pub open spec fn spec_checkout(s: Seq<bool>) -> Option<int> {
    spec_first_available_from(s, 0)
}

/// A checked-out credential was available and is in range; nothing before it
/// was available.
pub proof fn lemma_checkout_properties(s: Seq<bool>, i: int)
    ensures
        spec_first_available_from(s, i) matches Some(k) ==> {
            &&& i <= k < s.len()
            &&& !s[k]
            &&& forall|j: int| i <= j < k ==> s[j]
        },
    decreases s.len() - i,
{
    if i < 0 || i >= s.len() {
    } else if !s[i] {
    } else {
        lemma_checkout_properties(s, i + 1);
    }
}

/// Mutual exclusion: once a credential is handed out, a second checkout
/// before its release never hands out the same credential — and from a pool
/// of one, it hands out nothing.
pub proof fn lemma_checkout_exclusive(s: Seq<bool>)
    ensures
        spec_checkout(s) matches Some(i) ==> {
            &&& spec_checkout(s.update(i, true)) != Some(i)
            &&& (s.len() == 1 ==> spec_checkout(s.update(i, true)) is None)
        },
{
    lemma_checkout_properties(s, 0);
    match spec_checkout(s) {
        Some(i) => {
            let s1 = s.update(i, true);
            lemma_checkout_properties(s1, 0);
            match spec_checkout(s1) {
                Some(k) => {
                    assert(!s1[k]);
                },
                None => {},
            }
        },
        None => {},
    }
}

impl CredentialPool {
    /// How many credentials the pool holds.
    pub fn len(&self) -> (n: usize)
        ensures
            n == self.in_use@.len(),
    {
        self.in_use.len()
    }

    /// Checks out the first available credential: flips it to in-use and
    /// returns its index; returns nothing, and changes nothing, when every
    /// credential is in use.
    pub fn checkout(&mut self) -> (r: Option<usize>)
        ensures
            match r {
                Some(i) => {
                    &&& spec_checkout(old(self).in_use@) == Some(i as int)
                    &&& i < old(self).in_use@.len()
                    &&& !old(self).in_use@[i as int]
                    &&& final(self).in_use@ == old(self).in_use@.update(i as int, true)
                },
                None => {
                    &&& spec_checkout(old(self).in_use@) is None
                    &&& final(self).in_use@ == old(self).in_use@
                },
            },
    {
        let ghost s = self.in_use@;
        proof {
            lemma_checkout_properties(s, 0);
        }
        let n = self.in_use.len();
        for i in 0..n
            invariant
                n == self.in_use@.len(),
                self.in_use@ == s,
                s == old(self).in_use@,
                spec_first_available_from(s, 0) == spec_first_available_from(s, i as int),
        {
            if !self.in_use[i] {
                self.in_use[i] = true;
                proof {
                    assert(self.in_use@ =~= s.update(i as int, true));
                }
                return Some(i);
            }
        }
        None
    }

    /// Releases a credential unconditionally.
    pub fn release(&mut self, i: usize)
        requires
            i < old(self).in_use@.len(),
        ensures
            final(self).in_use@ == old(self).in_use@.update(i as int, false),
    {
        self.in_use[i] = false;
        proof {
            assert(self.in_use@ =~= old(self).in_use@.update(i as int, false));
        }
    }
}

} // verus!
