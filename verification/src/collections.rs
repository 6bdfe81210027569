//! Small verified building blocks shared by the storage engine and the
//! broadcast state: byte-string comparison and a duplicate-free set of
//! indices kept in insertion order.

use vstd::prelude::*;

verus! {

/// Byte-for-byte equality of two byte strings.
pub fn bytes_eq(a: &Vec<u8>, b: &Vec<u8>) -> (r: bool)
    ensures
        r == (a@ == b@),
{
    if a.len() != b.len() {
        proof {
            assert(a@ != b@) by {
                assert(a@.len() != b@.len());
            }
        }
        return false;
    }
    let n = a.len();
    let mut i: usize = 0;
    while i < n
        invariant
            n == a@.len() == b@.len(),
            0 <= i <= n,
            forall|j: int| 0 <= j < i ==> a@[j] == b@[j],
        decreases n - i,
    {
        if a[i] != b[i] {
            return false;
        }
        i += 1;
    }
    proof {
        assert(a@ =~= b@);
    }
    true
}

/// Whether a vector of indices holds the given value.
pub fn contains_usize(v: &Vec<usize>, x: usize) -> (r: bool)
    ensures
        r == v@.contains(x),
{
    let n = v.len();
    let mut i: usize = 0;
    while i < n
        invariant
            n == v@.len(),
            0 <= i <= n,
            forall|j: int| 0 <= j < i ==> v@[j] != x,
        decreases n - i,
    {
        if v[i] == x {
            return true;
        }
        i += 1;
    }
    false
}

/// Pushing extends membership by exactly the pushed element.
pub proof fn lemma_contains_push(s: Seq<usize>, c: usize)
    ensures
        forall|p: usize| #![trigger s.push(c).contains(p)]
            s.push(c).contains(p) <==> (s.contains(p) || p == c),
{
    assert forall|p: usize| #![trigger s.push(c).contains(p)]
        s.push(c).contains(p) <==> (s.contains(p) || p == c) by {
        if s.contains(p) {
            let j = choose|j: int| 0 <= j < s.len() && s[j] == p;
            assert(s.push(c)[j] == p);
        }
        if p == c {
            assert(s.push(c)[s.len() as int] == p);
        }
        if s.push(c).contains(p) && p != c {
            let j = choose|j: int| 0 <= j < s.push(c).len() && s.push(c)[j] == p;
            assert(s[j] == p);
        }
    }
}

/// A set of indices, stored as a vector without duplicates, in the order the
/// elements arrived.
pub struct USet {
    pub items: Vec<usize>,
}

impl USet {
    /// No element occurs twice.
    pub open spec fn wf(self) -> bool {
        forall|i: int, j: int| 0 <= i < j < self.items@.len() ==> self.items@[i] != self.items@[j]
    }

    /// Membership.
    pub open spec fn has(self, x: usize) -> bool {
        self.items@.contains(x)
    }

    /// Number of elements.
    pub open spec fn count(self) -> nat {
        self.items@.len()
    }

    pub fn new() -> (r: USet)
        ensures
            r.wf(),
            r.count() == 0,
            forall|x: usize| !r.has(x),
    {
        USet { items: Vec::new() }
    }

    /// A set holding one element.
    pub fn singleton(x: usize) -> (r: USet)
        ensures
            r.wf(),
            r.count() == 1,
            r.has(x),
            forall|y: usize| r.has(y) ==> y == x,
    {
        let mut items: Vec<usize> = Vec::new();
        items.push(x);
        proof {
            assert(items@[0] == x);
        }
        USet { items }
    }

    pub fn contains(&self, x: usize) -> (r: bool)
        ensures
            r == self.has(x),
    {
        let n = self.items.len();
        let mut i: usize = 0;
        while i < n
            invariant
                n == self.items@.len(),
                0 <= i <= n,
                forall|j: int| 0 <= j < i ==> self.items@[j] != x,
            decreases n - i,
        {
            if self.items[i] == x {
                return true;
            }
            i += 1;
        }
        false
    }

    /// Adds `x` when it is not yet present; says whether it was added.
    pub fn insert(&mut self, x: usize) -> (added: bool)
        requires
            old(self).wf(),
        ensures
            final(self).wf(),
            added == !old(self).has(x),
            final(self).has(x),
            forall|y: usize| y != x ==> final(self).has(y) == old(self).has(y),
            final(self).count() == old(self).count() + (if added {
                1int
            } else {
                0int
            }),
    {
        if self.contains(x) {
            return false;
        }
        self.items.push(x);
        proof {
            assert(self.items@.last() == x);
            assert forall|y: usize| y != x implies final(self).has(y) == old(self).has(y) by {
                if old(self).has(y) {
                    let j = choose|j: int| 0 <= j < old(self).items@.len() && old(
                        self,
                    ).items@[j] == y;
                    assert(self.items@[j] == y);
                }
                if self.items@.contains(y) {
                    let j = choose|j: int| 0 <= j < self.items@.len() && self.items@[j] == y;
                    assert(j < old(self).items@.len());
                }
            }
            assert forall|i: int, j: int|
                0 <= i < j < self.items@.len() implies self.items@[i] != self.items@[j] by {
                if j == self.items@.len() - 1 {
                    assert(!old(self).items@.contains(x));
                    assert(old(self).items@[i] == self.items@[i]);
                }
            }
        }
        true
    }

    pub fn len(&self) -> (r: usize)
        ensures
            r == self.count(),
    {
        self.items.len()
    }
}

} // verus!
