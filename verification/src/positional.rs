//! The positional capped multiset: every stored value keeps its own slot
//! (duplicates are counted separately, not merged), with an optional cap that
//! bounds every value at read time and element-wise union and intersection
//! over the raw stored values.

use vstd::prelude::*;

use crate::apply_cap;
use crate::min_nat;
use crate::sat_to_usize;

verus! {

/// Element-wise minimum of two value sequences, zipped to the shorter length:
/// trailing elements of the longer operand are ignored.
pub open spec fn zip_min(a: Seq<usize>, b: Seq<usize>) -> Seq<usize> {
    Seq::new(
        min_nat(a.len(), b.len()),
        |i: int|
            if a[i] <= b[i] {
                a[i]
            } else {
                b[i]
            },
    )
}

/// Element-wise maximum of two value sequences, zipped to the shorter length:
/// trailing elements of the longer operand are ignored.
pub open spec fn zip_max(a: Seq<usize>, b: Seq<usize>) -> Seq<usize> {
    Seq::new(
        min_nat(a.len(), b.len()),
        |i: int|
            if a[i] >= b[i] {
                a[i]
            } else {
                b[i]
            },
    )
}

/// The sum of the values of `s`, each capped at `cap` individually: the cap
/// applies per element, not to the aggregate.
pub open spec fn capped_elem_sum(s: Seq<usize>, cap: Option<usize>) -> nat
    decreases s.len(),
{
    if s.len() == 0 {
        0
    } else {
        capped_elem_sum(s.drop_last(), cap) + apply_cap(s.last() as nat, cap)
    }
}

/// The capped element sum is exact whenever the cap does not bite: a cap at
/// least as large as every stored value leaves the sum of the raw values
/// unchanged, and with no cap it is the raw sum by definition.
pub proof fn lemma_high_cap_elem_sum_exact(s: Seq<usize>, c: usize)
    requires
        forall|i: int| 0 <= i < s.len() ==> s[i] <= c,
    ensures
        capped_elem_sum(s, Some(c)) == capped_elem_sum(s, None),
    decreases s.len(),
{
    if s.len() > 0 {
        assert(forall|i: int| 0 <= i < s.drop_last().len() ==> s.drop_last()[i] == s[i]);
        lemma_high_cap_elem_sum_exact(s.drop_last(), c);
    }
}

/// Intersection combines raw values and is commutative:
/// `min` is symmetric, and so is zipping to the shorter length.
pub proof fn lemma_intersection_commutative(a: Seq<usize>, b: Seq<usize>)
    ensures
        zip_min(a, b) == zip_min(b, a),
{
    assert(zip_min(a, b) =~= zip_min(b, a));
}

/// Intersection of a multiset with itself gives back its raw values exactly.
pub proof fn lemma_intersection_idempotent(a: Seq<usize>)
    ensures
        zip_min(a, a) == a,
{
    assert(zip_min(a, a) =~= a);
}

/// Union combines raw values and is commutative:
/// `max` is symmetric, and so is zipping to the shorter length.
pub proof fn lemma_union_commutative(a: Seq<usize>, b: Seq<usize>)
    ensures
        zip_max(a, b) == zip_max(b, a),
{
    assert(zip_max(a, b) =~= zip_max(b, a));
}

/// Union of a multiset with itself gives back its raw values exactly.
pub proof fn lemma_union_idempotent(a: Seq<usize>)
    ensures
        zip_max(a, a) == a,
{
    assert(zip_max(a, a) =~= a);
}

/// A capped bag of positioned values: each stored value occupies a fixed
/// slot, so equal values are counted separately rather than merged under one
/// key.
///
/// The abstract model is the sequence of raw stored values (`self@`) together
/// with the current optional cap (`self.spec_cap()`). The cap only bounds
/// what reads return; union and intersection work on the raw stored values
/// and ignore the caps of both operands.
#[derive(Hash, Debug)]
pub struct PositionalCappedMultiset {
    /// The stored values in their original (uncapped) form, one per slot.
    elements: Vec<usize>,
    /// The cap that is applied to the elements when they are read; it never
    /// modifies the stored values themselves.
    cap: Option<usize>,
}

impl View for PositionalCappedMultiset {
    type V = Seq<usize>;

    closed spec fn view(&self) -> Seq<usize> {
        self.elements@
    }
}

impl Clone for PositionalCappedMultiset {
    /// An exact copy: same stored values, same cap.
    fn clone(&self) -> (r: Self)
        ensures
            r@ == self@,
            r.spec_cap() == self.spec_cap(),
    {
        let elements = vstd::slice::slice_to_vec(self.elements.as_slice());
        PositionalCappedMultiset { elements, cap: self.cap }
    }
}

impl PositionalCappedMultiset {
    /// The current cap: `None` means no cap is set.
    pub closed spec fn spec_cap(self) -> Option<usize> {
        self.cap
    }

    /// Creates an empty positional multiset along with a cap. Pass `None` as
    /// the value to prevent any caps from being set.
    pub fn new(cap: Option<usize>) -> (r: Self)
        ensures
            r@ == Seq::<usize>::empty(),
            r.spec_cap() == cap,
    {
        PositionalCappedMultiset { elements: Vec::new(), cap }
    }

    /// Creates a positional multiset holding the given values, in order, with
    /// no cap set. The conversion is lossless.
    pub fn from_elements(elements: Vec<usize>) -> (r: Self)
        ensures
            r@ == elements@,
            r.spec_cap() is None,
    {
        PositionalCappedMultiset { elements, cap: None }
    }

    /// Creates a positional multiset holding a copy of the given values, in
    /// order, with no cap set. The conversion is lossless.
    pub fn from_slice(elements: &[usize]) -> (r: Self)
        ensures
            r@ == elements@,
            r.spec_cap() is None,
    {
        PositionalCappedMultiset { elements: vstd::slice::slice_to_vec(elements), cap: None }
    }

    /// Set the cap for the multiset elements.
    ///
    /// This is *not* a lossy operation: setting a lower cap does not modify
    /// the data in the multiset at all, so it is a cheap O(1) operation and is
    /// exactly reversible. All future reads honor the new value of the cap.
    pub fn set_cap(&mut self, cap: Option<usize>)
        ensures
            final(self)@ == old(self)@,
            final(self).spec_cap() == cap,
    {
        self.cap = cap;
    }

    /// The number of slots (stored values); the cap has no effect on it.
    pub fn len(&self) -> (r: usize)
        ensures
            r == self@.len(),
    {
        self.elements.len()
    }

    /// Read the value in slot `i`, honoring the current cap: the result is
    /// the raw stored value bounded by the cap. Remove the cap to read the
    /// raw value.
    pub fn value_at(&self, i: usize) -> (r: usize)
        requires
            i < self@.len(),
        ensures
            r as nat == apply_cap(self@[i as int] as nat, self.spec_cap()),
    {
        let value = self.elements[i];
        match self.cap {
            None => value,
            Some(c) => if value <= c {
                value
            } else {
                c
            },
        }
    }

    /// Return the sum, over all slots, of the stored value capped at the
    /// current cap. The cap is applied per element: equal values in different
    /// slots are counted separately, each bounded by the cap. A mathematical
    /// sum beyond `usize::MAX` saturates at `usize::MAX`.
    pub fn sum(&self) -> (r: usize)
        ensures
            r as nat == sat_to_usize(capped_elem_sum(self@, self.spec_cap())),
    {
        let ghost s = self.elements@;
        let mut total: usize = 0;
        let mut i: usize = 0;
        while i < self.elements.len()
            invariant
                i <= self.elements.len(),
                self.elements@ == s,
                total as nat == sat_to_usize(capped_elem_sum(s.take(i as int), self.spec_cap())),
            decreases self.elements.len() - i,
        {
            proof {
                assert(s.take(i + 1).drop_last() =~= s.take(i as int));
                assert(s.take(i + 1).last() == s[i as int]);
            }
            let capped = self.value_at(i);
            total = crate::sat_add(total, capped);
            i = i + 1;
        }
        proof {
            assert(s.take(s.len() as int) =~= s);
        }
        total
    }

    /// Element-wise minimum of the raw values of both operands, zipped to the
    /// shorter length. Combines raw stored values: the cap of either operand
    /// has no effect on the result, and the result starts with no cap set.
    pub fn intersect_with(&self, other: &Self) -> (r: Self)
        ensures
            r@ == zip_min(self@, other@),
            r.spec_cap() is None,
    {
        let out = zip_smaller(&self.elements, &other.elements);
        PositionalCappedMultiset { elements: out, cap: None }
    }

    /// Element-wise maximum of the raw values of both operands, zipped to the
    /// shorter length. Combines raw stored values: the cap of either operand
    /// has no effect on the result, and the result starts with no cap set.
    pub fn union_with(&self, other: &Self) -> (r: Self)
        ensures
            r@ == zip_max(self@, other@),
            r.spec_cap() is None,
    {
        let out = zip_larger(&self.elements, &other.elements);
        PositionalCappedMultiset { elements: out, cap: None }
    }

    /// In-place intersection: replaces the stored values by the element-wise
    /// minimum with `other`'s raw values, zipped to the shorter length. The
    /// caps of both operands are ignored by the combination, and this
    /// operand's cap is kept unchanged.
    pub fn intersect_assign(&mut self, other: &Self)
        ensures
            final(self)@ == zip_min(old(self)@, other@),
            final(self).spec_cap() == old(self).spec_cap(),
    {
        self.elements = zip_smaller(&self.elements, &other.elements);
    }

    /// In-place union: replaces the stored values by the element-wise
    /// maximum with `other`'s raw values, zipped to the shorter length. The
    /// caps of both operands are ignored by the combination, and this
    /// operand's cap is kept unchanged.
    pub fn union_assign(&mut self, other: &Self)
        ensures
            final(self)@ == zip_max(old(self)@, other@),
            final(self).spec_cap() == old(self).spec_cap(),
    {
        self.elements = zip_larger(&self.elements, &other.elements);
    }
}

/// The element-wise minimum of two value vectors, zipped to the shorter
/// length.
fn zip_smaller(a: &Vec<usize>, b: &Vec<usize>) -> (out: Vec<usize>)
    ensures
        out@ == zip_min(a@, b@),
{
    let n = if a.len() <= b.len() {
        a.len()
    } else {
        b.len()
    };
    let mut out: Vec<usize> = Vec::new();
    let mut i: usize = 0;
    while i < n
        invariant
            i <= n,
            n == min_nat(a@.len(), b@.len()),
            out@.len() == i,
            forall|j: int| 0 <= j < i ==> out@[j] == zip_min(a@, b@)[j],
        decreases n - i,
    {
        if a[i] <= b[i] {
            let v = a[i];
            out.push(v);
        } else {
            let v = b[i];
            out.push(v);
        }
        i = i + 1;
    }
    proof {
        assert(out@ =~= zip_min(a@, b@));
    }
    out
}

/// The element-wise maximum of two value vectors, zipped to the shorter
/// length.
fn zip_larger(a: &Vec<usize>, b: &Vec<usize>) -> (out: Vec<usize>)
    ensures
        out@ == zip_max(a@, b@),
{
    let n = if a.len() <= b.len() {
        a.len()
    } else {
        b.len()
    };
    let mut out: Vec<usize> = Vec::new();
    let mut i: usize = 0;
    while i < n
        invariant
            i <= n,
            n == min_nat(a@.len(), b@.len()),
            out@.len() == i,
            forall|j: int| 0 <= j < i ==> out@[j] == zip_max(a@, b@)[j],
        decreases n - i,
    {
        if a[i] >= b[i] {
            let v = a[i];
            out.push(v);
        } else {
            let v = b[i];
            out.push(v);
        }
        i = i + 1;
    }
    proof {
        assert(out@ =~= zip_max(a@, b@));
    }
    out
}

} // verus!
