//! The keyed capped multiset: a mapping from keys to multiplicities, together
//! with an optional cap that bounds every multiplicity at read time.
//!
//! Operations that look a key up require `obeys_concrete_eq::<U>()`: the
//! executable `==` of the key type must agree with logical equality, which
//! `vstd::laws_eq` establishes for the primitive types.

use vstd::prelude::*;

use crate::apply_cap;
use crate::sat_to_usize;
use vstd::laws_eq::obeys_concrete_eq;

verus! {

/// The map model after inserting `n` occurrences of key `k`: an absent key
/// gets multiplicity `n`, a present key accumulates by addition, and the
/// result saturates at `usize::MAX`.
pub open spec fn spec_insert<U>(m: Map<U, nat>, k: U, n: nat) -> Map<U, nat> {
    m.insert(k, sat_to_usize(mult_of(m, k) + n))
}

/// The multiplicity of key `k` in the map model `m`: the stored value when the
/// key is present, `0` when it is absent.
pub open spec fn mult_of<U>(m: Map<U, nat>, k: U) -> nat {
    if m.contains_key(k) {
        m[k]
    } else {
        0
    }
}

/// The map model of a sequence of key/multiplicity entries; later entries for
/// the same key shadow earlier ones.
pub(crate) open spec fn entries_map<U>(s: Seq<(U, usize)>) -> Map<U, nat>
    decreases s.len(),
{
    if s.len() == 0 {
        Map::empty()
    } else {
        entries_map(s.drop_last()).insert(s.last().0, s.last().1 as nat)
    }
}

/// Whether the entries of `s` carry pairwise distinct keys.
pub(crate) open spec fn keys_distinct<U>(s: Seq<(U, usize)>) -> bool {
    forall|i: int, j: int| 0 <= i < j < s.len() ==> s[i].0 != s[j].0
}

/// The stored multiplicity of `k` in the entry sequence `s` (0 when absent);
/// the last matching entry wins, matching `entries_map`.
pub(crate) open spec fn seq_mult<U>(s: Seq<(U, usize)>, k: U) -> nat
    decreases s.len(),
{
    if s.len() == 0 {
        0
    } else if s.last().0 == k {
        s.last().1 as nat
    } else {
        seq_mult(s.drop_last(), k)
    }
}

/// `seq_mult` agrees with the multiplicity read off the map model.
pub(crate) proof fn lemma_entries_map_mult<U>(s: Seq<(U, usize)>, k: U)
    ensures
        mult_of(entries_map(s), k) == seq_mult(s, k),
    decreases s.len(),
{
    if s.len() > 0 {
        lemma_entries_map_mult(s.drop_last(), k);
    }
}

/// The map model contains exactly the keys that occur in the entry sequence,
/// and its domain is finite.
pub(crate) proof fn lemma_entries_map_dom<U>(s: Seq<(U, usize)>)
    ensures
        entries_map(s).dom().finite(),
        forall|k: U|
            entries_map(s).contains_key(k) <==> exists|i: int| 0 <= i < s.len() && s[i].0 == k,
    decreases s.len(),
{
    if s.len() == 0 {
        assert(entries_map(s) == Map::<U, nat>::empty());
    } else {
        lemma_entries_map_dom(s.drop_last());
        assert forall|k: U| entries_map(s).contains_key(k) implies exists|i: int|
            0 <= i < s.len() && s[i].0 == k by {
            if k == s.last().0 {
                assert(s[s.len() - 1].0 == k);
            } else {
                let i = choose|i: int| 0 <= i < s.drop_last().len() && s.drop_last()[i].0 == k;
                assert(s[i].0 == k);
            }
        }
        assert forall|k: U| (exists|i: int| 0 <= i < s.len() && s[i].0 == k) implies entries_map(
            s,
        ).contains_key(k) by {
            let i = choose|i: int| 0 <= i < s.len() && s[i].0 == k;
            if i < s.len() - 1 {
                assert(s.drop_last()[i].0 == k);
            }
        }
    }
}

/// The sum of the capped multiplicities of all keys of the model `m`. The cap
/// applies per key, to the aggregated multiplicity of that key, not to each
/// inserted unit and not to the aggregate sum.
pub open spec fn capped_sum<U>(m: Map<U, nat>, cap: Option<usize>) -> nat {
    m.dom().fold(0, |acc: nat, k: U| acc + apply_cap(m[k], cap))
}

/// The sum of the capped multiplicities along an entry sequence.
pub(crate) open spec fn seq_capped_sum<U>(s: Seq<(U, usize)>, cap: Option<usize>) -> nat
    decreases s.len(),
{
    if s.len() == 0 {
        0
    } else {
        seq_capped_sum(s.drop_last(), cap) + apply_cap(s.last().1 as nat, cap)
    }
}

/// Two per-key summands that agree on a finite key set fold to the same sum
/// over that set.
pub(crate) proof fn lemma_fold_sum_congruent<U>(
    s: Set<U>,
    g1: spec_fn(U) -> nat,
    g2: spec_fn(U) -> nat,
)
    requires
        s.finite(),
        forall|k: U| s.contains(k) ==> #[trigger] g1(k) == g2(k),
    ensures
        s.fold(0, |acc: nat, k: U| acc + g1(k)) == s.fold(0, |acc: nat, k: U| acc + g2(k)),
{
    let f1 = |acc: nat, k: U| acc + g1(k);
    let f2 = |acc: nat, k: U| acc + g2(k);
    let pred = |t: Set<U>|
        t.finite() && (t.subset_of(s) ==> t.fold(0, f1) == t.fold(0, f2));
    assert(pred(Set::<U>::empty())) by {
        vstd::set::fold::lemma_fold_empty(0nat, f1);
        vstd::set::fold::lemma_fold_empty(0nat, f2);
    }
    assert forall|t: Set<U>, a: U| pred(t) && t.finite() && !t.contains(a) implies #[trigger] pred(
        t.insert(a),
    ) by {
        if t.insert(a).subset_of(s) {
            vstd::set::fold::lemma_fold_insert(t, 0nat, f1, a);
            vstd::set::fold::lemma_fold_insert(t, 0nat, f2, a);
            assert(t.subset_of(s));
            assert(s.contains(a));
        }
    }
    vstd::set::fold::lemma_finite_set_induct(s, pred);
}

/// An empty multiset sums to zero under any cap.
pub proof fn lemma_capped_sum_empty<U>(cap: Option<usize>)
    ensures
        capped_sum(Map::<U, nat>::empty(), cap) == 0,
{
    assert(Map::<U, nat>::empty().dom() =~= Set::<U>::empty());
    vstd::set::fold::lemma_fold_empty(
        0nat,
        |acc: nat, k: U| acc + apply_cap(Map::<U, nat>::empty()[k], cap),
    );
}

/// Inserting a fresh key raises the capped sum by that key's capped
/// multiplicity.
pub proof fn lemma_capped_sum_insert<U>(m: Map<U, nat>, cap: Option<usize>, k: U, v: nat)
    requires
        m.dom().finite(),
        !m.contains_key(k),
    ensures
        capped_sum(m.insert(k, v), cap) == capped_sum(m, cap) + apply_cap(v, cap),
{
    let m2 = m.insert(k, v);
    let f1 = |acc: nat, kk: U| acc + apply_cap(m[kk], cap);
    let f2 = |acc: nat, kk: U| acc + apply_cap(m2[kk], cap);
    assert(m2.dom() =~= m.dom().insert(k));
    vstd::set::fold::lemma_fold_insert(m.dom(), 0nat, f2, k);
    lemma_fold_sum_congruent(
        m.dom(),
        |kk: U| apply_cap(m2[kk], cap),
        |kk: U| apply_cap(m[kk], cap),
    );
    assert(f2 =~= (|acc: nat, kk: U| acc + (|kk: U| apply_cap(m2[kk], cap))(kk)));
    assert(f1 =~= (|acc: nat, kk: U| acc + (|kk: U| apply_cap(m[kk], cap))(kk)));
}

/// With pairwise distinct keys, summing along the entry sequence computes the
/// capped sum of the map model.
pub(crate) proof fn lemma_seq_sum_is_capped_sum<U>(s: Seq<(U, usize)>, cap: Option<usize>)
    requires
        keys_distinct(s),
    ensures
        seq_capped_sum(s, cap) == capped_sum(entries_map(s), cap),
    decreases s.len(),
{
    lemma_entries_map_dom(s);
    if s.len() == 0 {
        assert(entries_map(s) == Map::<U, nat>::empty());
        lemma_capped_sum_empty::<U>(cap);
    } else {
        let d = s.drop_last();
        lemma_seq_sum_is_capped_sum(d, cap);
        lemma_entries_map_dom(d);
        assert(!entries_map(d).contains_key(s.last().0));
        lemma_capped_sum_insert(entries_map(d), cap, s.last().0, s.last().1 as nat);
    }
}

/// With pairwise distinct keys, the entry holding a key gives its stored
/// multiplicity.
pub(crate) proof fn lemma_seq_mult_at<U>(s: Seq<(U, usize)>, j: int)
    requires
        keys_distinct(s),
        0 <= j < s.len(),
    ensures
        seq_mult(s, s[j].0) == s[j].1 as nat,
    decreases s.len(),
{
    if j < s.len() - 1 {
        assert(s.drop_last()[j] == s[j]);
        lemma_seq_mult_at(s.drop_last(), j);
    }
}

/// Overwriting the entry that holds key `k` acts as a map insert on the model.
pub(crate) proof fn lemma_entries_map_update<U>(s: Seq<(U, usize)>, j: int, k: U, v: usize)
    requires
        keys_distinct(s),
        0 <= j < s.len(),
        s[j].0 == k,
    ensures
        entries_map(s.update(j, (k, v))) == entries_map(s).insert(k, v as nat),
    decreases s.len(),
{
    let t = s.update(j, (k, v));
    if j == s.len() - 1 {
        assert(t.drop_last() =~= s.drop_last());
        assert(t.last() == (k, v));
        assert(entries_map(t) == entries_map(s.drop_last()).insert(k, v as nat));
        assert(entries_map(s.drop_last()).insert(k, s.last().1 as nat).insert(k, v as nat)
            =~= entries_map(s.drop_last()).insert(k, v as nat));
    } else {
        assert(t.drop_last() =~= s.drop_last().update(j, (k, v)));
        assert(t.last() == s.last());
        assert(s.drop_last()[j] == s[j]);
        lemma_entries_map_update(s.drop_last(), j, k, v);
        // the overwritten key differs from the last entry's key
        assert(s[j].0 != s.last().0);
        assert(entries_map(s.drop_last()).insert(k, v as nat).insert(s.last().0, s.last().1 as nat)
            =~= entries_map(s.drop_last()).insert(s.last().0, s.last().1 as nat).insert(
            k,
            v as nat,
        ));
    }
}

/// Appending an entry with a fresh key acts as a map insert on the model.
pub(crate) proof fn lemma_entries_map_push<U>(s: Seq<(U, usize)>, k: U, v: usize)
    ensures
        entries_map(s.push((k, v))) == entries_map(s).insert(k, v as nat),
{
    assert(s.push((k, v)).drop_last() =~= s);
    assert(s.push((k, v)).last() == (k, v));
}

/// The capped sum is exact whenever the cap does not bite: with no cap it is
/// the raw sum by definition, and a cap at least as large as every stored
/// multiplicity leaves the sum of the raw stored values unchanged.
pub proof fn lemma_high_cap_sum_exact<U>(m: Map<U, nat>, c: usize)
    requires
        m.dom().finite(),
        forall|k: U| m.contains_key(k) ==> m[k] <= c as nat,
    ensures
        capped_sum(m, Some(c)) == capped_sum(m, None),
{
    lemma_fold_sum_congruent(
        m.dom(),
        |k: U| apply_cap(m[k], Some(c)),
        |k: U| apply_cap(m[k], None),
    );
    assert((|acc: nat, k: U| acc + apply_cap(m[k], Some(c))) =~= (
    |acc: nat, k: U| acc + (|k: U| apply_cap(m[k], Some(c)))(k)));
    assert((|acc: nat, k: U| acc + apply_cap(m[k], None)) =~= (
    |acc: nat, k: U| acc + (|k: U| apply_cap(m[k], None))(k)));
}

/// Changing the cap is always exactly reversible: no sequence of cap changes
/// ever mutates the stored multiplicities, so two multisets whose stored data
/// agree — whatever caps each went through — read the same uncapped sum once
/// the cap is removed.
pub proof fn lemma_cap_change_reversible<U>(before: CappedMultiset<U>, after: CappedMultiset<U>)
    requires
        before@ == after@,
    ensures
        capped_sum(after@, None) == capped_sum(before@, None),
{
}

/// Repeated insertion of one key accumulates by addition: inserting `n1` then
/// `n2` occurrences of `k` leaves `k` with its prior multiplicity plus
/// `n1 + n2`, saturated at `usize::MAX`. In particular, for a fresh key and no
/// overflow, the stored multiplicity — which `count_of` returns while no cap
/// is set — is exactly `n1 + n2`.
pub proof fn lemma_insert_accumulates<U>(m: Map<U, nat>, k: U, n1: nat, n2: nat)
    ensures
        mult_of(spec_insert(spec_insert(m, k, n1), k, n2), k) == sat_to_usize(
            mult_of(m, k) + n1 + n2,
        ),
        !m.contains_key(k) && n1 + n2 <= usize::MAX as nat ==> mult_of(
            spec_insert(spec_insert(m, k, n1), k, n2),
            k,
        ) == n1 + n2,
{
}

/// A key that is absent counts zero, whatever the cap is.
pub proof fn lemma_absent_key_counts_zero<U>(m: Map<U, nat>, k: U, cap: Option<usize>)
    requires
        !m.contains_key(k),
    ensures
        apply_cap(mult_of(m, k), cap) == 0,
{
}

/// A `CappedMultiset` is a data structure similar to a multiset with the key
/// distinction that it supports setting a _cap_ on the values of each element.
/// Once a cap is set, all operations on the data structure that access an
/// element will return at most the value of the cap.
///
/// The abstract model of a `CappedMultiset<U>` is a finite map from keys to
/// stored multiplicities (`self@`) together with the current optional cap
/// (`self.spec_cap()`). The cap only bounds what reads return; it never
/// changes the stored multiplicities.
#[derive(Hash, Debug)]
pub struct CappedMultiset<U> {
    /// The elements of the multiset, each key held once with its accumulated
    /// multiplicity, in their original (uncapped) form.
    elements: Vec<(U, usize)>,
    /// The cap that is applied to the elements. This is an artificial cap
    /// since it does not modify the actual value stored, but only the one
    /// displayed through various operations.
    cap: Option<usize>,
}

impl<U> View for CappedMultiset<U> {
    type V = Map<U, nat>;

    closed spec fn view(&self) -> Map<U, nat> {
        entries_map(self.elements@)
    }
}

impl<U> CappedMultiset<U> {
    /// The current cap: `None` means no cap is set.
    pub closed spec fn spec_cap(self) -> Option<usize> {
        self.cap
    }

    /// Each key is held by at most one entry of the element vector.
    #[verifier::type_invariant]
    spec fn wf(self) -> bool {
        keys_distinct(self.elements@)
    }
}

impl<U: Copy> Clone for CappedMultiset<U> {
    /// An exact copy: same stored multiplicities, same cap.
    fn clone(&self) -> (r: Self)
        ensures
            r@ == self@,
            r.spec_cap() == self.spec_cap(),
    {
        proof {
            use_type_invariant(self);
        }
        let mut elements: Vec<(U, usize)> = Vec::new();
        let mut i: usize = 0;
        while i < self.elements.len()
            invariant
                i <= self.elements.len(),
                elements@ == self.elements@.take(i as int),
            decreases self.elements.len() - i,
        {
            let pair = &self.elements[i];
            elements.push((pair.0, pair.1));
            proof {
                assert(elements@ =~= self.elements@.take(i + 1));
            }
            i = i + 1;
        }
        proof {
            assert(elements@ =~= self.elements@);
        }
        CappedMultiset { elements, cap: self.cap }
    }
}

impl<U: Ord> CappedMultiset<U> {
    /// Creates a new `CappedMultiset` along with a cap. Pass `None` as the
    /// value to prevent any caps from being set.
    pub fn new(cap: Option<usize>) -> (r: Self)
        ensures
            r@ == Map::<U, nat>::empty(),
            r.spec_cap() == cap,
    {
        CappedMultiset { elements: Vec::new(), cap }
    }

    /// Set the cap for the multiset elements.
    ///
    /// This is *not* a lossy operation: setting a lower cap does not modify
    /// the data in the multiset at all, so it is a cheap O(1) operation and is
    /// exactly reversible. All future reads honor the new value of the cap.
    pub fn set_cap(&mut self, cap: Option<usize>)
        ensures
            final(self)@ == old(self)@,
            final(self).spec_cap() == cap,
    {
        proof {
            use_type_invariant(&*self);
        }
        self.cap = cap;
    }

    /// Inserts an element into the multiset. This operation always succeeds
    /// irrespective of the current value of the cap.
    ///
    /// Equivalent to [`Self::insert_multiple`] with a multiplicity of 1.
    pub fn insert(&mut self, val: U)
        requires
            obeys_concrete_eq::<U>(),
        ensures
            final(self)@ == spec_insert(old(self)@, val, 1),
            final(self).spec_cap() == old(self).spec_cap(),
    {
        self.insert_multiple(val, 1);
    }

    /// Inserts an element multiple (`n`) times into the multiset. This
    /// operation will always succeed and add the element to the multiset
    /// irrespective of the current value of the cap; only reads are capped,
    /// so lowering the cap is never lossy to the underlying data.
    ///
    /// A multiplicity accumulating past `usize::MAX` saturates at
    /// `usize::MAX`.
    pub fn insert_multiple(&mut self, elem: U, n: usize)
        requires
            obeys_concrete_eq::<U>(),
        ensures
            final(self)@ == spec_insert(old(self)@, elem, n as nat),
            final(self).spec_cap() == old(self).spec_cap(),
    {
        proof {
            use_type_invariant(&*self);
            reveal(vstd::laws_eq::obeys_concrete_eq);
        }
        let ghost m0 = self@;
        let mut elems: Vec<(U, usize)> = Vec::new();
        core::mem::swap(&mut elems, &mut self.elements);
        let ghost s = elems@;
        let mut found: Option<usize> = None;
        let mut i: usize = 0;
        while i < elems.len()
            invariant
                obeys_concrete_eq::<U>(),
                i <= elems.len(),
                elems@ == s,
                match found {
                    None => forall|t: int| 0 <= t < i ==> s[t].0 != elem,
                    Some(j) => j < i && s[j as int].0 == elem,
                },
            decreases elems.len() - i,
        {
            proof {
                reveal(vstd::laws_eq::obeys_concrete_eq);
            }
            let pair = &elems[i];
            if pair.0.eq(&elem) {
                found = Some(i);
            }
            i = i + 1;
        }
        match found {
            Some(j) => {
                let cur = elems[j].1;
                let new_count = crate::sat_add(cur, n);
                proof {
                    lemma_seq_mult_at(s, j as int);
                    lemma_entries_map_mult(s, elem);
                    lemma_entries_map_dom(s);
                    lemma_entries_map_update(s, j as int, elem, new_count);
                }
                elems[j] = (elem, new_count);
            },
            None => {
                proof {
                    lemma_entries_map_mult(s, elem);
                    lemma_entries_map_dom(s);
                    lemma_entries_map_push(s, elem, n);
                }
                elems.push((elem, n));
            },
        }
        self.elements = elems;
    }

    /// Return the number of times an element occurs in the multiset. This
    /// method honors the current value of the cap and hence its result is
    /// bounded by the cap; an absent key counts 0 regardless of the cap.
    pub fn count_of(&self, elem: U) -> (r: usize)
        requires
            obeys_concrete_eq::<U>(),
        ensures
            r as nat == apply_cap(mult_of(self@, elem), self.spec_cap()),
    {
        proof {
            use_type_invariant(&*self);
            lemma_entries_map_mult(self.elements@, elem);
        }
        let ghost s = self.elements@;
        let mut count: usize = 0;
        let mut i: usize = 0;
        while i < self.elements.len()
            invariant
                obeys_concrete_eq::<U>(),
                i <= self.elements.len(),
                self.elements@ == s,
                count as nat == seq_mult(s.take(i as int), elem),
            decreases self.elements.len() - i,
        {
            proof {
                reveal(vstd::laws_eq::obeys_concrete_eq);
                assert(s.take(i + 1).drop_last() =~= s.take(i as int));
                assert(s.take(i + 1).last() == s[i as int]);
            }
            let pair = &self.elements[i];
            if pair.0.eq(&elem) {
                count = pair.1;
            }
            i = i + 1;
        }
        proof {
            assert(s.take(s.len() as int) =~= s);
        }
        self.capped_val(count)
    }

    /// Return the sum, over all keys, of the key's aggregated multiplicity
    /// capped at the current cap. The cap is applied per key, not to the
    /// aggregate: a key's multiplicity counts once, as its accumulated total
    /// bounded by the cap. A mathematical sum beyond `usize::MAX` saturates
    /// at `usize::MAX`.
    pub fn sum(&self) -> (r: usize)
        ensures
            r as nat == sat_to_usize(capped_sum(self@, self.spec_cap())),
    {
        proof {
            use_type_invariant(&*self);
            lemma_seq_sum_is_capped_sum(self.elements@, self.spec_cap());
        }
        let ghost s = self.elements@;
        let mut total: usize = 0;
        let mut i: usize = 0;
        while i < self.elements.len()
            invariant
                i <= self.elements.len(),
                self.elements@ == s,
                total as nat == sat_to_usize(seq_capped_sum(s.take(i as int), self.spec_cap())),
            decreases self.elements.len() - i,
        {
            proof {
                assert(s.take(i + 1).drop_last() =~= s.take(i as int));
                assert(s.take(i + 1).last() == s[i as int]);
            }
            let pair = &self.elements[i];
            let capped = self.capped_val(pair.1);
            total = crate::sat_add(total, capped);
            i = i + 1;
        }
        proof {
            assert(s.take(s.len() as int) =~= s);
        }
        total
    }

    /// Return a value after honoring the current cap.
    fn capped_val(&self, value: usize) -> (r: usize)
        ensures
            r as nat == apply_cap(value as nat, self.spec_cap()),
    {
        match self.cap {
            None => value,
            Some(c) => if value <= c {
                value
            } else {
                c
            },
        }
    }
}

} // verus!
