//! Stable insertion sort over an order that the element type defines.
use vstd::prelude::*;

verus! {

/// A strict order on values: `precedes(a, b)` when `a` goes before `b`.
pub trait Ranked: Sized {
    spec fn precedes(a: Self, b: Self) -> bool;

    fn goes_before(&self, other: &Self) -> (r: bool)
        ensures
            r == Self::precedes(*self, *other),
    ;
}

/// `x` inserted into `s` after every element that it does not precede.
pub open spec fn insert_ranked<T: Ranked>(s: Seq<T>, x: T) -> Seq<T>
    decreases s.len(),
{
    if s.len() == 0 {
        seq![x]
    } else if T::precedes(x, s.last()) {
        insert_ranked(s.drop_last(), x).push(s.last())
    } else {
        s.push(x)
    }
}

/// `s` sorted by the order, elements that neither precedes keeping their
/// relative order (a stable sort).
pub open spec fn sort_ranked<T: Ranked>(s: Seq<T>) -> Seq<T>
    decreases s.len(),
{
    if s.len() == 0 {
        s
    } else {
        insert_ranked(sort_ranked(s.drop_last()), s.last())
    }
}

proof fn lemma_insert_at<T: Ranked>(s: Seq<T>, x: T, j: int)
    requires
        0 <= j <= s.len(),
        forall|m: int| j <= m < s.len() ==> T::precedes(x, #[trigger] s[m]),
        j == 0 || !T::precedes(x, s[j - 1]),
    ensures
        insert_ranked(s, x) == s.insert(j, x),
    decreases s.len(),
{
    if s.len() == 0 {
        assert(s.insert(j, x) =~= seq![x]);
    } else if j == s.len() {
        assert(s.insert(j, x) =~= s.push(x));
    } else {
        assert(T::precedes(x, s[s.len() - 1]));
        lemma_insert_at(s.drop_last(), x, j);
        assert(s.drop_last().insert(j, x).push(s.last()) =~= s.insert(j, x));
    }
}

fn insert_exec<T: Ranked>(v: &mut Vec<T>, x: T)
    ensures
        final(v)@ == insert_ranked(old(v)@, x),
{
    let mut j = v.len();
    while j > 0 && x.goes_before(&v[j - 1])
        invariant
            j <= v@.len(),
            v@ == old(v)@,
            forall|m: int| j <= m < v@.len() ==> T::precedes(x, #[trigger] v@[m]),
        decreases j,
    {
        j -= 1;
    }
    proof {
        lemma_insert_at(v@, x, j as int);
    }
    v.insert(j, x);
}

/// The elements sorted stably (see [`sort_ranked`]).
pub fn sort_stable<T: Ranked>(entries: Vec<T>) -> (sorted: Vec<T>)
    ensures
        sorted@ == sort_ranked(entries@),
{
    let ghost all = entries@;
    let total = entries.len();
    let mut rest = entries;
    let mut sorted: Vec<T> = Vec::new();
    let mut k: usize = 0;
    assert(all.take(0) =~= seq![]);
    assert(all.skip(0) =~= all);
    while rest.len() > 0
        invariant
            k <= all.len(),
            total == all.len(),
            rest@.len() + k == all.len(),
            rest@ == all.skip(k as int),
            sorted@ == sort_ranked(all.take(k as int)),
        decreases rest@.len(),
    {
        let x = rest.remove(0);
        assert(all.take(k + 1).drop_last() =~= all.take(k as int));
        assert(all.skip(k + 1) =~= all.skip(k as int).remove(0));
        insert_exec(&mut sorted, x);
        k += 1;
    }
    assert(all.take(k as int) =~= all);
    sorted
}

/// Inserting keeps every element and adds one.
pub proof fn lemma_insert_ranked_multiset<T: Ranked>(s: Seq<T>, x: T)
    ensures
        insert_ranked(s, x).to_multiset() == s.to_multiset().insert(x),
    decreases s.len(),
{
    broadcast use vstd::seq_lib::to_multiset_build;

    if s.len() == 0 {
        assert(insert_ranked(s, x) =~= s.push(x));
    } else if T::precedes(x, s.last()) {
        lemma_insert_ranked_multiset(s.drop_last(), x);
        assert(s.drop_last().push(s.last()) =~= s);
        assert(insert_ranked(s, x).to_multiset() =~= s.to_multiset().insert(x));
    }
}

/// Sorting keeps the elements: the sorted sequence is a permutation of the
/// original.
pub proof fn law_sort_is_permutation<T: Ranked>(s: Seq<T>)
    ensures
        sort_ranked(s).to_multiset() == s.to_multiset(),
        sort_ranked(s).len() == s.len(),
    decreases s.len(),
{
    broadcast use vstd::seq_lib::to_multiset_build, vstd::seq_lib::to_multiset_len;

    if s.len() > 0 {
        law_sort_is_permutation(s.drop_last());
        lemma_insert_ranked_multiset(sort_ranked(s.drop_last()), s.last());
        assert(s.drop_last().push(s.last()) =~= s);
    }
    assert(sort_ranked(s).to_multiset().len() == s.to_multiset().len());
}

/// No element comes after one that it precedes.
pub open spec fn ranked_sorted<T: Ranked>(s: Seq<T>) -> bool {
    forall|i: int, j: int| 0 <= i < j < s.len() ==> !T::precedes(#[trigger] s[j], #[trigger] s[i])
}

/// The order is a strict weak order: asymmetric, and "does not precede"
/// is transitive.
pub open spec fn strict_weak<T: Ranked>() -> bool {
    &&& forall|a: T, b: T| #[trigger] T::precedes(a, b) ==> !T::precedes(b, a)
    &&& forall|a: T, b: T, c: T|
        #![trigger T::precedes(c, b), T::precedes(b, a)]
        !T::precedes(c, b) && !T::precedes(b, a) ==> !T::precedes(c, a)
}

proof fn lemma_insert_ranked_sorted<T: Ranked>(s: Seq<T>, x: T)
    requires
        strict_weak::<T>(),
        ranked_sorted(s),
    ensures
        ranked_sorted(insert_ranked(s, x)),
    decreases s.len(),
{
    if s.len() == 0 {
        assert(insert_ranked(s, x) =~= seq![x]);
    } else if T::precedes(x, s.last()) {
        let rest = s.drop_last();
        lemma_insert_ranked_sorted(rest, x);
        lemma_insert_ranked_multiset(rest, x);
        let inner = insert_ranked(rest, x);
        let r = inner.push(s.last());
        assert(insert_ranked(s, x) == r);
        assert forall|i: int, j: int| 0 <= i < j < r.len() implies !T::precedes(
            #[trigger] r[j],
            #[trigger] r[i],
        ) by {
            if j == r.len() - 1 {
                let e = inner[i];
                assert(inner.to_multiset().count(e) > 0) by {
                    broadcast use vstd::seq_lib::group_to_multiset_ensures;
                    assert(inner.contains(e));
                }
                assert(rest.to_multiset().insert(x).count(e) > 0);
                if e == x {
                    assert(T::precedes(x, s.last()));
                } else {
                    assert(rest.contains(e)) by {
                        broadcast use vstd::seq_lib::group_to_multiset_ensures;
                    }
                    let k = choose|k: int| 0 <= k < rest.len() && rest[k] == e;
                    assert(s[k] == rest[k]);
                    assert(!T::precedes(s[s.len() - 1], s[k]));
                }
            } else {
                assert(r[i] == inner[i] && r[j] == inner[j]);
            }
        }
    } else {
        let r = s.push(x);
        assert(insert_ranked(s, x) == r);
        assert forall|i: int, j: int| 0 <= i < j < r.len() implies !T::precedes(
            #[trigger] r[j],
            #[trigger] r[i],
        ) by {
            if j == r.len() - 1 {
                if i < s.len() - 1 {
                    assert(!T::precedes(s[s.len() - 1], s[i]));
                    assert(!T::precedes(x, s[s.len() - 1]));
                    assert(!T::precedes(x, s[i]));
                }
            } else {
                assert(r[i] == s[i] && r[j] == s[j]);
            }
        }
    }
}

/// Under a strict weak order, sorting sorts: no element of the result comes
/// after one that it precedes.
pub proof fn law_sort_is_sorted<T: Ranked>(s: Seq<T>)
    requires
        strict_weak::<T>(),
    ensures
        ranked_sorted(sort_ranked(s)),
    decreases s.len(),
{
    if s.len() > 0 {
        law_sort_is_sorted(s.drop_last());
        lemma_insert_ranked_sorted(sort_ranked(s.drop_last()), s.last());
    }
}

} // verus!
