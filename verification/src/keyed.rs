//! Entries keyed by strings, kept in ascending order of their keys with one
//! entry per key: the way an ordered map holds them. The entries are stated
//! by their deep views, `(key, value)` pairs of mathematical values.
use crate::text::{
    lemma_seq_less_irreflexive, lemma_seq_less_total, lemma_seq_less_transitive, seq_less,
    str_equal, str_less,
};
use vstd::prelude::*;

verus! {

/// The entries hold each key once, in ascending order.
pub open spec fn well_keyed<W>(v: Seq<(Seq<char>, W)>) -> bool {
    forall|a: int, b: int| 0 <= a < b < v.len() ==> seq_less(#[trigger] v[a].0, #[trigger] v[b].0)
}

/// The value of the first entry with key `k`.
pub open spec fn lookup<W>(v: Seq<(Seq<char>, W)>, k: Seq<char>) -> Option<W>
    decreases v.len(),
{
    if v.len() == 0 {
        None
    } else if v[0].0 == k {
        Some(v[0].1)
    } else {
        lookup(v.drop_first(), k)
    }
}

/// The entries without those with key `k`.
pub open spec fn remove_key<W>(v: Seq<(Seq<char>, W)>, k: Seq<char>) -> Seq<(Seq<char>, W)>
    decreases v.len(),
{
    if v.len() == 0 {
        v
    } else if v[0].0 == k {
        remove_key(v.drop_first(), k)
    } else {
        seq![v[0]] + remove_key(v.drop_first(), k)
    }
}

/// The entries with `(k, x)` in place of the entry with key `k`, or
/// inserted where the ascending order of the keys puts it.
pub open spec fn upsert<W>(v: Seq<(Seq<char>, W)>, k: Seq<char>, x: W) -> Seq<(Seq<char>, W)>
    decreases v.len(),
{
    if v.len() == 0 {
        seq![(k, x)]
    } else if v[0].0 == k {
        v.update(0, (k, x))
    } else if seq_less(k, v[0].0) {
        seq![(k, x)] + v
    } else {
        seq![v[0]] + upsert(v.drop_first(), k, x)
    }
}

/// Where key `k` is, or goes: every key before `j` is smaller, and the key
/// at `j`, if any, is `k` (`found`) or greater.
pub open spec fn slot<W>(v: Seq<(Seq<char>, W)>, k: Seq<char>, j: int, found: bool) -> bool {
    &&& 0 <= j <= v.len()
    &&& forall|m: int| 0 <= m < j ==> seq_less(#[trigger] v[m].0, k)
    &&& found == (j < v.len() && v[j].0 == k)
    &&& (!found && j < v.len()) ==> seq_less(k, v[j].0)
}

proof fn lemma_rest_keyed<W>(v: Seq<(Seq<char>, W)>)
    requires
        well_keyed(v),
        v.len() > 0,
    ensures
        well_keyed(v.drop_first()),
        forall|m: int| 0 < m < v.len() ==> seq_less(v[0].0, #[trigger] v[m].0),
{
    let rest = v.drop_first();
    assert forall|a: int, b: int| 0 <= a < b < rest.len() implies seq_less(
        #[trigger] rest[a].0,
        #[trigger] rest[b].0,
    ) by {
        assert(rest[a] == v[a + 1] && rest[b] == v[b + 1]);
    }
}

proof fn lemma_not_present<W>(v: Seq<(Seq<char>, W)>, k: Seq<char>)
    requires
        forall|m: int| 0 <= m < v.len() ==> (#[trigger] v[m]).0 != k,
    ensures
        lookup(v, k) is None,
        remove_key(v, k) == v,
    decreases v.len(),
{
    if v.len() > 0 {
        assert forall|m: int| 0 <= m < v.drop_first().len() implies (#[trigger] v.drop_first()[m]).0
            != k by {
            assert(v.drop_first()[m] == v[m + 1]);
        }
        lemma_not_present(v.drop_first(), k);
        assert(seq![v[0]] + v.drop_first() =~= v);
    }
}

/// At its slot, looking a key up finds its entry, and removing it removes
/// that entry.
pub proof fn lemma_slot_find<W>(v: Seq<(Seq<char>, W)>, k: Seq<char>, j: int, found: bool)
    requires
        well_keyed(v),
        slot(v, k, j, found),
    ensures
        lookup(v, k) == (if found {
            Some(v[j].1)
        } else {
            None::<W>
        }),
        remove_key(v, k) == (if found {
            v.remove(j)
        } else {
            v
        }),
    decreases v.len(),
{
    if v.len() == 0 {
        return;
    }
    lemma_rest_keyed(v);
    lemma_seq_less_irreflexive(k);
    if j == 0 {
        if found {
            assert(v.remove(0) =~= v.drop_first());
            assert forall|m: int| 0 <= m < v.drop_first().len() implies (#[trigger] v.drop_first()[m]).0
                != k by {
                assert(v.drop_first()[m] == v[m + 1]);
            }
            lemma_not_present(v.drop_first(), k);
        } else {
            assert forall|m: int| 0 <= m < v.len() implies (#[trigger] v[m]).0 != k by {
                if m > 0 {
                    lemma_seq_less_transitive(k, v[0].0, v[m].0);
                }
            }
            lemma_not_present(v, k);
        }
    } else {
        let rest = v.drop_first();
        assert(seq_less(v[0].0, k));
        assert forall|m: int| 0 <= m < j - 1 implies seq_less(#[trigger] rest[m].0, k) by {
            assert(rest[m] == v[m + 1]);
        }
        lemma_slot_find(rest, k, j - 1, found);
        if found {
            assert(v.remove(j) =~= seq![v[0]] + rest.remove(j - 1));
        }
        assert(seq![v[0]] + rest =~= v);
    }
}

/// At its slot, storing under a key replaces or inserts there.
pub proof fn lemma_slot_upsert<W>(v: Seq<(Seq<char>, W)>, k: Seq<char>, x: W, j: int, found: bool)
    requires
        well_keyed(v),
        slot(v, k, j, found),
    ensures
        upsert(v, k, x) == (if found {
            v.update(j, (k, x))
        } else {
            v.insert(j, (k, x))
        }),
    decreases v.len(),
{
    if v.len() == 0 {
        assert(v.insert(j, (k, x)) =~= seq![(k, x)]);
        return;
    }
    lemma_rest_keyed(v);
    lemma_seq_less_irreflexive(k);
    if j == 0 {
        if !found {
            assert(v.insert(0, (k, x)) =~= seq![(k, x)] + v);
        }
    } else {
        let rest = v.drop_first();
        assert(seq_less(v[0].0, k));
        lemma_seq_less_total(v[0].0, k);
        assert forall|m: int| 0 <= m < j - 1 implies seq_less(#[trigger] rest[m].0, k) by {
            assert(rest[m] == v[m + 1]);
        }
        lemma_slot_upsert(rest, k, x, j - 1, found);
        if found {
            assert(v.update(j, (k, x)) =~= seq![v[0]] + rest.update(j - 1, (k, x)));
        } else {
            assert(v.insert(j, (k, x)) =~= seq![v[0]] + rest.insert(j - 1, (k, x)));
        }
    }
}

/// Storing and removing keep the entries well keyed.
pub proof fn lemma_well_keyed_after<W>(v: Seq<(Seq<char>, W)>, k: Seq<char>, x: W, j: int, found: bool)
    requires
        well_keyed(v),
        slot(v, k, j, found),
    ensures
        well_keyed(upsert(v, k, x)),
        well_keyed(remove_key(v, k)),
{
    lemma_slot_find(v, k, j, found);
    lemma_slot_upsert(v, k, x, j, found);
    let u = upsert(v, k, x);
    assert forall|a: int, b: int| 0 <= a < b < u.len() implies seq_less(
        #[trigger] u[a].0,
        #[trigger] u[b].0,
    ) by {
        if found {
            assert(u[a].0 == v[a].0 && u[b].0 == v[b].0);
        } else {
            if a < j && b == j {
                assert(u[a] == v[a]);
            } else if a < j && b > j {
                assert(u[a] == v[a] && u[b] == v[b - 1]);
                if b - 1 > j {
                    lemma_seq_less_transitive(k, v[j].0, v[b - 1].0);
                }
                lemma_seq_less_transitive(v[a].0, k, v[b - 1].0);
            } else if a == j {
                assert(u[b] == v[b - 1]);
                if b - 1 > j {
                    lemma_seq_less_transitive(k, v[j].0, v[b - 1].0);
                }
            } else if a > j {
                assert(u[a] == v[a - 1] && u[b] == v[b - 1]);
            } else {
                assert(u[a] == v[a] && u[b] == v[b]);
            }
        }
    }
    let r = remove_key(v, k);
    assert forall|a: int, b: int| 0 <= a < b < r.len() implies seq_less(
        #[trigger] r[a].0,
        #[trigger] r[b].0,
    ) by {
        if found {
            let a2 = if a < j {
                a
            } else {
                a + 1
            };
            let b2 = if b < j {
                b
            } else {
                b + 1
            };
            assert(r[a] == v[a2] && r[b] == v[b2]);
        } else {
            assert(r[a] == v[a] && r[b] == v[b]);
        }
    }
}

/// Where key `k` is, or goes, in well-keyed entries.
pub fn find_slot<V: DeepView>(v: &Vec<(String, V)>, k: &str) -> (r: (usize, bool))
    requires
        well_keyed(v.deep_view()),
    ensures
        slot(v.deep_view(), k@, r.0 as int, r.1),
{
    let ghost d = v.deep_view();
    let mut j: usize = 0;
    while j < v.len() && str_less(v[j].0.as_str(), k)
        invariant
            j <= v@.len(),
            d == v.deep_view(),
            forall|m: int| 0 <= m < j ==> seq_less(#[trigger] d[m].0, k@),
        decreases v@.len() - j,
    {
        assert(d[j as int].0 == v@[j as int].0@);
        j += 1;
    }
    if j < v.len() && str_equal(v[j].0.as_str(), k) {
        assert(d[j as int].0 == v@[j as int].0@);
        (j, true)
    } else {
        proof {
            if j < v@.len() {
                assert(d[j as int].0 == v@[j as int].0@);
                lemma_seq_less_total(d[j as int].0, k@);
            }
        }
        (j, false)
    }
}

/// The value of the entry with key `k`, if there is one.
pub fn get<'a, V: DeepView>(v: &'a Vec<(String, V)>, k: &str) -> (r: Option<&'a V>)
    requires
        well_keyed(v.deep_view()),
    ensures
        match r {
            Some(x) => lookup(v.deep_view(), k@) == Some(x.deep_view()),
            None => lookup(v.deep_view(), k@) is None,
        },
{
    let (j, found) = find_slot(v, k);
    proof {
        lemma_slot_find(v.deep_view(), k@, j as int, found);
    }
    if found {
        Some(&v[j].1)
    } else {
        None
    }
}

/// Stores `x` under `k`, in place of what was there.
pub fn put<V: DeepView>(v: &mut Vec<(String, V)>, k: String, x: V)
    requires
        well_keyed(old(v).deep_view()),
    ensures
        well_keyed(final(v).deep_view()),
        final(v).deep_view() == upsert(old(v).deep_view(), k@, x.deep_view()),
{
    let (j, found) = find_slot(v, k.as_str());
    let ghost d = v.deep_view();
    proof {
        lemma_slot_upsert(d, k@, x.deep_view(), j as int, found);
        lemma_well_keyed_after(d, k@, x.deep_view(), j as int, found);
    }
    let ghost kx = (k@, x.deep_view());
    if found {
        v.set(j, (k, x));
        assert(v.deep_view() =~= d.update(j as int, kx));
    } else {
        v.insert(j, (k, x));
        assert(v.deep_view() =~= d.insert(j as int, kx));
    }
}

/// Takes out the entry with key `k`, giving its value.
pub fn take<V: DeepView>(v: &mut Vec<(String, V)>, k: &str) -> (r: Option<V>)
    requires
        well_keyed(old(v).deep_view()),
    ensures
        well_keyed(final(v).deep_view()),
        final(v).deep_view() == remove_key(old(v).deep_view(), k@),
        match r {
            Some(x) => lookup(old(v).deep_view(), k@) == Some(x.deep_view()),
            None => lookup(old(v).deep_view(), k@) is None,
        },
{
    let (j, found) = find_slot(v, k);
    let ghost d = v.deep_view();
    proof {
        lemma_slot_find(d, k@, j as int, found);
        if j < d.len() {
            lemma_well_keyed_after(d, k@, d[j as int].1, j as int, found);
        }
    }
    if found {
        let (_, value) = v.remove(j);
        assert(v.deep_view() =~= d.remove(j as int));
        Some(value)
    } else {
        None
    }
}

/// A value stored under a key is what looking the key up gives, and other
/// keys keep their values.
pub proof fn law_lookup_after_upsert<W>(v: Seq<(Seq<char>, W)>, k: Seq<char>, x: W, j: Seq<char>)
    ensures
        lookup(upsert(v, k, x), k) == Some(x),
        j != k ==> lookup(upsert(v, k, x), j) == lookup(v, j),
    decreases v.len(),
{
    if v.len() == 0 {
        let u = upsert(v, k, x);
        assert(u.drop_first() =~= v);
    } else if v[0].0 == k {
        let u = upsert(v, k, x);
        assert(u[0] == (k, x));
        assert(u.drop_first() =~= v.drop_first());
    } else if seq_less(k, v[0].0) {
        let u = upsert(v, k, x);
        assert(u.drop_first() =~= v);
    } else {
        law_lookup_after_upsert(v.drop_first(), k, x, j);
        let u = upsert(v, k, x);
        assert(u.drop_first() =~= upsert(v.drop_first(), k, x));
    }
}

/// A removed key is gone, and other keys keep their values.
pub proof fn law_lookup_after_remove<W>(v: Seq<(Seq<char>, W)>, k: Seq<char>, j: Seq<char>)
    ensures
        lookup(remove_key(v, k), k) is None,
        j != k ==> lookup(remove_key(v, k), j) == lookup(v, j),
    decreases v.len(),
{
    if v.len() > 0 {
        law_lookup_after_remove(v.drop_first(), k, j);
        if v[0].0 != k {
            let r = remove_key(v, k);
            assert(r.drop_first() =~= remove_key(v.drop_first(), k));
        }
    }
}

} // verus!
