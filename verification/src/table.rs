//! Tables: lists of named entries in ascending order of the names.
use vstd::prelude::*;

use crate::text::{
    ascending, less, less_irreflexive, less_total, less_transitive, precedes, same, sorted_of, sorts,
};

verus! {

/// The value of the entry `key`.
pub open spec fn entry<V>(f: Seq<(Seq<char>, V)>, key: Seq<char>) -> Option<V>
    decreases f.len(),
{
    if f.len() == 0 {
        None
    } else if f[0].0 == key {
        Some(f[0].1)
    } else {
        entry(f.skip(1), key)
    }
}

/// The entries with `key` set to `v`, in the place that its order gives it.
pub open spec fn put<V>(f: Seq<(Seq<char>, V)>, key: Seq<char>, v: V) -> Seq<(Seq<char>, V)>
    decreases f.len(),
{
    if f.len() == 0 {
        seq![(key, v)]
    } else if f[0].0 == key {
        seq![(key, v)] + f.skip(1)
    } else if less(key, f[0].0) {
        seq![(key, v)] + f
    } else {
        seq![f[0]] + put(f.skip(1), key, v)
    }
}

/// The entries without the first one named `key`.
pub open spec fn without<V>(f: Seq<(Seq<char>, V)>, key: Seq<char>) -> Seq<(Seq<char>, V)>
    decreases f.len(),
{
    if f.len() == 0 {
        f
    } else if f[0].0 == key {
        f.skip(1)
    } else {
        seq![f[0]] + without(f.skip(1), key)
    }
}

/// The names ascend, so no name stands twice.
pub open spec fn ordered<V>(f: Seq<(Seq<char>, V)>) -> bool {
    forall|i: int, j: int|
        0 <= i < j < f.len() ==> less((#[trigger] f[i]).0, (#[trigger] f[j]).0)
}

proof fn lemma_entry_index<V>(f: Seq<(Seq<char>, V)>, key: Seq<char>, k: int)
    requires
        0 <= k <= f.len(),
        forall|i: int| 0 <= i < k ==> (#[trigger] f[i]).0 != key,
        k < f.len() ==> f[k].0 == key,
    ensures
        entry(f, key) == (if k < f.len() {
            Some(f[k].1)
        } else {
            None
        }),
    decreases k,
{
    if k > 0 {
        assert(f[0].0 != key);
        assert forall|i: int| 0 <= i < k - 1 implies (#[trigger] f.skip(1)[i]).0 != key by {
            assert(f.skip(1)[i] == f[i + 1]);
        }
        lemma_entry_index(f.skip(1), key, k - 1);
    }
}

proof fn lemma_ordered_tail<V>(f: Seq<(Seq<char>, V)>)
    requires
        ordered(f),
        f.len() > 0,
    ensures
        ordered(f.skip(1)),
{
    assert forall|i: int, j: int| 0 <= i < j < f.skip(1).len() implies less(
        (#[trigger] f.skip(1)[i]).0,
        (#[trigger] f.skip(1)[j]).0,
    ) by {
        assert(f.skip(1)[i] == f[i + 1]);
        assert(f.skip(1)[j] == f[j + 1]);
    }
}

proof fn lemma_without_index<V>(f: Seq<(Seq<char>, V)>, key: Seq<char>, k: int)
    requires
        0 <= k < f.len(),
        forall|i: int| 0 <= i < k ==> (#[trigger] f[i]).0 != key,
        f[k].0 == key,
    ensures
        without(f, key) == f.remove(k),
    decreases k,
{
    if k > 0 {
        assert(f[0].0 != key);
        assert forall|i: int| 0 <= i < k - 1 implies (#[trigger] f.skip(1)[i]).0 != key by {
            assert(f.skip(1)[i] == f[i + 1]);
        }
        lemma_without_index(f.skip(1), key, k - 1);
        assert(seq![f[0]] + f.skip(1).remove(k - 1) =~= f.remove(k));
    } else {
        assert(f.skip(1) =~= f.remove(0));
    }
}

/// The index of the entry `key`.
pub fn find_entry<T: DeepView>(f: &Vec<(String, T)>, key: &str) -> (r: Option<usize>)
    ensures
        match r {
            Some(i) => i < f@.len() && f@[i as int].0@ == key@ && entry(f.deep_view(), key@) == Some(
                f@[i as int].1.deep_view(),
            ) && without(f.deep_view(), key@) == f.deep_view().remove(i as int),
            None => entry(f.deep_view(), key@) is None,
        },
{
    for i in 0..f.len()
        invariant
            forall|j: int| 0 <= j < i ==> (#[trigger] f@[j]).0@ != key@,
    {
        if same(f[i].0.as_str(), key) {
            proof {
                assert forall|j: int| 0 <= j < i implies (#[trigger] f.deep_view()[j]).0
                    != key@ by {
                    assert(f@[j].0@ != key@);
                }
                lemma_entry_index(f.deep_view(), key@, i as int);
                lemma_without_index(f.deep_view(), key@, i as int);
            }
            return Some(i);
        }
    }
    proof {
        assert forall|j: int| 0 <= j < f@.len() implies (#[trigger] f.deep_view()[j]).0 != key@ by {
            assert(f@[j].0@ != key@);
        }
        lemma_entry_index(f.deep_view(), key@, f@.len() as int);
    }
    None
}

proof fn lemma_put_at<V>(f: Seq<(Seq<char>, V)>, key: Seq<char>, v: V, k: int)
    requires
        0 <= k <= f.len(),
        forall|i: int| 0 <= i < k ==> less((#[trigger] f[i]).0, key),
        k < f.len() ==> f[k].0 == key || less(key, f[k].0),
    ensures
        put(f, key, v) == (if k < f.len() && f[k].0 == key {
            f.update(k, (key, v))
        } else {
            f.insert(k, (key, v))
        }),
    decreases k,
{
    if k > 0 {
        assert(less(f[0].0, key));
        less_irreflexive(key);
        if less(key, f[0].0) {
            less_transitive(key, f[0].0, key);
        }
        let t = f.skip(1);
        assert forall|i: int| 0 <= i < k - 1 implies less((#[trigger] t[i]).0, key) by {
            assert(t[i] == f[i + 1]);
        }
        lemma_put_at(t, key, v, k - 1);
        if k < f.len() && f[k].0 == key {
            assert(seq![f[0]] + t.update(k - 1, (key, v)) =~= f.update(k, (key, v)));
        } else {
            assert(seq![f[0]] + t.insert(k - 1, (key, v)) =~= f.insert(k, (key, v)));
        }
    } else if f.len() > 0 {
        if f[0].0 == key {
            assert(seq![(key, v)] + f.skip(1) =~= f.update(0, (key, v)));
        } else {
            assert(seq![(key, v)] + f =~= f.insert(0, (key, v)));
        }
    } else {
        assert(seq![(key, v)] =~= f.insert(0, (key, v)));
    }
}

/// Sets the entry `key`.
pub fn put_entry<T: DeepView>(f: &mut Vec<(String, T)>, key: String, v: T)
    requires
        ordered(old(f).deep_view()),
    ensures
        final(f).deep_view() == put(old(f).deep_view(), key@, v.deep_view()),
{
    let n = f.len();
    let mut i: usize = 0;
    let ghost g = f.deep_view();
    while i < n && precedes(f[i].0.as_str(), key.as_str())
        invariant
            n == f@.len(),
            i <= n,
            g == f.deep_view(),
            forall|j: int| 0 <= j < i ==> less((#[trigger] g[j]).0, key@),
        decreases n - i,
    {
        i = i + 1;
    }
    proof {
        if i < n {
            less_total(g[i as int].0, key@);
        }
        lemma_put_at(g, key@, v.deep_view(), i as int);
    }
    let ghost kv = (key@, v.deep_view());
    if i < n && same(f[i].0.as_str(), key.as_str()) {
        f.set(i, (key, v));
        assert(f.deep_view() =~= g.update(i as int, kv));
    } else {
        f.insert(i, (key, v));
        assert(f.deep_view() =~= g.insert(i as int, kv));
    }
}

/// An entry that was set reads back; every other entry is as it was; the order
/// of the names is kept.
pub proof fn put_law<V>(f: Seq<(Seq<char>, V)>, key: Seq<char>, v: V, other: Seq<char>)
    requires
        ordered(f),
    ensures
        entry(put(f, key, v), key) == Some(v),
        other != key ==> entry(put(f, key, v), other) == entry(f, other),
        ordered(put(f, key, v)),
        forall|i: int| 0 <= i < put(f, key, v).len() ==> (#[trigger] put(f, key, v)[i]) == (key, v)
            || f.contains(put(f, key, v)[i]),
    decreases f.len(),
{
    let p = put(f, key, v);
    less_irreflexive(key);
    if f.len() == 0 {
        let none: Seq<(Seq<char>, V)> = Seq::empty();
        assert(p.skip(1) =~= none);
        assert(entry(none, other) is None);
    } else if f[0].0 == key {
        assert(p.skip(1) =~= f.skip(1));
        assert forall|i: int, j: int| 0 <= i < j < p.len() implies less(
            (#[trigger] p[i]).0,
            (#[trigger] p[j]).0,
        ) by {
            assert(p[i].0 == f[i].0 && p[j].0 == f[j].0);
        }
        assert forall|i: int| 0 <= i < p.len() implies (#[trigger] p[i]) == (key, v) || f.contains(
            p[i],
        ) by {
            if i > 0 {
                assert(p[i] == f[i]);
            }
        }
    } else if less(key, f[0].0) {
        assert(p.skip(1) =~= f);
        assert forall|i: int, j: int| 0 <= i < j < p.len() implies less(
            (#[trigger] p[i]).0,
            (#[trigger] p[j]).0,
        ) by {
            assert(p[j] == f[j - 1]);
            if i == 0 {
                if j > 1 {
                    less_transitive(key, f[0].0, f[j - 1].0);
                }
            } else {
                assert(p[i] == f[i - 1]);
            }
        }
        assert forall|i: int| 0 <= i < p.len() implies (#[trigger] p[i]) == (key, v) || f.contains(
            p[i],
        ) by {
            if i > 0 {
                assert(p[i] == f[i - 1]);
            }
        }
    } else {
        let t = f.skip(1);
        let q = put(t, key, v);
        lemma_ordered_tail(f);
        put_law(t, key, v, other);
        assert(p.skip(1) =~= q);
        assert forall|i: int| 0 <= i < p.len() implies (#[trigger] p[i]) == (key, v) || f.contains(
            p[i],
        ) by {
            if i == 0 {
                assert(f[0] == p[0]);
            } else {
                assert(p[i] == q[i - 1]);
                if q[i - 1] != (key, v) {
                    let k = choose|k: int| 0 <= k < t.len() && t[k] == q[i - 1];
                    assert(f[k + 1] == q[i - 1]);
                }
            }
        }
        less_total(f[0].0, key);
        assert forall|i: int, j: int| 0 <= i < j < p.len() implies less(
            (#[trigger] p[i]).0,
            (#[trigger] p[j]).0,
        ) by {
            assert(p[j] == q[j - 1]);
            if i == 0 {
                if q[j - 1] != (key, v) {
                    let k = choose|k: int| 0 <= k < t.len() && t[k] == q[j - 1];
                    assert(f[k + 1] == q[j - 1]);
                    assert(less(f[0].0, f[k + 1].0));
                }
            } else {
                assert(p[i] == q[i - 1]);
            }
        }
    }
}

/// Takes the entry `key` out, where there is one.
pub fn remove_entry<T: DeepView>(f: &mut Vec<(String, T)>, key: &str) -> (r: bool)
    ensures
        r == (entry(old(f).deep_view(), key@) is Some),
        r ==> final(f).deep_view() == without(old(f).deep_view(), key@),
        !r ==> final(f).deep_view() == old(f).deep_view(),
{
    match find_entry(f, key) {
        Some(i) => {
            let ghost g = f.deep_view();
            f.remove(i);
            assert(f.deep_view() =~= g.remove(i as int));
            true
        },
        None => false,
    }
}

/// What was removed is gone, every other entry is as it was, the order of the
/// names is kept, and removing a new entry undoes setting it.
pub proof fn remove_law<V>(f: Seq<(Seq<char>, V)>, key: Seq<char>, v: V, other: Seq<char>)
    requires
        ordered(f),
    ensures
        entry(without(f, key), key) is None,
        other != key ==> entry(without(f, key), other) == entry(f, other),
        ordered(without(f, key)),
        entry(f, key) is None ==> without(put(f, key, v), key) == f,
    decreases f.len(),
{
    if f.len() == 0 {
        let none: Seq<(Seq<char>, V)> = Seq::empty();
        assert(put(f, key, v).skip(1) =~= none);
        assert(f =~= none);
    } else {
        let t = f.skip(1);
        lemma_ordered_tail(f);
        remove_law(t, key, v, other);
        let w = without(f, key);
        if f[0].0 == key {
            assert forall|i: int| 0 <= i < t.len() implies (#[trigger] t[i]).0 != key by {
                assert(t[i] == f[i + 1]);
                assert(less(f[0].0, f[i + 1].0));
                less_irreflexive(key);
            }
            lemma_entry_index(t, key, t.len() as int);
        } else {
            let u = without(t, key);
            assert(w.skip(1) =~= u);
            assert(w[0] == f[0]);
            assert forall|i: int| 0 <= i < u.len() implies t.contains(#[trigger] u[i]) by {
                lemma_without_subset(t, key, i);
            }
            assert forall|i: int, j: int| 0 <= i < j < w.len() implies less(
                (#[trigger] w[i]).0,
                (#[trigger] w[j]).0,
            ) by {
                assert(w[j] == u[j - 1]);
                if i == 0 {
                    assert(t.contains(u[j - 1]));
                    let k = choose|k: int| 0 <= k < t.len() && t[k] == u[j - 1];
                    assert(f[k + 1] == u[j - 1]);
                } else {
                    assert(w[i] == u[i - 1]);
                }
            }
            let p = put(f, key, v);
            if less(key, f[0].0) {
                assert(p.skip(1) =~= f);
            } else {
                assert(p.skip(1) =~= put(t, key, v));
                assert(f =~= seq![f[0]] + t);
            }
        }
    }
}

proof fn lemma_without_subset<V>(f: Seq<(Seq<char>, V)>, key: Seq<char>, i: int)
    requires
        0 <= i < without(f, key).len(),
    ensures
        f.contains(without(f, key)[i]),
    decreases f.len(),
{
    let w = without(f, key);
    if f.len() > 0 {
        if f[0].0 == key {
            assert(w[i] == f[i + 1]);
        } else if i == 0 {
            assert(w[0] == f[0]);
        } else {
            lemma_without_subset(f.skip(1), key, i - 1);
            assert(w[i] == without(f.skip(1), key)[i - 1]);
            let k = choose|k: int| 0 <= k < f.skip(1).len() && f.skip(1)[k] == w[i];
            assert(f[k + 1] == w[i]);
        }
    }
}

/// What a table has under a key stands in it.
pub proof fn lemma_entry_in<V>(f: Seq<(Seq<char>, V)>, key: Seq<char>)
    requires
        entry(f, key) is Some,
    ensures
        exists|i: int| 0 <= i < f.len() && #[trigger] f[i] == (key, entry(f, key)->0),
    decreases f.len(),
{
    if f[0].0 == key {
        assert(f[0] == (key, entry(f, key)->0));
    } else {
        lemma_entry_in(f.skip(1), key);
        let i = choose|i: int|
            0 <= i < f.skip(1).len() && #[trigger] f.skip(1)[i] == (key, entry(f, key)->0);
        assert(f[i + 1] == (key, entry(f, key)->0));
    }
}

/// Replacing an entry is the same as removing it and putting the new one in.
pub proof fn put_without<V>(f: Seq<(Seq<char>, V)>, key: Seq<char>, v: V)
    requires
        ordered(f),
    ensures
        put(without(f, key), key, v) == put(f, key, v),
    decreases f.len(),
{
    if f.len() > 0 {
        let t = f.skip(1);
        lemma_ordered_tail(f);
        if f[0].0 == key {
            if t.len() > 0 {
                assert(t[0] == f[1]);
                less_irreflexive(key);
                assert(less(f[0].0, f[1].0));
            }
            assert(put(t, key, v) =~= seq![(key, v)] + t);
        } else if less(key, f[0].0) {
            assert forall|i: int| 0 <= i < f.len() implies (#[trigger] f[i]).0 != key by {
                less_irreflexive(key);
                if i > 0 {
                    less_transitive(key, f[0].0, f[i].0);
                }
            }
            lemma_entry_index(f, key, f.len() as int);
            lemma_without_none(f, key);
        } else {
            put_without(t, key, v);
            let w = without(f, key);
            assert(w.skip(1) =~= without(t, key));
            assert(w[0] == f[0]);
        }
    }
}

proof fn lemma_without_none<V>(f: Seq<(Seq<char>, V)>, key: Seq<char>)
    requires
        entry(f, key) is None,
    ensures
        without(f, key) == f,
    decreases f.len(),
{
    if f.len() > 0 {
        lemma_without_none(f.skip(1), key);
        assert(seq![f[0]] + f.skip(1) =~= f);
    }
}

// ---------------------------------------------------------------------------
// Tables by two names
// ---------------------------------------------------------------------------

/// A pair of names.
pub type Pair = (Seq<char>, Seq<char>);

/// Entries by two names, each pair once.
#[derive(Debug)]
pub struct PairTable<T> {
    pub entries: Vec<((String, String), T)>,
}

/// The names are different, pair by pair.
pub open spec fn distinct<V>(f: Seq<(Pair, V)>) -> bool {
    forall|i: int, j: int| 0 <= i < j < f.len() ==> (#[trigger] f[i]).0 != (#[trigger] f[j]).0
}

/// The entries as a map.
pub open spec fn map_of<V>(f: Seq<(Pair, V)>) -> Map<Pair, V>
    decreases f.len(),
{
    if f.len() == 0 {
        Map::empty()
    } else {
        map_of(f.drop_last()).insert(f.last().0, f.last().1)
    }
}

impl<T: DeepView> View for PairTable<T> {
    type V = Map<Pair, T::V>;

    open spec fn view(&self) -> Map<Pair, T::V> {
        map_of(self.entries.deep_view())
    }
}

proof fn lemma_map_of<V>(f: Seq<(Pair, V)>, k: Pair)
    ensures
        map_of(f).contains_key(k) <==> exists|i: int| 0 <= i < f.len() && (#[trigger] f[i]).0 == k,
        distinct(f) ==> forall|i: int|
            0 <= i < f.len() && (#[trigger] f[i]).0 == k ==> map_of(f)[k] == f[i].1,
    decreases f.len(),
{
    if f.len() > 0 {
        let t = f.drop_last();
        lemma_map_of(t, k);
        if map_of(t).contains_key(k) {
            let i = choose|i: int| 0 <= i < t.len() && (#[trigger] t[i]).0 == k;
            assert(f[i].0 == k);
        }
        if f.last().0 == k {
            assert(f[f.len() - 1].0 == k);
        }
        if exists|i: int| 0 <= i < f.len() && (#[trigger] f[i]).0 == k {
            let i = choose|i: int| 0 <= i < f.len() && (#[trigger] f[i]).0 == k;
            if i < t.len() {
                assert(t[i].0 == k);
            }
        }
        if distinct(f) {
            assert(distinct(t)) by {
                assert forall|i: int, j: int| 0 <= i < j < t.len() implies (#[trigger] t[i]).0 != (
                #[trigger] t[j]).0 by {
                    assert(t[i] == f[i] && t[j] == f[j]);
                }
            }
            assert forall|i: int| 0 <= i < f.len() && (#[trigger] f[i]).0 == k implies map_of(f)[k]
                == f[i].1 by {
                if i < t.len() {
                    assert(t[i] == f[i]);
                    assert(f[i].0 != f[f.len() - 1].0);
                }
            }
        }
    }
}

proof fn lemma_map_remove<V>(f: Seq<(Pair, V)>, i: int)
    requires
        distinct(f),
        0 <= i < f.len(),
    ensures
        distinct(f.remove(i)),
        map_of(f.remove(i)) == map_of(f).remove(f[i].0),
{
    let g = f.remove(i);
    let key = f[i].0;
    assert forall|k: int| 0 <= k < g.len() implies #[trigger] g[k] == (if k < i {
        f[k]
    } else {
        f[k + 1]
    }) by {}
    assert(distinct(g));
    assert forall|k: Pair| #[trigger] map_of(g).contains_key(k) == (map_of(f).contains_key(k) && k
        != key) by {
        lemma_map_of(f, k);
        lemma_map_of(g, k);
        if map_of(f).contains_key(k) && k != key {
            let j = choose|j: int| 0 <= j < f.len() && (#[trigger] f[j]).0 == k;
            if j < i {
                assert(g[j].0 == k);
            } else {
                assert(g[j - 1].0 == k);
            }
        }
        if map_of(g).contains_key(k) {
            let j = choose|j: int| 0 <= j < g.len() && (#[trigger] g[j]).0 == k;
            if j < i {
                assert(f[j].0 == k);
            } else {
                assert(f[j + 1].0 == k);
            }
        }
    }
    assert forall|k: Pair| #[trigger] map_of(g).contains_key(k) implies map_of(g)[k] == map_of(f)[k] by {
        lemma_map_of(f, k);
        lemma_map_of(g, k);
        let j = choose|j: int| 0 <= j < g.len() && (#[trigger] g[j]).0 == k;
        if j < i {
            assert(f[j] == g[j]);
        } else {
            assert(f[j + 1] == g[j]);
        }
    }
    assert(map_of(g) =~= map_of(f).remove(key));
}

impl<T: DeepView> PairTable<T> {
    /// Each pair of names is there once.
    pub open spec fn wf(&self) -> bool {
        distinct(self.entries.deep_view())
    }

    /// With no entries.
    pub fn new() -> (r: PairTable<T>)
        ensures
            r.wf(),
            r@ == Map::<Pair, T::V>::empty(),
    {
        PairTable { entries: Vec::new() }
    }

    /// Where the entry of a pair of names is.
    pub fn position(&self, a: &str, b: &str) -> (r: Option<usize>)
        requires
            self.wf(),
        ensures
            match r {
                Some(i) => i < self.entries@.len() && self@.contains_key((a@, b@))
                    && self.entries.deep_view()[i as int] == ((a@, b@), self@[(a@, b@)]),
                None => !self@.contains_key((a@, b@)),
            },
    {
        let ghost f = self.entries.deep_view();
        proof {
            lemma_map_of(f, (a@, b@));
        }
        for i in 0..self.entries.len()
            invariant
                f == self.entries.deep_view(),
                self.wf(),
                map_of(f).contains_key((a@, b@)) <==> exists|i: int|
                    0 <= i < f.len() && (#[trigger] f[i]).0 == (a@, b@),
                forall|i: int|
                    0 <= i < f.len() && (#[trigger] f[i]).0 == (a@, b@) ==> map_of(f)[(a@, b@)]
                        == f[i].1,
                forall|j: int| 0 <= j < i ==> (#[trigger] f[j]).0 != (a@, b@),
        {
            let e = &self.entries[i];
            assert(f[i as int] == ((e.0.0@, e.0.1@), e.1.deep_view()));
            if same(e.0.0.as_str(), a) && same(e.0.1.as_str(), b) {
                assert(f[i as int].0 == (a@, b@));
                return Some(i);
            }
        }
        None
    }

    /// The entry of a pair of names.
    pub fn get(&self, a: &str, b: &str) -> (r: Option<&T>)
        requires
            self.wf(),
        ensures
            match r {
                Some(v) => self@.contains_key((a@, b@)) && self@[(a@, b@)] == v.deep_view(),
                None => !self@.contains_key((a@, b@)),
            },
    {
        match self.position(a, b) {
            Some(i) => {
                let e = &self.entries[i];
                assert(self.entries.deep_view()[i as int] == (
                    (e.0.0@, e.0.1@),
                    e.1.deep_view(),
                ));
                Some(&e.1)
            },
            None => None,
        }
    }

    /// Takes the entry of a pair of names out.
    pub fn remove(&mut self, a: &str, b: &str)
        requires
            old(self).wf(),
        ensures
            final(self).wf(),
            final(self)@ == old(self)@.remove((a@, b@)),
    {
        let ghost f = self.entries.deep_view();
        match self.position(a, b) {
            Some(i) => {
                self.entries.remove(i);
                proof {
                    lemma_map_remove(f, i as int);
                    assert(self.entries.deep_view() =~= f.remove(i as int));
                }
            },
            None => {
                assert(self@ =~= self@.remove((a@, b@)));
            },
        }
    }

    /// Puts an entry in, in place of the one that there may be.
    pub fn insert(&mut self, a: String, b: String, v: T)
        requires
            old(self).wf(),
        ensures
            final(self).wf(),
            final(self)@ == old(self)@.insert((a@, b@), v.deep_view()),
    {
        let ghost m = self@;
        let ghost key = (a@, b@);
        let ghost value = v.deep_view();
        self.remove(a.as_str(), b.as_str());
        let ghost f = self.entries.deep_view();
        proof {
            lemma_map_of(f, key);
        }
        self.entries.push(((a, b), v));
        proof {
            let g = self.entries.deep_view();
            assert(g =~= f.push((key, value)));
            assert(g.drop_last() =~= f);
            assert forall|i: int, j: int| 0 <= i < j < g.len() implies (#[trigger] g[i]).0 != (
            #[trigger] g[j]).0 by {
                assert(g[i] == f[i]);
                if j < f.len() {
                    assert(g[j] == f[j]);
                }
            }
            assert(self@ =~= m.insert(key, value));
        }
    }
}

/// The strings of a list as the names of a table.
spec fn table_of(list: Seq<Seq<char>>) -> Seq<(Seq<char>, bool)>
    decreases list.len(),
{
    if list.len() == 0 {
        Seq::empty()
    } else {
        put(table_of(list.drop_last()), list.last(), true)
    }
}

proof fn lemma_entry_at<V>(f: Seq<(Seq<char>, V)>, k: int)
    requires
        0 <= k < f.len(),
    ensures
        entry(f, f[k].0) is Some,
    decreases f.len(),
{
    if f[0].0 != f[k].0 {
        assert(f.skip(1)[k - 1] == f[k]);
        lemma_entry_at(f.skip(1), k - 1);
    }
}

proof fn lemma_table_of(list: Seq<Seq<char>>, x: Seq<char>)
    ensures
        ordered(table_of(list)),
        entry(table_of(list), x) is Some == list.contains(x),
    decreases list.len(),
{
    if list.len() > 0 {
        let t = list.drop_last();
        lemma_table_of(t, x);
        put_law(table_of(t), list.last(), true, x);
        if list.contains(x) && x != list.last() {
            let i = choose|i: int| 0 <= i < list.len() && list[i] == x;
            assert(t[i] == x);
        }
        if t.contains(x) {
            let i = choose|i: int| 0 <= i < t.len() && t[i] == x;
            assert(list[i] == x);
        }
        if x == list.last() {
            assert(list[list.len() - 1] == x);
        }
    }
}

/// Every list of strings can be sorted: its sorted form holds the same strings,
/// ascending and each of them once.
pub proof fn sorted_law(list: Seq<Seq<char>>)
    ensures
        ascending(sorted_of(list)),
        forall|x: Seq<char>| #[trigger] sorted_of(list).contains(x) <==> list.contains(x),
{
    let t = table_of(list);
    let r = t.map_values(|e: (Seq<char>, bool)| e.0);
    lemma_table_of(list, Seq::empty());
    assert forall|i: int, j: int| 0 <= i < j < r.len() implies less(
        #[trigger] r[i],
        #[trigger] r[j],
    ) by {
        assert(less(t[i].0, t[j].0));
    }
    assert forall|x: Seq<char>| #[trigger] r.contains(x) <==> list.contains(x) by {
        lemma_table_of(list, x);
        if r.contains(x) {
            let i = choose|i: int| 0 <= i < r.len() && r[i] == x;
            lemma_entry_at(t, i);
        }
        if list.contains(x) {
            lemma_entry_in(t, x);
            let i = choose|i: int| 0 <= i < t.len() && #[trigger] t[i] == (x, entry(t, x)->0);
            assert(r[i] == x);
        }
    }
    assert(sorts(r, list));
}

} // verus!
