//! What it means to sort and keep the order of equals.
use vstd::prelude::*;

verus! {

/// The items with the key `k`, in order.
pub open spec fn with_key<A, K>(l: Seq<A>, key: spec_fn(A) -> K, k: K) -> Seq<A> {
    l.filter(|a: A| key(a) == k)
}

/// The items with a given key stand in the same order in both lists, for every
/// key. So the lists hold the same items.
pub open spec fn keeps_order<A, K>(r: Seq<A>, l: Seq<A>, key: spec_fn(A) -> K) -> bool {
    forall|k: K| with_key(r, key, k) == #[trigger] with_key(l, key, k)
}

proof fn lemma_filter_one<A>(x: A, p: spec_fn(A) -> bool)
    ensures
        seq![x].filter(p) == (if p(x) {
            seq![x]
        } else {
            Seq::empty()
        }),
{
    reveal(Seq::filter);
    assert(seq![x].drop_last() =~= Seq::empty());
    assert(Seq::<A>::empty().filter(p) =~= Seq::empty());
    assert(Seq::<A>::empty().push(x) =~= seq![x]);
}

proof fn lemma_filter_none<A>(s: Seq<A>, p: spec_fn(A) -> bool)
    requires
        forall|i: int| 0 <= i < s.len() ==> !p(#[trigger] s[i]),
    ensures
        s.filter(p) == Seq::<A>::empty(),
    decreases s.len(),
{
    reveal(Seq::filter);
    if s.len() > 0 {
        assert forall|i: int| 0 <= i < s.drop_last().len() implies !p(
            #[trigger] s.drop_last()[i],
        ) by {
            assert(s.drop_last()[i] == s[i]);
        }
        lemma_filter_none(s.drop_last(), p);
        assert(!p(s[s.len() - 1]));
    }
}

/// Putting an item in before items of other keys changes no more than putting
/// it at the end.
proof fn lemma_insert<A, K>(s: Seq<A>, x: A, i: int, key: spec_fn(A) -> K, k: K)
    requires
        0 <= i <= s.len(),
        forall|j: int| i <= j < s.len() ==> key(#[trigger] s[j]) != key(x),
    ensures
        with_key(s.insert(i, x), key, k) == with_key(s.push(x), key, k),
{
    let p = |a: A| key(a) == k;
    let head = s.take(i);
    let tail = s.skip(i);
    assert(s.insert(i, x) =~= head + seq![x] + tail);
    assert(s.push(x) =~= head + tail + seq![x]);
    Seq::filter_distributes_over_add(head + seq![x], tail, p);
    Seq::filter_distributes_over_add(head, seq![x], p);
    Seq::filter_distributes_over_add(head + tail, seq![x], p);
    Seq::filter_distributes_over_add(head, tail, p);
    lemma_filter_one(x, p);
    if key(x) == k {
        assert forall|j: int| 0 <= j < tail.len() implies !p(#[trigger] tail[j]) by {
            assert(tail[j] == s[i + j]);
        }
        lemma_filter_none(tail, p);
    }
    assert(head.filter(p) + seq![x].filter(p) + tail.filter(p) =~= head.filter(p) + tail.filter(p)
        + seq![x].filter(p));
}

/// One step of an insertion sort: `done` holds the first items of the list, and
/// the next item `x` is put in before items of other keys only.
pub proof fn lemma_insertion<A, K>(
    done: Seq<A>,
    taken: Seq<A>,
    x: A,
    i: int,
    key: spec_fn(A) -> K,
)
    requires
        keeps_order(done, taken, key),
        0 <= i <= done.len(),
        forall|j: int| i <= j < done.len() ==> key(#[trigger] done[j]) != key(x),
    ensures
        keeps_order(done.insert(i, x), taken.push(x), key),
{
    assert forall|k: K|
        with_key(done.insert(i, x), key, k) == #[trigger] with_key(taken.push(x), key, k) by {
        let p = |a: A| key(a) == k;
        lemma_insert(done, x, i, key, k);
        assert(done.push(x) =~= done + seq![x]);
        assert(taken.push(x) =~= taken + seq![x]);
        Seq::filter_distributes_over_add(done, seq![x], p);
        Seq::filter_distributes_over_add(taken, seq![x], p);
        assert(with_key(done, key, k) == with_key(taken, key, k));
    }
}

/// Lists that keep the order of equals hold the same items.
pub proof fn same_items<A, K>(r: Seq<A>, l: Seq<A>, key: spec_fn(A) -> K, x: A)
    requires
        keeps_order(r, l, key),
    ensures
        r.contains(x) <==> l.contains(x),
{
    let k = key(x);
    assert(with_key(r, key, k) == with_key(l, key, k));
    lemma_among(r, key, x);
    lemma_among(l, key, x);
}

proof fn lemma_among<A, K>(l: Seq<A>, key: spec_fn(A) -> K, x: A)
    ensures
        with_key(l, key, key(x)).contains(x) <==> l.contains(x),
    decreases l.len(),
{
    reveal(Seq::filter);
    let p = |a: A| key(a) == key(x);
    let f = l.filter(p);
    if l.len() > 0 {
        let t = l.drop_last();
        lemma_among(t, key, x);
        let g = t.filter(p);
        assert(f == if p(l.last()) {
            g.push(l.last())
        } else {
            g
        });
        if g.contains(x) {
            let i = choose|i: int| 0 <= i < g.len() && g[i] == x;
            assert(f[i] == x);
            let j = choose|j: int| 0 <= j < t.len() && t[j] == x;
            assert(l[j] == x);
        }
        if l.last() == x {
            assert(f[f.len() - 1] == x);
            assert(l[l.len() - 1] == x);
        }
        if f.contains(x) {
            let i = choose|i: int| 0 <= i < f.len() && f[i] == x;
            if i < g.len() {
                assert(g[i] == x);
            }
        }
        if l.contains(x) {
            let j = choose|j: int| 0 <= j < l.len() && l[j] == x;
            if j < t.len() {
                assert(t[j] == x);
            }
        }
    }
}

} // verus!
