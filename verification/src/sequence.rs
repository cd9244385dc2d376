//! Facts about sequences: filtering step by step, and stable ordering by an integer key.

use vstd::prelude::*;

verus! {

/// Taking one more element before filtering adds that element if it passes, and nothing
/// otherwise.
pub proof fn lemma_filter_take_step<A>(s: Seq<A>, pred: spec_fn(A) -> bool, i: int)
    requires
        0 <= i < s.len(),
    ensures
        s.take(i + 1).filter(pred) == if pred(s[i]) {
            s.take(i).filter(pred).push(s[i])
        } else {
            s.take(i).filter(pred)
        },
{
    reveal(Seq::filter);
    assert(s.take(i + 1).drop_last() == s.take(i));
    assert(s.take(i + 1).last() == s[i]);
}

/// The keys of `s` never go down from one element to the next.
pub open spec fn sorted_by<T>(s: Seq<T>, key: spec_fn(T) -> int) -> bool {
    forall|i: int, j: int| 0 <= i <= j < s.len() ==> key(#[trigger] s[i]) <= key(#[trigger] s[j])
}

/// The elements whose key is `k`.
pub open spec fn with_key<T>(key: spec_fn(T) -> int, k: int) -> spec_fn(T) -> bool {
    |x: T| key(x) == k
}

/// `r` holds the elements of `s` in ascending order of `key`, and the elements of any
/// one key stand in `r` in the order in which they stand in `s`.
pub open spec fn is_stable_sort_of<T>(r: Seq<T>, s: Seq<T>, key: spec_fn(T) -> int) -> bool {
    &&& sorted_by(r, key)
    &&& forall|k: int| #[trigger] r.filter(with_key(key, k)) == s.filter(with_key(key, k))
}

/// No element of `s` has the key `k`: the filter on `k` is empty.
proof fn lemma_filter_none<T>(s: Seq<T>, key: spec_fn(T) -> int, k: int)
    requires
        forall|i: int| 0 <= i < s.len() ==> key(#[trigger] s[i]) != k,
    ensures
        s.filter(with_key(key, k)) == Seq::<T>::empty(),
    decreases s.len(),
{
    reveal(Seq::filter);
    if s.len() > 0 {
        assert(forall|i: int|
            0 <= i < s.drop_last().len() ==> #[trigger] s.drop_last()[i] == s[i]);
        lemma_filter_none(s.drop_last(), key, k);
    }
}

/// Putting `x` after every element of `r` whose key is not above its own, and before all
/// others, keeps `r` the stable sort of what went in, `x` having gone in last.
pub proof fn lemma_insert_keeps_stable_sort<T>(
    r: Seq<T>,
    s: Seq<T>,
    key: spec_fn(T) -> int,
    x: T,
    p: int,
)
    requires
        is_stable_sort_of(r, s, key),
        0 <= p <= r.len(),
        forall|i: int| 0 <= i < p ==> key(#[trigger] r[i]) <= key(x),
        forall|i: int| p <= i < r.len() ==> key(#[trigger] r[i]) > key(x),
    ensures
        is_stable_sort_of(r.insert(p, x), s.push(x), key),
{
    let r2 = r.insert(p, x);
    let head = r.subrange(0, p);
    let tail = r.subrange(p, r.len() as int);
    assert(r == head + tail);
    assert(r2 == head + seq![x] + tail);
    assert forall|i: int, j: int| 0 <= i <= j < r2.len() implies key(#[trigger] r2[i]) <= key(
        #[trigger] r2[j],
    ) by {
        if i < p {
            assert(r2[i] == r[i]);
        } else if i > p {
            assert(r2[i] == r[i - 1]);
        }
        if j < p {
            assert(r2[j] == r[j]);
        } else if j > p {
            assert(r2[j] == r[j - 1]);
        }
    }
    assert forall|k: int| #[trigger] r2.filter(with_key(key, k)) == s.push(x).filter(
        with_key(key, k),
    ) by {
        let pred = with_key(key, k);
        assert(r.filter(pred) == s.filter(pred));
        Seq::filter_distributes_over_add(head, tail, pred);
        Seq::filter_distributes_over_add(head, seq![x], pred);
        Seq::filter_distributes_over_add(head + seq![x], tail, pred);
        Seq::filter_distributes_over_add(s, seq![x], pred);
        assert(s.push(x) == s + seq![x]);
        assert(seq![x].filter(pred) == if pred(x) {
            seq![x]
        } else {
            Seq::<T>::empty()
        }) by {
            reveal(Seq::filter);
            assert(seq![x].drop_last() == Seq::<T>::empty());
            assert(seq![x].drop_last().filter(pred) == Seq::<T>::empty());
            assert(Seq::<T>::empty().push(x) == seq![x]);
        }
        if pred(x) {
            assert(forall|i: int| 0 <= i < tail.len() ==> #[trigger] tail[i] == r[p + i]);
            lemma_filter_none(tail, key, k);
            assert(r2.filter(pred) == head.filter(pred) + seq![x] + Seq::<T>::empty());
            assert(r.filter(pred) == head.filter(pred) + Seq::<T>::empty());
            assert(head.filter(pred) + Seq::<T>::empty() == head.filter(pred));
            assert(head.filter(pred) + seq![x] + Seq::<T>::empty() == head.filter(pred) + seq![x]);
        } else {
            assert(head.filter(pred) + Seq::<T>::empty() == head.filter(pred));
        }
    }
}

/// Filtering on a key after a change that keeps every key is the change after the
/// filtering.
proof fn lemma_filter_commutes_with_keeping<T>(
    s: Seq<T>,
    key: spec_fn(T) -> int,
    f: spec_fn(T) -> T,
    k: int,
)
    requires
        forall|x: T| key(#[trigger] f(x)) == key(x),
    ensures
        s.map_values(f).filter(with_key(key, k)) == s.filter(with_key(key, k)).map_values(f),
    decreases s.len(),
{
    reveal(Seq::filter);
    let pred = with_key(key, k);
    if s.len() == 0 {
        assert(s.map_values(f) == Seq::<T>::empty());
        assert(s.filter(pred).map_values(f) == Seq::<T>::empty());
    } else {
        lemma_filter_commutes_with_keeping(s.drop_last(), key, f, k);
        assert(s.map_values(f).drop_last() == s.drop_last().map_values(f));
        assert(s.map_values(f).last() == f(s.last()));
        assert(pred(f(s.last())) == pred(s.last()));
        if pred(s.last()) {
            assert(s.drop_last().filter(pred).push(s.last()).map_values(f) == s.drop_last().filter(
                pred,
            ).map_values(f).push(f(s.last())));
        }
    }
}

/// A change of the elements that keeps every key keeps a stable sort a stable sort.
pub proof fn lemma_stable_sort_under_key_keeping_map<T>(
    r: Seq<T>,
    s: Seq<T>,
    key: spec_fn(T) -> int,
    f: spec_fn(T) -> T,
)
    requires
        is_stable_sort_of(r, s, key),
        forall|x: T| key(#[trigger] f(x)) == key(x),
    ensures
        is_stable_sort_of(r.map_values(f), s.map_values(f), key),
{
    let r2 = r.map_values(f);
    assert forall|i: int, j: int| 0 <= i <= j < r2.len() implies key(#[trigger] r2[i]) <= key(
        #[trigger] r2[j],
    ) by {
        assert(key(f(r[i])) == key(r[i]));
        assert(key(f(r[j])) == key(r[j]));
    }
    assert forall|k: int| #[trigger]
        r2.filter(with_key(key, k)) == s.map_values(f).filter(with_key(key, k)) by {
        lemma_filter_commutes_with_keeping(r, key, f, k);
        lemma_filter_commutes_with_keeping(s, key, f, k);
        assert(r.filter(with_key(key, k)) == s.filter(with_key(key, k)));
    }
}

/// The filter on the key of the last element ends with that element; every other filter
/// is that of the sequence without it.
proof fn lemma_filter_at_last<T>(s: Seq<T>, key: spec_fn(T) -> int, k: int)
    requires
        s.len() > 0,
    ensures
        s.filter(with_key(key, k)) == if key(s.last()) == k {
            s.drop_last().filter(with_key(key, k)).push(s.last())
        } else {
            s.drop_last().filter(with_key(key, k))
        },
{
    reveal(Seq::filter);
}

/// A filter that is not empty shows an element of its key.
proof fn lemma_filter_witness<T>(s: Seq<T>, key: spec_fn(T) -> int, k: int) -> (i: int)
    requires
        s.filter(with_key(key, k)).len() > 0,
    ensures
        0 <= i < s.len(),
        key(s[i]) == k,
    decreases s.len(),
{
    reveal(Seq::filter);
    if key(s.last()) == k {
        s.len() - 1
    } else {
        lemma_filter_witness(s.drop_last(), key, k)
    }
}

/// Two sequences in ascending order of `key` that agree on the elements of every key, in
/// their order, are one and the same.
pub proof fn lemma_sorted_with_equal_filters_are_equal<T>(a: Seq<T>, b: Seq<T>, key: spec_fn(T) -> int)
    requires
        sorted_by(a, key),
        sorted_by(b, key),
        forall|k: int| #[trigger] a.filter(with_key(key, k)) == b.filter(with_key(key, k)),
    ensures
        a == b,
    decreases a.len(),
{
    if a.len() == 0 {
        if b.len() > 0 {
            let k = key(b.last());
            lemma_filter_at_last(b, key, k);
            assert(a.filter(with_key(key, k)) == b.filter(with_key(key, k)));
            reveal(Seq::filter);
            assert(false);
        }
        assert(a =~= b);
    } else {
        let ka = key(a.last());
        lemma_filter_at_last(a, key, ka);
        assert(a.filter(with_key(key, ka)) == b.filter(with_key(key, ka)));
        let i = lemma_filter_witness(b, key, ka);
        let kb = key(b.last());
        lemma_filter_at_last(b, key, kb);
        assert(a.filter(with_key(key, kb)) == b.filter(with_key(key, kb)));
        let j = lemma_filter_witness(a, key, kb);
        assert(key(b[i]) <= key(b[b.len() - 1]));
        assert(key(a[j]) <= key(a[a.len() - 1]));
        assert(ka == kb);
        assert(a.last() == a.filter(with_key(key, ka)).last());
        assert(b.last() == b.filter(with_key(key, ka)).last());
        let a0 = a.drop_last();
        let b0 = b.drop_last();
        assert(sorted_by(a0, key)) by {
            assert(forall|i: int| 0 <= i < a0.len() ==> #[trigger] a0[i] == a[i]);
        }
        assert(sorted_by(b0, key)) by {
            assert(forall|i: int| 0 <= i < b0.len() ==> #[trigger] b0[i] == b[i]);
        }
        assert forall|k: int| #[trigger]
            a0.filter(with_key(key, k)) == b0.filter(with_key(key, k)) by {
            lemma_filter_at_last(a, key, k);
            lemma_filter_at_last(b, key, k);
            assert(a.filter(with_key(key, k)) == b.filter(with_key(key, k)));
            if k == ka {
                assert(a0.filter(with_key(key, k)) == a.filter(with_key(key, k)).drop_last());
                assert(b0.filter(with_key(key, k)) == b.filter(with_key(key, k)).drop_last());
            }
        }
        lemma_sorted_with_equal_filters_are_equal(a0, b0, key);
        assert(a == a0.push(a.last()));
        assert(b == b0.push(b.last()));
    }
}

/// A sequence has one stable sort only.
pub proof fn lemma_stable_sort_is_unique<T>(a: Seq<T>, b: Seq<T>, s: Seq<T>, key: spec_fn(T) -> int)
    requires
        is_stable_sort_of(a, s, key),
        is_stable_sort_of(b, s, key),
    ensures
        a == b,
{
    assert forall|k: int| #[trigger] a.filter(with_key(key, k)) == b.filter(with_key(key, k)) by {
        assert(a.filter(with_key(key, k)) == s.filter(with_key(key, k)));
        assert(b.filter(with_key(key, k)) == s.filter(with_key(key, k)));
    }
    lemma_sorted_with_equal_filters_are_equal(a, b, key);
}

} // verus!
