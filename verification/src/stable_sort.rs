//! Mathematical definition of a stable sort by an integer key, with the
//! facts that make it a function of its input.
use vstd::prelude::*;

verus! {

/// `s` is ordered from the largest key to the smallest.
pub open spec fn sorted_desc<A>(s: Seq<A>, key: spec_fn(A) -> int) -> bool {
    forall|i: int, j: int| 0 <= i < j < s.len() ==> key(#[trigger] s[j]) <= key(#[trigger] s[i])
}

/// Holds of the elements whose key is `k`.
pub open spec fn has_key<A>(key: spec_fn(A) -> int, k: int) -> spec_fn(A) -> bool {
    |x: A| key(x) == k
}

/// The elements of `s` whose key is `k`, in the order in which they occur in `s`.
pub open spec fn key_class<A>(s: Seq<A>, key: spec_fn(A) -> int, k: int) -> Seq<A> {
    s.filter(has_key(key, k))
}

/// `r` is `s` sorted by descending key, where elements of equal key keep
/// their relative order (a stable sort).
pub open spec fn is_stable_sort_desc<A>(s: Seq<A>, r: Seq<A>, key: spec_fn(A) -> int) -> bool {
    &&& sorted_desc(r, key)
    &&& forall|k: int| #[trigger] key_class(r, key, k) == key_class(s, key, k)
}

/// The stable sort of `s` by descending key.
pub open spec fn stable_sort_desc<A>(s: Seq<A>, key: spec_fn(A) -> int) -> Seq<A> {
    choose|r: Seq<A>| is_stable_sort_desc(s, r, key)
}

/// The key negated: sorting by descending negated key is sorting by ascending key.
pub open spec fn negated<A>(key: spec_fn(A) -> int) -> spec_fn(A) -> int {
    |x: A| -key(x)
}

/// The stable sort of `s` by ascending key.
pub open spec fn stable_sort_asc<A>(s: Seq<A>, key: spec_fn(A) -> int) -> Seq<A> {
    stable_sort_desc(s, negated(key))
}

proof fn lemma_class_prepend<A>(x: A, s: Seq<A>, key: spec_fn(A) -> int, k: int)
    ensures
        key_class(seq![x] + s, key, k) == (if key(x) == k {
            seq![x]
        } else {
            Seq::empty()
        }) + key_class(s, key, k),
{
    s.lemma_filter_prepend(x, has_key(key, k));
}

proof fn lemma_class_drop_first<A>(s: Seq<A>, key: spec_fn(A) -> int, k: int)
    requires
        s.len() > 0,
    ensures
        key_class(s, key, k) == (if key(s[0]) == k {
            seq![s[0]] + key_class(s.drop_first(), key, k)
        } else {
            key_class(s.drop_first(), key, k)
        }),
{
    assert(s =~= seq![s[0]] + s.drop_first());
    lemma_class_prepend(s[0], s.drop_first(), key, k);
    if key(s[0]) != k {
        assert(Seq::<A>::empty() + key_class(s.drop_first(), key, k) =~= key_class(
            s.drop_first(),
            key,
            k,
        ));
    }
}

proof fn lemma_class_contains<A>(s: Seq<A>, key: spec_fn(A) -> int, i: int)
    requires
        0 <= i < s.len(),
    ensures
        key_class(s, key, key(s[i])).len() > 0,
{
    broadcast use vstd::seq_lib::group_filter_ensures;
    s.lemma_filter_contains(has_key(key, key(s[i])), i);
    assert(key_class(s, key, key(s[i])).contains(s[i]));
}

proof fn lemma_class_elem<A>(s: Seq<A>, key: spec_fn(A) -> int, k: int)
    requires
        key_class(s, key, k).len() > 0,
    ensures
        exists|i: int| 0 <= i < s.len() && key(s[i]) == k,
{
    let c = key_class(s, key, k);
    broadcast use vstd::seq_lib::group_filter_ensures;
    assert(c.contains(c[0]));
    s.lemma_filter_contains_rev(has_key(key, k), c[0]);
    let i = choose|i: int| 0 <= i < s.len() && s[i] == c[0];
    assert(key(s[i]) == k);
}

/// Two sequences sorted by descending key with the same elements in each key
/// class, in the same order, are equal.
pub proof fn lemma_sorted_same_classes_equal<A>(a: Seq<A>, b: Seq<A>, key: spec_fn(A) -> int)
    requires
        sorted_desc(a, key),
        sorted_desc(b, key),
        forall|k: int| #[trigger] key_class(a, key, k) == key_class(b, key, k),
    ensures
        a == b,
    decreases a.len() + b.len(),
{
    if a.len() == 0 {
        if b.len() > 0 {
            lemma_class_contains(b, key, 0);
            assert(key_class(a, key, key(b[0])) =~= Seq::<A>::empty());
        }
        assert(a =~= b);
        return;
    }
    if b.len() == 0 {
        lemma_class_contains(a, key, 0);
        assert(key_class(b, key, key(a[0])) =~= Seq::<A>::empty());
        assert(false);
    }
    let ka = key(a[0]);
    let kb = key(b[0]);
    lemma_class_contains(a, key, 0);
    lemma_class_contains(b, key, 0);
    assert(key_class(b, key, ka) == key_class(a, key, ka));
    lemma_class_elem(b, key, ka);
    lemma_class_elem(a, key, kb);
    let ib = choose|i: int| 0 <= i < b.len() && key(b[i]) == ka;
    let ia = choose|i: int| 0 <= i < a.len() && key(a[i]) == kb;
    if ib > 0 {
        assert(key(b[ib]) <= key(b[0]));
    }
    if ia > 0 {
        assert(key(a[ia]) <= key(a[0]));
    }
    assert(ka == kb);
    lemma_class_drop_first(a, key, ka);
    lemma_class_drop_first(b, key, ka);
    assert(key_class(a, key, ka)[0] == a[0]);
    assert(key_class(b, key, ka)[0] == b[0]);
    let a2 = a.drop_first();
    let b2 = b.drop_first();
    assert forall|k: int| #[trigger] key_class(a2, key, k) == key_class(b2, key, k) by {
        lemma_class_drop_first(a, key, k);
        lemma_class_drop_first(b, key, k);
        assert(key_class(a, key, k) == key_class(b, key, k));
        if k == ka {
            assert(key_class(a2, key, k) =~= key_class(a, key, k).drop_first());
            assert(key_class(b2, key, k) =~= key_class(b, key, k).drop_first());
        }
    }
    assert forall|i: int, j: int| 0 <= i < j < a2.len() implies key(#[trigger] a2[j]) <= key(
        #[trigger] a2[i],
    ) by {
        assert(a2[i] == a[i + 1] && a2[j] == a[j + 1]);
    }
    assert forall|i: int, j: int| 0 <= i < j < b2.len() implies key(#[trigger] b2[j]) <= key(
        #[trigger] b2[i],
    ) by {
        assert(b2[i] == b[i + 1] && b2[j] == b[j + 1]);
    }
    lemma_sorted_same_classes_equal(a2, b2, key);
    assert(a =~= seq![a[0]] + a2);
    assert(b =~= seq![b[0]] + b2);
}

/// A stable sort is unique: any stable sort of `s` is `stable_sort_desc(s, key)`.
pub proof fn lemma_stable_sort_unique<A>(s: Seq<A>, r: Seq<A>, key: spec_fn(A) -> int)
    requires
        is_stable_sort_desc(s, r, key),
    ensures
        stable_sort_desc(s, key) == r,
{
    let c = stable_sort_desc(s, key);
    assert(is_stable_sort_desc(s, c, key));
    assert forall|k: int| #[trigger] key_class(c, key, k) == key_class(r, key, k) by {
        assert(key_class(c, key, k) == key_class(s, key, k));
        assert(key_class(r, key, k) == key_class(s, key, k));
    }
    lemma_sorted_same_classes_equal(c, r, key);
}

proof fn lemma_class_empty<A>(s: Seq<A>, key: spec_fn(A) -> int, k: int)
    requires
        forall|i: int| 0 <= i < s.len() ==> key(#[trigger] s[i]) != k,
    ensures
        key_class(s, key, k) == Seq::<A>::empty(),
{
    broadcast use vstd::seq_lib::group_filter_ensures;

    let c = key_class(s, key, k);
    if c.len() > 0 {
        assert(c.contains(c[0]));
        s.lemma_filter_contains_rev(has_key(key, k), c[0]);
    }
    assert(c =~= Seq::<A>::empty());
}

/// The empty sequence is its own stable sort.
pub proof fn lemma_stable_sort_empty<A>(key: spec_fn(A) -> int)
    ensures
        is_stable_sort_desc(Seq::<A>::empty(), Seq::<A>::empty(), key),
{
}

/// Inserting `x` after every element whose key is at least `key(x)`, and
/// before the others, extends a stable sort of `s` to one of `s.push(x)`.
pub proof fn lemma_insert_stable<A>(s: Seq<A>, r: Seq<A>, x: A, p: int, key: spec_fn(A) -> int)
    requires
        is_stable_sort_desc(s, r, key),
        0 <= p <= r.len(),
        forall|i: int| 0 <= i < p ==> key(#[trigger] r[i]) >= key(x),
        forall|i: int| p <= i < r.len() ==> key(#[trigger] r[i]) < key(x),
    ensures
        is_stable_sort_desc(s.push(x), r.insert(p, x), key),
{
    let r2 = r.insert(p, x);
    let front = r.take(p);
    let back = r.skip(p);
    assert(r2 =~= front + seq![x] + back);
    assert(r =~= front + back);
    assert forall|i: int, j: int| 0 <= i < j < r2.len() implies key(#[trigger] r2[j]) <= key(
        #[trigger] r2[i],
    ) by {
        if j < p {
            assert(r2[i] == r[i] && r2[j] == r[j]);
        } else if j == p {
            assert(r2[i] == r[i]);
        } else if i < p {
            assert(r2[i] == r[i] && r2[j] == r[j - 1]);
        } else if i == p {
            assert(r2[j] == r[j - 1]);
        } else {
            assert(r2[i] == r[i - 1] && r2[j] == r[j - 1]);
        }
    }
    assert forall|k: int| #[trigger] key_class(r2, key, k) == key_class(s.push(x), key, k) by {
        let pr = has_key(key, k);
        Seq::filter_distributes_over_add(front + seq![x], back, pr);
        Seq::filter_distributes_over_add(front, seq![x], pr);
        Seq::filter_distributes_over_add(front, back, pr);
        s.lemma_filter_push(x, pr);
        assert(key_class(r, key, k) == key_class(s, key, k));
        if key(x) == k {
            assert forall|i: int| 0 <= i < back.len() implies key(#[trigger] back[i]) != k by {
                assert(back[i] == r[p + i]);
            }
            lemma_class_empty(back, key, k);
            assert(seq![x].filter(pr) =~= seq![x]) by {
                assert(pr(x));
                assert(Seq::<A>::empty().push(x) =~= seq![x]);
                Seq::<A>::empty().lemma_filter_push(x, pr);
                assert(Seq::<A>::empty().filter(pr) =~= Seq::<A>::empty()) by {
                    reveal(Seq::filter);
                }
            }
            assert(key_class(r2, key, k) =~= key_class(s, key, k).push(x));
        } else {
            assert(seq![x].filter(pr) =~= Seq::<A>::empty()) by {
                assert(!pr(x));
                assert(Seq::<A>::empty().push(x) =~= seq![x]);
                Seq::<A>::empty().lemma_filter_push(x, pr);
                assert(Seq::<A>::empty().filter(pr) =~= Seq::<A>::empty()) by {
                    reveal(Seq::filter);
                }
            }
            assert(key_class(r2, key, k) =~= key_class(s, key, k));
        }
    }
}

/// The position of the first element of `s` whose key is `k`.
proof fn lemma_first_with_key<A>(s: Seq<A>, key: spec_fn(A) -> int, k: int) -> (p: int)
    requires
        exists|i: int| 0 <= i < s.len() && key(s[i]) == k,
    ensures
        0 <= p < s.len(),
        key(s[p]) == k,
        forall|i: int| 0 <= i < p ==> key(#[trigger] s[i]) != k,
    decreases s.len(),
{
    if key(s[0]) == k {
        0
    } else {
        let i0 = choose|i: int| 0 <= i < s.len() && key(s[i]) == k;
        assert(s.drop_first()[i0 - 1] == s[i0]);
        let q = lemma_first_with_key(s.drop_first(), key, k);
        assert forall|i: int| 0 <= i < q + 1 implies key(#[trigger] s[i]) != k by {
            if i > 0 {
                assert(s[i] == s.drop_first()[i - 1]);
            }
        }
        q + 1
    }
}

/// A stable sort of `s` holds the same elements as `s`, as often.
pub proof fn lemma_stable_sort_permutes<A>(s: Seq<A>, r: Seq<A>, key: spec_fn(A) -> int)
    requires
        is_stable_sort_desc(s, r, key),
    ensures
        r.to_multiset() == s.to_multiset(),
        r.len() == s.len(),
    decreases s.len(),
{
    broadcast use vstd::seq_lib::group_to_multiset_ensures;

    if s.len() == 0 {
        if r.len() > 0 {
            lemma_class_contains(r, key, 0);
            assert(key_class(s, key, key(r[0])) =~= Seq::<A>::empty());
            assert(false);
        }
        assert(r =~= s);
        return;
    }
    let x = s[0];
    let k = key(x);
    lemma_class_contains(s, key, 0);
    assert(key_class(r, key, k) == key_class(s, key, k));
    lemma_class_elem(r, key, k);
    let p = lemma_first_with_key(r, key, k);
    let front = r.take(p);
    let back = r.skip(p + 1);
    let pr = has_key(key, k);
    lemma_class_empty(front, key, k);
    assert(r =~= front + (seq![r[p]] + back));
    Seq::filter_distributes_over_add(front, seq![r[p]] + back, pr);
    lemma_class_prepend(r[p], back, key, k);
    lemma_class_drop_first(s, key, k);
    assert(key_class(s, key, k)[0] == x);
    assert(key_class(r, key, k)[0] == r[p]);
    assert(r[p] == x);
    let r2 = r.remove(p);
    let s2 = s.drop_first();
    assert(r2 =~= front + back);
    assert forall|k2: int| #[trigger] key_class(r2, key, k2) == key_class(s2, key, k2) by {
        let pr2 = has_key(key, k2);
        Seq::filter_distributes_over_add(front, back, pr2);
        Seq::filter_distributes_over_add(front, seq![r[p]] + back, pr2);
        lemma_class_prepend(r[p], back, key, k2);
        lemma_class_drop_first(s, key, k2);
        assert(key_class(r, key, k2) == key_class(s, key, k2));
        if k2 == k {
            assert(key_class(front, key, k2) == Seq::<A>::empty());
            assert(key_class(r2, key, k2) =~= key_class(back, key, k2));
            assert(key_class(r, key, k2) =~= seq![r[p]] + key_class(back, key, k2));
            assert(key_class(s2, key, k2) =~= key_class(s, key, k2).drop_first());
        } else {
            assert(key_class(r, key, k2) =~= key_class(front, key, k2) + key_class(back, key, k2));
        }
    }
    assert forall|i: int, j: int| 0 <= i < j < r2.len() implies key(#[trigger] r2[j]) <= key(
        #[trigger] r2[i],
    ) by {
        let i1 = if i < p { i } else { i + 1 };
        let j1 = if j < p { j } else { j + 1 };
        assert(r2[i] == r[i1] && r2[j] == r[j1]);
    }
    lemma_stable_sort_permutes(s2, r2, key);
    assert(s =~= seq![x] + s2);
    assert(s2.to_multiset().insert(x) == s.to_multiset()) by {
        assert(s =~= s2.insert(0, x));
    }
    assert(r2.to_multiset() == r.to_multiset().remove(r[p]));
    assert(r.to_multiset().contains(r[p]));
}

/// In a sequence sorted by descending key, the elements whose key is at
/// least `k` come before the others.
proof fn lemma_split_point<A>(r: Seq<A>, key: spec_fn(A) -> int, k: int) -> (p: int)
    requires
        sorted_desc(r, key),
    ensures
        0 <= p <= r.len(),
        forall|i: int| 0 <= i < p ==> key(#[trigger] r[i]) >= k,
        forall|i: int| p <= i < r.len() ==> key(#[trigger] r[i]) < k,
    decreases r.len(),
{
    if r.len() == 0 {
        0
    } else {
        let t = r.drop_last();
        assert(sorted_desc(t, key)) by {
            assert forall|i: int, j: int| 0 <= i < j < t.len() implies key(#[trigger] t[j]) <= key(
                #[trigger] t[i],
            ) by {
                assert(t[i] == r[i] && t[j] == r[j]);
            }
        }
        let q = lemma_split_point(t, key, k);
        if key(r.last()) >= k {
            assert forall|i: int| 0 <= i < r.len() implies key(#[trigger] r[i]) >= k by {
                if i < r.len() - 1 {
                    assert(key(r[r.len() - 1]) <= key(r[i]));
                }
            }
            r.len() as int
        } else {
            assert forall|i: int| 0 <= i < q implies key(#[trigger] r[i]) >= k by {
                assert(r[i] == t[i]);
            }
            assert forall|i: int| q <= i < r.len() implies key(#[trigger] r[i]) < k by {
                if i < r.len() - 1 {
                    assert(r[i] == t[i]);
                }
            }
            q
        }
    }
}

/// Every sequence has a stable sort, which `stable_sort_desc` picks.
pub proof fn lemma_stable_sort_exists<A>(s: Seq<A>, key: spec_fn(A) -> int)
    ensures
        is_stable_sort_desc(s, stable_sort_desc(s, key), key),
    decreases s.len(),
{
    if s.len() == 0 {
        lemma_stable_sort_empty(key);
        assert(s =~= Seq::<A>::empty());
    } else {
        let t = s.drop_last();
        let x = s.last();
        lemma_stable_sort_exists(t, key);
        let r = stable_sort_desc(t, key);
        let p = lemma_split_point(r, key, key(x));
        lemma_insert_stable(t, r, x, p, key);
        assert(t.push(x) =~= s);
    }
}

} // verus!
