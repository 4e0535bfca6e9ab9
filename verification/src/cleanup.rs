//! Choosing which directories of a base directory to keep and which to
//! clean up.
use vstd::prelude::*;
use vstd::std_specs::cmp::PartialEqSpec;
use std::hash::Hash;
use std::sync::Arc;

use crate::config::Directory;
use crate::signatures::{SignatureEntry, State};
use crate::stable_sort::{
    is_stable_sort_desc, lemma_insert_stable, lemma_stable_sort_empty, lemma_stable_sort_exists,
    lemma_stable_sort_permutes, lemma_stable_sort_unique, negated, stable_sort_asc,
    stable_sort_desc,
};
use crate::time_util::now_millis;

verus! {

/// Directories split into the ones to keep and the ones to remove.
#[derive(Debug)]
pub struct Sorted<T> {
    pub used: Vec<T>,
    pub unused: Vec<T>,
}

/// The smallest timestamp in a non-empty sequence of signatures, or 0 when it is empty.
pub open spec fn min_timestamp(sigs: Seq<SignatureEntry>) -> int
    decreases sigs.len(),
{
    if sigs.len() == 0 {
        0
    } else if sigs.len() == 1 {
        sigs[0].timestamp as int
    } else {
        let m = min_timestamp(sigs.drop_last());
        let t = sigs.last().timestamp as int;
        if t < m {
            t
        } else {
            m
        }
    }
}

/// The time a directory is ranked by: the earliest of its signature
/// timestamps, or the epoch (0) when it has none.
pub open spec fn signature_time(state: State) -> int {
    min_timestamp(state.signatures@)
}

/// Ranks an item by its time.
pub open spec fn time_key<T>() -> spec_fn((T, State)) -> int {
    |x: (T, State)| signature_time(x.1)
}

/// The key an item is sorted by: its time, negated for an ascending sort.
pub open spec fn sort_key<T>(descending: bool) -> spec_fn((T, State)) -> int {
    if descending {
        time_key::<T>()
    } else {
        negated(time_key::<T>())
    }
}

/// Items signed no earlier than `min_time`.
pub open spec fn is_recent<T>(min_time: int) -> spec_fn((T, State)) -> bool {
    |x: (T, State)| signature_time(x.1) >= min_time
}

/// Items signed before `min_time`.
pub open spec fn is_old<T>(min_time: int) -> spec_fn((T, State)) -> bool {
    |x: (T, State)| signature_time(x.1) < min_time
}

/// `name` equals (by its `PartialEq`) an element of the keep list.
pub open spec fn in_keep<T: PartialEq>(keep: Seq<T>, name: T) -> bool {
    exists|j: int| 0 <= j < keep.len() && name.eq_spec(&keep[j])
}

/// Items whose name is in the keep list.
pub open spec fn is_kept<T: PartialEq>(keep: Seq<T>) -> spec_fn((T, State)) -> bool {
    |x: (T, State)| in_keep(keep, x.0)
}

/// Items whose name is not in the keep list.
pub open spec fn is_not_kept<T: PartialEq>(keep: Seq<T>) -> spec_fn((T, State)) -> bool {
    |x: (T, State)| !in_keep(keep, x.0)
}

/// What cleanup keeps (first) and removes (second) of `items`, given the
/// configured minimum and maximum number of directories to keep and the time
/// from which on a directory counts as recent:
///
/// 1. If there are at most `min` items, all are kept.
/// 2. Recent items are kept; if there are more than `max` of them, only the
///    `max` most recent (by a stable sort) are, and the rest join the older ones
///    as candidates for removal.
/// 3. Candidates on the keep list are kept, the others are removed.
/// 4. If fewer than `min` are kept then, the most recent of the removed ones are
///    kept instead, up to `min` in all.
pub open spec fn sort_out_spec<T: PartialEq>(
    min: int,
    max: int,
    min_time: int,
    items: Seq<(T, State)>,
    keep: Seq<T>,
) -> (Seq<(T, State)>, Seq<(T, State)>) {
    if items.len() <= min {
        (items, Seq::empty())
    } else {
        let recent = items.filter(is_recent::<T>(min_time));
        let old = items.filter(is_old::<T>(min_time));
        let ranked = stable_sort_desc(recent, time_key::<T>());
        let used1 = if recent.len() > max {
            ranked.take(max)
        } else {
            recent
        };
        let candidates = if recent.len() > max {
            old + ranked.skip(max)
        } else {
            old
        };
        let used2 = used1 + candidates.filter(is_kept(keep));
        let unused = candidates.filter(is_not_kept(keep));
        if used2.len() < min {
            let s = stable_sort_asc(unused, time_key::<T>());
            let needs = min - used2.len();
            let n = if s.len() < needs {
                0
            } else {
                s.len() - needs
            };
            (used2 + s.skip(n), s.take(n))
        } else {
            (used2, unused)
        }
    }
}

/// The earliest signature timestamp of a state (the epoch when unsigned).
pub fn biggest_timestamp(state: &State) -> (res: u64)
    ensures
        res == signature_time(*state),
{
    let n = state.signatures.len();
    if n == 0 {
        return 0;
    }
    let mut m = state.signatures[0].timestamp;
    let mut i: usize = 1;
    assert(state.signatures@.take(1) =~= seq![state.signatures@[0]]);
    while i < n
        invariant
            1 <= i <= n,
            n == state.signatures@.len(),
            m == min_timestamp(state.signatures@.take(i as int)),
        decreases n - i,
    {
        let t = state.signatures[i].timestamp;
        assert(state.signatures@.take(i + 1).drop_last() =~= state.signatures@.take(i as int));
        if t < m {
            m = t;
        }
        i = i + 1;
    }
    assert(state.signatures@.take(n as int) =~= state.signatures@);
    m
}

/// Whether an item of time `other` goes before one of time `t` in the sort order.
fn goes_before(other: u64, t: u64, descending: bool) -> (res: bool)
    ensures
        res == if descending {
            other >= t
        } else {
            -(other as int) >= -(t as int)
        },
{
    if descending {
        other >= t
    } else {
        other <= t
    }
}

/// Stable sort of the items by time, descending or ascending.
fn sort_by_time<T>(items: Vec<(T, State)>, descending: bool) -> (res: Vec<(T, State)>)
    ensures
        res@ == stable_sort_desc(items@, sort_key::<T>(descending)),
        is_stable_sort_desc(items@, res@, sort_key::<T>(descending)),
{
    let ghost key = sort_key::<T>(descending);
    let ghost orig = items@;
    let mut src = items;
    let mut out: Vec<(T, State)> = Vec::new();
    proof {
        lemma_stable_sort_empty(key);
        assert(orig.take(0) =~= Seq::<(T, State)>::empty());
        assert(orig.skip(0) =~= orig);
    }
    while src.len() > 0
        invariant
            src@.len() <= orig.len(),
            src@ == orig.skip(orig.len() - src@.len()),
            is_stable_sort_desc(orig.take(orig.len() - src@.len()), out@, key),
            key == sort_key::<T>(descending),
        decreases src.len(),
    {
        let ghost done = orig.len() - src@.len();
        let x = src.remove(0);
        assert(x == orig[done]);
        let tx = biggest_timestamp(&x.1);
        let mut p: usize = 0;
        while p < out.len() && goes_before(biggest_timestamp(&out[p].1), tx, descending)
            invariant
                p <= out@.len(),
                key == sort_key::<T>(descending),
                tx == signature_time(x.1),
                forall|i: int| 0 <= i < p ==> key(#[trigger] out@[i]) >= key(x),
            decreases out@.len() - p,
        {
            p = p + 1;
        }
        proof {
            assert forall|i: int| p <= i < out@.len() implies key(#[trigger] out@[i]) < key(x) by {
                assert(key(out@[i]) <= key(out@[p as int]));
            }
            assert(orig.take(done + 1) =~= orig.take(done).push(x));
            assert(src@ =~= orig.skip(done + 1));
            lemma_insert_stable(orig.take(done), out@, x, p as int, key);
        }
        out.insert(p, x);
    }
    proof {
        assert(orig.take(orig.len() as int) =~= orig);
        lemma_stable_sort_unique(orig, out@, key);
    }
    out
}

/// Whether `name` is on the keep list.
fn in_keep_list<T: PartialEq>(keep: &Vec<T>, name: &T) -> (res: bool)
    ensures
        T::obeys_eq_spec() ==> res == in_keep(keep@, *name),
{
    let n = keep.len();
    let mut j: usize = 0;
    while j < n
        invariant
            j <= n,
            n == keep@.len(),
            T::obeys_eq_spec() ==> forall|i: int| 0 <= i < j ==> !name.eq_spec(&keep@[i]),
        decreases n - j,
    {
        if name.eq(&keep[j]) {
            return true;
        }
        j = j + 1;
    }
    false
}

/// Splits `items` into the directories to keep and the ones to remove, taking
/// `now` (milliseconds since the epoch) as the current time.
pub fn sort_out_at<T: PartialEq + Eq + Hash>(
    config: &Arc<Directory>,
    items: Vec<(T, State)>,
    keep_list: &Vec<T>,
    now: u64,
) -> (res: Sorted<(T, State)>)
    ensures
        T::obeys_eq_spec() ==> (res.used@, res.unused@) == sort_out_spec(
            config.keep_min_directories as int,
            config.keep_max_directories as int,
            now - config.keep_recent,
            items@,
            keep_list@,
        ),
{
    let min = config.keep_min_directories;
    let max = config.keep_max_directories;
    if items.len() <= min {
        return Sorted { used: items, unused: Vec::new() };
    }
    let ghost min_time: int = now - config.keep_recent;
    let threshold: u64 = if now >= config.keep_recent {
        now - config.keep_recent
    } else {
        0
    };
    let ghost orig = items@;
    let ghost recent_p = is_recent::<T>(min_time);
    let ghost old_p = is_old::<T>(min_time);
    let mut src = items;
    let mut used: Vec<(T, State)> = Vec::new();
    let mut candidates: Vec<(T, State)> = Vec::new();
    proof {
        assert(orig.take(0) =~= Seq::<(T, State)>::empty());
        assert(orig.skip(0) =~= orig);
        reveal(Seq::filter);
    }
    while src.len() > 0
        invariant
            src@.len() <= orig.len(),
            src@ == orig.skip(orig.len() - src@.len()),
            used@ == orig.take(orig.len() - src@.len()).filter(recent_p),
            candidates@ == orig.take(orig.len() - src@.len()).filter(old_p),
            recent_p == is_recent::<T>(min_time),
            old_p == is_old::<T>(min_time),
            min_time == now - config.keep_recent,
            threshold == if now >= config.keep_recent {
                now - config.keep_recent
            } else {
                0
            },
        decreases src.len(),
    {
        let ghost done = orig.len() - src@.len();
        let x = src.remove(0);
        assert(x == orig[done]);
        let t = biggest_timestamp(&x.1);
        proof {
            assert(orig.take(done + 1) =~= orig.take(done).push(x));
            assert(src@ =~= orig.skip(done + 1));
            orig.take(done).lemma_filter_push(x, recent_p);
            orig.take(done).lemma_filter_push(x, old_p);
            assert((t >= threshold) == (signature_time(x.1) >= min_time));
        }
        if t >= threshold {
            used.push(x);
        } else {
            candidates.push(x);
        }
    }
    proof {
        assert(orig.take(orig.len() as int) =~= orig);
    }
    let ghost recent = orig.filter(recent_p);
    let ghost old = orig.filter(old_p);
    if used.len() > max {
        let ghost before = used@;
        used = sort_by_time(used, true);
        proof {
            lemma_stable_sort_permutes(before, used@, sort_key::<T>(true));
        }
        let mut tail = used.split_off(max);
        candidates.append(&mut tail);
    }
    let ghost used1 = used@;
    let ghost cands = candidates@;
    let ghost kept_p = is_kept::<T>(keep_list@);
    let ghost not_kept_p = is_not_kept::<T>(keep_list@);
    let mut used2 = used;
    let mut unused: Vec<(T, State)> = Vec::new();
    let mut rest = candidates;
    proof {
        assert(cands.take(0) =~= Seq::<(T, State)>::empty());
        assert(cands.skip(0) =~= cands);
        reveal(Seq::filter);
        assert(used2@ =~= used1 + cands.take(0).filter(kept_p));
    }
    while rest.len() > 0
        invariant
            rest@.len() <= cands.len(),
            rest@ == cands.skip(cands.len() - rest@.len()),
            kept_p == is_kept::<T>(keep_list@),
            not_kept_p == is_not_kept::<T>(keep_list@),
            T::obeys_eq_spec() ==> used2@ == used1 + cands.take(cands.len() - rest@.len()).filter(
                kept_p,
            ),
            T::obeys_eq_spec() ==> unused@ == cands.take(cands.len() - rest@.len()).filter(
                not_kept_p,
            ),
        decreases rest.len(),
    {
        let ghost done = cands.len() - rest@.len();
        let x = rest.remove(0);
        assert(x == cands[done]);
        let keep = in_keep_list(keep_list, &x.0);
        proof {
            assert(cands.take(done + 1) =~= cands.take(done).push(x));
            assert(rest@ =~= cands.skip(done + 1));
            cands.take(done).lemma_filter_push(x, kept_p);
            cands.take(done).lemma_filter_push(x, not_kept_p);
        }
        if keep {
            used2.push(x);
        } else {
            unused.push(x);
        }
    }
    proof {
        assert(cands.take(cands.len() as int) =~= cands);
    }
    if used2.len() < min {
        unused = sort_by_time(unused, false);
        let ulen = unused.len();
        let needs = min - used2.len();
        let n = if ulen < needs {
            0
        } else {
            ulen - needs
        };
        let mut tail = unused.split_off(n);
        used2.append(&mut tail);
    }
    Sorted { used: used2, unused }
}

/// Splits `items` into the directories to keep and the ones to remove
/// according to the cleanup settings of `config`, the keep list and the
/// current time.
pub fn sort_out<T: PartialEq + Eq + Hash>(
    config: &Arc<Directory>,
    items: Vec<(T, State)>,
    keep_list: &Vec<T>,
) -> (res: Sorted<(T, State)>)
    ensures
        T::obeys_eq_spec() ==> exists|min_time: int|
            (res.used@, res.unused@) == sort_out_spec(
                config.keep_min_directories as int,
                config.keep_max_directories as int,
                min_time,
                items@,
                keep_list@,
            ),
{
    let ghost orig = items@;
    if items.len() <= config.keep_min_directories {
        let res = Sorted { used: items, unused: Vec::new() };
        proof {
            let w: int = 0;
            assert((res.used@, res.unused@) == sort_out_spec(
                config.keep_min_directories as int,
                config.keep_max_directories as int,
                w,
                orig,
                keep_list@,
            ));
        }
        return res;
    }
    let now = now_millis();
    let res = sort_out_at(config, items, keep_list, now);
    proof {
        if T::obeys_eq_spec() {
            let w: int = now - config.keep_recent;
            assert((res.used@, res.unused@) == sort_out_spec(
                config.keep_min_directories as int,
                config.keep_max_directories as int,
                w,
                orig,
                keep_list@,
            ));
        }
    }
    res
}

/// Splitting a sequence by a condition and by its negation keeps every
/// element exactly once.
proof fn lemma_filter_split<A>(s: Seq<A>, p: spec_fn(A) -> bool, q: spec_fn(A) -> bool)
    requires
        forall|x: A| #[trigger] q(x) == !p(x),
    ensures
        s.filter(p).to_multiset().add(s.filter(q).to_multiset()) == s.to_multiset(),
        s.filter(p).len() + s.filter(q).len() == s.len(),
    decreases s.len(),
{
    broadcast use vstd::seq_lib::group_to_multiset_ensures;

    if s.len() == 0 {
        reveal(Seq::filter);
        assert(s.filter(p) =~= Seq::<A>::empty());
        assert(s.filter(q) =~= Seq::<A>::empty());
        assert(s.filter(p).to_multiset().add(s.filter(q).to_multiset()) =~= s.to_multiset());
    } else {
        let t = s.drop_last();
        let x = s.last();
        lemma_filter_split(t, p, q);
        assert(t.push(x) =~= s);
        t.lemma_filter_push(x, p);
        t.lemma_filter_push(x, q);
        vstd::seq_lib::to_multiset_build(t, x);
        if p(x) {
            vstd::seq_lib::to_multiset_build(t.filter(p), x);
        } else {
            vstd::seq_lib::to_multiset_build(t.filter(q), x);
        }
        assert(s.filter(p).to_multiset().add(s.filter(q).to_multiset()) =~= s.to_multiset());
    }
}

/// An element of either part is an element of the whole.
proof fn lemma_concat_contains<A>(a: Seq<A>, b: Seq<A>, x: A)
    ensures
        (a.contains(x) || b.contains(x)) ==> (a + b).contains(x),
{
    if a.contains(x) {
        let j = choose|j: int| 0 <= j < a.len() && a[j] == x;
        assert((a + b)[j] == x);
    } else if b.contains(x) {
        let j = choose|j: int| 0 <= j < b.len() && b[j] == x;
        assert((a + b)[a.len() + j] == x);
    }
}

/// The directories cleanup considers after the recent ones beyond the
/// maximum were set aside: the recent ones kept so far, and the candidates
/// for removal.
spec fn first_split<T>(max: int, min_time: int, items: Seq<(T, State)>) -> (
    Seq<(T, State)>,
    Seq<(T, State)>,
) {
    let recent = items.filter(is_recent::<T>(min_time));
    let old = items.filter(is_old::<T>(min_time));
    let ranked = stable_sort_desc(recent, time_key::<T>());
    if recent.len() > max {
        (ranked.take(max), old + ranked.skip(max))
    } else {
        (recent, old)
    }
}

proof fn lemma_first_split<T>(max: usize, min_time: int, items: Seq<(T, State)>)
    ensures
        ({
            let (u, c) = first_split(max as int, min_time, items);
            u.to_multiset().add(c.to_multiset()) == items.to_multiset()
        }),
        forall|i: int|
            0 <= i < items.len() ==> ({
                let (u, c) = first_split(max as int, min_time, items);
                u.contains(#[trigger] items[i]) || c.contains(items[i])
            }),
{
    broadcast use vstd::seq_lib::group_to_multiset_ensures;

    let rp = is_recent::<T>(min_time);
    let op = is_old::<T>(min_time);
    let recent = items.filter(rp);
    let old = items.filter(op);
    let key = time_key::<T>();
    lemma_filter_split(items, rp, op);
    lemma_stable_sort_exists(recent, key);
    let ranked = stable_sort_desc(recent, key);
    lemma_stable_sort_permutes(recent, ranked, key);
    let (u, c) = first_split(max as int, min_time, items);
    if recent.len() > max {
        assert(ranked =~= ranked.take(max as int) + ranked.skip(max as int));
        vstd::seq_lib::lemma_multiset_commutative(ranked.take(max as int), ranked.skip(max as int));
        vstd::seq_lib::lemma_multiset_commutative(old, ranked.skip(max as int));
        assert(u.to_multiset().add(c.to_multiset()) =~= items.to_multiset());
    }
    assert forall|i: int| 0 <= i < items.len() implies u.contains(#[trigger] items[i]) || c.contains(
        items[i],
    ) by {
        let x = items[i];
        if rp(x) {
            items.lemma_filter_contains(rp, i);
            if recent.len() > max {
                assert(ranked.to_multiset().count(x) > 0);
                assert(ranked.contains(x));
                let j = choose|j: int| 0 <= j < ranked.len() && ranked[j] == x;
                if j < max {
                    assert(ranked.take(max as int)[j] == x);
                } else {
                    assert(ranked.skip(max as int)[j - max] == x);
                    lemma_concat_contains(old, ranked.skip(max as int), x);
                }
            }
        } else {
            items.lemma_filter_contains(op, i);
            if recent.len() > max {
                lemma_concat_contains(old, ranked.skip(max as int), x);
            }
        }
    }
}

/// What cleanup keeps and what it removes are, together, exactly the
/// directories it was given: none is lost, none is added, none is counted
/// twice.
pub proof fn lemma_sort_out_partitions<T: PartialEq>(
    min: usize,
    max: usize,
    min_time: int,
    items: Seq<(T, State)>,
    keep: Seq<T>,
)
    ensures
        ({
            let (used, unused) = sort_out_spec(min as int, max as int, min_time, items, keep);
            (used + unused).to_multiset() == items.to_multiset()
        }),
{
    broadcast use vstd::seq_lib::group_to_multiset_ensures;

    let (used, unused) = sort_out_spec(min as int, max as int, min_time, items, keep);
    if items.len() <= min {
        assert(used + unused =~= items);
        return;
    }
    lemma_first_split(max, min_time, items);
    let (used1, cands) = first_split(max as int, min_time, items);
    let kp = is_kept::<T>(keep);
    let np = is_not_kept::<T>(keep);
    lemma_filter_split(cands, kp, np);
    let kept = cands.filter(kp);
    let rest = cands.filter(np);
    let used2 = used1 + kept;
    vstd::seq_lib::lemma_multiset_commutative(used1, kept);
    vstd::seq_lib::lemma_multiset_commutative(used2, rest);
    assert((used2 + rest).to_multiset() =~= items.to_multiset());
    if used2.len() < min {
        let key = negated(time_key::<T>());
        lemma_stable_sort_exists(rest, key);
        let s = stable_sort_asc(rest, time_key::<T>());
        lemma_stable_sort_permutes(rest, s, key);
        let needs = min - used2.len();
        let n = if s.len() < needs {
            0
        } else {
            s.len() - needs
        };
        assert(s =~= s.take(n) + s.skip(n));
        vstd::seq_lib::lemma_multiset_commutative(s.take(n), s.skip(n));
        vstd::seq_lib::lemma_multiset_commutative(used2, s.skip(n));
        vstd::seq_lib::lemma_multiset_commutative(used2 + s.skip(n), s.take(n));
        assert((used + unused).to_multiset() =~= items.to_multiset());
    }
}

/// A directory on the keep list is never removed.
pub proof fn lemma_sort_out_keeps_listed<T: PartialEq>(
    min: usize,
    max: usize,
    min_time: int,
    items: Seq<(T, State)>,
    keep: Seq<T>,
    i: int,
)
    requires
        0 <= i < items.len(),
        in_keep(keep, items[i].0),
    ensures
        sort_out_spec(min as int, max as int, min_time, items, keep).0.contains(items[i]),
{
    let x = items[i];
    if items.len() <= min {
        assert(items[i] == x);
        return;
    }
    lemma_first_split(max, min_time, items);
    let (used1, cands) = first_split(max as int, min_time, items);
    let kp = is_kept::<T>(keep);
    let kept = cands.filter(kp);
    let used2 = used1 + kept;
    assert(used1.contains(x) || cands.contains(x));
    if cands.contains(x) {
        let j = choose|j: int| 0 <= j < cands.len() && cands[j] == x;
        cands.lemma_filter_contains(kp, j);
    }
    lemma_concat_contains(used1, kept, x);
    let (used, unused) = sort_out_spec(min as int, max as int, min_time, items, keep);
    if used2.len() < min {
        let s = stable_sort_asc(cands.filter(is_not_kept::<T>(keep)), time_key::<T>());
        let needs = min - used2.len();
        let n = if s.len() < needs {
            0
        } else {
            s.len() - needs
        };
        lemma_concat_contains(used2, s.skip(n), x);
    }
}

/// Cleanup keeps at least the configured minimum of directories (all of
/// them when there are fewer).
pub proof fn lemma_sort_out_keeps_minimum<T: PartialEq>(
    min: usize,
    max: usize,
    min_time: int,
    items: Seq<(T, State)>,
    keep: Seq<T>,
)
    ensures
        sort_out_spec(min as int, max as int, min_time, items, keep).0.len() >= if items.len()
            < min {
            items.len() as int
        } else {
            min as int
        },
{
    broadcast use vstd::seq_lib::group_to_multiset_ensures;

    if items.len() <= min {
        return;
    }
    lemma_sort_out_partitions(min, max, min_time, items, keep);
    lemma_first_split(max, min_time, items);
    let (used1, cands) = first_split(max as int, min_time, items);
    let kp = is_kept::<T>(keep);
    let np = is_not_kept::<T>(keep);
    lemma_filter_split(cands, kp, np);
    let rest = cands.filter(np);
    let used2 = used1 + cands.filter(kp);
    assert(used1.to_multiset().len() + cands.to_multiset().len() == items.to_multiset().len());
    if used2.len() < min {
        let key = negated(time_key::<T>());
        lemma_stable_sort_exists(rest, key);
        let s = stable_sort_asc(rest, time_key::<T>());
        lemma_stable_sort_permutes(rest, s, key);
    }
}

} // verus!
