//! Reading the state files of a base directory: which files are stale, and
//! which state each directory ends up with when both its state file and the
//! state file of an image replacing it are there.
use vstd::prelude::*;

use crate::signatures::State;
use crate::state_files::{ends_with, str_ends_with};
use crate::text::str_eq;

verus! {

/// `a` comes before `b` in the order of their characters (the order of
/// their UTF-8 bytes, in which sorted maps keep strings).
pub open spec fn str_lt(a: Seq<char>, b: Seq<char>) -> bool
    decreases a.len(),
{
    if a.len() == 0 {
        b.len() > 0
    } else if b.len() == 0 {
        false
    } else if a[0] != b[0] {
        a[0] < b[0]
    } else {
        str_lt(a.drop_first(), b.drop_first())
    }
}

proof fn lemma_str_lt_irreflexive(a: Seq<char>)
    ensures
        !str_lt(a, a),
    decreases a.len(),
{
    if a.len() > 0 {
        lemma_str_lt_irreflexive(a.drop_first());
    }
}

proof fn lemma_str_lt_total(a: Seq<char>, b: Seq<char>)
    ensures
        a == b || str_lt(a, b) || str_lt(b, a),
    decreases a.len(),
{
    if a.len() > 0 && b.len() > 0 && a[0] == b[0] {
        lemma_str_lt_total(a.drop_first(), b.drop_first());
        if a.drop_first() == b.drop_first() {
            assert(a =~= seq![a[0]] + a.drop_first());
            assert(b =~= seq![b[0]] + b.drop_first());
        }
    } else if a.len() == 0 && b.len() == 0 {
        assert(a =~= b);
    }
}

proof fn lemma_str_lt_asymmetric(a: Seq<char>, b: Seq<char>)
    ensures
        str_lt(a, b) ==> !str_lt(b, a),
    decreases a.len(),
{
    if a.len() > 0 && b.len() > 0 && a[0] == b[0] {
        lemma_str_lt_asymmetric(a.drop_first(), b.drop_first());
    }
}

proof fn lemma_str_lt_transitive(a: Seq<char>, b: Seq<char>, c: Seq<char>)
    ensures
        str_lt(a, b) && str_lt(b, c) ==> str_lt(a, c),
    decreases a.len(),
{
    if a.len() > 0 && b.len() > 0 && c.len() > 0 {
        lemma_str_lt_transitive(a.drop_first(), b.drop_first(), c.drop_first());
    }
}

/// Whether `a` comes before `b`.
pub fn str_less(a: &str, b: &str) -> (res: bool)
    ensures
        res == str_lt(a@, b@),
{
    let n = a.unicode_len();
    let m = b.unicode_len();
    let mut i: usize = 0;
    assert(a@.skip(0) =~= a@);
    assert(b@.skip(0) =~= b@);
    while i < n && i < m
        invariant
            i <= n,
            i <= m,
            n == a@.len(),
            m == b@.len(),
            str_lt(a@, b@) == str_lt(a@.skip(i as int), b@.skip(i as int)),
        decreases n - i,
    {
        let x = a.get_char(i);
        let y = b.get_char(i);
        assert(a@.skip(i as int)[0] == x && b@.skip(i as int)[0] == y);
        if x != y {
            return x < y;
        }
        assert(a@.skip(i as int).drop_first() =~= a@.skip(i + 1));
        assert(b@.skip(i as int).drop_first() =~= b@.skip(i + 1));
        i = i + 1;
    }
    i < m
}

/// The map that named states make (a later pair wins).
pub open spec fn states_map(s: Seq<(String, State)>) -> Map<Seq<char>, State>
    decreases s.len(),
{
    if s.len() == 0 {
        Map::empty()
    } else {
        states_map(s.drop_last()).insert(s.last().0@, s.last().1)
    }
}

/// The names come in strictly increasing order.
pub open spec fn names_sorted(s: Seq<(String, State)>) -> bool {
    forall|i: int, j: int| 0 <= i < j < s.len() ==> str_lt((#[trigger] s[i]).0@, (#[trigger] s[j]).0@)
}

proof fn lemma_map_absent(s: Seq<(String, State)>, k: Seq<char>)
    requires
        forall|i: int| 0 <= i < s.len() ==> (#[trigger] s[i]).0@ != k,
    ensures
        !states_map(s).contains_key(k),
    decreases s.len(),
{
    if s.len() > 0 {
        assert(s[s.len() - 1].0@ != k);
        lemma_map_absent(s.drop_last(), k);
    }
}

proof fn lemma_sorted_unique(s: Seq<(String, State)>)
    requires
        names_sorted(s),
    ensures
        forall|i: int, j: int|
            0 <= i < s.len() && 0 <= j < s.len() && i != j ==> (#[trigger] s[i]).0@ != (
            #[trigger] s[j]).0@,
{
    assert forall|i: int, j: int|
        0 <= i < s.len() && 0 <= j < s.len() && i != j implies (#[trigger] s[i]).0@ != (
        #[trigger] s[j]).0@ by {
        lemma_str_lt_irreflexive(s[i].0@);
        lemma_str_lt_irreflexive(s[j].0@);
    }
}

proof fn lemma_map_insert_at(s: Seq<(String, State)>, p: int, x: (String, State))
    requires
        0 <= p <= s.len(),
        forall|i: int| 0 <= i < s.len() ==> (#[trigger] s[i]).0@ != x.0@,
    ensures
        states_map(s.insert(p, x)) == states_map(s).insert(x.0@, x.1),
    decreases s.len() - p,
{
    let u = s.insert(p, x);
    if p == s.len() {
        assert(u.drop_last() =~= s);
    } else {
        let t = s.drop_last();
        assert forall|i: int| 0 <= i < t.len() implies (#[trigger] t[i]).0@ != x.0@ by {
            assert(t[i] == s[i]);
        }
        if p <= t.len() {
            lemma_map_insert_at(t, p, x);
        }
        assert(u.drop_last() =~= t.insert(p, x));
        assert(u.last() == s.last());
        assert(s.last().0@ != x.0@);
        assert(states_map(u) =~= states_map(s).insert(x.0@, x.1));
    }
}

proof fn lemma_map_update(s: Seq<(String, State)>, p: int, x: (String, State))
    requires
        0 <= p < s.len(),
        s[p].0@ == x.0@,
        forall|i: int, j: int|
            0 <= i < s.len() && 0 <= j < s.len() && i != j ==> (#[trigger] s[i]).0@ != (
            #[trigger] s[j]).0@,
    ensures
        states_map(s.update(p, x)) == states_map(s).insert(x.0@, x.1),
    decreases s.len(),
{
    let u = s.update(p, x);
    if p == s.len() - 1 {
        assert(u.drop_last() =~= s.drop_last());
        assert(states_map(u) =~= states_map(s).insert(x.0@, x.1));
    } else {
        let t = s.drop_last();
        assert forall|i: int, j: int|
            0 <= i < t.len() && 0 <= j < t.len() && i != j implies (#[trigger] t[i]).0@ != (
            #[trigger] t[j]).0@ by {
            assert(t[i] == s[i] && t[j] == s[j]);
        }
        assert(t[p] == s[p]);
        lemma_map_update(t, p, x);
        assert(u.drop_last() =~= t.update(p, x));
        assert(s[s.len() - 1].0@ != s[p].0@);
        assert(states_map(u) =~= states_map(s).insert(x.0@, x.1));
    }
}

proof fn lemma_map_has(s: Seq<(String, State)>, p: int)
    requires
        0 <= p < s.len(),
    ensures
        states_map(s).contains_key(s[p].0@),
    decreases s.len(),
{
    if p < s.len() - 1 {
        lemma_map_has(s.drop_last(), p);
        assert(s.drop_last()[p] == s[p]);
    }
}

/// A `.new.state` file is stale when no image is being written into its
/// directory (`writing` holds the names of the directories being written).
pub open spec fn is_stale(file_name: Seq<char>, writing: Seq<Seq<char>>) -> bool {
    ends_with(file_name, ".new.state"@) && !writing.contains(
        file_name.take(file_name.len() - 10),
    )
}

/// Whether the state file `file_name` is a stale `.new.state` file, to be
/// removed rather than read.
pub fn is_stale_state_file(file_name: &str, writing: &Vec<String>) -> (res: bool)
    ensures
        res == is_stale(file_name@, writing@.map_values(|s: String| s@)),
{
    proof {
        reveal_strlit(".new.state");
    }
    if !str_ends_with(file_name, ".new.state") {
        return false;
    }
    let n = file_name.unicode_len();
    let dir = file_name.substring_char(0, n - 10);
    let ghost names = writing@.map_values(|s: String| s@);
    let mut j: usize = 0;
    while j < writing.len()
        invariant
            j <= writing@.len(),
            names == writing@.map_values(|s: String| s@),
            ends_with(file_name@, ".new.state"@),
            dir@ == file_name@.take(file_name@.len() - 10),
            forall|i: int| 0 <= i < j ==> names[i] != dir@,
        decreases writing.len() - j,
    {
        if str_eq(writing[j].as_str(), dir) {
            assert(names[j as int] == dir@);
            assert(names.contains(dir@));
            return false;
        }
        j = j + 1;
    }
    true
}

/// The directory name a state file stands for, and whether the file records
/// an image replacing it: the file's name without `.state`, and without
/// `.new` before it if it is there.
pub open spec fn state_key(file_name: Seq<char>) -> (Seq<char>, bool) {
    let stem = file_name.take(file_name.len() - 6);
    if ends_with(stem, ".new"@) {
        (stem.take(stem.len() - 4), true)
    } else {
        (stem, false)
    }
}

/// The states after a state file was read: a state with no signatures is
/// broken and not taken; the state of an image replacing a directory takes
/// the directory's place; a directory's own state is taken only where no
/// state was taken for it.
pub open spec fn record_spec(m: Map<Seq<char>, State>, file_name: Seq<char>, state: State) -> Map<
    Seq<char>,
    State,
> {
    let (name, replacing) = state_key(file_name);
    if state.signatures@.len() < 1 {
        m
    } else if replacing {
        m.insert(name, state)
    } else if m.contains_key(name) {
        m
    } else {
        m.insert(name, state)
    }
}

/// The states found in a directory, by the names of the directories they
/// are for, in the order of the names.
pub struct ScannedStates {
    items: Vec<(String, State)>,
}

impl View for ScannedStates {
    type V = Map<Seq<char>, State>;

    closed spec fn view(&self) -> Map<Seq<char>, State> {
        states_map(self.items@)
    }
}

impl ScannedStates {
    /// The names come in strictly increasing order.
    pub closed spec fn wf(&self) -> bool {
        names_sorted(self.items@)
    }

    /// No state found yet.
    pub fn new() -> (res: ScannedStates)
        ensures
            res.wf(),
            res@ == Map::<Seq<char>, State>::empty(),
    {
        ScannedStates { items: Vec::new() }
    }

    /// Takes the state read from the state file `file_name` (see
    /// `record_spec`); tells whether it was taken, which it is not when it
    /// has no signatures (the file is then broken).
    pub fn record(&mut self, file_name: &str, state: State) -> (res: bool)
        requires
            old(self).wf(),
            ends_with(file_name@, ".state"@),
        ensures
            final(self).wf(),
            final(self)@ == record_spec(old(self)@, file_name@, state),
            res == (state.signatures@.len() >= 1),
    {
        proof {
            reveal_strlit(".new");
            reveal_strlit(".state");
        }
        if state.signatures.len() < 1 {
            return false;
        }
        let n = file_name.unicode_len();
        let stem = file_name.substring_char(0, n - 6);
        let replacing = str_ends_with(stem, ".new");
        let name = if replacing {
            stem.substring_char(0, stem.unicode_len() - 4)
        } else {
            stem
        };
        assert(state_key(file_name@) == (name@, replacing));
        let mut p: usize = 0;
        while p < self.items.len() && str_less(self.items[p].0.as_str(), name)
            invariant
                p <= self.items@.len(),
                names_sorted(self.items@),
                forall|i: int| 0 <= i < p ==> str_lt((#[trigger] self.items@[i]).0@, name@),
            decreases self.items.len() - p,
        {
            p = p + 1;
        }
        let ghost old_items = self.items@;
        proof {
            lemma_sorted_unique(old_items);
        }
        if p < self.items.len() && str_eq(self.items[p].0.as_str(), name) {
            proof {
                lemma_map_has(old_items, p as int);
            }
            if replacing {
                let key = name.to_owned();
                proof {
                    lemma_map_update(old_items, p as int, (key, state));
                }
                self.items.set(p, (key, state));
                proof {
                    assert(self.items@ == old_items.update(p as int, (key, state)));
                    assert forall|i: int, j: int| 0 <= i < j < self.items@.len() implies str_lt(
                        (#[trigger] self.items@[i]).0@,
                        (#[trigger] self.items@[j]).0@,
                    ) by {
                        assert(self.items@[i].0@ == old_items[i].0@);
                        assert(self.items@[j].0@ == old_items[j].0@);
                    }
                }
            }
            true
        } else {
            proof {
                assert forall|i: int| 0 <= i < old_items.len() implies (#[trigger] old_items[i]).0@
                    != name@ by {
                    if i < p {
                        lemma_str_lt_irreflexive(name@);
                    } else {
                        lemma_str_lt_total(old_items[p as int].0@, name@);
                        if i > p {
                            lemma_str_lt_transitive(name@, old_items[p as int].0@, old_items[i].0@);
                            lemma_str_lt_irreflexive(name@);
                            lemma_str_lt_asymmetric(name@, old_items[i].0@);
                        }
                    }
                }
                lemma_map_absent(old_items, name@);
            }
            let key = name.to_owned();
            proof {
                lemma_map_insert_at(old_items, p as int, (key, state));
            }
            self.items.insert(p, (key, state));
            proof {
                assert(self.items@ == old_items.insert(p as int, (key, state)));
                if p < old_items.len() {
                    lemma_str_lt_total(old_items[p as int].0@, name@);
                }
                assert forall|i: int, j: int| 0 <= i < j < self.items@.len() implies str_lt(
                    (#[trigger] self.items@[i]).0@,
                    (#[trigger] self.items@[j]).0@,
                ) by {
                    let u = self.items@;
                    if j < p {
                        assert(u[i] == old_items[i] && u[j] == old_items[j]);
                    } else if j == p {
                        assert(u[i] == old_items[i]);
                    } else if i < p {
                        assert(u[i] == old_items[i] && u[j] == old_items[j - 1]);
                        lemma_str_lt_transitive(old_items[i].0@, name@, old_items[p as int].0@);
                        lemma_str_lt_transitive(old_items[i].0@, old_items[p as int].0@, old_items[j - 1].0@);
                        if j - 1 == p {
                        }
                    } else if i == p {
                        assert(u[j] == old_items[j - 1]);
                        lemma_str_lt_transitive(name@, old_items[p as int].0@, old_items[j - 1].0@);
                    } else {
                        assert(u[i] == old_items[i - 1] && u[j] == old_items[j - 1]);
                    }
                }
            }
            true
        }
    }

    /// The states with the names of their directories, in the order of the
    /// names.
    pub fn into_sorted(self) -> (res: Vec<(String, State)>)
        requires
            self.wf(),
        ensures
            names_sorted(res@),
            states_map(res@) == self@,
    {
        self.items
    }
}

} // verus!
