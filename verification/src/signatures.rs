//! Signed state of an uploaded directory as the daemon records it.
use vstd::prelude::*;

verus! {

/// Identifier of an image (the hash of its index).
#[derive(PartialEq, Eq, Hash, Debug)]
pub struct ImageId(pub Vec<u8>);

impl View for ImageId {
    type V = Seq<u8>;

    open spec fn view(&self) -> Seq<u8> {
        self.0@
    }
}

impl Clone for ImageId {
    fn clone(&self) -> (res: ImageId)
        ensures
            res@ == self@,
    {
        ImageId(self.0.clone())
    }
}

impl ImageId {
    /// Whether two identifiers hold the same bytes.
    pub fn same_as(&self, other: &ImageId) -> (res: bool)
        ensures
            res == (self@ == other@),
    {
        let n = self.0.len();
        if n != other.0.len() {
            return false;
        }
        let mut i: usize = 0;
        while i < n
            invariant
                i <= n,
                n == self.0@.len(),
                n == other.0@.len(),
                forall|j: int| 0 <= j < i ==> self.0@[j] == other.0@[j],
            decreases n - i,
        {
            if self.0[i] != other.0[i] {
                return false;
            }
            i = i + 1;
        }
        assert(self.0@ =~= other.0@);
        true
    }
}

/// One signature of an upload with the time it was made at.
#[derive(Debug)]
pub struct SignatureEntry {
    /// Milliseconds since the UNIX epoch.
    pub timestamp: u64,
    /// The signature bytes.
    pub signature: Vec<u8>,
}

/// State of a directory: which image it holds and who signed it when.
#[derive(Debug)]
pub struct State {
    pub image: ImageId,
    pub signatures: Vec<SignatureEntry>,
}

impl View for SignatureEntry {
    type V = (u64, Seq<u8>);

    open spec fn view(&self) -> (u64, Seq<u8>) {
        (self.timestamp, self.signature@)
    }
}

impl Clone for SignatureEntry {
    fn clone(&self) -> (res: SignatureEntry)
        ensures
            res@ == self@,
    {
        SignatureEntry { timestamp: self.timestamp, signature: self.signature.clone() }
    }
}

impl Clone for State {
    fn clone(&self) -> (res: State)
        ensures
            res.image@ == self.image@,
            entry_views(res.signatures@) == entry_views(self.signatures@),
    {
        State { image: self.image.clone(), signatures: clone_entries(&self.signatures) }
    }
}

/// A copy of the entries.
pub fn clone_entries(v: &Vec<SignatureEntry>) -> (res: Vec<SignatureEntry>)
    ensures
        entry_views(res@) == entry_views(v@),
{
    let mut res: Vec<SignatureEntry> = Vec::new();
    let n = v.len();
    let mut i: usize = 0;
    while i < n
        invariant
            i <= n,
            n == v@.len(),
            entry_views(res@) == entry_views(v@).take(i as int),
        decreases n - i,
    {
        let ghost before = res@;
        let c = v[i].clone();
        assert(c@ == v@[i as int]@);
        res.push(c);
        assert(entry_views(res@) =~= entry_views(before).push(c@));
        assert(entry_views(res@) =~= entry_views(v@).take(i + 1));
        i = i + 1;
    }
    assert(entry_views(v@).take(n as int) =~= entry_views(v@));
    res
}

/// Whether two lists hold equal entries in the same order.
pub fn entries_eq(a: &Vec<SignatureEntry>, b: &Vec<SignatureEntry>) -> (res: bool)
    ensures
        res == (entry_views(a@) == entry_views(b@)),
{
    let n = a.len();
    if n != b.len() {
        return false;
    }
    let mut i: usize = 0;
    while i < n
        invariant
            i <= n,
            n == a@.len(),
            n == b@.len(),
            forall|j: int| 0 <= j < i ==> a@[j]@ == b@[j]@,
        decreases n - i,
    {
        if !entry_eq(&a[i], &b[i]) {
            assert(entry_views(a@)[i as int] != entry_views(b@)[i as int]);
            return false;
        }
        i = i + 1;
    }
    assert(entry_views(a@) =~= entry_views(b@));
    true
}

/// The views of the entries.
pub open spec fn entry_views(s: Seq<SignatureEntry>) -> Seq<(u64, Seq<u8>)> {
    s.map_values(|e: SignatureEntry| e@)
}

/// Lexicographic order of byte strings (a prefix comes first).
pub open spec fn lex_le(a: Seq<u8>, b: Seq<u8>) -> bool
    decreases a.len(),
{
    if a.len() == 0 {
        true
    } else if b.len() == 0 {
        false
    } else if a[0] != b[0] {
        a[0] < b[0]
    } else {
        lex_le(a.drop_first(), b.drop_first())
    }
}

/// The order of signature entries: by timestamp, then by signature bytes.
pub open spec fn entry_le(a: (u64, Seq<u8>), b: (u64, Seq<u8>)) -> bool {
    a.0 < b.0 || (a.0 == b.0 && lex_le(a.1, b.1))
}

/// The entries are in ascending order.
pub open spec fn sorted_entries(s: Seq<(u64, Seq<u8>)>) -> bool {
    forall|i: int, j: int| 0 <= i < j < s.len() ==> entry_le(#[trigger] s[i], #[trigger] s[j])
}

/// `old` followed by the entries of `new` that are not already there (an
/// entry repeated in `new` is added once).
pub open spec fn add_unique<V>(old: Seq<V>, new: Seq<V>) -> Seq<V>
    decreases new.len(),
{
    if new.len() == 0 {
        old
    } else {
        add_unique(
            if old.contains(new[0]) {
                old
            } else {
                old.push(new[0])
            },
            new.drop_first(),
        )
    }
}

/// What `old` holds, and every entry of `new`, is in `add_unique(old, new)`.
proof fn lemma_add_unique_contains<V>(old: Seq<V>, new: Seq<V>)
    ensures
        forall|x: V| old.contains(x) ==> add_unique(old, new).contains(x),
        forall|i: int| 0 <= i < new.len() ==> add_unique(old, new).contains(#[trigger] new[i]),
    decreases new.len(),
{
    if new.len() > 0 {
        let o2 = if old.contains(new[0]) {
            old
        } else {
            old.push(new[0])
        };
        lemma_add_unique_contains(o2, new.drop_first());
        assert forall|x: V| old.contains(x) implies o2.contains(x) by {
            if !old.contains(new[0]) {
                let j = choose|j: int| 0 <= j < old.len() && old[j] == x;
                assert(o2[j] == x);
            }
        }
        assert(o2.contains(new[0])) by {
            if !old.contains(new[0]) {
                assert(o2[old.len() as int] == new[0]);
            }
        }
        assert forall|i: int| 0 <= i < new.len() implies add_unique(old, new).contains(
            #[trigger] new[i],
        ) by {
            if i > 0 {
                assert(new[i] == new.drop_first()[i - 1]);
            }
        }
    }
}

/// Adding entries that are all there already changes nothing.
proof fn lemma_add_unique_present<V>(old: Seq<V>, new: Seq<V>)
    requires
        forall|i: int| 0 <= i < new.len() ==> old.contains(#[trigger] new[i]),
    ensures
        add_unique(old, new) == old,
    decreases new.len(),
{
    if new.len() > 0 {
        assert(old.contains(new[0]));
        assert forall|i: int| 0 <= i < new.drop_first().len() implies old.contains(
            #[trigger] new.drop_first()[i],
        ) by {
            assert(new.drop_first()[i] == new[i + 1]);
        }
        lemma_add_unique_present(old, new.drop_first());
    }
}

/// Appending the same signatures a second time adds nothing: a list that
/// holds what appending `new` to `old` gave (in any order) is left with the
/// same entries when `new` is appended to it again.
pub proof fn lemma_append_again<V>(old: Seq<V>, new: Seq<V>, sigs: Seq<V>)
    requires
        sigs.to_multiset() == add_unique(old, new).to_multiset(),
    ensures
        add_unique(sigs, new).to_multiset() == sigs.to_multiset(),
{
    broadcast use vstd::seq_lib::group_to_multiset_ensures;

    lemma_add_unique_contains(old, new);
    assert forall|i: int| 0 <= i < new.len() implies sigs.contains(#[trigger] new[i]) by {
        assert(add_unique(old, new).contains(new[i]));
        assert(add_unique(old, new).to_multiset().count(new[i]) > 0);
    }
    lemma_add_unique_present(sigs, new);
}

proof fn lemma_lex_total(a: Seq<u8>, b: Seq<u8>)
    ensures
        lex_le(a, b) || lex_le(b, a),
    decreases a.len(),
{
    if a.len() > 0 && b.len() > 0 && a[0] == b[0] {
        lemma_lex_total(a.drop_first(), b.drop_first());
    }
}

proof fn lemma_lex_trans(a: Seq<u8>, b: Seq<u8>, c: Seq<u8>)
    requires
        lex_le(a, b),
        lex_le(b, c),
    ensures
        lex_le(a, c),
    decreases a.len(),
{
    if a.len() > 0 && b.len() > 0 && c.len() > 0 && a[0] == b[0] && b[0] == c[0] {
        lemma_lex_trans(a.drop_first(), b.drop_first(), c.drop_first());
    }
}

/// The order of entries is total.
pub proof fn lemma_entry_total(a: (u64, Seq<u8>), b: (u64, Seq<u8>))
    ensures
        entry_le(a, b) || entry_le(b, a),
{
    lemma_lex_total(a.1, b.1);
}

/// The order of entries is transitive.
pub proof fn lemma_entry_trans(a: (u64, Seq<u8>), b: (u64, Seq<u8>), c: (u64, Seq<u8>))
    requires
        entry_le(a, b),
        entry_le(b, c),
    ensures
        entry_le(a, c),
{
    if a.0 == b.0 && b.0 == c.0 {
        lemma_lex_trans(a.1, b.1, c.1);
    }
}

/// Whether `a` comes no later than `b` in the byte order.
fn bytes_le(a: &Vec<u8>, b: &Vec<u8>) -> (res: bool)
    ensures
        res == lex_le(a@, b@),
{
    let mut i: usize = 0;
    assert(a@.skip(0) =~= a@);
    assert(b@.skip(0) =~= b@);
    while i < a.len() && i < b.len() && a[i] == b[i]
        invariant
            i <= a@.len(),
            i <= b@.len(),
            lex_le(a@, b@) == lex_le(a@.skip(i as int), b@.skip(i as int)),
        decreases a@.len() - i,
    {
        assert(a@.skip(i as int).drop_first() =~= a@.skip(i + 1));
        assert(b@.skip(i as int).drop_first() =~= b@.skip(i + 1));
        i = i + 1;
    }
    if i == a.len() {
        true
    } else if i == b.len() {
        false
    } else {
        a[i] < b[i]
    }
}

/// Whether `a` comes no later than `b`.
fn entry_le_exec(a: &SignatureEntry, b: &SignatureEntry) -> (res: bool)
    ensures
        res == entry_le(a@, b@),
{
    a.timestamp < b.timestamp || (a.timestamp == b.timestamp && bytes_le(&a.signature, &b.signature))
}

/// Sorts signature entries by timestamp, then by signature bytes.
pub fn sort_signatures(v: &mut Vec<SignatureEntry>)
    ensures
        sorted_entries(entry_views(final(v)@)),
        entry_views(final(v)@).to_multiset() == entry_views(old(v)@).to_multiset(),
{
    broadcast use vstd::seq_lib::group_to_multiset_ensures;

    let mut src: Vec<SignatureEntry> = Vec::new();
    std::mem::swap(&mut src, v);
    let ghost orig = entry_views(src@);
    let mut out: Vec<SignatureEntry> = Vec::new();
    assert(entry_views(out@) =~= Seq::<(u64, Seq<u8>)>::empty());
    while src.len() > 0
        invariant
            sorted_entries(entry_views(out@)),
            entry_views(out@).to_multiset().add(entry_views(src@).to_multiset())
                == orig.to_multiset(),
        decreases src.len(),
    {
        let ghost src_before = src@;
        let ghost out_ms = entry_views(out@).to_multiset();
        let x = src.remove(0);
        assert(x == src_before[0]);
        assert(entry_views(src_before)[0] == x@);
        assert(entry_views(src@) =~= entry_views(src_before).remove(0));
        let mut p: usize = 0;
        while p < out.len() && entry_le_exec(&out[p], &x)
            invariant
                p <= out@.len(),
                forall|i: int| 0 <= i < p ==> entry_le(#[trigger] entry_views(out@)[i], x@),
            decreases out@.len() - p,
        {
            p = p + 1;
        }
        let ghost out_before = entry_views(out@);
        proof {
            if p < out@.len() {
                lemma_entry_total(out_before[p as int], x@);
            }
            assert forall|i: int| p <= i < out_before.len() implies entry_le(x@, #[trigger] out_before[i]) by {
                if i > p {
                    lemma_entry_trans(x@, out_before[p as int], out_before[i]);
                }
            }
        }
        out.insert(p, x);
        proof {
            let ov = entry_views(out@);
            assert(ov =~= out_before.insert(p as int, x@));
            assert forall|i: int, j: int| 0 <= i < j < ov.len() implies entry_le(#[trigger] ov[i], #[trigger] ov[j]) by {
                if j < p {
                    assert(ov[i] == out_before[i] && ov[j] == out_before[j]);
                } else if j == p {
                    assert(ov[i] == out_before[i]);
                } else if i < p {
                    assert(ov[i] == out_before[i] && ov[j] == out_before[j - 1]);
                    lemma_entry_trans(ov[i], x@, ov[j]);
                } else if i == p {
                    assert(ov[j] == out_before[j - 1]);
                } else {
                    assert(ov[i] == out_before[i - 1] && ov[j] == out_before[j - 1]);
                }
            }
            assert(entry_views(src_before) =~= entry_views(src@).insert(0, x@));
            vstd::seq_lib::to_multiset_insert(entry_views(src@), 0, x@);
            vstd::seq_lib::to_multiset_insert(out_before, p as int, x@);
            assert(ov.to_multiset().add(entry_views(src@).to_multiset()) =~= out_before.to_multiset().add(
                entry_views(src_before).to_multiset(),
            ));
        }
    }
    assert(entry_views(src@) =~= Seq::<(u64, Seq<u8>)>::empty());
    *v = out;
}

/// Whether two entries have the same timestamp and signature.
fn entry_eq(a: &SignatureEntry, b: &SignatureEntry) -> (res: bool)
    ensures
        res == (a@ == b@),
{
    if a.timestamp != b.timestamp || a.signature.len() != b.signature.len() {
        return false;
    }
    let n = a.signature.len();
    let mut i: usize = 0;
    while i < n
        invariant
            i <= n,
            n == a.signature@.len(),
            n == b.signature@.len(),
            forall|j: int| 0 <= j < i ==> a.signature@[j] == b.signature@[j],
        decreases n - i,
    {
        if a.signature[i] != b.signature[i] {
            return false;
        }
        i = i + 1;
    }
    assert(a.signature@ =~= b.signature@);
    true
}

/// Whether `list` holds an entry equal to `e`.
fn contains_entry(list: &Vec<SignatureEntry>, e: &SignatureEntry) -> (res: bool)
    ensures
        res == entry_views(list@).contains(e@),
{
    let n = list.len();
    let mut i: usize = 0;
    while i < n
        invariant
            i <= n,
            n == list@.len(),
            forall|j: int| 0 <= j < i ==> list@[j]@ != e@,
        decreases n - i,
    {
        if entry_eq(&list[i], e) {
            assert(entry_views(list@)[i as int] == e@);
            return true;
        }
        i = i + 1;
    }
    assert forall|j: int| 0 <= j < entry_views(list@).len() implies entry_views(list@)[j] != e@ by {
        assert(entry_views(list@)[j] == list@[j]@);
    }
    false
}

/// Adds the entries of `new` that `sigs` does not hold yet (each once), then
/// sorts by timestamp and signature.
pub fn append_signatures(sigs: &mut Vec<SignatureEntry>, new: Vec<SignatureEntry>)
    ensures
        sorted_entries(entry_views(final(sigs)@)),
        entry_views(final(sigs)@).to_multiset() == add_unique(
            entry_views(old(sigs)@),
            entry_views(new@),
        ).to_multiset(),
{
    let ghost target = add_unique(entry_views(sigs@), entry_views(new@));
    let mut src = new;
    while src.len() > 0
        invariant
            add_unique(entry_views(sigs@), entry_views(src@)) == target,
        decreases src.len(),
    {
        let ghost before = src@;
        let x = src.remove(0);
        proof {
            assert(x == before[0]);
            assert(entry_views(before)[0] == x@);
            assert(entry_views(src@) =~= entry_views(before).drop_first());
        }
        if !contains_entry(sigs, &x) {
            let ghost o = sigs@;
            sigs.push(x);
            assert(entry_views(sigs@) =~= entry_views(o).push(x@));
        }
    }
    assert(entry_views(src@) =~= Seq::<(u64, Seq<u8>)>::empty());
    sort_signatures(sigs);
}

} // verus!
