//! Choosing images that already lie on disk as sources of hard links for a
//! directory that is being downloaded, and the files that can be linked
//! from them rather than fetched.
use vstd::prelude::*;

use crate::index::{Entry, PathPart};
use crate::key_set::views;
use crate::index_tree::{clone_hashes, hashes_view};
use crate::stable_sort::{
    is_stable_sort_desc, lemma_insert_stable, lemma_stable_sort_empty, lemma_stable_sort_unique,
    stable_sort_desc,
};
use crate::signatures::{SignatureEntry, State};

verus! {

/// At most this many images are searched for files to link.
pub const MAX_SOURCES: usize = 37;

/// The latest timestamp of a list of signatures, or the epoch (0) when it
/// is empty.
pub open spec fn max_timestamp(sigs: Seq<SignatureEntry>) -> int
    decreases sigs.len(),
{
    if sigs.len() == 0 {
        0
    } else {
        let m = max_timestamp(sigs.drop_last());
        let t = sigs.last().timestamp as int;
        if t > m {
            t
        } else {
            m
        }
    }
}

/// Ranks a directory by the latest time it was signed.
pub open spec fn latest_key() -> spec_fn((String, State)) -> int {
    |x: (String, State)| max_timestamp(x.1.signatures@)
}

/// Some directory of `sel` holds the image `img`.
pub open spec fn has_image(sel: Seq<(String, State)>, img: Seq<u8>) -> bool {
    exists|j: int| 0 <= j < sel.len() && (#[trigger] sel[j]).1.image@ == img
}

/// `x` considered after the directories `sel` were chosen: taken unless
/// enough are chosen already, its image is chosen already, or it is being
/// written.
pub open spec fn pick(sel: Seq<(String, State)>, x: (String, State), writing: Seq<Seq<char>>) -> Seq<
    (String, State),
> {
    if sel.len() >= MAX_SOURCES || has_image(sel, x.1.image@) || writing.contains(x.0@) {
        sel
    } else {
        sel.push(x)
    }
}

/// The directories of `s` chosen in order.
pub open spec fn picks(s: Seq<(String, State)>, writing: Seq<Seq<char>>) -> Seq<(String, State)>
    decreases s.len(),
{
    if s.len() == 0 {
        Seq::empty()
    } else {
        pick(picks(s.drop_last(), writing), s.last(), writing)
    }
}

/// The directories chosen are at most `MAX_SOURCES`, hold different images,
/// are none of those being written, and are among those given.
pub proof fn lemma_picks(s: Seq<(String, State)>, writing: Seq<Seq<char>>)
    ensures
        ({
            let r = picks(s, writing);
            &&& r.len() <= MAX_SOURCES
            &&& forall|i: int, j: int|
                0 <= i < j < r.len() ==> (#[trigger] r[i]).1.image@ != (#[trigger] r[j]).1.image@
            &&& forall|i: int|
                0 <= i < r.len() ==> !writing.contains((#[trigger] r[i]).0@) && s.contains(r[i])
        }),
    decreases s.len(),
{
    if s.len() > 0 {
        let t = s.drop_last();
        let x = s.last();
        lemma_picks(t, writing);
        let p = picks(t, writing);
        let r = picks(s, writing);
        assert forall|i: int| 0 <= i < p.len() implies s.contains(#[trigger] p[i]) by {
            let k = choose|k: int| 0 <= k < t.len() && t[k] == p[i];
            assert(s[k] == t[k]);
        }
        if !(p.len() >= MAX_SOURCES || has_image(p, x.1.image@) || writing.contains(x.0@)) {
            assert(r == p.push(x));
            assert forall|i: int, j: int| 0 <= i < j < r.len() implies (#[trigger] r[i]).1.image@
                != (#[trigger] r[j]).1.image@ by {
                if j == p.len() {
                    assert(r[i] == p[i]);
                    assert(r[j] == x);
                    if p[i].1.image@ == x.1.image@ {
                        assert(has_image(p, x.1.image@));
                    }
                } else {
                    assert(r[i] == p[i] && r[j] == p[j]);
                }
            }
            assert forall|i: int| 0 <= i < r.len() implies !writing.contains((#[trigger] r[i]).0@)
                && s.contains(r[i]) by {
                if i < p.len() {
                    assert(r[i] == p[i]);
                } else {
                    assert(r[i] == s[s.len() - 1]);
                }
            }
        }
    }
}

/// The latest signature timestamp of a state.
pub fn latest_timestamp(state: &State) -> (res: u64)
    ensures
        res == max_timestamp(state.signatures@),
{
    let n = state.signatures.len();
    let mut m: u64 = 0;
    let mut i: usize = 0;
    assert(state.signatures@.take(0) =~= Seq::<SignatureEntry>::empty());
    while i < n
        invariant
            i <= n,
            n == state.signatures@.len(),
            m == max_timestamp(state.signatures@.take(i as int)),
        decreases n - i,
    {
        let t = state.signatures[i].timestamp;
        assert(state.signatures@.take(i + 1).drop_last() =~= state.signatures@.take(i as int));
        if t > m {
            m = t;
        }
        i = i + 1;
    }
    assert(state.signatures@.take(n as int) =~= state.signatures@);
    m
}

/// Stable sort of the directories by their latest signature, latest first.
fn sort_by_latest(items: Vec<(String, State)>) -> (res: Vec<(String, State)>)
    ensures
        res@ == stable_sort_desc(items@, latest_key()),
{
    let ghost key = latest_key();
    let ghost orig = items@;
    let mut src = items;
    let mut out: Vec<(String, State)> = Vec::new();
    proof {
        lemma_stable_sort_empty(key);
        assert(orig.take(0) =~= Seq::<(String, State)>::empty());
        assert(orig.skip(0) =~= orig);
    }
    while src.len() > 0
        invariant
            src@.len() <= orig.len(),
            src@ == orig.skip(orig.len() - src@.len()),
            is_stable_sort_desc(orig.take(orig.len() - src@.len()), out@, key),
            key == latest_key(),
        decreases src.len(),
    {
        let ghost done = orig.len() - src@.len();
        let x = src.remove(0);
        assert(x == orig[done]);
        let tx = latest_timestamp(&x.1);
        let mut p: usize = 0;
        while p < out.len() && latest_timestamp(&out[p].1) >= tx
            invariant
                p <= out@.len(),
                key == latest_key(),
                tx == max_timestamp(x.1.signatures@),
                forall|i: int| 0 <= i < p ==> key(#[trigger] out@[i]) >= key(x),
            decreases out@.len() - p,
        {
            p = p + 1;
        }
        proof {
            assert forall|i: int| p <= i < out@.len() implies key(#[trigger] out@[i]) < key(x) by {
                assert(key(out@[i]) <= key(out@[p as int]));
            }
            assert(orig.take(done + 1) =~= orig.take(done).push(x));
            assert(src@ =~= orig.skip(done + 1));
            lemma_insert_stable(orig.take(done), out@, x, p as int, key);
        }
        out.insert(p, x);
    }
    proof {
        assert(orig.take(orig.len() as int) =~= orig);
        lemma_stable_sort_unique(orig, out@, key);
    }
    out
}

/// Whether a chosen directory holds the image of `x`.
fn image_chosen(sel: &Vec<(String, State)>, x: &State) -> (res: bool)
    ensures
        res == has_image(sel@, x.image@),
{
    let mut j: usize = 0;
    while j < sel.len()
        invariant
            j <= sel@.len(),
            forall|i: int| 0 <= i < j ==> (#[trigger] sel@[i]).1.image@ != x.image@,
        decreases sel.len() - j,
    {
        if sel[j].1.image.same_as(&x.image) {
            return true;
        }
        j = j + 1;
    }
    false
}

/// Whether `name` is among `writing`.
fn is_writing(writing: &Vec<String>, name: &String) -> (res: bool)
    ensures
        res == views(writing@).contains(name@),
{
    let mut j: usize = 0;
    while j < writing.len()
        invariant
            j <= writing@.len(),
            forall|i: int| 0 <= i < j ==> (#[trigger] writing@[i])@ != name@,
        decreases writing.len() - j,
    {
        if writing[j] == *name {
            assert(views(writing@)[j as int] == name@);
            return true;
        }
        j = j + 1;
    }
    assert forall|i: int| 0 <= i < views(writing@).len() implies views(writing@)[i] != name@ by {
        assert(views(writing@)[i] == writing@[i]@);
    }
    false
}

/// The directories of a base directory to look for files to link in, given
/// each directory's name and recorded state (in the order of their names)
/// and the names of those being written: latest signed first (directories
/// signed at the same time keep their order), one directory per image,
/// none being written, at most `MAX_SOURCES`.
pub fn select_link_sources(states: Vec<(String, State)>, writing: &Vec<String>) -> (res: Vec<
    (String, State),
>)
    ensures
        res@ == picks(stable_sort_desc(states@, latest_key()), views(writing@)),
{
    let sorted = sort_by_latest(states);
    let ghost all = sorted@;
    let mut selected: Vec<(String, State)> = Vec::new();
    assert(all.take(0) =~= Seq::<(String, State)>::empty());
    for x in it: sorted.into_iter()
        invariant
            it.seq() == all,
            selected@ == picks(all.take(it.index() as int), views(writing@)),
    {
        let ghost k = it.index() as int;
        proof {
            assert(all.take(k + 1).drop_last() =~= all.take(k));
            assert(all.take(k + 1).last() == all[k]);
        }
        if selected.len() < MAX_SOURCES && !image_chosen(&selected, &x.1) && !is_writing(
            writing,
            &x.0,
        ) {
            selected.push(x);
        }
    }
    assert(all.take(all.len() as int) =~= all);
    selected
}

/// A file of a new image that can be linked from an image on disk.
#[derive(Debug)]
pub struct Hardlink {
    /// The directory that holds the file already.
    pub source: String,
    pub path: Vec<PathPart>,
    pub exe: bool,
    pub size: u64,
    pub hashes: Vec<Vec<u8>>,
}

/// Two path components are the same.
pub open spec fn same_part(a: PathPart, b: PathPart) -> bool {
    match (a, b) {
        (PathPart::Root, PathPart::Root) => true,
        (PathPart::Normal(x), PathPart::Normal(y)) => x@ == y@,
        (PathPart::Special, PathPart::Special) => true,
        _ => false,
    }
}

/// Two paths are the same.
pub open spec fn same_path(a: Seq<PathPart>, b: Seq<PathPart>) -> bool {
    a.len() == b.len() && forall|i: int| 0 <= i < a.len() ==> same_part(#[trigger] a[i], b[i])
}

/// Entry `e` is the file at `path` with the given flag, size and hashes.
pub open spec fn is_same_file(
    e: Entry,
    path: Seq<PathPart>,
    exe: bool,
    size: u64,
    hashes: Seq<Seq<u8>>,
) -> bool {
    match e {
        Entry::File { path: p, exe: x, size: s, hashes: h } => same_path(p@, path) && x == exe && s
            == size && hashes_view(h@) == hashes,
        _ => false,
    }
}

/// Index `entries` lists the file at `path` with the given flag, size and hashes.
pub open spec fn lists_file(
    entries: Seq<Entry>,
    path: Seq<PathPart>,
    exe: bool,
    size: u64,
    hashes: Seq<Seq<u8>>,
) -> bool {
    exists|i: int| 0 <= i < entries.len() && is_same_file(#[trigger] entries[i], path, exe, size, hashes)
}

/// The first source, from the `i`-th on, that lists the file.
pub open spec fn first_source(
    sources: Seq<(String, Vec<Entry>)>,
    i: int,
    path: Seq<PathPart>,
    exe: bool,
    size: u64,
    hashes: Seq<Seq<u8>>,
) -> Option<int>
    decreases sources.len() - i,
{
    if i < 0 || i >= sources.len() {
        None
    } else if lists_file(sources[i].1@, path, exe, size, hashes) {
        Some(i)
    } else {
        first_source(sources, i + 1, path, exe, size, hashes)
    }
}

/// The link found for entry `e` of the new image: the first source that
/// lists it, if it is a file.
pub open spec fn link_for(e: Entry, sources: Seq<(String, Vec<Entry>)>) -> Option<int> {
    match e {
        Entry::File { path, exe, size, hashes } => first_source(
            sources,
            0,
            path@,
            exe,
            size,
            hashes_view(hashes@),
        ),
        _ => None,
    }
}

/// The links found for the entries of the new image, in order: for each
/// entry that gets one, the entry and the position of its source.
pub open spec fn links(entries: Seq<Entry>, sources: Seq<(String, Vec<Entry>)>) -> Seq<(int, Entry)>
    decreases entries.len(),
{
    if entries.len() == 0 {
        Seq::empty()
    } else {
        let rest = links(entries.drop_last(), sources);
        match link_for(entries.last(), sources) {
            Some(k) => rest.push((k, entries.last())),
            None => rest,
        }
    }
}

/// `h` is the link of file entry `l.1` from source `l.0`.
pub open spec fn is_link(h: Hardlink, l: (int, Entry), sources: Seq<(String, Vec<Entry>)>) -> bool {
    &&& 0 <= l.0 < sources.len()
    &&& h.source@ == sources[l.0].0@
    &&& l.1 matches Entry::File { path, exe, size, hashes } && same_path(h.path@, path@) && h.exe
        == exe && h.size == size && hashes_view(h.hashes@) == hashes_view(hashes@)
}

/// A copy of a path component.
pub(crate) fn clone_part(p: &PathPart) -> (res: PathPart)
    ensures
        same_part(res, *p),
{
    match p {
        PathPart::Root => PathPart::Root,
        PathPart::Normal(s) => PathPart::Normal(s.clone()),
        PathPart::Special => PathPart::Special,
    }
}

/// A copy of a path.
pub(crate) fn clone_path(v: &Vec<PathPart>) -> (res: Vec<PathPart>)
    ensures
        same_path(res@, v@),
{
    let mut res: Vec<PathPart> = Vec::new();
    let mut i: usize = 0;
    while i < v.len()
        invariant
            i <= v@.len(),
            res@.len() == i,
            forall|j: int| 0 <= j < i ==> same_part(#[trigger] res@[j], v@[j]),
        decreases v.len() - i,
    {
        let c = clone_part(&v[i]);
        res.push(c);
        i = i + 1;
    }
    res
}

/// Whether two path components are the same.
fn part_eq(a: &PathPart, b: &PathPart) -> (res: bool)
    ensures
        res == same_part(*a, *b),
{
    match (a, b) {
        (PathPart::Root, PathPart::Root) => true,
        (PathPart::Normal(x), PathPart::Normal(y)) => *x == *y,
        (PathPart::Special, PathPart::Special) => true,
        _ => false,
    }
}

/// Whether two paths are the same.
fn path_eq(a: &Vec<PathPart>, b: &Vec<PathPart>) -> (res: bool)
    ensures
        res == same_path(a@, b@),
{
    if a.len() != b.len() {
        return false;
    }
    let mut i: usize = 0;
    while i < a.len()
        invariant
            i <= a@.len(),
            a@.len() == b@.len(),
            forall|j: int| 0 <= j < i ==> same_part(#[trigger] a@[j], b@[j]),
        decreases a.len() - i,
    {
        if !part_eq(&a[i], &b[i]) {
            return false;
        }
        i = i + 1;
    }
    true
}

/// Whether two lists of hashes are the same.
fn hashes_eq(a: &Vec<Vec<u8>>, b: &Vec<Vec<u8>>) -> (res: bool)
    ensures
        res == (hashes_view(a@) == hashes_view(b@)),
{
    if a.len() != b.len() {
        assert(hashes_view(a@).len() != hashes_view(b@).len());
        return false;
    }
    let mut i: usize = 0;
    while i < a.len()
        invariant
            i <= a@.len(),
            a@.len() == b@.len(),
            forall|j: int| 0 <= j < i ==> (#[trigger] a@[j])@ == b@[j]@,
        decreases a.len() - i,
    {
        let x = &a[i];
        let y = &b[i];
        assert(hashes_view(a@)[i as int] == x@ && hashes_view(b@)[i as int] == y@);
        if x.len() != y.len() {
            assert(hashes_view(a@)[i as int].len() != hashes_view(b@)[i as int].len());
            return false;
        }
        if !(*x == *y) {
            assert(hashes_view(a@)[i as int] != hashes_view(b@)[i as int]);
            return false;
        }
        assert(x@ =~= y@);
        i = i + 1;
    }
    assert(hashes_view(a@) =~= hashes_view(b@));
    true
}

/// Whether index `entries` lists the file.
fn lists(
    entries: &Vec<Entry>,
    path: &Vec<PathPart>,
    exe: bool,
    size: u64,
    hashes: &Vec<Vec<u8>>,
) -> (res: bool)
    ensures
        res == lists_file(entries@, path@, exe, size, hashes_view(hashes@)),
{
    let mut i: usize = 0;
    while i < entries.len()
        invariant
            i <= entries@.len(),
            forall|j: int|
                0 <= j < i ==> !is_same_file(#[trigger] entries@[j], path@, exe, size, hashes_view(hashes@)),
        decreases entries.len() - i,
    {
        match &entries[i] {
            Entry::File { path: p, exe: x, size: s, hashes: h } => {
                if *x == exe && *s == size && path_eq(p, path) && hashes_eq(h, hashes) {
                    return true;
                }
            },
            _ => {},
        }
        i = i + 1;
    }
    false
}

/// The first source found lies in range and lists the file.
proof fn lemma_first_source(
    sources: Seq<(String, Vec<Entry>)>,
    i: int,
    path: Seq<PathPart>,
    exe: bool,
    size: u64,
    hashes: Seq<Seq<u8>>,
)
    ensures
        first_source(sources, i, path, exe, size, hashes) matches Some(k) ==> i <= k < sources.len()
            && lists_file(sources[k].1@, path, exe, size, hashes),
    decreases sources.len() - i,
{
    if 0 <= i < sources.len() && !lists_file(sources[i].1@, path, exe, size, hashes) {
        lemma_first_source(sources, i + 1, path, exe, size, hashes);
    }
}

/// The first source that lists the file.
fn find_source(
    sources: &Vec<(String, Vec<Entry>)>,
    path: &Vec<PathPart>,
    exe: bool,
    size: u64,
    hashes: &Vec<Vec<u8>>,
) -> (res: Option<usize>)
    ensures
        match res {
            Some(k) => first_source(sources@, 0, path@, exe, size, hashes_view(hashes@)) == Some(
                k as int,
            ),
            None => first_source(sources@, 0, path@, exe, size, hashes_view(hashes@)) is None,
        },
{
    let mut i: usize = 0;
    while i < sources.len()
        invariant
            i <= sources@.len(),
            first_source(sources@, 0, path@, exe, size, hashes_view(hashes@)) == first_source(
                sources@,
                i as int,
                path@,
                exe,
                size,
                hashes_view(hashes@),
            ),
        decreases sources.len() - i,
    {
        if lists(&sources[i].1, path, exe, size, hashes) {
            return Some(i);
        }
        i = i + 1;
    }
    None
}

/// The files of a new image (given by its entries) that can be linked from
/// images on disk (`sources`, each with its directory and the entries of its
/// index): each file with the first source that lists a file at the same
/// path with the same executable flag, size and hashes.
pub fn scan_links(entries: &Vec<Entry>, sources: &Vec<(String, Vec<Entry>)>) -> (res: Vec<Hardlink>)
    ensures
        res@.len() == links(entries@, sources@).len(),
        forall|i: int|
            0 <= i < res@.len() ==> is_link(#[trigger] res@[i], links(entries@, sources@)[i], sources@),
{
    let mut result: Vec<Hardlink> = Vec::new();
    let mut i: usize = 0;
    assert(entries@.take(0) =~= Seq::<Entry>::empty());
    while i < entries.len()
        invariant
            i <= entries@.len(),
            result@.len() == links(entries@.take(i as int), sources@).len(),
            forall|j: int|
                0 <= j < result@.len() ==> is_link(
                    #[trigger] result@[j],
                    links(entries@.take(i as int), sources@)[j],
                    sources@,
                ),
        decreases entries.len() - i,
    {
        assert(entries@.take(i + 1).drop_last() =~= entries@.take(i as int));
        assert(entries@.take(i + 1).last() == entries@[i as int]);
        match &entries[i] {
            Entry::File { path, exe, size, hashes } => {
                proof {
                    lemma_first_source(sources@, 0, path@, *exe, *size, hashes_view(hashes@));
                }
                match find_source(sources, path, *exe, *size, hashes) {
                    Some(k) => {
                        let ghost before = result@;
                        let h = Hardlink {
                            source: sources[k].0.clone(),
                            path: clone_path(path),
                            exe: *exe,
                            size: *size,
                            hashes: clone_hashes(hashes),
                        };
                        result.push(h);
                        proof {
                            assert(link_for(entries@[i as int], sources@) == Some(k as int));
                            let l = links(entries@.take(i + 1), sources@);
                            assert(l == links(entries@.take(i as int), sources@).push(
                                (k as int, entries@[i as int]),
                            ));
                            assert forall|j: int| 0 <= j < result@.len() implies is_link(
                                #[trigger] result@[j],
                                l[j],
                                sources@,
                            ) by {
                                if j < before.len() {
                                    assert(result@[j] == before[j]);
                                }
                            }
                        }
                    },
                    None => {},
                }
            },
            _ => {},
        }
        i = i + 1;
    }
    assert(entries@.take(entries@.len() as int) =~= entries@);
    result
}

} // verus!
