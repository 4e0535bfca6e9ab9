//! An index that can be queried by path: the directories, files and links
//! that the entries of an index describe, arranged by path.
//!
//! The model of an index is a map from paths (lists of names) to what each
//! path names. A file or link that takes the place of a directory hides what
//! was below it: a lookup only goes down through directories.
use vstd::prelude::*;

use crate::index::{Entry, PathPart};

verus! {

/// What a path of an index names.
pub enum Node {
    Dir,
    File(bool, u64, Seq<Seq<u8>>),
    Link(Seq<char>),
}

/// The model of an index: what each path names.
pub type Tree = Map<Seq<Seq<char>>, Node>;

/// An item of an index.
#[derive(Debug)]
pub enum Item {
    Dir,
    File { exe: bool, size: u64, hashes: Vec<Vec<u8>> },
    Link(String),
}

/// The hashes of a file's blocks.
pub open spec fn hashes_view(h: Seq<Vec<u8>>) -> Seq<Seq<u8>> {
    h.map_values(|x: Vec<u8>| x@)
}

/// The names of a path.
pub open spec fn names_view(p: Seq<String>) -> Seq<Seq<char>> {
    p.map_values(|s: String| s@)
}

/// What an item stands for.
pub open spec fn node_of(item: Item) -> Node {
    match item {
        Item::Dir => Node::Dir,
        Item::File { exe, size, hashes } => Node::File(exe, size, hashes_view(hashes@)),
        Item::Link(dest) => Node::Link(dest@),
    }
}

/// Why entries do not make an index.
pub enum Fail {
    /// The entry could not be read.
    Parse,
    /// A path with a component that has no place in an index.
    InvalidPath,
    /// A directory below something that is not a directory.
    PathConflict,
}

/// Going down from directory `cur` along the parts of a directory's path:
/// the root leaves it where it is, a name must be a directory (one is made
/// where the name is free), and any other part is invalid. Gives the tree
/// and the directory reached.
pub open spec fn walk(t: Tree, cur: Seq<Seq<char>>, parts: Seq<PathPart>) -> Result<
    (Tree, Seq<Seq<char>>),
    Fail,
>
    decreases parts.len(),
{
    if parts.len() == 0 {
        Ok((t, cur))
    } else {
        match parts[0] {
            PathPart::Root => walk(t, cur, parts.drop_first()),
            PathPart::Normal(c) => {
                let p = cur.push(c@);
                if !t.contains_key(p) {
                    walk(t.insert(p, Node::Dir), p, parts.drop_first())
                } else if t[p] is Dir {
                    walk(t, p, parts.drop_first())
                } else {
                    Err(Fail::PathConflict)
                }
            },
            PathPart::Special => Err(Fail::InvalidPath),
        }
    }
}

/// The last part of a path when it is a name.
pub open spec fn file_name(parts: Seq<PathPart>) -> Option<Seq<char>> {
    if parts.len() > 0 {
        match parts.last() {
            PathPart::Normal(n) => Some(n@),
            _ => None,
        }
    } else {
        None
    }
}

/// One entry read into the tree `st.0`, with `st.1` the directory that the
/// last directory entry named (the root at first): a directory entry makes
/// its directories from the root down and becomes the current directory; a
/// file or a link is put, by its last name, in the current directory.
pub open spec fn step<E>(st: (Tree, Seq<Seq<char>>), e: Result<Entry, E>) -> Result<
    (Tree, Seq<Seq<char>>),
    Fail,
> {
    match e {
        Err(_) => Err(Fail::Parse),
        Ok(Entry::Dir(parts)) => walk(st.0, seq![], parts@),
        Ok(Entry::File { path, exe, size, hashes }) => match file_name(path@) {
            Some(n) => Ok(
                (st.0.insert(st.1.push(n), Node::File(exe, size, hashes_view(hashes@))), st.1),
            ),
            None => Err(Fail::InvalidPath),
        },
        Ok(Entry::Link(path, dest)) => match file_name(path@) {
            Some(n) => Ok((st.0.insert(st.1.push(n), Node::Link(dest@)), st.1)),
            None => Err(Fail::InvalidPath),
        },
    }
}

/// All entries read in order into an empty tree; an error names the entry
/// (by its position) that caused it.
pub open spec fn fill<E>(entries: Seq<Result<Entry, E>>) -> Result<
    (Tree, Seq<Seq<char>>),
    (int, Fail),
>
    decreases entries.len(),
{
    if entries.len() == 0 {
        Ok((Map::empty(), seq![]))
    } else {
        match fill(entries.drop_last()) {
            Err(x) => Err(x),
            Ok(st) => match step(st, entries.last()) {
                Ok(next) => Ok(next),
                Err(f) => Err((entries.len() - 1, f)),
            },
        }
    }
}

/// Going down from directory `cur` along the parts of a path, through
/// directories only.
pub open spec fn resolve(t: Tree, cur: Seq<Seq<char>>, parts: Seq<PathPart>) -> Option<
    Seq<Seq<char>>,
>
    decreases parts.len(),
{
    if parts.len() == 0 {
        Some(cur)
    } else {
        match parts[0] {
            PathPart::Root => resolve(t, cur, parts.drop_first()),
            PathPart::Normal(c) => {
                let p = cur.push(c@);
                if t.contains_key(p) && t[p] is Dir {
                    resolve(t, p, parts.drop_first())
                } else {
                    None
                }
            },
            PathPart::Special => None,
        }
    }
}

/// The file at a path: its executable flag, size and block hashes.
pub open spec fn lookup_file(t: Tree, parts: Seq<PathPart>) -> Option<(bool, u64, Seq<Seq<u8>>)> {
    match file_name(parts) {
        None => None,
        Some(n) => match resolve(t, seq![], parts.drop_last()) {
            None => None,
            Some(d) => {
                let p = d.push(n);
                if t.contains_key(p) {
                    match t[p] {
                        Node::File(exe, size, h) => Some((exe, size, h)),
                        _ => None,
                    }
                } else {
                    None
                }
            },
        },
    }
}

/// Why the entries of an index do not make an index.
#[derive(Debug)]
pub enum IndexParseError<E> {
    /// An entry could not be read.
    Parse(E),
    /// An entry's path has a component that has no place in an index.
    InvalidPath(Vec<PathPart>),
    /// A directory's path goes through something that is not a directory.
    PathConflict(Vec<PathPart>),
}

/// The path of an entry.
pub open spec fn entry_path(e: Entry) -> Vec<PathPart> {
    match e {
        Entry::Dir(p) => p,
        Entry::File { path, .. } => path,
        Entry::Link(p, _) => p,
    }
}

/// `err` reports failure `f` on entry `e`.
pub open spec fn reports<E>(err: IndexParseError<E>, e: Result<Entry, E>, f: Fail) -> bool {
    match f {
        Fail::Parse => e matches Err(x) && err == IndexParseError::Parse(x),
        Fail::InvalidPath => e matches Ok(en) && err == IndexParseError::<E>::InvalidPath(
            entry_path(en),
        ),
        Fail::PathConflict => e matches Ok(en) && err == IndexParseError::<E>::PathConflict(
            entry_path(en),
        ),
    }
}

/// The path of a stored item.
spec fn key(x: (Vec<String>, Item)) -> Seq<Seq<char>> {
    names_view(x.0@)
}

/// No path is stored twice.
spec fn keys_unique(s: Seq<(Vec<String>, Item)>) -> bool {
    forall|i: int, j: int|
        0 <= i < s.len() && 0 <= j < s.len() && i != j ==> key(#[trigger] s[i]) != key(
            #[trigger] s[j],
        )
}

/// The tree that stored items make.
spec fn to_map(s: Seq<(Vec<String>, Item)>) -> Tree
    decreases s.len(),
{
    if s.len() == 0 {
        Map::empty()
    } else {
        to_map(s.drop_last()).insert(key(s.last()), node_of(s.last().1))
    }
}

proof fn lemma_to_map_absent(s: Seq<(Vec<String>, Item)>, k: Seq<Seq<char>>)
    requires
        forall|i: int| 0 <= i < s.len() ==> key(#[trigger] s[i]) != k,
    ensures
        !to_map(s).contains_key(k),
    decreases s.len(),
{
    if s.len() > 0 {
        assert(key(s[s.len() - 1]) != k);
        lemma_to_map_absent(s.drop_last(), k);
    }
}

proof fn lemma_to_map_at(s: Seq<(Vec<String>, Item)>, i: int)
    requires
        keys_unique(s),
        0 <= i < s.len(),
    ensures
        to_map(s).contains_key(key(s[i])),
        to_map(s)[key(s[i])] == node_of(s[i].1),
    decreases s.len(),
{
    if i < s.len() - 1 {
        let t = s.drop_last();
        assert(keys_unique(t)) by {
            assert forall|a: int, b: int|
                0 <= a < t.len() && 0 <= b < t.len() && a != b implies key(#[trigger] t[a]) != key(
                #[trigger] t[b],
            ) by {
                assert(t[a] == s[a] && t[b] == s[b]);
            }
        }
        lemma_to_map_at(t, i);
        assert(t[i] == s[i]);
        assert(key(s[i]) != key(s[s.len() - 1]));
    }
}

proof fn lemma_to_map_update(s: Seq<(Vec<String>, Item)>, i: int, x: (Vec<String>, Item))
    requires
        keys_unique(s),
        0 <= i < s.len(),
        key(x) == key(s[i]),
    ensures
        keys_unique(s.update(i, x)),
        to_map(s.update(i, x)) == to_map(s).insert(key(x), node_of(x.1)),
    decreases s.len(),
{
    let u = s.update(i, x);
    assert(keys_unique(u)) by {
        assert forall|a: int, b: int|
            0 <= a < u.len() && 0 <= b < u.len() && a != b implies key(#[trigger] u[a]) != key(
            #[trigger] u[b],
        ) by {
            if a != i && b != i {
                assert(u[a] == s[a] && u[b] == s[b]);
            } else if a == i {
                assert(u[b] == s[b]);
            } else {
                assert(u[a] == s[a]);
            }
        }
    }
    if i == s.len() - 1 {
        assert(u.drop_last() =~= s.drop_last());
        assert(to_map(u) =~= to_map(s).insert(key(x), node_of(x.1)));
    } else {
        let t = s.drop_last();
        assert(keys_unique(t)) by {
            assert forall|a: int, b: int|
                0 <= a < t.len() && 0 <= b < t.len() && a != b implies key(#[trigger] t[a]) != key(
                #[trigger] t[b],
            ) by {
                assert(t[a] == s[a] && t[b] == s[b]);
            }
        }
        assert(t[i] == s[i]);
        lemma_to_map_update(t, i, x);
        assert(u.drop_last() =~= t.update(i, x));
        assert(u.last() == s.last());
        assert(key(s.last()) != key(s[i]));
        assert(to_map(u) =~= to_map(s).insert(key(x), node_of(x.1)));
    }
}

proof fn lemma_push_unique(s: Seq<(Vec<String>, Item)>, x: (Vec<String>, Item))
    requires
        keys_unique(s),
        forall|i: int| 0 <= i < s.len() ==> key(#[trigger] s[i]) != key(x),
    ensures
        keys_unique(s.push(x)),
        to_map(s.push(x)) == to_map(s).insert(key(x), node_of(x.1)),
{
    let u = s.push(x);
    assert(keys_unique(u)) by {
        assert forall|a: int, b: int|
            0 <= a < u.len() && 0 <= b < u.len() && a != b implies key(#[trigger] u[a]) != key(
            #[trigger] u[b],
        ) by {
            if a < s.len() && b < s.len() {
                assert(u[a] == s[a] && u[b] == s[b]);
            } else if a < s.len() {
                assert(u[a] == s[a] && u[b] == x);
            } else {
                assert(u[b] == s[b] && u[a] == x);
            }
        }
    }
    assert(u.drop_last() =~= s);
}

/// Whether two paths have the same names.
fn names_eq(a: &Vec<String>, b: &Vec<String>) -> (res: bool)
    ensures
        res == (names_view(a@) == names_view(b@)),
{
    if a.len() != b.len() {
        assert(names_view(a@).len() != names_view(b@).len());
        return false;
    }
    let mut i: usize = 0;
    while i < a.len()
        invariant
            i <= a.len(),
            a.len() == b.len(),
            forall|j: int| 0 <= j < i ==> a@[j]@ == b@[j]@,
        decreases a.len() - i,
    {
        if !(a[i] == b[i]) {
            assert(names_view(a@)[i as int] != names_view(b@)[i as int]);
            return false;
        }
        i = i + 1;
    }
    assert(names_view(a@) =~= names_view(b@));
    true
}

/// A copy of a path.
fn clone_names(v: &Vec<String>) -> (res: Vec<String>)
    ensures
        names_view(res@) == names_view(v@),
{
    let mut res: Vec<String> = Vec::new();
    let mut i: usize = 0;
    while i < v.len()
        invariant
            i <= v.len(),
            names_view(res@) == names_view(v@.take(i as int)),
        decreases v.len() - i,
    {
        let ghost before = res@;
        let s = v[i].clone();
        assert(s@ == v@[i as int]@);
        res.push(s);
        assert(v@.take(i + 1) =~= v@.take(i as int).push(v@[i as int]));
        assert(names_view(res@) =~= names_view(before).push(s@));
        assert(names_view(res@) =~= names_view(v@.take(i + 1)));
        i = i + 1;
    }
    assert(v@.take(v.len() as int) =~= v@);
    res
}

/// A copy of the hashes of a file.
pub(crate) fn clone_hashes(v: &Vec<Vec<u8>>) -> (res: Vec<Vec<u8>>)
    ensures
        hashes_view(res@) == hashes_view(v@),
{
    let mut res: Vec<Vec<u8>> = Vec::new();
    let mut i: usize = 0;
    while i < v.len()
        invariant
            i <= v.len(),
            hashes_view(res@) == hashes_view(v@.take(i as int)),
        decreases v.len() - i,
    {
        let ghost before = res@;
        let h = v[i].clone();
        assert(h@ == v@[i as int]@);
        res.push(h);
        assert(v@.take(i + 1) =~= v@.take(i as int).push(v@[i as int]));
        assert(hashes_view(res@) =~= hashes_view(before).push(h@));
        assert(hashes_view(res@) =~= hashes_view(v@.take(i + 1)));
        i = i + 1;
    }
    assert(v@.take(v.len() as int) =~= v@);
    res
}

/// The position of the item stored at path `k`, if any.
fn find(nodes: &Vec<(Vec<String>, Item)>, k: &Vec<String>) -> (res: Option<usize>)
    ensures
        match res {
            Some(i) => i < nodes@.len() && key(nodes@[i as int]) == names_view(k@),
            None => forall|i: int| 0 <= i < nodes@.len() ==> key(#[trigger] nodes@[i]) != names_view(
                k@,
            ),
        },
{
    let mut i: usize = 0;
    while i < nodes.len()
        invariant
            i <= nodes@.len(),
            forall|j: int| 0 <= j < i ==> key(#[trigger] nodes@[j]) != names_view(k@),
        decreases nodes.len() - i,
    {
        if names_eq(&nodes[i].0, k) {
            return Some(i);
        }
        i = i + 1;
    }
    None
}

/// Stores `item` at `path`, in place of what was there.
fn put(nodes: &mut Vec<(Vec<String>, Item)>, path: Vec<String>, item: Item)
    requires
        keys_unique(old(nodes)@),
    ensures
        keys_unique(final(nodes)@),
        to_map(final(nodes)@) == to_map(old(nodes)@).insert(names_view(path@), node_of(item)),
{
    match find(nodes, &path) {
        Some(j) => {
            proof {
                lemma_to_map_update(nodes@, j as int, (path, item));
            }
            nodes.set(j, (path, item));
        },
        None => {
            proof {
                lemma_push_unique(nodes@, (path, item));
            }
            nodes.push((path, item));
        },
    }
}

/// Makes the directories of `parts` from the root down (see `walk`), and
/// gives the directory reached.
fn walk_dirs(nodes: &mut Vec<(Vec<String>, Item)>, parts: &Vec<PathPart>) -> (res: Result<
    Vec<String>,
    Fail,
>)
    requires
        keys_unique(old(nodes)@),
    ensures
        keys_unique(final(nodes)@),
        match walk(to_map(old(nodes)@), seq![], parts@) {
            Ok((t, c)) => res matches Ok(cur) && names_view(cur@) == c && to_map(final(nodes)@)
                == t,
            Err(f) => res == Err::<Vec<String>, Fail>(f),
        },
{
    let ghost goal = walk(to_map(nodes@), seq![], parts@);
    let mut cur: Vec<String> = Vec::new();
    let mut i: usize = 0;
    assert(parts@.skip(0) =~= parts@);
    assert(names_view(cur@) =~= Seq::<Seq<char>>::empty());
    while i < parts.len()
        invariant
            i <= parts@.len(),
            keys_unique(nodes@),
            goal == walk(to_map(old(nodes)@), seq![], parts@),
            goal == walk(to_map(nodes@), names_view(cur@), parts@.skip(i as int)),
        decreases parts.len() - i,
    {
        assert(parts@.skip(i as int)[0] == parts@[i as int]);
        assert(parts@.skip(i as int).drop_first() =~= parts@.skip(i + 1));
        match &parts[i] {
            PathPart::Root => {},
            PathPart::Normal(c) => {
                let mut p = clone_names(&cur);
                p.push(c.clone());
                assert(names_view(p@) =~= names_view(cur@).push(c@));
                match find(nodes, &p) {
                    Some(j) => {
                        proof {
                            lemma_to_map_at(nodes@, j as int);
                        }
                        match &nodes[j].1 {
                            Item::Dir => {
                                cur = p;
                            },
                            _ => {
                                return Err(Fail::PathConflict);
                            },
                        }
                    },
                    None => {
                        proof {
                            lemma_to_map_absent(nodes@, names_view(p@));
                        }
                        let q = clone_names(&p);
                        put(nodes, q, Item::Dir);
                        cur = p;
                    },
                }
            },
            PathPart::Special => {
                return Err(Fail::InvalidPath);
            },
        }
        i = i + 1;
    }
    assert(parts@.skip(i as int) =~= Seq::<PathPart>::empty());
    Ok(cur)
}

/// Going down directories fails only on an invalid path or a conflict.
proof fn lemma_walk_fails(t: Tree, cur: Seq<Seq<char>>, parts: Seq<PathPart>)
    ensures
        walk(t, cur, parts) matches Err(f) ==> f !is Parse,
    decreases parts.len(),
{
    if parts.len() > 0 {
        match parts[0] {
            PathPart::Root => lemma_walk_fails(t, cur, parts.drop_first()),
            PathPart::Normal(c) => {
                let p = cur.push(c@);
                lemma_walk_fails(t.insert(p, Node::Dir), p, parts.drop_first());
                lemma_walk_fails(t, p, parts.drop_first());
            },
            PathPart::Special => {},
        }
    }
}

/// The last part of a path when it is a name.
fn last_name(parts: &Vec<PathPart>) -> (res: Option<String>)
    ensures
        match file_name(parts@) {
            Some(n) => res matches Some(s) && s@ == n,
            None => res is None,
        },
{
    let n = parts.len();
    if n == 0 {
        return None;
    }
    match &parts[n - 1] {
        PathPart::Normal(s) => Some(s.clone()),
        _ => None,
    }
}

/// An error of an earlier entry stays the error of all entries.
proof fn lemma_fill_err<E>(s: Seq<Result<Entry, E>>, k: int)
    requires
        0 <= k <= s.len(),
        fill(s.take(k)) is Err,
    ensures
        fill(s) == fill(s.take(k)),
    decreases s.len() - k,
{
    if k < s.len() {
        assert(s.take(k + 1).drop_last() =~= s.take(k));
        lemma_fill_err(s, k + 1);
    } else {
        assert(s.take(k) =~= s);
    }
}

/// Going down the directories of a path leaves what was there unchanged,
/// and a lookup along the same path reaches the directory the walk reached.
proof fn lemma_walk_resolves(t: Tree, cur: Seq<Seq<char>>, parts: Seq<PathPart>)
    requires
        walk(t, cur, parts) is Ok,
    ensures
        ({
            let (t2, c) = walk(t, cur, parts)->Ok_0;
            &&& resolve(t2, cur, parts) == Some(c)
            &&& forall|k: Seq<Seq<char>>| t.contains_key(k) ==> #[trigger] t2.contains_key(k) && t2[k] == t[k]
        }),
    decreases parts.len(),
{
    if parts.len() > 0 {
        let rest = parts.drop_first();
        match parts[0] {
            PathPart::Root => {
                lemma_walk_resolves(t, cur, rest);
            },
            PathPart::Normal(c) => {
                let p = cur.push(c@);
                if !t.contains_key(p) {
                    lemma_walk_resolves(t.insert(p, Node::Dir), p, rest);
                    let (t2, _) = walk(t, cur, parts)->Ok_0;
                    assert(t.insert(p, Node::Dir).contains_key(p));
                    assert forall|k: Seq<Seq<char>>| t.contains_key(k) implies #[trigger] t2.contains_key(k)
                        && t2[k] == t[k] by {
                        assert(t.insert(p, Node::Dir).contains_key(k));
                    }
                } else {
                    lemma_walk_resolves(t, p, rest);
                }
            },
            PathPart::Special => {},
        }
    }
}

/// A lookup that reaches directory `c` is not disturbed by a change at a
/// path longer than `c`.
proof fn lemma_resolve_insert(
    t: Tree,
    cur: Seq<Seq<char>>,
    parts: Seq<PathPart>,
    k: Seq<Seq<char>>,
    v: Node,
)
    ensures
        resolve(t, cur, parts) matches Some(c) ==> c.len() >= cur.len() && (k.len() > c.len()
            ==> resolve(t.insert(k, v), cur, parts) == Some(c)),
    decreases parts.len(),
{
    if parts.len() > 0 {
        let rest = parts.drop_first();
        match parts[0] {
            PathPart::Root => {
                lemma_resolve_insert(t, cur, rest, k, v);
            },
            PathPart::Normal(c) => {
                let p = cur.push(c@);
                lemma_resolve_insert(t, p, rest, k, v);
                if resolve(t, cur, parts) is Some {
                    assert(t.contains_key(p) && t[p] is Dir);
                    if k.len() > resolve(t, cur, parts)->0.len() {
                        assert(k != p);
                    }
                }
            },
            PathPart::Special => {},
        }
    }
}

/// A file listed right after a directory entry is what a lookup of the
/// directory's path followed by the file's name gives.
pub proof fn lemma_file_found_under_dir<E>(
    st: (Tree, Seq<Seq<char>>),
    dir: Vec<PathPart>,
    file: Vec<PathPart>,
    exe: bool,
    size: u64,
    hashes: Vec<Vec<u8>>,
)
    requires
        step(st, Ok::<Entry, E>(Entry::Dir(dir))) is Ok,
        file_name(file@) is Some,
    ensures
        ({
            let st2 = step(st, Ok::<Entry, E>(Entry::Dir(dir)))->Ok_0;
            let st3 = step(st2, Ok::<Entry, E>(Entry::File { path: file, exe, size, hashes }))->Ok_0;
            lookup_file(st3.0, dir@.push(file@.last())) == Some((exe, size, hashes_view(hashes@)))
        }),
{
    let (t2, c) = walk(st.0, seq![], dir@)->Ok_0;
    lemma_walk_resolves(st.0, seq![], dir@);
    let n = file_name(file@)->0;
    let k = c.push(n);
    let t3 = t2.insert(k, Node::File(exe, size, hashes_view(hashes@)));
    lemma_resolve_insert(t2, seq![], dir@, k, Node::File(exe, size, hashes_view(hashes@)));
    let q = dir@.push(file@.last());
    assert(q.drop_last() =~= dir@);
    assert(file_name(q) == Some(n));
    assert(resolve(t3, seq![], q.drop_last()) == Some(c));
}

/// An index that can be queried by path.
pub struct MutableIndex {
    nodes: Vec<(Vec<String>, Item)>,
}

impl View for MutableIndex {
    type V = Tree;

    closed spec fn view(&self) -> Tree {
        to_map(self.nodes@)
    }
}

impl MutableIndex {
    #[verifier::type_invariant]
    spec fn well_formed(self) -> bool {
        keys_unique(self.nodes@)
    }

    /// Reads the entries of an index into a tree, in order (see `fill`):
    /// fails on the first entry that cannot be read, that has a path with a
    /// component other than the root and names (or, for a file or a link,
    /// that does not end in a name), or whose directory goes through
    /// something that is not a directory.
    pub fn from_entries<E>(entries: Vec<Result<Entry, E>>) -> (res: Result<
        MutableIndex,
        IndexParseError<E>,
    >)
        ensures
            match fill(entries@) {
                Ok((t, _)) => res matches Ok(ix) && ix@ == t,
                Err((i, f)) => 0 <= i < entries@.len() && (res matches Err(err) && reports(
                    err,
                    entries@[i],
                    f,
                )),
            },
    {
        let ghost all = entries@;
        let mut nodes: Vec<(Vec<String>, Item)> = Vec::new();
        let mut cur: Vec<String> = Vec::new();
        assert(all.take(0) =~= Seq::<Result<Entry, E>>::empty());
        assert(to_map(nodes@) =~= Map::<Seq<Seq<char>>, Node>::empty());
        assert(names_view(cur@) =~= Seq::<Seq<char>>::empty());
        for e in it: entries.into_iter()
            invariant
                it.seq() == all,
                keys_unique(nodes@),
                fill(all.take(it.index() as int)) == Ok::<(Tree, Seq<Seq<char>>), (int, Fail)>(
                    (to_map(nodes@), names_view(cur@)),
                ),
        {
            let ghost k = it.index() as int;
            proof {
                assert(all.take(k + 1).drop_last() =~= all.take(k));
                assert(all.take(k + 1).last() == all[k]);
            }
            match e {
                Err(x) => {
                    proof {
                        lemma_fill_err(all, k + 1);
                    }
                    return Err(IndexParseError::Parse(x));
                },
                Ok(Entry::Dir(parts)) => {
                    let ghost before = to_map(nodes@);
                    match walk_dirs(&mut nodes, &parts) {
                        Ok(c) => {
                            cur = c;
                        },
                        Err(f) => {
                            proof {
                                lemma_walk_fails(before, seq![], parts@);
                                lemma_fill_err(all, k + 1);
                            }
                            match f {
                                Fail::PathConflict => {
                                    return Err(IndexParseError::PathConflict(parts));
                                },
                                _ => {
                                    return Err(IndexParseError::InvalidPath(parts));
                                },
                            }
                        },
                    }
                },
                Ok(Entry::File { path, exe, size, hashes }) => {
                    match last_name(&path) {
                        Some(n) => {
                            let mut p = clone_names(&cur);
                            p.push(n);
                            assert(names_view(p@) =~= names_view(cur@).push(file_name(path@)->0));
                            proof {
                                assert(node_of(Item::File { exe, size, hashes }) == Node::File(
                                    exe,
                                    size,
                                    hashes_view(hashes@),
                                ));
                            }
                            put(&mut nodes, p, Item::File { exe, size, hashes });
                        },
                        None => {
                            proof {
                                lemma_fill_err(all, k + 1);
                            }
                            return Err(IndexParseError::InvalidPath(path));
                        },
                    }
                },
                Ok(Entry::Link(path, dest)) => {
                    match last_name(&path) {
                        Some(n) => {
                            let mut p = clone_names(&cur);
                            p.push(n);
                            assert(names_view(p@) =~= names_view(cur@).push(file_name(path@)->0));
                            put(&mut nodes, p, Item::Link(dest));
                        },
                        None => {
                            proof {
                                lemma_fill_err(all, k + 1);
                            }
                            return Err(IndexParseError::InvalidPath(path));
                        },
                    }
                },
            }
        }
        assert(all.take(all.len() as int) =~= all);
        Ok(MutableIndex { nodes })
    }

    /// The file at `path`: whether it is executable, its size and the
    /// hashes of its blocks (see `lookup_file`).
    pub fn get_file(&self, path: &Vec<PathPart>) -> (res: Option<(bool, u64, Vec<Vec<u8>>)>)
        ensures
            match lookup_file(self@, path@) {
                Some((exe, size, h)) => res matches Some((e2, s2, h2)) && e2 == exe && s2 == size
                    && hashes_view(h2@) == h,
                None => res is None,
            },
    {
        proof {
            use_type_invariant(self);
        }
        let n = path.len();
        if n == 0 {
            return None;
        }
        let name = match &path[n - 1] {
            PathPart::Normal(s) => s,
            _ => {
                return None;
            },
        };
        assert(file_name(path@) == Some(name@));
        let ghost parent = path@.drop_last();
        let ghost goal = resolve(self@, seq![], parent);
        let mut cur: Vec<String> = Vec::new();
        let mut i: usize = 0;
        assert(parent.skip(0) =~= parent);
        assert(names_view(cur@) =~= Seq::<Seq<char>>::empty());
        while i < n - 1
            invariant
                n == path@.len(),
                n > 0,
                i <= n - 1,
                parent == path@.drop_last(),
                keys_unique(self.nodes@),
                file_name(path@) == Some(name@),
                goal == resolve(self@, seq![], parent),
                goal == resolve(self@, names_view(cur@), parent.skip(i as int)),
            decreases n - 1 - i,
        {
            assert(parent.skip(i as int)[0] == path@[i as int]);
            assert(parent.skip(i as int).drop_first() =~= parent.skip(i + 1));
            match &path[i] {
                PathPart::Root => {},
                PathPart::Normal(c) => {
                    let mut p = clone_names(&cur);
                    p.push(c.clone());
                    assert(names_view(p@) =~= names_view(cur@).push(c@));
                    match find(&self.nodes, &p) {
                        Some(j) => {
                            proof {
                                lemma_to_map_at(self.nodes@, j as int);
                            }
                            match &self.nodes[j].1 {
                                Item::Dir => {
                                    cur = p;
                                },
                                _ => {
                                    return None;
                                },
                            }
                        },
                        None => {
                            proof {
                                lemma_to_map_absent(self.nodes@, names_view(p@));
                            }
                            return None;
                        },
                    }
                },
                PathPart::Special => {
                    return None;
                },
            }
            i = i + 1;
        }
        assert(parent.skip((n - 1) as int) =~= Seq::<PathPart>::empty());
        let ghost dir = names_view(cur@);
        let mut p = cur;
        p.push(name.clone());
        assert(names_view(p@) =~= dir.push(name@));
        match find(&self.nodes, &p) {
            Some(j) => {
                proof {
                    lemma_to_map_at(self.nodes@, j as int);
                }
                match &self.nodes[j].1 {
                    Item::File { exe, size, hashes } => Some((*exe, *size, clone_hashes(hashes))),
                    _ => None,
                }
            },
            None => {
                proof {
                    lemma_to_map_absent(self.nodes@, names_view(p@));
                }
                None
            },
        }
    }
}

/// An index that can be asked for the files it lists.
pub trait SealedIndex {
    /// The file at `path`: whether it is executable, its size and the hashes
    /// of its blocks.
    fn get_file(&self, path: &Vec<PathPart>) -> Option<(bool, u64, Vec<Vec<u8>>)>;
}

/// This is an index that can be queried by path
pub trait MaterializedIndex: SealedIndex {

}

impl SealedIndex for MutableIndex {
    fn get_file(&self, path: &Vec<PathPart>) -> (res: Option<(bool, u64, Vec<Vec<u8>>)>)
        ensures
            match lookup_file(self@, path@) {
                Some((exe, size, h)) => res matches Some((e2, s2, h2)) && e2 == exe && s2 == size
                    && hashes_view(h2@) == h,
                None => res is None,
            },
    {
        MutableIndex::get_file(self, path)
    }
}

impl MaterializedIndex for MutableIndex {

}

} // verus!
