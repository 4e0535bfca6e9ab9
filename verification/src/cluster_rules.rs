//! Rules the connections to a cluster follow: when an upload or a download
//! of an index looks for more hosts, which addresses and names it draws
//! them from, which open connections it sends its request to, what it does
//! with an answer, and which uploads a host's report about an image
//! concerns.
use vstd::prelude::*;
use abstract_ns::{Address, Name};

use crate::addresses::{
    pick_one, texts, top_address_texts, top_addresses, unweighted, weight_sum, weights_fit,
};
use crate::bookkeeping::{BookView, Bookkeeping};
use crate::key_set::{views, KeySet};
use crate::machine_id::MachineId;
use crate::names::{clone_name, name_check, parse_name, parsed_name};
use crate::signatures::ImageId;
use crate::text::str_eq;

verus! {

/// An upload looks for more hosts while it has fewer than `initial`
/// connections and fewer than `initial` of the hosts connecting or connected
/// (`valid`) have not rejected it.
pub open spec fn wants_more(connections: int, initial: int, valid: int) -> bool {
    connections < initial && valid < initial
}

/// Whether an upload looks for more hosts (see `wants_more`).
pub fn wants_connections(connections: usize, initial: u32, valid: usize) -> (res: bool)
    ensures
        res == wants_more(connections as int, initial as int, valid as int),
{
    let initial = initial as usize;
    connections < initial && valid < initial
}

/// How many hosts are still to be found after `found` were picked, to reach
/// `initial` (none when enough were).
pub fn slots_left(initial: u32, found: usize) -> (res: usize)
    ensures
        res == if found < initial {
            initial - found
        } else {
            0
        },
{
    let initial = initial as usize;
    if found < initial {
        initial - found
    } else {
        0
    }
}

/// A host's report that it received an image for `img_path` concerns an
/// upload to `path` when the paths are the same (a weak upload included).
pub open spec fn received_concerns(path: Seq<char>, img_path: Seq<char>, weak: bool) -> bool {
    path == img_path && (weak || path == img_path)
}

/// Whether a report of a received image concerns an upload.
pub fn received_applies(path: &str, img_path: &str, weak: bool) -> (res: bool)
    ensures
        res == received_concerns(path@, img_path@, weak),
{
    str_eq(path, img_path)
}

/// A host's report that it aborted the image `img` for `img_path` concerns
/// an upload of `image` to `path` when the images are the same and, unless
/// the upload is weak, the paths are too.
pub open spec fn aborted_concerns(
    image: Seq<u8>,
    path: Seq<char>,
    weak: bool,
    img: Seq<u8>,
    img_path: Seq<char>,
) -> bool {
    image == img && (weak || path == img_path)
}

/// Whether a report of an aborted image concerns an upload.
pub fn aborted_applies(image: &ImageId, path: &str, weak: bool, img: &ImageId, img_path: &str)
    -> (res: bool)
    ensures
        res == aborted_concerns(image@, path@, weak, img@, img_path@),
{
    image.same_as(img) && (weak || str_eq(path, img_path))
}

/// What the connections' message loop knows of an upload under way: its
/// path, its image and whether it is weak.
pub struct UploadKey {
    pub path: String,
    pub image: ImageId,
    pub weak: bool,
}

/// The positions of the uploads a report that a host received an image for
/// `img_path` concerns, in order.
pub open spec fn received_targets_spec(ups: Seq<UploadKey>, img_path: Seq<char>) -> Seq<int>
    decreases ups.len(),
{
    if ups.len() == 0 {
        Seq::empty()
    } else {
        let r = received_targets_spec(ups.drop_last(), img_path);
        if received_concerns(ups.last().path@, img_path, ups.last().weak) {
            r.push(ups.len() - 1)
        } else {
            r
        }
    }
}

/// The positions of the uploads a report that a host aborted the image
/// `img` for `img_path` concerns, in order.
pub open spec fn aborted_targets_spec(ups: Seq<UploadKey>, img: Seq<u8>, img_path: Seq<char>) -> Seq<
    int,
>
    decreases ups.len(),
{
    if ups.len() == 0 {
        Seq::empty()
    } else {
        let r = aborted_targets_spec(ups.drop_last(), img, img_path);
        if aborted_concerns(ups.last().image@, ups.last().path@, ups.last().weak, img, img_path) {
            r.push(ups.len() - 1)
        } else {
            r
        }
    }
}

/// The positions, as integers, of a list of positions.
pub open spec fn positions(v: Seq<usize>) -> Seq<int> {
    v.map_values(|i: usize| i as int)
}

/// The uploads whose statistics count a report that a host received an
/// image for `img_path`.
pub fn received_targets(ups: &Vec<UploadKey>, img_path: &str) -> (res: Vec<usize>)
    ensures
        positions(res@) == received_targets_spec(ups@, img_path@),
{
    let mut out: Vec<usize> = Vec::new();
    let mut i: usize = 0;
    while i < ups.len()
        invariant
            i <= ups.len(),
            positions(out@) == received_targets_spec(ups@.take(i as int), img_path@),
        decreases ups.len() - i,
    {
        assert(ups@.take(i + 1).drop_last() =~= ups@.take(i as int));
        if received_applies(ups[i].path.as_str(), img_path, ups[i].weak) {
            out.push(i);
        }
        assert(positions(out@) =~= received_targets_spec(ups@.take(i + 1), img_path@));
        i = i + 1;
    }
    assert(ups@.take(i as int) =~= ups@);
    out
}

/// The uploads whose statistics count a report that a host aborted the
/// image `img` for `img_path`.
pub fn aborted_targets(ups: &Vec<UploadKey>, img: &ImageId, img_path: &str) -> (res: Vec<usize>)
    ensures
        positions(res@) == aborted_targets_spec(ups@, img@, img_path@),
{
    let mut out: Vec<usize> = Vec::new();
    let mut i: usize = 0;
    while i < ups.len()
        invariant
            i <= ups.len(),
            positions(out@) == aborted_targets_spec(ups@.take(i as int), img@, img_path@),
        decreases ups.len() - i,
    {
        assert(ups@.take(i + 1).drop_last() =~= ups@.take(i as int));
        if aborted_applies(&ups[i].image, ups[i].path.as_str(), ups[i].weak, img, img_path) {
            out.push(i);
        }
        assert(positions(out@) =~= aborted_targets_spec(ups@.take(i + 1), img@, img_path@));
        i = i + 1;
    }
    assert(ups@.take(i as int) =~= ups@);
    out
}

/// A message the connections of a cluster receive.
pub enum SetMessage {
    /// An upload to start.
    NewUpload(UploadKey),
    /// A download of the index of the directory at this path.
    FetchIndex(String),
    /// A host at this address received the image for this path.
    Received { addr: String, path: String },
    /// A host at this address aborted the image `image` for this path.
    Aborted { addr: String, image: ImageId, path: String },
    /// A host sent some other notification.
    Other,
    /// The connection to this address closed.
    Closed(String),
}

/// What the connections of a cluster keep between messages: the uploads and
/// downloads under way, in the order they came, and the addresses of the
/// open connections.
pub struct SetQueues {
    pub uploads: Vec<UploadKey>,
    pub fetches: Vec<String>,
    pub active: KeySet<String>,
}

/// What a message does to the queues. A report of a host reaches the
/// uploads `received_targets_spec` or `aborted_targets_spec` give (`hits`);
/// any other message reaches none.
pub open spec fn message_done(
    old_q: (Seq<UploadKey>, Seq<String>, Set<Seq<char>>),
    msg: SetMessage,
    new_q: (Seq<UploadKey>, Seq<String>, Set<Seq<char>>),
    hits: Seq<int>,
) -> bool {
    match msg {
        SetMessage::NewUpload(k) => new_q == (old_q.0.push(k), old_q.1, old_q.2) && hits.len() == 0,
        SetMessage::FetchIndex(p) => new_q == (old_q.0, old_q.1.push(p), old_q.2) && hits.len() == 0,
        SetMessage::Received { path, .. } => new_q == old_q && hits == received_targets_spec(
            old_q.0,
            path@,
        ),
        SetMessage::Aborted { image, path, .. } => new_q == old_q && hits == aborted_targets_spec(
            old_q.0,
            image@,
            path@,
        ),
        SetMessage::Other => new_q == old_q && hits.len() == 0,
        SetMessage::Closed(a) => new_q == (old_q.0, old_q.1, old_q.2.remove(a@)) && hits.len() == 0,
    }
}

impl SetQueues {
    /// The uploads, the downloads and the open addresses.
    pub open spec fn parts(&self) -> (Seq<UploadKey>, Seq<String>, Set<Seq<char>>) {
        (self.uploads@, self.fetches@, self.active@)
    }

    /// No queue yet, no open connection.
    pub fn new() -> (res: Self)
        ensures
            res.active.wf(),
            res.parts() == (Seq::<UploadKey>::empty(), Seq::<String>::empty(), Set::<Seq<char>>::empty()),
    {
        SetQueues { uploads: Vec::new(), fetches: Vec::new(), active: KeySet::new() }
    }

    /// Takes one message: queues a new upload or download, forgets a closed
    /// connection, and gives the positions of the uploads whose statistics a
    /// host's report counts in. A connection closes once (the second close
    /// of one is a fault of the caller).
    pub fn read_message(&mut self, msg: SetMessage) -> (res: Vec<usize>)
        requires
            old(self).active.wf(),
            msg matches SetMessage::Closed(a) ==> old(self).active@.contains(a@),
        ensures
            final(self).active.wf(),
            message_done(old(self).parts(), msg, final(self).parts(), positions(res@)),
    {
        match msg {
            SetMessage::NewUpload(k) => {
                self.uploads.push(k);
                assert(positions(Seq::<usize>::empty()) =~= Seq::<int>::empty());
                Vec::new()
            },
            SetMessage::FetchIndex(p) => {
                self.fetches.push(p);
                assert(positions(Seq::<usize>::empty()) =~= Seq::<int>::empty());
                Vec::new()
            },
            SetMessage::Received { path, .. } => received_targets(&self.uploads, path.as_str()),
            SetMessage::Aborted { image, path, .. } => aborted_targets(
                &self.uploads,
                &image,
                path.as_str(),
            ),
            SetMessage::Other => {
                assert(positions(Seq::<usize>::empty()) =~= Seq::<int>::empty());
                Vec::new()
            },
            SetMessage::Closed(a) => {
                self.active.remove(&a);
                assert(positions(Seq::<usize>::empty()) =~= Seq::<int>::empty());
                Vec::new()
            },
        }
    }
}

/// A host an upload or a download learned of, as the name service knows it.
pub struct Candidate {
    /// The host's name.
    pub name: Name,
    /// Whether the name has been resolved.
    pub resolved: bool,
    /// An address picked among those the name resolved to, if any.
    pub picked: Option<String>,
    /// Whether a resolution of the name is under way.
    pub resolving: bool,
    /// Whether the record of failed resolutions lets the name be tried.
    pub may_resolve: bool,
}

/// What to do next for the connections of an upload or a download: the
/// addresses to connect to and the names to start resolving.
pub struct ConnectPlan {
    pub connect: Vec<String>,
    pub resolve: Vec<Name>,
}

/// `c` is the candidate `name` as the name service knows it: resolved to
/// `address` if it was, with one of its addresses picked.
pub open spec fn candidate_of(
    c: Candidate,
    name: Name,
    address: Option<&Address>,
    resolving: bool,
    may_resolve: bool,
) -> bool {
    &&& c.name == name
    &&& c.resolved == address is Some
    &&& c.resolving == resolving
    &&& c.may_resolve == may_resolve
    &&& match address {
        None => c.picked is None,
        Some(a) => {
            &&& (c.picked is None <==> top_addresses(*a).len() == 0)
            &&& (c.picked matches Some(p) ==> texts(top_addresses(*a)).contains(p@))
        },
    }
}

impl Candidate {
    /// A candidate host as the name service knows it: `address` is what its
    /// name resolved to, if it did, and one address of it is picked at random.
    pub fn new(name: Name, address: Option<&Address>, resolving: bool, may_resolve: bool) -> (res:
        Candidate)
        requires
            address matches Some(a) ==> weight_sum(top_addresses(*a)) <= u64::MAX,
        ensures
            candidate_of(res, name, address, resolving, may_resolve),
    {
        let picked = match address {
            Some(a) => pick_one(a),
            None => None,
        };
        Candidate { name, resolved: address.is_some(), picked, resolving, may_resolve }
    }

    /// The candidate as `new` makes it when no address it resolved to
    /// carries a weight (see `weights_fit`); `None` when one does.
    pub fn unweighted(name: Name, address: Option<&Address>, resolving: bool, may_resolve: bool)
        -> (res: Option<Candidate>)
        ensures
            res is None <==> (address matches Some(a) && !unweighted(top_addresses(*a))),
            res matches Some(c) ==> candidate_of(c, name, address, resolving, may_resolve),
    {
        match address {
            Some(a) => {
                if !weights_fit(a) {
                    return None;
                }
            },
            None => {},
        }
        Some(Candidate::new(name, address, resolving, may_resolve))
    }
}

/// Whether the upload's host at `a` refused it.
pub open spec fn refused(b: BookView, a: Seq<char>) -> bool {
    b.rejected_ips.contains_key(a) || b.rejected_no_config.contains(a)
}

/// How many of the addresses `s` have not refused the upload.
pub open spec fn count_usable(s: Seq<Seq<char>>, b: BookView) -> int
    decreases s.len(),
{
    if s.len() == 0 {
        0
    } else {
        count_usable(s.drop_last(), b) + if refused(b, s.last()) {
            0int
        } else {
            1int
        }
    }
}

/// The addresses picked for the candidates whose names resolved to some.
pub open spec fn picked_texts(c: Seq<Candidate>) -> Seq<Seq<char>>
    decreases c.len(),
{
    if c.len() == 0 {
        Seq::empty()
    } else {
        let r = picked_texts(c.drop_last());
        match c.last().picked {
            Some(a) => r.push(a@),
            None => r,
        }
    }
}

/// A candidate whose name is to be resolved: it is neither resolved nor
/// being resolved, and the record of failed resolutions lets it be tried.
pub open spec fn needs_resolving(c: Candidate) -> bool {
    c.may_resolve && !c.resolved && !c.resolving
}

/// The names of the candidates that are to be resolved, in order.
pub open spec fn names_to_resolve(c: Seq<Candidate>) -> Seq<Name>
    decreases c.len(),
{
    if c.len() == 0 {
        Seq::empty()
    } else {
        let r = names_to_resolve(c.drop_last());
        if needs_resolving(c.last()) {
            r.push(c.last().name)
        } else {
            r
        }
    }
}

/// An address a new connection of an upload may go to: its host has not
/// refused the upload, no connection to it is being made or open, and the
/// record of failed connections lets it be tried.
pub open spec fn fresh_for_upload(
    b: BookView,
    pending: Seq<Seq<char>>,
    active: Seq<Seq<char>>,
    blocked: Seq<Seq<char>>,
    a: Seq<char>,
) -> bool {
    !refused(b, a) && !pending.contains(a) && !active.contains(a) && !blocked.contains(a)
}

/// The addresses of `s` a new connection of an upload may go to, in order.
pub open spec fn upload_pool(
    s: Seq<Seq<char>>,
    b: BookView,
    pending: Seq<Seq<char>>,
    active: Seq<Seq<char>>,
    blocked: Seq<Seq<char>>,
) -> Seq<Seq<char>>
    decreases s.len(),
{
    if s.len() == 0 {
        Seq::empty()
    } else {
        let r = upload_pool(s.drop_last(), b, pending, active, blocked);
        if fresh_for_upload(b, pending, active, blocked, s.last()) {
            r.push(s.last())
        } else {
            r
        }
    }
}

/// An address a new connection of a download may go to: no connection to
/// it is being made, and neither the record of failed connections nor the
/// download's own record of failed hosts holds it back.
pub open spec fn fresh_for_fetch(
    pending: Seq<Seq<char>>,
    blocked: Seq<Seq<char>>,
    slow: Seq<Seq<char>>,
    a: Seq<char>,
) -> bool {
    !pending.contains(a) && !blocked.contains(a) && !slow.contains(a)
}

/// The addresses of `s` a new connection of a download may go to, in order.
pub open spec fn fetch_pool(
    s: Seq<Seq<char>>,
    pending: Seq<Seq<char>>,
    blocked: Seq<Seq<char>>,
    slow: Seq<Seq<char>>,
) -> Seq<Seq<char>>
    decreases s.len(),
{
    if s.len() == 0 {
        Seq::empty()
    } else {
        let r = fetch_pool(s.drop_last(), pending, blocked, slow);
        if fresh_for_fetch(pending, blocked, slow, s.last()) {
            r.push(s.last())
        } else {
            r
        }
    }
}

/// The texts of `s` that are not among `excluded`, in order.
pub open spec fn absent_texts(s: Seq<Seq<char>>, excluded: Seq<Seq<char>>) -> Seq<Seq<char>>
    decreases s.len(),
{
    if s.len() == 0 {
        Seq::empty()
    } else {
        let r = absent_texts(s.drop_last(), excluded);
        if excluded.contains(s.last()) {
            r
        } else {
            r.push(s.last())
        }
    }
}

/// The texts of `s` that are not among `pending`, each at its first
/// occurrence only.
pub open spec fn first_new(s: Seq<Seq<char>>, pending: Seq<Seq<char>>) -> Seq<Seq<char>>
    decreases s.len(),
{
    if s.len() == 0 {
        Seq::empty()
    } else {
        let r = first_new(s.drop_last(), pending);
        if pending.contains(s.last()) || r.contains(s.last()) {
            r
        } else {
            r.push(s.last())
        }
    }
}

/// `res` holds items of `items` taken from distinct positions: its `i`-th
/// item is the one at position `idx[i]`.
pub open spec fn drawn_from<T>(res: Seq<T>, items: Seq<T>, idx: Seq<int>) -> bool {
    &&& idx.len() == res.len()
    &&& forall|i: int, j: int| 0 <= i < j < idx.len() ==> idx[i] != idx[j]
    &&& forall|i: int|
        0 <= i < idx.len() ==> 0 <= #[trigger] idx[i] < items.len() && res[i] == items[idx[i]]
}

/// `res` is what a random draw of `amount` of `items` can give: all of them,
/// in order, when there are no more; otherwise `amount` of them, from
/// distinct positions.
pub open spec fn sample_of<T>(res: Seq<T>, items: Seq<T>, amount: int) -> bool {
    if items.len() <= amount {
        res == items
    } else {
        res.len() == amount && exists|idx: Seq<int>| #[trigger] drawn_from(res, items, idx)
    }
}

/// Calls `rand::seq::sample_iter` with the thread's generator, for no more
/// items than there are: by the crate's source it then returns `Ok` with
/// `amount` items taken from distinct positions (all of them, in order,
/// when `amount` is their number). Which ones is left open.
#[verifier::external_body]
fn sample_iter_some<T>(items: Vec<T>, amount: usize) -> (res: Vec<T>)
    requires
        amount <= items.len(),
    ensures
        res.len() == amount,
        amount == items.len() ==> res@ == items@,
        exists|idx: Seq<int>| #[trigger] drawn_from(res@, items@, idx),
{
    rand::seq::sample_iter(&mut rand::thread_rng(), items, amount).unwrap_or_else(|v| v)
}

/// A random draw of `amount` of `items`, or all of them when there are no
/// more.
fn sample<T>(items: Vec<T>, amount: usize) -> (res: Vec<T>)
    ensures
        sample_of(res@, items@, amount as int),
{
    let n = items.len();
    let k = if amount < n {
        amount
    } else {
        n
    };
    sample_iter_some(items, k)
}

/// A draw of strings is a draw of their texts.
proof fn lemma_sample_views(res: Seq<String>, items: Seq<String>, amount: int)
    requires
        sample_of(res, items, amount),
    ensures
        sample_of(views(res), views(items), amount),
{
    if items.len() > amount {
        let idx = choose|idx: Seq<int>| #[trigger] drawn_from(res, items, idx);
        assert(drawn_from(views(res), views(items), idx));
    } else {
        assert(views(res) =~= views(items));
    }
}

/// Whether the text of `s` is among the texts of `v`.
fn has_text(v: &Vec<String>, s: &String) -> (res: bool)
    ensures
        res == views(v@).contains(s@),
{
    let mut i: usize = 0;
    while i < v.len()
        invariant
            i <= v.len(),
            forall|j: int| 0 <= j < i ==> v@[j]@ != s@,
        decreases v.len() - i,
    {
        if v[i] == *s {
            assert(views(v@)[i as int] == s@);
            return true;
        }
        i = i + 1;
    }
    proof {
        if views(v@).contains(s@) {
            let j = choose|j: int| 0 <= j < views(v@).len() && views(v@)[j] == s@;
            assert(v@[j]@ == s@);
        }
    }
    false
}

/// How many of the addresses of `v` have not refused the upload.
fn count_not_refused(v: &Vec<String>, book: &Bookkeeping) -> (res: usize)
    ensures
        res == count_usable(views(v@), book@),
{
    let mut n: usize = 0;
    let mut i: usize = 0;
    while i < v.len()
        invariant
            i <= v.len(),
            n <= i,
            n == count_usable(views(v@.take(i as int)), book@),
        decreases v.len() - i,
    {
        assert(views(v@.take(i + 1)).drop_last() =~= views(v@.take(i as int)));
        if !book.is_rejected(&v[i]) {
            n = n + 1;
        }
        i = i + 1;
    }
    assert(v@.take(i as int) =~= v@);
    n
}

/// The addresses picked for the candidates, in order.
fn picked_addresses(candidates: &Vec<Candidate>) -> (res: Vec<String>)
    ensures
        views(res@) == picked_texts(candidates@),
{
    let mut out: Vec<String> = Vec::new();
    let mut i: usize = 0;
    while i < candidates.len()
        invariant
            i <= candidates.len(),
            views(out@) == picked_texts(candidates@.take(i as int)),
        decreases candidates.len() - i,
    {
        assert(candidates@.take(i + 1).drop_last() =~= candidates@.take(i as int));
        match &candidates[i].picked {
            Some(a) => {
                out.push(a.clone());
                assert(views(out@) =~= picked_texts(candidates@.take(i as int)).push(a@));
            },
            None => {},
        }
        i = i + 1;
    }
    assert(candidates@.take(i as int) =~= candidates@);
    out
}

/// The names of the candidates that are to be resolved, in order.
fn resolvable_names(candidates: &Vec<Candidate>) -> (res: Vec<Name>)
    ensures
        res@ == names_to_resolve(candidates@),
{
    let mut out: Vec<Name> = Vec::new();
    let mut i: usize = 0;
    while i < candidates.len()
        invariant
            i <= candidates.len(),
            out@ == names_to_resolve(candidates@.take(i as int)),
        decreases candidates.len() - i,
    {
        assert(candidates@.take(i + 1).drop_last() =~= candidates@.take(i as int));
        let c = &candidates[i];
        if c.may_resolve && !c.resolved && !c.resolving {
            out.push(clone_name(&c.name));
        }
        i = i + 1;
    }
    assert(candidates@.take(i as int) =~= candidates@);
    out
}

/// The addresses of `addrs` a new connection of an upload may go to.
fn upload_candidates(
    addrs: &Vec<String>,
    book: &Bookkeeping,
    pending: &Vec<String>,
    active: &Vec<String>,
    blocked: &Vec<String>,
) -> (res: Vec<String>)
    ensures
        views(res@) == upload_pool(
            views(addrs@),
            book@,
            views(pending@),
            views(active@),
            views(blocked@),
        ),
{
    let mut out: Vec<String> = Vec::new();
    let mut i: usize = 0;
    while i < addrs.len()
        invariant
            i <= addrs.len(),
            views(out@) == upload_pool(
                views(addrs@.take(i as int)),
                book@,
                views(pending@),
                views(active@),
                views(blocked@),
            ),
        decreases addrs.len() - i,
    {
        assert(views(addrs@.take(i + 1)).drop_last() =~= views(addrs@.take(i as int)));
        let a = &addrs[i];
        if !book.is_rejected(a) && !has_text(pending, a) && !has_text(active, a) && !has_text(
            blocked,
            a,
        ) {
            let ghost before = out@;
            out.push(a.clone());
            assert(views(out@) =~= views(before).push(a@));
        }
        i = i + 1;
    }
    assert(addrs@.take(i as int) =~= addrs@);
    out
}

/// The addresses of `addrs` that are not among `excluded`.
fn absent_from(addrs: &Vec<String>, excluded: &Vec<String>) -> (res: Vec<String>)
    ensures
        views(res@) == absent_texts(views(addrs@), views(excluded@)),
{
    let mut out: Vec<String> = Vec::new();
    let mut i: usize = 0;
    while i < addrs.len()
        invariant
            i <= addrs.len(),
            views(out@) == absent_texts(views(addrs@.take(i as int)), views(excluded@)),
        decreases addrs.len() - i,
    {
        assert(views(addrs@.take(i + 1)).drop_last() =~= views(addrs@.take(i as int)));
        let a = &addrs[i];
        if !has_text(excluded, a) {
            let ghost before = out@;
            out.push(a.clone());
            assert(views(out@) =~= views(before).push(a@));
        }
        i = i + 1;
    }
    assert(addrs@.take(i as int) =~= addrs@);
    out
}

/// The addresses of `addrs` a new connection of a download may go to.
fn fetch_candidates(
    addrs: &Vec<String>,
    pending: &Vec<String>,
    blocked: &Vec<String>,
    slow: &Vec<String>,
) -> (res: Vec<String>)
    ensures
        views(res@) == fetch_pool(views(addrs@), views(pending@), views(blocked@), views(slow@)),
{
    let mut out: Vec<String> = Vec::new();
    let mut i: usize = 0;
    while i < addrs.len()
        invariant
            i <= addrs.len(),
            views(out@) == fetch_pool(
                views(addrs@.take(i as int)),
                views(pending@),
                views(blocked@),
                views(slow@),
            ),
        decreases addrs.len() - i,
    {
        assert(views(addrs@.take(i + 1)).drop_last() =~= views(addrs@.take(i as int)));
        let a = &addrs[i];
        if !has_text(pending, a) && !has_text(blocked, a) && !has_text(slow, a) {
            let ghost before = out@;
            out.push(a.clone());
            assert(views(out@) =~= views(before).push(a@));
        }
        i = i + 1;
    }
    assert(addrs@.take(i as int) =~= addrs@);
    out
}

/// The addresses of `list` that are not among `pending`, each at its first
/// occurrence only: a connection is started once per address.
pub(crate) fn new_connections(list: &Vec<String>, pending: &Vec<String>) -> (res: Vec<String>)
    ensures
        views(res@) == first_new(views(list@), views(pending@)),
{
    let mut out: Vec<String> = Vec::new();
    let mut i: usize = 0;
    while i < list.len()
        invariant
            i <= list.len(),
            views(out@) == first_new(views(list@.take(i as int)), views(pending@)),
        decreases list.len() - i,
    {
        assert(views(list@.take(i + 1)).drop_last() =~= views(list@.take(i as int)));
        let a = &list[i];
        if !has_text(pending, a) && !has_text(&out, a) {
            let ghost before = out@;
            out.push(a.clone());
            assert(views(out@) =~= views(before).push(a@));
        }
        i = i + 1;
    }
    assert(list@.take(i as int) =~= list@);
    out
}

/// The random draws an upload's plan is made of: `first` from the fresh
/// addresses picked for the candidates, up to `initial` of them; then, if
/// that left slots, as many `names` from the names to resolve and as many
/// `second` addresses from the fresh initial addresses the upload is not
/// connected to.
pub open spec fn upload_draws(
    first: Seq<Seq<char>>,
    names: Seq<Name>,
    second: Seq<Seq<char>>,
    initial: int,
    connections: Seq<Seq<char>>,
    b: BookView,
    pending: Seq<Seq<char>>,
    active: Seq<Seq<char>>,
    blocked: Seq<Seq<char>>,
    candidates: Seq<Candidate>,
    initial_addrs: Seq<Seq<char>>,
) -> bool {
    &&& sample_of(first, upload_pool(picked_texts(candidates), b, pending, active, blocked), initial)
    &&& if first.len() < initial {
        &&& sample_of(names, names_to_resolve(candidates), initial - first.len())
        &&& sample_of(
            second,
            upload_pool(absent_texts(initial_addrs, connections), b, pending, active, blocked),
            initial - first.len(),
        )
    } else {
        names.len() == 0 && second.len() == 0
    }
}

/// The plan for an upload's connections: nothing while it has `initial`
/// connections, or `initial` of the connections being made or open go to
/// hosts that have not refused it; otherwise the draws of `upload_draws`
/// give the names to resolve and, once each and leaving out those already
/// being connected to, the addresses to connect to.
pub open spec fn upload_plan(
    connect: Seq<Seq<char>>,
    resolve: Seq<Name>,
    initial: int,
    connections: Seq<Seq<char>>,
    b: BookView,
    pending: Seq<Seq<char>>,
    active: Seq<Seq<char>>,
    blocked: Seq<Seq<char>>,
    candidates: Seq<Candidate>,
    initial_addrs: Seq<Seq<char>>,
) -> bool {
    if wants_more(
        connections.len() as int,
        initial,
        count_usable(pending, b) + count_usable(active, b),
    ) {
        exists|first: Seq<Seq<char>>, names: Seq<Name>, second: Seq<Seq<char>>|
            #[trigger] upload_draws(
                first,
                names,
                second,
                initial,
                connections,
                b,
                pending,
                active,
                blocked,
                candidates,
                initial_addrs,
            ) && resolve == names && connect == first_new(first + second, pending)
    } else {
        connect.len() == 0 && resolve.len() == 0
    }
}

/// Plans new connections for an upload that wants `initial` of them.
/// `connections` are the addresses it uses, `pending` and `active` the
/// connections being made and open, `blocked` the addresses the record of
/// failed connections holds back, `candidates` the hosts it learned of and
/// `initial_addrs` what the names it was started with resolved to.
pub fn plan_upload_connections(
    initial: u32,
    connections: &Vec<String>,
    book: &Bookkeeping,
    pending: &Vec<String>,
    active: &Vec<String>,
    blocked: &Vec<String>,
    candidates: &Vec<Candidate>,
    initial_addrs: &Address,
) -> (res: ConnectPlan)
    ensures
        upload_plan(
            views(res.connect@),
            res.resolve@,
            initial as int,
            views(connections@),
            book@,
            views(pending@),
            views(active@),
            views(blocked@),
            candidates@,
            texts(top_addresses(*initial_addrs)),
        ),
{
    let limit = initial as usize;
    if connections.len() >= limit {
        return ConnectPlan { connect: Vec::new(), resolve: Vec::new() };
    }
    let in_pending = count_not_refused(pending, book);
    let in_active = count_not_refused(active, book);
    if in_pending >= limit || in_active >= limit - in_pending {
        return ConnectPlan { connect: Vec::new(), resolve: Vec::new() };
    }
    let picked = picked_addresses(candidates);
    let pool = upload_candidates(&picked, book, pending, active, blocked);
    let ghost pool_v = pool@;
    let first = sample(pool, limit);
    let ghost first_v = first@;
    proof {
        lemma_sample_views(first_v, pool_v, limit as int);
    }
    let slots = slots_left(initial, first.len());
    let mut all = first;
    let mut names: Vec<Name> = Vec::new();
    let ghost mut second_v: Seq<String> = Seq::empty();
    if slots > 0 {
        names = sample(resolvable_names(candidates), slots);
        let init = top_address_texts(initial_addrs);
        let unconnected = absent_from(&init, connections);
        let fallback = upload_candidates(&unconnected, book, pending, active, blocked);
        let ghost fallback_v = fallback@;
        let mut second = sample(fallback, slots);
        proof {
            second_v = second@;
            lemma_sample_views(second_v, fallback_v, slots as int);
        }
        all.append(&mut second);
    }
    let connect = new_connections(&all, pending);
    proof {
        assert(views(all@) =~= views(first_v) + views(second_v));
        assert(upload_draws(
            views(first_v),
            names@,
            views(second_v),
            initial as int,
            views(connections@),
            book@,
            views(pending@),
            views(active@),
            views(blocked@),
            candidates@,
            texts(top_addresses(*initial_addrs)),
        ));
    }
    ConnectPlan { connect, resolve: names }
}

/// The random draws a download's plan is made of: one of the names to
/// resolve and one of the fresh initial addresses.
pub open spec fn fetch_draws(
    names: Seq<Name>,
    second: Seq<Seq<char>>,
    pending: Seq<Seq<char>>,
    blocked: Seq<Seq<char>>,
    slow: Seq<Seq<char>>,
    candidates: Seq<Candidate>,
    initial_addrs: Seq<Seq<char>>,
) -> bool {
    &&& sample_of(names, names_to_resolve(candidates), 1)
    &&& sample_of(second, fetch_pool(initial_addrs, pending, blocked, slow), 1)
}

/// The plan for a download's connection: nothing while it has one or while
/// an address picked for one of its candidates is fresh; otherwise the draws
/// of `fetch_draws` give the name to resolve and the address to connect to,
/// left out when a connection to it is being made.
pub open spec fn fetch_plan(
    connect: Seq<Seq<char>>,
    resolve: Seq<Name>,
    has_connection: bool,
    pending: Seq<Seq<char>>,
    blocked: Seq<Seq<char>>,
    slow: Seq<Seq<char>>,
    candidates: Seq<Candidate>,
    initial_addrs: Seq<Seq<char>>,
) -> bool {
    if has_connection || fetch_pool(picked_texts(candidates), pending, blocked, slow).len() > 0 {
        connect.len() == 0 && resolve.len() == 0
    } else {
        exists|names: Seq<Name>, second: Seq<Seq<char>>|
            #[trigger] fetch_draws(names, second, pending, blocked, slow, candidates, initial_addrs)
                && resolve == names && connect == first_new(second, pending)
    }
}

/// Plans a new connection for a download (of an index); `slow` are the
/// addresses its own record of failed hosts holds back, the other
/// arguments are as for `plan_upload_connections`.
pub fn plan_fetch_connection(
    has_connection: bool,
    pending: &Vec<String>,
    blocked: &Vec<String>,
    slow: &Vec<String>,
    candidates: &Vec<Candidate>,
    initial_addrs: &Address,
) -> (res: ConnectPlan)
    ensures
        fetch_plan(
            views(res.connect@),
            res.resolve@,
            has_connection,
            views(pending@),
            views(blocked@),
            views(slow@),
            candidates@,
            texts(top_addresses(*initial_addrs)),
        ),
{
    if has_connection {
        return ConnectPlan { connect: Vec::new(), resolve: Vec::new() };
    }
    let picked = picked_addresses(candidates);
    let pool = fetch_candidates(&picked, pending, blocked, slow);
    if pool.len() > 0 {
        return ConnectPlan { connect: Vec::new(), resolve: Vec::new() };
    }
    let names = sample(resolvable_names(candidates), 1);
    let init = top_address_texts(initial_addrs);
    let fallback = fetch_candidates(&init, pending, blocked, slow);
    let ghost fallback_v = fallback@;
    let second = sample(fallback, 1);
    proof {
        lemma_sample_views(second@, fallback_v, 1);
    }
    let connect = new_connections(&second, pending);
    proof {
        assert(fetch_draws(
            names@,
            views(second@),
            views(pending@),
            views(blocked@),
            views(slow@),
            candidates@,
            texts(top_addresses(*initial_addrs)),
        ));
    }
    ConnectPlan { connect, resolve: names }
}

/// The addresses of `s` whose hosts have not refused the upload, in order.
pub open spec fn unrefused(s: Seq<Seq<char>>, b: BookView) -> Seq<Seq<char>>
    decreases s.len(),
{
    if s.len() == 0 {
        Seq::empty()
    } else {
        let r = unrefused(s.drop_last(), b);
        if refused(b, s.last()) {
            r
        } else {
            r.push(s.last())
        }
    }
}

/// The open connections an upload sends its request to when it wakes up:
/// while it uses fewer than `initial` connections, each open one it does not
/// use yet, once, whose host has not refused it.
pub fn upload_requests(
    initial: u32,
    connections: &Vec<String>,
    book: &Bookkeeping,
    active: &Vec<String>,
) -> (res: Vec<String>)
    ensures
        views(res@) == if connections.len() < initial {
            first_new(unrefused(views(active@), book@), views(connections@))
        } else {
            Seq::empty()
        },
{
    if connections.len() >= initial as usize {
        return Vec::new();
    }
    let mut usable: Vec<String> = Vec::new();
    let mut i: usize = 0;
    while i < active.len()
        invariant
            i <= active.len(),
            views(usable@) == unrefused(views(active@.take(i as int)), book@),
        decreases active.len() - i,
    {
        assert(views(active@.take(i + 1)).drop_last() =~= views(active@.take(i as int)));
        if !book.is_rejected(&active[i]) {
            let ghost before = usable@;
            usable.push(active[i].clone());
            assert(views(usable@) =~= views(before).push(active@[i as int]@));
        }
        i = i + 1;
    }
    assert(active@.take(i as int) =~= active@);
    new_connections(&usable, connections)
}

/// The open connections a download without a connection sends its request
/// to: each one its own record of failed hosts does not hold back; it keeps
/// the last of them.
pub fn fetch_requests(has_connection: bool, active: &Vec<String>, slow: &Vec<String>) -> (res: Vec<
    String,
>)
    ensures
        views(res@) == if has_connection {
            Seq::empty()
        } else {
            absent_texts(views(active@), views(slow@))
        },
{
    if has_connection {
        return Vec::new();
    }
    absent_from(active, slow)
}

/// The names of the hosts in an answer that the name service accepts, in
/// order: they become candidates of the upload or download.
pub open spec fn host_names_of(hosts: Seq<(MachineId, String)>) -> Seq<Name>
    decreases hosts.len(),
{
    if hosts.len() == 0 {
        Seq::empty()
    } else {
        let r = host_names_of(hosts.drop_last());
        if name_check(hosts.last().1@) is None {
            r.push(parsed_name(hosts.last().1@))
        } else {
            r
        }
    }
}

/// The hosts named in an answer that become candidates: those whose
/// host name parses as a name.
pub fn candidate_names(hosts: &Vec<(MachineId, String)>) -> (res: Vec<Name>)
    ensures
        res@ == host_names_of(hosts@),
{
    let mut out: Vec<Name> = Vec::new();
    let mut i: usize = 0;
    while i < hosts.len()
        invariant
            i <= hosts.len(),
            out@ == host_names_of(hosts@.take(i as int)),
        decreases hosts.len() - i,
    {
        assert(hosts@.take(i + 1).drop_last() =~= hosts@.take(i as int));
        match parse_name(hosts[i].1.as_str()) {
            Ok(n) => {
                out.push(n);
            },
            Err(_) => {},
        }
        i = i + 1;
    }
    assert(hosts@.take(i as int) =~= hosts@);
    out
}

/// What a download of an index got back from the host it asked.
pub enum IndexAnswer {
    /// The index's bytes.
    Data(Vec<u8>),
    /// The host has no such index; it names hosts that may have it.
    Missing(Vec<(MachineId, String)>),
    /// The request failed.
    Failed,
}

/// What a download does with an answer.
pub enum FetchStep {
    /// The download is over, with these bytes.
    Done(Vec<u8>),
    /// The download goes on without its connection: the address it used,
    /// if any, is recorded as failed for it, and the hosts named become
    /// candidates.
    Retry { failed: Option<String>, candidates: Vec<Name> },
}

/// The step a download takes on an answer to its request over
/// `connection`.
pub fn index_answer_step(connection: Option<String>, answer: IndexAnswer) -> (res: FetchStep)
    ensures
        match answer {
            IndexAnswer::Data(d) => res == FetchStep::Done(d),
            IndexAnswer::Missing(hosts) => res matches FetchStep::Retry { failed, candidates }
                && failed == connection && candidates@ == host_names_of(hosts@),
            IndexAnswer::Failed => res matches FetchStep::Retry { failed, candidates }
                && failed == connection && candidates@.len() == 0,
        },
{
    match answer {
        IndexAnswer::Data(d) => FetchStep::Done(d),
        IndexAnswer::Missing(hosts) => FetchStep::Retry {
            failed: connection,
            candidates: candidate_names(&hosts),
        },
        IndexAnswer::Failed => FetchStep::Retry { failed: connection, candidates: Vec::new() },
    }
}

/// An item of a draw is an item of what it was drawn from, and a draw has
/// no more items than were asked for.
proof fn lemma_sample_members<T>(res: Seq<T>, items: Seq<T>, amount: int, x: T)
    requires
        sample_of(res, items, amount),
        amount >= 0,
    ensures
        res.len() <= amount,
        res.contains(x) ==> items.contains(x),
{
    if items.len() > amount && res.contains(x) {
        let idx = choose|idx: Seq<int>| #[trigger] drawn_from(res, items, idx);
        let i = choose|i: int| 0 <= i < res.len() && res[i] == x;
        assert(items[idx[i]] == x);
    }
}

/// The addresses of an upload's pool are fresh for it.
proof fn lemma_upload_pool_fresh(
    s: Seq<Seq<char>>,
    b: BookView,
    pending: Seq<Seq<char>>,
    active: Seq<Seq<char>>,
    blocked: Seq<Seq<char>>,
    x: Seq<char>,
)
    requires
        upload_pool(s, b, pending, active, blocked).contains(x),
    ensures
        fresh_for_upload(b, pending, active, blocked, x),
    decreases s.len(),
{
    let r = upload_pool(s.drop_last(), b, pending, active, blocked);
    if r.contains(x) {
        lemma_upload_pool_fresh(s.drop_last(), b, pending, active, blocked, x);
    } else {
        assert(x == s.last());
    }
}

/// The addresses of a download's pool are fresh for it.
proof fn lemma_fetch_pool_fresh(
    s: Seq<Seq<char>>,
    pending: Seq<Seq<char>>,
    blocked: Seq<Seq<char>>,
    slow: Seq<Seq<char>>,
    x: Seq<char>,
)
    requires
        fetch_pool(s, pending, blocked, slow).contains(x),
    ensures
        fresh_for_fetch(pending, blocked, slow, x),
    decreases s.len(),
{
    let r = fetch_pool(s.drop_last(), pending, blocked, slow);
    if r.contains(x) {
        lemma_fetch_pool_fresh(s.drop_last(), pending, blocked, slow, x);
    } else {
        assert(x == s.last());
    }
}

/// `first_new` keeps items of its input that are not pending, once each,
/// and no more of them than there are.
proof fn lemma_first_new(s: Seq<Seq<char>>, pending: Seq<Seq<char>>)
    ensures
        first_new(s, pending).no_duplicates(),
        first_new(s, pending).len() <= s.len(),
        forall|x: Seq<char>| #[trigger]
            first_new(s, pending).contains(x) ==> s.contains(x) && !pending.contains(x),
    decreases s.len(),
{
    if s.len() > 0 {
        let t = s.drop_last();
        lemma_first_new(t, pending);
        let r = first_new(t, pending);
        assert forall|x: Seq<char>| #[trigger] first_new(s, pending).contains(x) implies s.contains(
            x,
        ) && !pending.contains(x) by {
            if r.contains(x) {
                let j = choose|j: int| 0 <= j < t.len() && t[j] == x;
                assert(s[j] == x);
            } else {
                assert(s[s.len() - 1] == x);
            }
        }
    }
}

/// A plan for an upload connects only to fresh addresses (their hosts have
/// not refused the upload, no connection to them is being made or open,
/// and the record of failed connections does not hold them back), to each
/// at most once, and to no more addresses than the connections it wants.
pub proof fn lemma_upload_plan_fresh(
    connect: Seq<Seq<char>>,
    resolve: Seq<Name>,
    initial: int,
    connections: Seq<Seq<char>>,
    b: BookView,
    pending: Seq<Seq<char>>,
    active: Seq<Seq<char>>,
    blocked: Seq<Seq<char>>,
    candidates: Seq<Candidate>,
    initial_addrs: Seq<Seq<char>>,
)
    requires
        upload_plan(
            connect,
            resolve,
            initial,
            connections,
            b,
            pending,
            active,
            blocked,
            candidates,
            initial_addrs,
        ),
        initial >= 0,
    ensures
        forall|i: int|
            0 <= i < connect.len() ==> fresh_for_upload(b, pending, active, blocked, #[trigger] connect[i]),
        connect.no_duplicates(),
        connect.len() <= initial,
        resolve.len() <= initial,
{
    if wants_more(
        connections.len() as int,
        initial,
        count_usable(pending, b) + count_usable(active, b),
    ) {
        let (first, names, second) = choose|
            first: Seq<Seq<char>>,
            names: Seq<Name>,
            second: Seq<Seq<char>>,
        |
            #[trigger] upload_draws(
                first,
                names,
                second,
                initial,
                connections,
                b,
                pending,
                active,
                blocked,
                candidates,
                initial_addrs,
            ) && resolve == names && connect == first_new(first + second, pending);
        let pool1 = upload_pool(picked_texts(candidates), b, pending, active, blocked);
        let pool2 = upload_pool(absent_texts(initial_addrs, connections), b, pending, active, blocked);
        lemma_sample_members(first, pool1, initial, first[0]);
        if first.len() < initial {
            lemma_sample_members(second, pool2, initial - first.len(), first[0]);
            lemma_sample_members(names, names_to_resolve(candidates), initial - first.len(), resolve[0]);
        }
        lemma_first_new(first + second, pending);
        assert forall|i: int| 0 <= i < connect.len() implies fresh_for_upload(
            b,
            pending,
            active,
            blocked,
            #[trigger] connect[i],
        ) by {
            let x = connect[i];
            assert(connect.contains(x));
            assert((first + second).contains(x));
            let j = choose|j: int| 0 <= j < (first + second).len() && (first + second)[j] == x;
            if j < first.len() {
                assert(first[j] == x);
                lemma_sample_members(first, pool1, initial, x);
                lemma_upload_pool_fresh(picked_texts(candidates), b, pending, active, blocked, x);
            } else {
                assert(second[j - first.len()] == x);
                lemma_sample_members(second, pool2, initial - first.len(), x);
                lemma_upload_pool_fresh(
                    absent_texts(initial_addrs, connections),
                    b,
                    pending,
                    active,
                    blocked,
                    x,
                );
            }
        }
    }
}

/// A plan for a download connects to at most one address, a fresh one (no
/// connection to it is being made and neither record of failures holds it
/// back), and resolves at most one name.
pub proof fn lemma_fetch_plan_fresh(
    connect: Seq<Seq<char>>,
    resolve: Seq<Name>,
    has_connection: bool,
    pending: Seq<Seq<char>>,
    blocked: Seq<Seq<char>>,
    slow: Seq<Seq<char>>,
    candidates: Seq<Candidate>,
    initial_addrs: Seq<Seq<char>>,
)
    requires
        fetch_plan(
            connect,
            resolve,
            has_connection,
            pending,
            blocked,
            slow,
            candidates,
            initial_addrs,
        ),
    ensures
        connect.len() <= 1,
        resolve.len() <= 1,
        forall|i: int|
            0 <= i < connect.len() ==> fresh_for_fetch(pending, blocked, slow, #[trigger] connect[i]),
{
    if !(has_connection || fetch_pool(picked_texts(candidates), pending, blocked, slow).len() > 0) {
        let (names, second) = choose|names: Seq<Name>, second: Seq<Seq<char>>|
            #[trigger] fetch_draws(names, second, pending, blocked, slow, candidates, initial_addrs)
                && resolve == names && connect == first_new(second, pending);
        let pool = fetch_pool(initial_addrs, pending, blocked, slow);
        lemma_first_new(second, pending);
        lemma_sample_members(names, names_to_resolve(candidates), 1, resolve[0]);
        lemma_sample_members(second, pool, 1, second[0]);
        assert forall|i: int| 0 <= i < connect.len() implies fresh_for_fetch(
            pending,
            blocked,
            slow,
            #[trigger] connect[i],
        ) by {
            let x = connect[i];
            assert(connect.contains(x));
            lemma_sample_members(second, pool, 1, x);
            lemma_fetch_pool_fresh(initial_addrs, pending, blocked, slow, x);
        }
    }
}

} // verus!
