//! What the upload command knows while it uploads an image: the index it
//! may send, the paths it signs, the addresses still to report, the
//! machines done and failed, and how the answers of every address add up to
//! the command's result.
use vstd::prelude::*;

use crate::cli::TargetUrl;
use crate::cluster_rules::{first_new, new_connections};
use crate::key_set::{views, Key, KeyMap, KeySet};
use crate::machine_id::MachineId;
use crate::upload_progress::{is_conflict, is_conflict_reason, reason_view};

verus! {

/// What the upload command knows, as sets and maps.
pub struct ProgressView {
    /// Machines that have the image, with their host names.
    pub hosts_done: Map<Seq<u8>, Seq<char>>,
    /// Addresses whose report is still awaited.
    pub ips_needed: Set<Seq<char>>,
    /// Machines named by the answers, with their host names.
    pub ids_needed: Map<Seq<u8>, Seq<char>>,
    /// Addresses that failed.
    pub hosts_errored: Set<Seq<char>>,
    /// Whether completion was signalled.
    pub signalled: bool,
}

/// What to report after a change.
#[derive(Debug, Clone, Copy, PartialEq, Eq)]
pub enum Status {
    /// Every address awaited has reported: `hosts` machines have the image;
    /// `first` when this is the first time.
    Complete { hosts: usize, first: bool },
    /// Still fetching: `done` machines have the image, of `total`.
    Fetching { done: usize, total: u128 },
}

/// The status a view reports, and the view after it is reported: once no
/// address is awaited, completion is signalled (the first time only).
pub open spec fn status_of(v: ProgressView) -> (Status, ProgressView) {
    if v.ips_needed.len() == 0 {
        (
            Status::Complete { hosts: v.hosts_done.dom().len() as usize, first: !v.signalled },
            ProgressView { signalled: true, ..v },
        )
    } else {
        (
            Status::Fetching {
                done: v.hosts_done.dom().len() as usize,
                total: (v.hosts_done.dom().len() + v.ids_needed.dom().len() + v.ips_needed.len())
                    as u128,
            },
            v,
        )
    }
}

/// The machines named by an answer added to those needed, unless they have
/// the image already (a later name of the same machine wins).
pub open spec fn add_ids_spec(
    needed: Map<Seq<u8>, Seq<char>>,
    done: Map<Seq<u8>, Seq<char>>,
    hosts: Seq<(MachineId, String)>,
) -> Map<Seq<u8>, Seq<char>>
    decreases hosts.len(),
{
    if hosts.len() == 0 {
        needed
    } else {
        let m = add_ids_spec(needed, done, hosts.drop_last());
        if done.contains_key(hosts.last().0@) {
            m
        } else {
            m.insert(hosts.last().0@, hosts.last().1@)
        }
    }
}

/// The addresses of a list.
pub open spec fn address_set(addrs: Seq<String>) -> Set<Seq<char>> {
    addrs.map_values(|a: String| a@).to_set()
}

/// What the upload command knows while it uploads an image.
pub struct ClientProgress {
    hosts_done: KeyMap<MachineId>,
    ips_needed: KeySet<String>,
    ids_needed: KeyMap<MachineId>,
    hosts_errored: KeySet<String>,
    signalled: bool,
}

impl View for ClientProgress {
    type V = ProgressView;

    closed spec fn view(&self) -> ProgressView {
        ProgressView {
            hosts_done: self.hosts_done@,
            ips_needed: self.ips_needed@,
            ids_needed: self.ids_needed@,
            hosts_errored: self.hosts_errored@,
            signalled: self.signalled,
        }
    }
}

impl ClientProgress {
    /// Every set and map is well formed.
    pub closed spec fn wf(&self) -> bool {
        &&& self.hosts_done.wf()
        &&& self.ips_needed.wf()
        &&& self.ids_needed.wf()
        &&& self.hosts_errored.wf()
    }

    /// Nothing known yet.
    pub fn new() -> (res: ClientProgress)
        ensures
            res.wf(),
            res@ == (ProgressView {
                hosts_done: Map::empty(),
                ips_needed: Set::empty(),
                ids_needed: Map::empty(),
                hosts_errored: Set::empty(),
                signalled: false,
            }),
    {
        ClientProgress {
            hosts_done: KeyMap::new(),
            ips_needed: KeySet::new(),
            ids_needed: KeyMap::new(),
            hosts_errored: KeySet::new(),
            signalled: false,
        }
    }

    /// Awaits reports from the given addresses too.
    pub fn need_addresses(&mut self, addrs: Vec<String>)
        requires
            old(self).wf(),
        ensures
            final(self).wf(),
            final(self)@ == (ProgressView {
                ips_needed: old(self)@.ips_needed.union(address_set(addrs@)),
                ..old(self)@
            }),
    {
        let ghost all = addrs@;
        let ghost start = self@;
        assert(all.take(0).map_values(|a: String| a@).to_set() =~= Set::<Seq<char>>::empty());
        assert(start.ips_needed.union(address_set(all.take(0))) =~= start.ips_needed);
        for a in it: addrs.into_iter()
            invariant
                it.seq() == all,
                self.wf(),
                self@ == (ProgressView {
                    ips_needed: start.ips_needed.union(address_set(all.take(it.index() as int))),
                    ..start
                }),
        {
            let ghost k = it.index() as int;
            proof {
                assert(all.take(k + 1).map_values(|a: String| a@) =~= all.take(k).map_values(
                    |a: String| a@,
                ).push(all[k]@));
                all.take(k).map_values(|a: String| a@).lemma_push_to_set_commute(all[k]@);
                assert(start.ips_needed.union(address_set(all.take(k + 1))) =~= start.ips_needed.union(
                    address_set(all.take(k)),
                ).insert(all[k]@));
            }
            self.ips_needed.insert(a);
        }
        assert(all.take(all.len() as int) =~= all);
    }

    /// Notes the machines an answer names (see `add_ids_spec`).
    pub fn add_ids(&mut self, hosts: Vec<(MachineId, String)>)
        requires
            old(self).wf(),
        ensures
            final(self).wf(),
            final(self)@ == (ProgressView {
                ids_needed: add_ids_spec(old(self)@.ids_needed, old(self)@.hosts_done, hosts@),
                ..old(self)@
            }),
    {
        let ghost all = hosts@;
        let ghost start = self@;
        assert(all.take(0) =~= Seq::<(MachineId, String)>::empty());
        for h in it: hosts.into_iter()
            invariant
                it.seq() == all,
                self.wf(),
                self@ == (ProgressView {
                    ids_needed: add_ids_spec(start.ids_needed, start.hosts_done, all.take(it.index() as int)),
                    ..start
                }),
        {
            let ghost k = it.index() as int;
            proof {
                assert(all.take(k + 1).drop_last() =~= all.take(k));
                assert(all.take(k + 1).last() == all[k]);
            }
            let (id, name) = h;
            if !self.hosts_done.contains_key(&id) {
                self.ids_needed.insert(id, name);
            }
        }
        assert(all.take(all.len() as int) =~= all);
    }

    /// Reports the current status (see `status_of`).
    pub fn check_status(&mut self) -> (res: Status)
        requires
            old(self).wf(),
        ensures
            final(self).wf(),
            (res, final(self)@) == status_of(old(self)@),
    {
        let done = self.hosts_done.len();
        let awaited = self.ips_needed.len();
        if awaited == 0 {
            let first = !self.signalled;
            self.signalled = true;
            Status::Complete { hosts: done, first }
        } else {
            let total = done as u128 + self.ids_needed.len() as u128 + awaited as u128;
            Status::Fetching { done, total }
        }
    }

    /// The host at `addr` reports that machine `id`, named `hostname`, has
    /// the image (`forwarded` when the report is about another host); then
    /// the status is reported.
    pub fn received(&mut self, addr: &String, id: MachineId, hostname: String, forwarded: bool) -> (res:
        Status)
        requires
            old(self).wf(),
        ensures
            final(self).wf(),
            (res, final(self)@) == status_of(
                ProgressView {
                    hosts_done: old(self)@.hosts_done.insert(id@, hostname@),
                    ips_needed: if forwarded {
                        old(self)@.ips_needed
                    } else {
                        old(self)@.ips_needed.remove(addr@)
                    },
                    ..old(self)@
                },
            ),
    {
        self.hosts_done.insert(id, hostname);
        if !forwarded {
            self.ips_needed.remove(addr);
        }
        self.check_status()
    }

    /// The host at `addr` reports that a download was aborted; then the
    /// status is reported.
    pub fn aborted(&mut self, addr: &String, forwarded: bool) -> (res: Status)
        requires
            old(self).wf(),
        ensures
            final(self).wf(),
            (res, final(self)@) == status_of(
                ProgressView {
                    hosts_errored: old(self)@.hosts_errored.insert(addr@),
                    ips_needed: if forwarded {
                        old(self)@.ips_needed
                    } else {
                        old(self)@.ips_needed.remove(addr@)
                    },
                    ..old(self)@
                },
            ),
    {
        self.hosts_errored.insert(addr.copy());
        if !forwarded {
            self.ips_needed.remove(addr);
        }
        self.check_status()
    }

    /// The connection to `addr` closed: before completion, the address is
    /// no longer awaited and counts as failed, and the status is reported.
    pub fn closed(&mut self, addr: &String) -> (res: Option<Status>)
        requires
            old(self).wf(),
        ensures
            final(self).wf(),
            old(self)@.signalled ==> res is None && final(self)@ == old(self)@,
            !old(self)@.signalled ==> res is Some && (res->0, final(self)@) == status_of(
                ProgressView {
                    hosts_errored: old(self)@.hosts_errored.insert(addr@),
                    ips_needed: old(self)@.ips_needed.remove(addr@),
                    ..old(self)@
                },
            ),
    {
        if self.signalled {
            return None;
        }
        self.ips_needed.remove(addr);
        self.hosts_errored.insert(addr.copy());
        Some(self.check_status())
    }

    /// No report is awaited from `addr` any more (it refused the upload or
    /// its connection failed).
    pub fn forget_address(&mut self, addr: &String)
        requires
            old(self).wf(),
        ensures
            final(self).wf(),
            final(self)@ == (ProgressView {
                ips_needed: old(self)@.ips_needed.remove(addr@),
                ..old(self)@
            }),
    {
        self.ips_needed.remove(addr);
    }

    /// Whether no host failed.
    pub fn is_ok(&self) -> (res: bool)
        requires
            self.wf(),
        ensures
            res == (self@.hosts_errored.len() == 0),
    {
        self.hosts_errored.is_empty()
    }

    /// The machines that have the image, with their host names.
    pub fn hosts_done(&self) -> (res: &KeyMap<MachineId>)
        requires
            self.wf(),
        ensures
            res.wf(),
            res@ == self@.hosts_done,
    {
        &self.hosts_done
    }
}

/// Whether one address made the upload succeed: a refusal succeeds only
/// for a conflict with other contents when conflicts are not to fail the
/// upload; an acceptance succeeds when the upload completed (`finished`,
/// `None` when the connection closed first) with no host failed.
pub open spec fn address_ok(
    accepted: bool,
    reason: Option<Seq<char>>,
    fail_on_conflict: bool,
    finished: Option<bool>,
) -> bool {
    if !accepted {
        !fail_on_conflict && is_conflict(reason)
    } else {
        finished == Some(true)
    }
}

/// Whether one address made the upload succeed (see `address_ok`).
pub fn address_result(
    accepted: bool,
    reason: Option<&str>,
    fail_on_conflict: bool,
    finished: Option<bool>,
) -> (res: bool)
    ensures
        res == address_ok(accepted, reason_view(reason), fail_on_conflict, finished),
{
    if !accepted {
        !fail_on_conflict && is_conflict_reason(reason)
    } else {
        match finished {
            Some(ok) => ok,
            None => false,
        }
    }
}

/// Some address of a target succeeded.
pub open spec fn any_ok(v: Seq<bool>) -> bool {
    exists|a: int| 0 <= a < v.len() && v[a]
}

/// The upload succeeds when, for every target, some address succeeded.
pub open spec fn all_targets_ok(results: Seq<Vec<bool>>) -> bool {
    forall|t: int| 0 <= t < results.len() ==> any_ok(#[trigger] results[t]@)
}

/// Whether the upload succeeded, given the result of every address of
/// every target.
pub fn upload_succeeded(results: &Vec<Vec<bool>>) -> (res: bool)
    ensures
        res == all_targets_ok(results@),
{
    let mut t: usize = 0;
    while t < results.len()
        invariant
            t <= results@.len(),
            forall|u: int| 0 <= u < t ==> any_ok(#[trigger] results@[u]@),
        decreases results.len() - t,
    {
        let r = &results[t];
        let mut a: usize = 0;
        let mut any = false;
        while a < r.len() && !any
            invariant
                a <= r@.len(),
                any ==> a > 0 && r@[a - 1],
                !any ==> forall|b: int| 0 <= b < a ==> !r@[b],
            decreases r.len() - a,
        {
            any = r[a];
            a = a + 1;
        }
        if !any {
            assert(!any_ok(results@[t as int]@));
            return false;
        }
        assert(results@[t as int]@[a - 1]);
        assert(any_ok(results@[t as int]@));
        t = t + 1;
    }
    true
}

/// The largest index an upload sends: 100 MiB.
pub const MAX_INDEX_SIZE: usize = 104_857_600;

/// Whether an index of `len` bytes is small enough to upload.
pub fn index_size_ok(len: usize) -> (res: bool)
    ensures
        res == (len <= MAX_INDEX_SIZE),
{
    len <= MAX_INDEX_SIZE
}

/// The paths of the targets.
pub open spec fn target_paths(targets: Seq<TargetUrl>) -> Seq<Seq<char>> {
    targets.map_values(|t: TargetUrl| t.path@)
}

/// The paths an upload signs the image for: each target's path, once, in
/// the order the targets come.
pub fn paths_to_sign(targets: &Vec<TargetUrl>) -> (res: Vec<String>)
    ensures
        views(res@) == first_new(target_paths(targets@), Seq::empty()),
{
    let mut paths: Vec<String> = Vec::new();
    let mut i: usize = 0;
    while i < targets.len()
        invariant
            i <= targets.len(),
            views(paths@) == target_paths(targets@.take(i as int)),
        decreases targets.len() - i,
    {
        let ghost before = paths@;
        paths.push(targets[i].path.clone());
        assert(views(paths@) =~= views(before).push(targets@[i as int].path@));
        assert(target_paths(targets@.take(i + 1)) =~= target_paths(targets@.take(i as int)).push(
            targets@[i as int].path@,
        ));
        i = i + 1;
    }
    assert(targets@.take(i as int) =~= targets@);
    let none: Vec<String> = Vec::new();
    assert(views(none@) =~= Seq::<Seq<char>>::empty());
    new_connections(&paths, &none)
}

} // verus!
