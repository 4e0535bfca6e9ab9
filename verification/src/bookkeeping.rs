//! What is known of an upload to a cluster while it runs: which addresses
//! accepted or rejected it, which machines have the image or aborted it,
//! and how many addresses answered.
use vstd::prelude::*;

use crate::key_set::{views, Key, KeyMap, KeySet};
use crate::machine_id::MachineId;
use crate::upload_progress::{
    check, check_spec, classify_response, response_kind, ErrorKind, Progress, ResponseKind,
};

verus! {

/// What is known of an upload, as sets and maps.
pub struct BookView {
    /// Addresses that accepted the upload.
    pub accepted_ips: Set<Seq<char>>,
    /// Machines known to take part.
    pub discovered_ids: Set<Seq<u8>>,
    /// Host names known to take part.
    pub discovered_hosts: Set<Seq<char>>,
    /// Addresses that have the image.
    pub done_ips: Set<Seq<char>>,
    /// Machines that have the image.
    pub done_ids: Set<Seq<u8>>,
    /// Host names of the machines that have the image.
    pub done_hostnames: Set<Seq<char>>,
    /// Addresses that aborted the download, with the reason.
    pub aborted_ips: Map<Seq<char>, Seq<char>>,
    /// Machines that aborted the download, with the reason.
    pub aborted_ids: Map<Seq<u8>, Seq<char>>,
    /// Host names of the machines that aborted the download, with the reason.
    pub aborted_hostnames: Map<Seq<char>, Seq<char>>,
    /// Addresses that have no configuration for the directory.
    pub rejected_no_config: Set<Seq<char>>,
    /// Addresses that rejected the upload, with the reason.
    pub rejected_ips: Map<Seq<char>, Seq<char>>,
    /// Whether a conflict with other contents counts as done.
    pub weak_errors: bool,
    /// How many answers were counted.
    pub total_responses: nat,
}

/// The machines and host names of a list of hosts.
pub open spec fn host_ids(hosts: Seq<(MachineId, String)>) -> Set<Seq<u8>> {
    hosts.map_values(|h: (MachineId, String)| h.0@).to_set()
}

/// The host names of a list of hosts.
pub open spec fn host_names(hosts: Seq<(MachineId, String)>) -> Set<Seq<char>> {
    hosts.map_values(|h: (MachineId, String)| h.1@).to_set()
}

/// The view after a host reported that it has the image (`forwarded` when
/// the report came through another host).
pub open spec fn after_received(
    b: BookView,
    addr: Seq<char>,
    forwarded: bool,
    id: Seq<u8>,
    hostname: Seq<char>,
) -> BookView {
    BookView {
        done_ips: if forwarded {
            b.done_ips
        } else {
            b.done_ips.insert(addr)
        },
        done_ids: b.done_ids.insert(id),
        discovered_ids: b.discovered_ids.insert(id),
        done_hostnames: b.done_hostnames.insert(hostname),
        ..b
    }
}

/// The view after a host reported that it aborted the download.
pub open spec fn after_aborted(
    b: BookView,
    addr: Seq<char>,
    forwarded: bool,
    id: Seq<u8>,
    hostname: Seq<char>,
    reason: Seq<char>,
) -> BookView {
    BookView {
        aborted_ips: if forwarded {
            b.aborted_ips
        } else {
            b.aborted_ips.insert(addr, reason)
        },
        aborted_ids: b.aborted_ids.insert(id, reason),
        aborted_hostnames: b.aborted_hostnames.insert(hostname, reason),
        ..b
    }
}

/// The view after an answer to the upload request from `source`, counted
/// as `kind`, naming `hosts`: an acceptance adds the address to the
/// accepting ones (and, for a conflict that counts as done, to those that
/// have the image); a refusal for no configuration is noted apart; any
/// other refusal is recorded with its reason (`unknown` when none was
/// given). An answer is counted when its address is new to the accepting
/// (or rejecting) ones. The hosts named become known.
pub open spec fn after_response(
    b: BookView,
    source: Seq<char>,
    kind: ResponseKind,
    reason: Option<Seq<char>>,
    hosts: Seq<(MachineId, String)>,
) -> BookView {
    let counted = match kind {
        ResponseKind::AcceptedAsDone => BookView {
            accepted_ips: b.accepted_ips.insert(source),
            done_ips: b.done_ips.insert(source),
            total_responses: if b.accepted_ips.contains(source) {
                b.total_responses
            } else {
                b.total_responses + 1
            },
            ..b
        },
        ResponseKind::NoConfig => BookView {
            rejected_no_config: b.rejected_no_config.insert(source),
            ..b
        },
        ResponseKind::Rejected => BookView {
            rejected_ips: b.rejected_ips.insert(
                source,
                match reason {
                    Some(r) => r,
                    None => "unknown"@,
                },
            ),
            total_responses: if b.rejected_ips.contains_key(source) {
                b.total_responses
            } else {
                b.total_responses + 1
            },
            ..b
        },
        ResponseKind::Accepted => BookView {
            accepted_ips: b.accepted_ips.insert(source),
            total_responses: if b.accepted_ips.contains(source) {
                b.total_responses
            } else {
                b.total_responses + 1
            },
            ..b
        },
    };
    BookView {
        discovered_ids: counted.discovered_ids.union(host_ids(hosts)),
        discovered_hosts: counted.discovered_hosts.union(host_names(hosts)),
        ..counted
    }
}

/// The summary of a view that decides whether the upload is over.
pub open spec fn progress_of(b: BookView) -> Progress {
    Progress {
        accepted_all_done: b.accepted_ips.subset_of(b.done_ips),
        discovered_all_done: b.discovered_ids.subset_of(b.done_ids),
        discovered: b.discovered_ids.len() as usize,
        done_ids: b.done_ids.len() as usize,
        rejected_ips: b.rejected_ips.dom().len() as usize,
        aborted_ids: b.aborted_ids.dom().len() as usize,
        aborted_ips: b.aborted_ips.dom().len() as usize,
    }
}

/// The text of an optional reason.
pub open spec fn opt_view(r: Option<String>) -> Option<Seq<char>> {
    match r {
        Some(s) => Some(s@),
        None => None,
    }
}

/// What is known of an upload to a cluster.
pub struct Bookkeeping {
    accepted_ips: KeySet<String>,
    discovered_ids: KeySet<MachineId>,
    discovered_hosts: KeySet<String>,
    done_ips: KeySet<String>,
    done_ids: KeySet<MachineId>,
    done_hostnames: KeySet<String>,
    aborted_ips: KeyMap<String>,
    aborted_ids: KeyMap<MachineId>,
    aborted_hostnames: KeyMap<String>,
    rejected_no_config: KeySet<String>,
    rejected_ips: KeyMap<String>,
    weak_errors: bool,
    total_responses: usize,
}

impl View for Bookkeeping {
    type V = BookView;

    closed spec fn view(&self) -> BookView {
        BookView {
            accepted_ips: self.accepted_ips@,
            discovered_ids: self.discovered_ids@,
            discovered_hosts: self.discovered_hosts@,
            done_ips: self.done_ips@,
            done_ids: self.done_ids@,
            done_hostnames: self.done_hostnames@,
            aborted_ips: self.aborted_ips@,
            aborted_ids: self.aborted_ids@,
            aborted_hostnames: self.aborted_hostnames@,
            rejected_no_config: self.rejected_no_config@,
            rejected_ips: self.rejected_ips@,
            weak_errors: self.weak_errors,
            total_responses: self.total_responses as nat,
        }
    }
}

impl Bookkeeping {
    /// Every set and map is well formed, and the count of answers is the
    /// number of accepting addresses plus the number of rejecting ones.
    pub closed spec fn wf(&self) -> bool {
        &&& self.accepted_ips.wf()
        &&& self.discovered_ids.wf()
        &&& self.discovered_hosts.wf()
        &&& self.done_ips.wf()
        &&& self.done_ids.wf()
        &&& self.done_hostnames.wf()
        &&& self.aborted_ips.wf()
        &&& self.aborted_ids.wf()
        &&& self.aborted_hostnames.wf()
        &&& self.rejected_no_config.wf()
        &&& self.rejected_ips.wf()
        &&& self.accepted_ips@.finite()
        &&& self.rejected_ips@.dom().finite()
        &&& self.total_responses == self.accepted_ips@.len() + self.rejected_ips@.dom().len()
    }

    /// Nothing known yet of an upload; `weak` when a conflict with other
    /// contents counts as done.
    pub fn new(weak: bool) -> (res: Bookkeeping)
        ensures
            res.wf(),
            res@ == (BookView {
                accepted_ips: Set::empty(),
                discovered_ids: Set::empty(),
                discovered_hosts: Set::empty(),
                done_ips: Set::empty(),
                done_ids: Set::empty(),
                done_hostnames: Set::empty(),
                aborted_ips: Map::empty(),
                aborted_ids: Map::empty(),
                aborted_hostnames: Map::empty(),
                rejected_no_config: Set::empty(),
                rejected_ips: Map::empty(),
                weak_errors: weak,
                total_responses: 0,
            }),
    {
        Bookkeeping {
            accepted_ips: KeySet::new(),
            discovered_ids: KeySet::new(),
            discovered_hosts: KeySet::new(),
            done_ips: KeySet::new(),
            done_ids: KeySet::new(),
            done_hostnames: KeySet::new(),
            aborted_ips: KeyMap::new(),
            aborted_ids: KeyMap::new(),
            aborted_hostnames: KeyMap::new(),
            rejected_no_config: KeySet::new(),
            rejected_ips: KeyMap::new(),
            weak_errors: weak,
            total_responses: 0,
        }
    }

    /// Notes that the host at `addr` (machine `machine_id`, named
    /// `hostname`) has the image; `forwarded` when the report came through
    /// another host, whose address is then not the one that has it.
    pub fn received_image(
        &mut self,
        addr: String,
        forwarded: bool,
        machine_id: MachineId,
        hostname: String,
    )
        requires
            old(self).wf(),
        ensures
            final(self).wf(),
            final(self)@ == after_received(old(self)@, addr@, forwarded, machine_id@, hostname@),
            final(self)@.done_ids.contains(machine_id@),
            final(self)@.discovered_ids.contains(machine_id@),
            final(self)@.done_hostnames.contains(hostname@),
            forwarded ==> final(self)@.done_ips == old(self)@.done_ips,
            !forwarded ==> final(self)@.done_ips.contains(addr@),
            final(self)@.aborted_ids == old(self)@.aborted_ids,
            final(self)@.rejected_ips == old(self)@.rejected_ips,
    {
        if !forwarded {
            self.done_ips.insert(addr);
        }
        let id = machine_id.copy();
        self.done_ids.insert(machine_id);
        self.discovered_ids.insert(id);
        self.done_hostnames.insert(hostname);
    }

    /// Notes that the host at `addr` (machine `machine_id`, named
    /// `hostname`) aborted the download for `reason`.
    pub fn aborted_image(
        &mut self,
        addr: String,
        forwarded: bool,
        machine_id: MachineId,
        hostname: String,
        reason: String,
    )
        requires
            old(self).wf(),
        ensures
            final(self).wf(),
            final(self)@ == after_aborted(
                old(self)@,
                addr@,
                forwarded,
                machine_id@,
                hostname@,
                reason@,
            ),
            final(self)@.aborted_ids.contains_key(machine_id@),
            final(self)@.aborted_ids[machine_id@] == reason@,
            final(self)@.aborted_hostnames.contains_key(hostname@),
            final(self)@.aborted_hostnames[hostname@] == reason@,
            forwarded ==> final(self)@.aborted_ips == old(self)@.aborted_ips,
            !forwarded ==> final(self)@.aborted_ips.contains_key(addr@)
                && final(self)@.aborted_ips[addr@] == reason@,
            forall|k: Seq<u8>| #[trigger]
                old(self)@.aborted_ids.contains_key(k) ==> final(self)@.aborted_ids.contains_key(k),
            final(self)@.done_ids == old(self)@.done_ids,
            final(self)@.rejected_ips == old(self)@.rejected_ips,
    {
        if !forwarded {
            self.aborted_ips.insert(addr, reason.clone());
        }
        self.aborted_ids.insert(machine_id, reason.clone());
        self.aborted_hostnames.insert(hostname, reason);
    }

    /// Counts the answer of `source` to the upload request (see
    /// `after_response`), and tells how it was counted.
    pub fn add_response(
        &mut self,
        source: String,
        accepted: bool,
        reject_reason: Option<String>,
        hosts: Vec<(MachineId, String)>,
    ) -> (res: ResponseKind)
        requires
            old(self).wf(),
            old(self)@.total_responses < usize::MAX,
        ensures
            final(self).wf(),
            res == response_kind(accepted, opt_view(reject_reason), old(self)@.weak_errors),
            final(self)@ == after_response(
                old(self)@,
                source@,
                res,
                opt_view(reject_reason),
                hosts@,
            ),
            accepted ==> final(self)@.accepted_ips.contains(source@),
            res is AcceptedAsDone ==> final(self)@.accepted_ips.contains(source@)
                && final(self)@.done_ips.contains(source@),
            res is Rejected ==> final(self)@.rejected_ips.contains_key(source@),
            res is NoConfig ==> final(self)@.rejected_no_config.contains(source@),
            forall|i: int|
                0 <= i < hosts@.len() ==> final(self)@.discovered_ids.contains(
                    (#[trigger] hosts@[i]).0@,
                ) && final(self)@.discovered_hosts.contains(hosts@[i].1@),
            old(self)@.discovered_ids.subset_of(final(self)@.discovered_ids),
            final(self)@.aborted_ids == old(self)@.aborted_ids,
            final(self)@.done_ids == old(self)@.done_ids,
    {
        let kind = match &reject_reason {
            Some(r) => classify_response(accepted, Some(r.as_str()), self.weak_errors),
            None => classify_response(accepted, None, self.weak_errors),
        };
        match kind {
            ResponseKind::AcceptedAsDone => {
                let s = source.clone();
                if self.accepted_ips.insert(source) {
                    self.total_responses = self.total_responses + 1;
                }
                self.done_ips.insert(s);
            },
            ResponseKind::NoConfig => {
                self.rejected_no_config.insert(source);
            },
            ResponseKind::Rejected => {
                let reason = match reject_reason {
                    Some(r) => r,
                    None => String::from_str("unknown"),
                };
                if self.rejected_ips.insert(source, reason) {
                    self.total_responses = self.total_responses + 1;
                }
            },
            ResponseKind::Accepted => {
                if self.accepted_ips.insert(source) {
                    self.total_responses = self.total_responses + 1;
                }
            },
        }
        let ghost mid = self@;
        let ghost all = hosts@;
        let ghost ids0 = self@.discovered_ids;
        let ghost names0 = self@.discovered_hosts;
        assert(all.take(0) =~= Seq::<(MachineId, String)>::empty());
        assert(ids0.union(host_ids(all.take(0))) =~= ids0);
        assert(names0.union(host_names(all.take(0))) =~= names0);
        for h in it: hosts.into_iter()
            invariant
                it.seq() == all,
                self.wf(),
                self@ == (BookView {
                    discovered_ids: ids0.union(host_ids(all.take(it.index() as int))),
                    discovered_hosts: names0.union(host_names(all.take(it.index() as int))),
                    ..mid
                }),
        {
            let ghost k = it.index() as int;
            proof {
                assert(all.take(k + 1) =~= all.take(k).push(all[k]));
                assert(all.take(k + 1).map_values(|h: (MachineId, String)| h.0@) =~= all.take(
                    k,
                ).map_values(|h: (MachineId, String)| h.0@).push(all[k].0@));
                assert(all.take(k + 1).map_values(|h: (MachineId, String)| h.1@) =~= all.take(
                    k,
                ).map_values(|h: (MachineId, String)| h.1@).push(all[k].1@));
                all.take(k).map_values(|h: (MachineId, String)| h.0@).lemma_push_to_set_commute(
                    all[k].0@,
                );
                all.take(k).map_values(|h: (MachineId, String)| h.1@).lemma_push_to_set_commute(
                    all[k].1@,
                );
                assert(ids0.union(host_ids(all.take(k + 1))) =~= ids0.union(
                    host_ids(all.take(k)),
                ).insert(all[k].0@));
                assert(names0.union(host_names(all.take(k + 1))) =~= names0.union(
                    host_names(all.take(k)),
                ).insert(all[k].1@));
            }
            let (id, name) = h;
            self.discovered_ids.insert(id);
            self.discovered_hosts.insert(name);
        }
        assert(all.take(all.len() as int) =~= all);
        proof {
            assert forall|i: int| 0 <= i < all.len() implies host_ids(all).contains(
                (#[trigger] all[i]).0@,
            ) && host_names(all).contains(all[i].1@) by {
                assert(all.map_values(|h: (MachineId, String)| h.0@)[i] == all[i].0@);
                assert(all.map_values(|h: (MachineId, String)| h.1@)[i] == all[i].1@);
            }
        }
        kind
    }

    /// How many answers were counted (the count taken modulo 2^32).
    pub fn total_responses(&self) -> (res: u32)
        ensures
            res == self@.total_responses as u32,
    {
        #[verifier::truncate]
        (self.total_responses as u32)
    }

    /// The count of answers.
    pub fn responses(&self) -> (res: usize)
        ensures
            res == self@.total_responses,
    {
        self.total_responses
    }

    /// Whether `addr` refused the upload, for a reason or for having no
    /// configuration for the directory.
    pub fn is_rejected(&self, addr: &String) -> (res: bool)
        ensures
            res == (self@.rejected_ips.contains_key(addr@) || self@.rejected_no_config.contains(
                addr@,
            )),
    {
        self.rejected_ips.contains_key(addr) || self.rejected_no_config.contains(addr)
    }

    /// The summary that decides whether the upload is over.
    pub fn progress(&self) -> (res: Progress)
        requires
            self.wf(),
        ensures
            res == progress_of(self@),
    {
        Progress {
            accepted_all_done: self.done_ips.is_superset(&self.accepted_ips),
            discovered_all_done: self.done_ids.is_superset(&self.discovered_ids),
            discovered: self.discovered_ids.len(),
            done_ids: self.done_ids.len(),
            rejected_ips: self.rejected_ips.len(),
            aborted_ids: self.aborted_ids.len(),
            aborted_ips: self.aborted_ips.len(),
        }
    }

    /// Whether the upload is over, and how (see `check_spec`): once every
    /// accepting address has the image, after the early timeout when enough
    /// machines have it, otherwise when every machine known has it; a
    /// failure when some host refused or aborted it.
    pub fn check(&self, early_hosts: u32, fract_hosts: usize, early_timeout: bool) -> (res: Option<
        Result<(), ErrorKind>,
    >)
        requires
            self.wf(),
        ensures
            res == check_spec(progress_of(self@), early_hosts as int, fract_hosts as int, early_timeout),
    {
        let p = self.progress();
        check(&p, early_hosts, fract_hosts, early_timeout)
    }

    /// The host names of the machines that have the image.
    pub fn done_hostnames(&self) -> (res: &KeySet<String>)
        requires
            self.wf(),
        ensures
            res.wf(),
            res@ == self@.done_hostnames,
    {
        &self.done_hostnames
    }

    /// The addresses that rejected the upload, with the reasons.
    pub fn rejected_ips(&self) -> (res: &KeyMap<String>)
        requires
            self.wf(),
        ensures
            res.wf(),
            res@ == self@.rejected_ips,
    {
        &self.rejected_ips
    }

    /// The host names that aborted the download, with the reasons.
    pub fn aborted_hostnames(&self) -> (res: &KeyMap<String>)
        requires
            self.wf(),
        ensures
            res.wf(),
            res@ == self@.aborted_hostnames,
    {
        &self.aborted_hostnames
    }

    /// The machines that have the image.
    pub fn done_ids(&self) -> (res: &KeySet<MachineId>)
        requires
            self.wf(),
        ensures
            res.wf(),
            res@ == self@.done_ids,
    {
        &self.done_ids
    }

    /// The machines known to take part.
    pub fn discovered_ids(&self) -> (res: &KeySet<MachineId>)
        requires
            self.wf(),
        ensures
            res.wf(),
            res@ == self@.discovered_ids,
    {
        &self.discovered_ids
    }

    /// The machines that aborted the download, with the reasons.
    pub fn aborted_ids(&self) -> (res: &KeyMap<MachineId>)
        requires
            self.wf(),
        ensures
            res.wf(),
            res@ == self@.aborted_ids,
    {
        &self.aborted_ids
    }
}

/// Every answer is counted once per address: the count of answers is the
/// number of addresses that accepted the upload plus the number that
/// rejected it.
pub proof fn lemma_responses_counted(b: &Bookkeeping)
    requires
        b.wf(),
    ensures
        b@.total_responses == b@.accepted_ips.len() + b@.rejected_ips.dom().len(),
{
}

/// A machine that aborted the download spoils the upload: while any machine
/// is among those that aborted it, a check after the early timeout never
/// reports success, whatever the counts of hosts.
pub proof fn lemma_abort_spoils_early_success(
    b: &Bookkeeping,
    id: Seq<u8>,
    early_hosts: int,
    fract_hosts: int,
)
    requires
        b.wf(),
        b@.aborted_ids.contains_key(id),
    ensures
        check_spec(progress_of(b@), early_hosts, fract_hosts, true) != Some(
            Ok::<(), ErrorKind>(()),
        ),
        progress_of(b@).aborted_ids > 0,
{
    b.aborted_ids.lemma_dom_bounded();
    vstd::set_lib::lemma_set_empty_equivalency_len(b@.aborted_ids.dom());
}

/// An abort is never forgotten: no report or answer removes a machine from
/// those that aborted the download, and a report of an abort adds its
/// machine, forwarded or not.
pub proof fn lemma_aborts_persist(
    b: BookView,
    addr: Seq<char>,
    forwarded: bool,
    id: Seq<u8>,
    hostname: Seq<char>,
    reason: Seq<char>,
    kind: ResponseKind,
    reject_reason: Option<Seq<char>>,
    hosts: Seq<(MachineId, String)>,
)
    ensures
        b.aborted_ids.dom().subset_of(after_received(b, addr, forwarded, id, hostname).aborted_ids.dom()),
        b.aborted_ids.dom().insert(id) == after_aborted(
            b,
            addr,
            forwarded,
            id,
            hostname,
            reason,
        ).aborted_ids.dom(),
        b.aborted_ids.dom().subset_of(
            after_response(b, addr, kind, reject_reason, hosts).aborted_ids.dom(),
        ),
{
    assert(b.aborted_ids.dom().insert(id) =~= after_aborted(
        b,
        addr,
        forwarded,
        id,
        hostname,
        reason,
    ).aborted_ids.dom());
}

/// A refusal is never forgotten: no report or answer removes an address
/// from those that rejected the upload.
pub proof fn lemma_rejections_persist(
    b: BookView,
    addr: Seq<char>,
    forwarded: bool,
    id: Seq<u8>,
    hostname: Seq<char>,
    reason: Seq<char>,
    kind: ResponseKind,
    reject_reason: Option<Seq<char>>,
    hosts: Seq<(MachineId, String)>,
)
    ensures
        b.rejected_ips.dom().subset_of(after_received(b, addr, forwarded, id, hostname).rejected_ips.dom()),
        b.rejected_ips.dom().subset_of(
            after_aborted(b, addr, forwarded, id, hostname, reason).rejected_ips.dom(),
        ),
        b.rejected_ips.dom().subset_of(
            after_response(b, addr, kind, reject_reason, hosts).rejected_ips.dom(),
        ),
        b.rejected_no_config.subset_of(
            after_response(b, addr, kind, reject_reason, hosts).rejected_no_config,
        ),
{
}

} // verus!
