//! When an upload to a cluster is complete: the answers of the hosts and
//! the rules that decide success or failure.
use vstd::prelude::*;

use crate::text::str_eq;

verus! {

/// Network error happened
///
/// Network error means we couldn't upload data to all peers we wanted, either
/// because they are inaccessible or some kind of timeout happened, or they
/// refused to accept the image
#[derive(Debug, Clone, Copy, PartialEq, Eq)]
pub enum ErrorKind {
    /// Deadline reached when doing upload
    DeadlineReached,
    /// Some hosts rejected the download
    Rejected,
    /// Reserved for kinds added later.
    __Nonexhaustive,
}

impl ErrorKind {
    /// The message of the error (what `Display` printed).
    pub fn message(&self) -> (res: &'static str)
        ensures
            res@ == match self {
                ErrorKind::DeadlineReached => "deadline reached"@,
                ErrorKind::Rejected => "some hosts rejected the download"@,
                ErrorKind::__Nonexhaustive => "undefined error"@,
            },
    {
        match self {
            ErrorKind::DeadlineReached => "deadline reached",
            ErrorKind::Rejected => "some hosts rejected the download",
            ErrorKind::__Nonexhaustive => "undefined error",
        }
    }
}

/// How an answer of a host to an upload request is counted.
#[derive(Debug, Clone, Copy, PartialEq, Eq)]
pub enum ResponseKind {
    /// Refused because the directory exists (or is being uploaded) with
    /// other contents, which a weak upload takes as done.
    AcceptedAsDone,
    /// The host has no configuration for the directory.
    NoConfig,
    /// The host refused the upload.
    Rejected,
    /// The host accepted the upload.
    Accepted,
}

/// A refusal because the directory already holds (or is receiving) other contents.
pub open spec fn is_conflict(reason: Option<Seq<char>>) -> bool {
    reason == Some("already_exists"@) || reason == Some("already_uploading_different_version"@)
}

/// How an answer counts: a refusal for a conflict counts as done in a weak
/// upload; a refusal for a missing configuration is noted apart; any other
/// refusal is a rejection.
pub open spec fn response_kind(accepted: bool, reason: Option<Seq<char>>, weak: bool) -> ResponseKind {
    if accepted {
        ResponseKind::Accepted
    } else if is_conflict(reason) && weak {
        ResponseKind::AcceptedAsDone
    } else if reason == Some("no_config"@) {
        ResponseKind::NoConfig
    } else {
        ResponseKind::Rejected
    }
}

/// The text of an optional reason.
pub open spec fn reason_view(reason: Option<&str>) -> Option<Seq<char>> {
    match reason {
        Some(r) => Some(r@),
        None => None,
    }
}

/// Whether a refusal reason is a conflict with other contents.
pub fn is_conflict_reason(reason: Option<&str>) -> (res: bool)
    ensures
        res == is_conflict(reason_view(reason)),
{
    match reason {
        Some(r) => str_eq(r, "already_exists") || str_eq(r, "already_uploading_different_version"),
        None => false,
    }
}

/// How an answer of a host to an upload request counts.
pub fn classify_response(accepted: bool, reason: Option<&str>, weak: bool) -> (res: ResponseKind)
    ensures
        res == response_kind(accepted, reason_view(reason), weak),
{
    if accepted {
        ResponseKind::Accepted
    } else if weak && is_conflict_reason(reason) {
        ResponseKind::AcceptedAsDone
    } else {
        match reason {
            Some(r) => if str_eq(r, "no_config") {
                ResponseKind::NoConfig
            } else {
                ResponseKind::Rejected
            },
            None => ResponseKind::Rejected,
        }
    }
}

/// What is known of an upload's progress.
#[derive(Debug, Clone, Copy)]
pub struct Progress {
    /// Every host that accepted the upload has it.
    pub accepted_all_done: bool,
    /// Every host discovered has the image.
    pub discovered_all_done: bool,
    /// Hosts (machines) discovered.
    pub discovered: usize,
    /// Hosts (machines) that have the image.
    pub done_ids: usize,
    /// Addresses that rejected the upload.
    pub rejected_ips: usize,
    /// Hosts (machines) that aborted the download.
    pub aborted_ids: usize,
    /// Addresses that aborted the download.
    pub aborted_ips: usize,
}

/// The number of hosts that must be done for an early success:
/// `ceil(discovered * fraction)` (given as `fract_hosts`), but at least
/// `early_hosts`, and at most the hosts discovered.
pub open spec fn hosts_needed(discovered: int, early_hosts: int, fract_hosts: int) -> int {
    let wanted = if early_hosts > fract_hosts {
        early_hosts
    } else {
        fract_hosts
    };
    if discovered < wanted {
        discovered
    } else {
        wanted
    }
}

/// Whether the upload is over, and how: `Some(Ok(()))` on success,
/// `Some(Err(_))` when some host refused or aborted it, `None` while it is
/// still going on. Once every accepting host has the image: after the early
/// timeout enough hosts must be done, otherwise every discovered host.
pub open spec fn check_spec(p: Progress, early_hosts: int, fract_hosts: int, early_timeout: bool)
    -> Option<Result<(), ErrorKind>>
{
    if !p.accepted_all_done {
        None
    } else if early_timeout {
        if p.done_ids >= hosts_needed(p.discovered as int, early_hosts, fract_hosts) {
            if p.rejected_ips > 0 || p.aborted_ids > 0 {
                Some(Err(ErrorKind::Rejected))
            } else {
                Some(Ok(()))
            }
        } else {
            None
        }
    } else if p.discovered_all_done {
        if p.rejected_ips > 0 || p.aborted_ips > 0 {
            Some(Err(ErrorKind::Rejected))
        } else {
            Some(Ok(()))
        }
    } else {
        None
    }
}

/// The number of hosts that must be done for an early success.
pub fn early_hosts_needed(discovered: usize, early_hosts: u32, fract_hosts: usize) -> (res: usize)
    ensures
        res == hosts_needed(discovered as int, early_hosts as int, fract_hosts as int),
{
    let eh = early_hosts as usize;
    let wanted = if eh > fract_hosts {
        eh
    } else {
        fract_hosts
    };
    if discovered < wanted {
        discovered
    } else {
        wanted
    }
}

/// Decides whether the upload is over (see `check_spec`); `fract_hosts` is
/// the fraction of discovered hosts configured for an early success, rounded up.
pub fn check(p: &Progress, early_hosts: u32, fract_hosts: usize, early_timeout: bool)
    -> (res: Option<Result<(), ErrorKind>>)
    ensures
        res == check_spec(*p, early_hosts as int, fract_hosts as int, early_timeout),
{
    if !p.accepted_all_done {
        return None;
    }
    if early_timeout {
        let hosts = early_hosts_needed(p.discovered, early_hosts, fract_hosts);
        if p.done_ids >= hosts {
            if p.rejected_ips > 0 || p.aborted_ids > 0 {
                return Some(Err(ErrorKind::Rejected));
            } else {
                return Some(Ok(()));
            }
        }
    } else if p.discovered_all_done {
        if p.rejected_ips > 0 || p.aborted_ips > 0 {
            return Some(Err(ErrorKind::Rejected));
        } else {
            return Some(Ok(()));
        }
    }
    None
}

/// What an upload does after it was polled.
#[derive(Debug, Clone, Copy, PartialEq, Eq)]
pub enum UploadStep {
    /// The upload is over, with this result.
    Finish(Result<(), ErrorKind>),
    /// The upload goes on.
    Wait,
}

/// The step an upload takes each time it is polled, given the number of
/// requests still pending, the number of answers counted, whether the
/// deadline has passed and what `check` says: with no request pending and
/// some answer counted, it ends when `check` decides; at the deadline it
/// ends anyway, as `check` decides or with `DeadlineReached`.
pub open spec fn step_spec(
    pending: usize,
    responses: u32,
    deadline: bool,
    outcome: Option<Result<(), ErrorKind>>,
) -> UploadStep {
    if pending == 0 && responses > 0 && outcome is Some {
        UploadStep::Finish(outcome->0)
    } else if deadline {
        match outcome {
            Some(r) => UploadStep::Finish(r),
            None => UploadStep::Finish(Err(ErrorKind::DeadlineReached)),
        }
    } else {
        UploadStep::Wait
    }
}

/// The step an upload takes when polled (see `step_spec`).
pub fn upload_step(
    pending: usize,
    responses: u32,
    deadline: bool,
    outcome: Option<Result<(), ErrorKind>>,
) -> (res: UploadStep)
    ensures
        res == step_spec(pending, responses, deadline, outcome),
{
    if pending == 0 && responses > 0 {
        if let Some(r) = outcome {
            return UploadStep::Finish(r);
        }
    }
    if deadline {
        match outcome {
            Some(r) => UploadStep::Finish(r),
            None => UploadStep::Finish(Err(ErrorKind::DeadlineReached)),
        }
    } else {
        UploadStep::Wait
    }
}

/// An upload is never decided while an address that accepted it does not
/// have the image yet.
pub proof fn lemma_check_waits_for_accepting(
    p: Progress,
    early_hosts: u32,
    fract_hosts: usize,
    early_timeout: bool,
)
    ensures
        check_spec(p, early_hosts as int, fract_hosts as int, early_timeout) is Some
            ==> p.accepted_all_done,
{
}

/// An upload succeeds only when no address rejected it.
pub proof fn lemma_check_success_unrejected(
    p: Progress,
    early_hosts: u32,
    fract_hosts: usize,
    early_timeout: bool,
)
    ensures
        check_spec(p, early_hosts as int, fract_hosts as int, early_timeout) == Some(
            Ok::<(), ErrorKind>(()),
        ) ==> p.rejected_ips == 0,
{
}

/// The number of machines needed for an early success is at most the number
/// discovered, and at least the configured number of early hosts unless fewer
/// were discovered.
pub proof fn lemma_hosts_needed_bounds(discovered: usize, early_hosts: u32, fract_hosts: usize)
    ensures
        hosts_needed(discovered as int, early_hosts as int, fract_hosts as int) <= discovered,
        hosts_needed(discovered as int, early_hosts as int, fract_hosts as int) >= if discovered
            < early_hosts {
            discovered as int
        } else {
            early_hosts as int
        },
{
}

} // verus!
