//! Bookkeeping of failed attempts (to connect to a host or to resolve a
//! name), and whether it is time to try again.
use vstd::prelude::*;
use vstd::std_specs::hash::obeys_key_model;
use std::collections::HashMap;
use std::fmt;
use std::hash::Hash;
use std::time::Instant;

verus! {

broadcast use vstd::std_specs::hash::group_hash_axioms;

#[verifier::external_type_specification]
#[verifier::external_body]
pub struct ExInstant(Instant);

/// Calls `Instant::now`. Nothing is stated of the result: it depends on the clock.
#[verifier::external_body]
fn instant_now() -> (res: Instant) {
    Instant::now()
}

/// Calls `Instant::elapsed` and `Duration::as_nanos`: the nanoseconds from
/// `last` to now (0 when `last` is later). Nothing is stated of the value:
/// it depends on the clock.
#[verifier::external_body]
fn nanos_since(last: &Instant) -> (res: u128) {
    last.elapsed().as_nanos()
}

/// Milliseconds to wait before retrying, per subsequent failure.
pub const RETRY_TIME: u64 = 1000;

/// The retry policy of `DefaultPolicy`.
#[derive(Debug)]
pub struct DefaultPolicy;

/// Failures recorded per key, with a retry policy.
#[derive(Debug)]
pub struct Failures<K: Eq + Hash, P> {
    items: HashMap<K, Failure>,
    policy: P,
}

/// What is known of the failures of one key.
#[derive(Debug)]
pub struct Failure {
    subsequent: u32,
    last: Instant,
}

impl Failure {
    /// The count of subsequent failures recorded.
    pub closed spec fn subsequent_count(&self) -> u32 {
        self.subsequent
    }

    /// The count of subsequent failures recorded.
    pub fn subsequent(&self) -> (res: u32)
        ensures
            res == self.subsequent_count(),
    {
        self.subsequent
    }
}

/// Decides whether a key with a failure record may be tried again.
pub trait Policy: fmt::Debug {
    /// The answer of the policy for a record when `elapsed` nanoseconds
    /// have passed since its last failure.
    spec fn allows(&self, entry: Failure, elapsed: u128) -> bool;

    /// Whether the key with record `entry` may be tried again now: the
    /// policy's answer for the time that has passed since its last failure.
    fn can_try(&self, entry: &Failure) -> (res: bool)
        ensures
            exists|elapsed: u128| #[trigger] self.allows(*entry, elapsed) == res,
    ;
}

/// `since` nanoseconds after the last failure, `subsequent` counted failures
/// allow a new try: more than `RETRY_TIME` milliseconds per counted failure
/// have passed.
pub open spec fn retry_due(since: int, subsequent: int) -> bool {
    since > RETRY_TIME * 1_000_000 * subsequent
}

/// Whether `since` nanoseconds after the last failure are enough to retry.
pub fn retry_allowed(since: u128, subsequent: u32) -> (res: bool)
    ensures
        res == retry_due(since as int, subsequent as int),
{
    let per_failure: u128 = (RETRY_TIME as u128) * 1_000_000;
    assert(per_failure * (subsequent as u128) <= 1_000_000_000 * 0xffff_ffffu128) by (nonlinear_arith)
        requires
            per_failure == 1_000_000_000,
            subsequent <= 0xffff_ffff,
    ;
    let wait: u128 = per_failure * (subsequent as u128);
    since > wait
}

impl Policy for DefaultPolicy {
    /// More than `RETRY_TIME` milliseconds per counted failure have passed.
    open spec fn allows(&self, entry: Failure, elapsed: u128) -> bool {
        retry_due(elapsed as int, entry.subsequent_count() as int)
    }

    fn can_try(&self, entry: &Failure) -> (res: bool) {
        let since = nanos_since(&entry.last);
        let res = retry_allowed(since, entry.subsequent);
        assert(self.allows(*entry, since) == res);
        res
    }
}

impl<K: Copy + Eq + Hash> Failures<K, DefaultPolicy> {
    /// An empty failure record with the default retry policy.
    pub fn new_default() -> (res: Failures<K, DefaultPolicy>)
        ensures
            res@ == Map::<K, Failure>::empty(),
            res.policy() == DefaultPolicy,
    {
        Failures { policy: DefaultPolicy, items: HashMap::new() }
    }
}

impl<K: Eq + Hash, P> Failures<K, P> {
    /// The retry policy.
    pub closed spec fn policy(&self) -> P {
        self.policy
    }
}

impl<K: Eq + Hash, P> View for Failures<K, P> {
    type V = Map<K, Failure>;

    closed spec fn view(&self) -> Map<K, Failure> {
        self.items@
    }
}

impl<K: Copy + Eq + Hash, P: Policy> Failures<K, P> {
    /// Records a failure of `name` at the current time. A key seen for the
    /// first time gets a record with no counted failures; the count of an
    /// existing record is kept as it is.
    pub fn add_failure(&mut self, name: K)
        ensures
            obeys_key_model::<K>() ==> {
                &&& final(self)@.dom() == old(self)@.dom().insert(name)
                &&& final(self)@[name].subsequent_count() == if old(self)@.contains_key(name) {
                    old(self)@[name].subsequent_count()
                } else {
                    0
                }
                &&& forall|k: K| k != name ==> #[trigger] final(self)@.get(k) == old(self)@.get(k)
            },
            final(self).policy() == old(self).policy(),
    {
        let subsequent = match self.items.get(&name) {
            Some(f) => f.subsequent,
            None => 0,
        };
        self.items.insert(name, Failure { subsequent, last: instant_now() });
    }

    /// Forgets the failures of `name`.
    pub fn reset(&mut self, name: K)
        ensures
            obeys_key_model::<K>() ==> final(self)@ == old(self)@.remove(name),
            final(self).policy() == old(self).policy(),
    {
        self.items.remove(&name);
    }

    /// Whether `name` may be tried: always when no failure is recorded for it,
    /// otherwise as the policy decides for its record, by the time passed
    /// since its last failure.
    pub fn can_try(&self, name: K) -> (res: bool)
        ensures
            obeys_key_model::<K>() && !self@.contains_key(name) ==> res,
            obeys_key_model::<K>() && self@.contains_key(name) ==> exists|elapsed: u128|
                #[trigger] self.policy().allows(self@[name], elapsed) == res,
    {
        match self.items.get(&name) {
            Some(f) => {
                let res = self.policy.can_try(f);
                proof {
                    let e = choose|e: u128| #[trigger] self.policy.allows(*f, e) == res;
                    if obeys_key_model::<K>() {
                        assert(self.policy().allows(self@[name], e) == res);
                    }
                }
                res
            },
            None => true,
        }
    }
}

} // verus!
