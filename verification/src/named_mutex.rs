//! A mutex that carries a name, so that a poisoned lock can be reported by it.
use vstd::prelude::*;
use std::ops::{Deref, DerefMut};
use std::sync::{Mutex as StdMutex, MutexGuard as StdGuard, TryLockError};

verus! {

#[verifier::external_type_specification]
#[verifier::external_body]
#[verifier::reject_recursive_types(T)]
pub struct ExStdMutex<T: ?Sized>(StdMutex<T>);

#[verifier::external_type_specification]
#[verifier::external_body]
#[verifier::reject_recursive_types(T)]
pub struct ExStdGuard<'a, T: ?Sized + 'a>(StdGuard<'a, T>);

/// Calls `std::sync::Mutex::new`. The contents are not visible to the
/// library, so nothing is stated of the result.
#[verifier::external_body]
fn std_mutex_new<T>(value: T) -> (res: StdMutex<T>) {
    StdMutex::new(value)
}

/// What an attempt to lock a mutex gave.
#[verifier::reject_recursive_types(T)]
enum Attempt<'a, T: 'static> {
    /// The mutex was free and is now held by the guard.
    Locked(MutexGuard<'a, T>),
    /// The mutex is held (by another thread, or by this one).
    Busy,
    /// A thread panicked while holding the mutex.
    Poisoned,
}

/// Calls `std::sync::Mutex::try_lock`, which, as std documents, never
/// blocks: the guard when the mutex was free (it keeps the name),
/// `WouldBlock` when it is held, `Poisoned` when a thread panicked while
/// holding it. While the guard is held no other thread reaches the value
/// behind the lock, so the guard's view stands for that value; which value
/// it is, is not stated.
#[verifier::external_body]
fn std_mutex_try_lock<'a, T>(mutex: &'a StdMutex<T>, name: &'static str) -> (res: Attempt<'a, T>)
    ensures
        res matches Attempt::Locked(g) ==> g.spec_name() == name,
{
    match mutex.try_lock() {
        Ok(guard) => Attempt::Locked(
            MutexGuard { guard, name, value: Ghost(vstd::pervasive::arbitrary()) },
        ),
        Err(TryLockError::WouldBlock) => Attempt::Busy,
        Err(TryLockError::Poisoned(_)) => Attempt::Poisoned,
    }
}

/// Calls `Deref::deref` of the guard's `std::sync::MutexGuard`: the value
/// behind the lock, which the guard's view stands for.
#[verifier::external_body]
fn std_guard_deref<'a, 'b, T>(guard: &'b MutexGuard<'a, T>) -> (res: &'b T)
    ensures
        *res == guard@,
{
    &*guard.guard
}

/// Calls `DerefMut::deref_mut` of the guard's `std::sync::MutexGuard`: a
/// mutable borrow of the value behind the lock; the value left there when
/// the borrow ends is what the guard's view stands for afterwards.
#[verifier::external_body]
fn std_guard_deref_mut<'a, 'b, T>(guard: &'b mut MutexGuard<'a, T>) -> (res: &'b mut T)
    ensures
        *res == old(guard)@,
        final(guard)@ == *final(res),
        final(guard).spec_name() == old(guard).spec_name(),
{
    &mut *guard.guard
}

/// Why a mutex could not be locked; each carries the mutex's name.
#[derive(Debug, Clone, Copy, PartialEq, Eq)]
pub enum LockError {
    /// The mutex is held, by another thread or by this one.
    Busy(&'static str),
    /// A thread panicked while holding the mutex.
    Poisoned(&'static str),
}

/// A mutex with a name.
#[derive(Debug)]
#[verifier::reject_recursive_types(T)]
pub struct Mutex<T> {
    mutex: StdMutex<T>,
    name: &'static str,
}

/// The guard of a locked `Mutex`, which keeps the mutex's name.
#[verifier::reject_recursive_types(T)]
pub struct MutexGuard<'a, T: 'static> {
    guard: StdGuard<'a, T>,
    name: &'static str,
    /// The value behind the lock, while the guard holds it.
    value: Ghost<T>,
}

impl<'a, T: 'static> View for MutexGuard<'a, T> {
    type V = T;

    /// The value behind the lock.
    closed spec fn view(&self) -> T {
        self.value@
    }
}

impl<T: 'static> Mutex<T> {
    /// The mutex's name.
    pub closed spec fn spec_name(&self) -> &'static str {
        self.name
    }

    /// A mutex holding `value`, named `name`.
    pub fn new(value: T, name: &'static str) -> (res: Mutex<T>)
        ensures
            res.spec_name() == name,
    {
        Mutex { mutex: std_mutex_new(value), name: name }
    }

    /// The mutex's name.
    pub fn name(&self) -> (res: &'static str)
        ensures
            res == self.spec_name(),
    {
        self.name
    }

    /// Locks the mutex when it is free. It never waits: a mutex that is
    /// held is reported as busy (a lock by the thread holding it included,
    /// which would otherwise never return), and a poisoned one as poisoned,
    /// each by the mutex's name; waiting and trying again is the caller's
    /// choice.
    pub fn lock(&self) -> (res: Result<MutexGuard<'_, T>, LockError>)
        ensures
            match res {
                Ok(g) => g.spec_name() == self.spec_name(),
                Err(LockError::Busy(n)) => n == self.spec_name(),
                Err(LockError::Poisoned(n)) => n == self.spec_name(),
            },
    {
        match std_mutex_try_lock(&self.mutex, self.name) {
            Attempt::Locked(g) => Ok(g),
            Attempt::Busy => Err(LockError::Busy(self.name)),
            Attempt::Poisoned => Err(LockError::Poisoned(self.name)),
        }
    }
}

impl<'a, T: 'static> MutexGuard<'a, T> {
    /// The name of the mutex this guard locks.
    pub closed spec fn spec_name(&self) -> &'static str {
        self.name
    }
}

impl<'a, T: 'static> DerefMut for MutexGuard<'a, T> {
    fn deref_mut(&mut self) -> (res: &mut T)
        ensures
            *res == old(self)@,
            final(self)@ == *final(res),
    {
        std_guard_deref_mut(self)
    }
}

impl<'a, T: 'static> Deref for MutexGuard<'a, T> {
    type Target = T;

    fn deref(&self) -> (res: &T)
        ensures
            *res == self@,
    {
        std_guard_deref(self)
    }
}

} // verus!
