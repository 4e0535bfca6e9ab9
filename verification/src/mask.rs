//! A 16-bit mask of flags, and its atomic counterpart shared between threads.
use vstd::prelude::*;
use atomic::Atomic;
use std::sync::atomic::Ordering;

verus! {

#[verifier::external_type_specification]
#[verifier::external_body]
#[verifier::reject_recursive_types(T)]
pub struct ExAtomic<T>(Atomic<T>);

/// Calls `atomic::Atomic::<u16>::new` with `v`, and keeps `v` as the
/// mask's view.
#[verifier::external_body]
fn atomic_mask_new(v: u16) -> (res: AtomicMask)
    ensures
        res@ == v,
{
    AtomicMask { cell: Atomic::new(v), bits: Ghost(v) }
}

/// Calls `atomic::Atomic::<u16>::load` with sequentially consistent ordering
/// on the mask's atomic. The atomic is private to the mask and nothing
/// stores into it after `Atomic::new` made it (no method of the mask
/// stores), so by the crate's documentation the load gives the value it was
/// made with, which the mask's view keeps.
#[verifier::external_body]
fn atomic_mask_load(m: &AtomicMask) -> (res: u16)
    ensures
        res == m@,
{
    m.cell.load(Ordering::SeqCst)
}

/// A set of 16 flags.
#[derive(Clone, Copy)]
pub struct Mask(u16);

/// A set of 16 flags that can be shared between threads.
pub struct AtomicMask {
    cell: Atomic<u16>,
    /// The flags the atomic was made with.
    bits: Ghost<u16>,
}

impl View for AtomicMask {
    type V = u16;

    closed spec fn view(&self) -> u16 {
        self.bits@
    }
}

impl View for Mask {
    type V = u16;

    closed spec fn view(&self) -> u16 {
        self.0
    }
}

impl Mask {
    /// The empty mask.
    pub fn new() -> (res: Mask)
        ensures
            res@ == 0,
    {
        Mask(0)
    }

    /// The flags as bits.
    pub fn bits(&self) -> (res: u16)
        ensures
            res == self@,
    {
        self.0
    }

    /// The mask with the given bits.
    pub fn from_bits(bits: u16) -> (res: Mask)
        ensures
            res@ == bits,
    {
        Mask(bits)
    }

    /// An atomic mask holding the same flags.
    pub fn to_atomic(self) -> (res: AtomicMask)
        ensures
            res@ == self@,
    {
        atomic_mask_new(self.0)
    }
}

impl AtomicMask {
    /// An atomic mask holding no flags.
    pub fn new() -> (res: AtomicMask)
        ensures
            res@ == 0,
    {
        atomic_mask_new(0)
    }

    /// The flags the mask holds.
    pub fn load(&self) -> (res: Mask)
        ensures
            res@ == self@,
    {
        Mask(atomic_mask_load(self))
    }

    /// A new atomic mask holding the same flags.
    pub fn clone_mask(&self) -> (res: AtomicMask)
        ensures
            res@ == self@,
    {
        atomic_mask_new(atomic_mask_load(self))
    }
}

impl Clone for AtomicMask {
    fn clone(&self) -> (res: AtomicMask)
        ensures
            res@ == self@,
    {
        self.clone_mask()
    }
}

} // verus!
