//! The interrupt-vector table: 256 handler slots, one per vector, guarded by
//! a spin lock so that additional processors may someday read it concurrently.
//!
//! A slot holds the id of the callable that services the vector, or
//! `NO_HANDLER` when the slot is unset.  Vectors 0 through 31 are reserved for
//! architecture exceptions and are filled only by the bootstrap path; device
//! handlers may be registered for vectors 32 through 255 alone.

use spin::mutex::spin::SpinMutex;
use spin::relax::Spin;
use vstd::prelude::*;

use crate::ArchError;

verus! {

/// Slot value documenting "no handler registered for this vector".
pub const NO_HANDLER: u64 = 0;

/// First vector a device handler may be registered for; everything below is
/// reserved for architecture exceptions.
pub const FIRST_ASSIGNABLE_VECTOR: u32 = 32;

/// Last vector the hardware can dispatch.
pub const LAST_VECTOR: u32 = 255;

/// Declares spin's busy-wait lock, `spin::mutex::spin::SpinMutex`, so that
/// the table it guards can stand in the library's fields; the value is
/// opaque, and what it holds is spoken of through `locked_slots`.
#[verifier::external_type_specification]
#[verifier::external_body]
#[verifier::reject_recursive_types(T)]
#[verifier::reject_recursive_types(R)]
pub struct ExSpinMutex<T: ?Sized, R>(SpinMutex<T, R>);

/// Declares spin's default relax strategy, `spin::relax::Spin`, the type
/// parameter its lock is instantiated with.
#[verifier::external_type_specification]
#[verifier::external_body]
pub struct ExSpin(Spin);

/// The handler ids held by the locked slot array.
pub uninterp spec fn locked_slots(m: SpinMutex<[u64; 256], Spin>) -> Seq<u64>;

/// Relies on spin's SpinMutex::new: the new lock holds exactly the data it
/// was constructed with.
#[verifier::external_body]
fn locked_table_new(fill: u64) -> (m: SpinMutex<[u64; 256], Spin>)
    ensures
        locked_slots(m) == Seq::new(256, |i: int| fill),
{
    SpinMutex::new([fill; 256])
}

/// Relies on spin's SpinMutex::lock: the guard gives exclusive access to the
/// slot array, so the store replaces one slot and leaves the others alone.
#[verifier::external_body]
fn locked_table_store(m: &mut SpinMutex<[u64; 256], Spin>, idx: u8, h: u64)
    ensures
        locked_slots(*final(m)) == locked_slots(*old(m)).update(idx as int, h),
{
    m.lock()[idx as usize] = h;
}

/// Relies on spin's SpinMutex::lock: the guard reads the slot array as it
/// stands.
#[verifier::external_body]
fn locked_table_read(m: &SpinMutex<[u64; 256], Spin>, idx: u8) -> (r: u64)
    ensures
        r == locked_slots(*m)[idx as int],
{
    m.lock()[idx as usize]
}

/// What dispatch of `vector` invokes, given the table contents `slots`.
pub open spec fn dispatched(slots: Seq<u64>, vector: int) -> Option<u64> {
    if slots[vector] == NO_HANDLER {
        None
    } else {
        Some(slots[vector])
    }
}

/// The interrupt-vector table singleton, created once during boot.
pub struct VectorTable {
    locked: SpinMutex<[u64; 256], Spin>,
}

impl VectorTable {
    /// The handler id registered for each vector; `NO_HANDLER` marks a free
    /// slot.
    pub closed spec fn slots(self) -> Seq<u64> {
        locked_slots(self.locked)
    }

    pub open spec fn wf(self) -> bool {
        self.slots().len() == 256
    }

    /// A table with every slot unset.
    pub fn new() -> (t: VectorTable)
        ensures
            t.wf(),
            forall|v: int| 0 <= v < 256 ==> t.slots()[v] == NO_HANDLER,
    {
        VectorTable { locked: locked_table_new(NO_HANDLER) }
    }

    /// Overwrite the slot of `vector`, reserved range included; the bootstrap
    /// exception path is its only caller outside this type.
    pub fn set_slot(&mut self, vector: u8, handler: u64)
        requires
            old(self).wf(),
        ensures
            final(self).wf(),
            final(self).slots() == old(self).slots().update(vector as int, handler),
    {
        locked_table_store(&mut self.locked, vector, handler);
    }

    /// The raw slot of `vector`.
    pub fn slot(&self, vector: u8) -> (r: u64)
        requires
            self.wf(),
        ensures
            r == self.slots()[vector as int],
    {
        locked_table_read(&self.locked, vector)
    }

    /// Register `handler` for `vector`.  Only vectors 32 through 255 are
    /// assignable; anything else is refused and leaves the table unchanged.
    pub fn register(&mut self, handler: u64, vector: u32) -> (r: Result<(), ArchError>)
        requires
            old(self).wf(),
            handler != NO_HANDLER,
        ensures
            final(self).wf(),
            FIRST_ASSIGNABLE_VECTOR <= vector <= LAST_VECTOR ==> r == Ok::<(), ArchError>(())
                && final(self).slots() == old(self).slots().update(vector as int, handler),
            !(FIRST_ASSIGNABLE_VECTOR <= vector <= LAST_VECTOR) ==> r == Err::<(), ArchError>(
                ArchError::InvalidVector,
            ) && final(self).slots() == old(self).slots(),
    {
        if vector < FIRST_ASSIGNABLE_VECTOR || vector > LAST_VECTOR {
            return Err(ArchError::InvalidVector);
        }
        self.set_slot(vector as u8, handler);
        Ok(())
    }

    /// Fill the reserved exception range: vector `v` of 0 through 31 gets the
    /// handler id `isr_base + v`.  Slots outside the range keep their value.
    pub fn register_exceptions(&mut self, isr_base: u64)
        requires
            old(self).wf(),
            1 <= isr_base <= u64::MAX - 31,
        ensures
            final(self).wf(),
            forall|v: int| 0 <= v < 32 ==> final(self).slots()[v] == isr_base + v,
            forall|v: int| 32 <= v < 256 ==> final(self).slots()[v] == old(self).slots()[v],
    {
        let mut v: u8 = 0;
        while v < 32
            invariant
                v <= 32,
                self.wf(),
                1 <= isr_base <= u64::MAX - 31,
                forall|j: int| 0 <= j < v ==> self.slots()[j] == isr_base + j,
                forall|j: int| v <= j < 256 ==> self.slots()[j] == old(self).slots()[j],
            decreases 32 - v,
        {
            self.set_slot(v, isr_base + v as u64);
            v = v + 1;
        }
    }

    /// The handler dispatch of `vector` would invoke, if one is registered.
    pub fn dispatch(&self, vector: u8) -> (r: Option<u64>)
        requires
            self.wf(),
        ensures
            r == dispatched(self.slots(), vector as int),
    {
        let h = self.slot(vector);
        if h == NO_HANDLER {
            None
        } else {
            Some(h)
        }
    }
}

/// A handler registered for an assignable vector is exactly what a subsequent
/// dispatch of that vector invokes.
pub proof fn lemma_registered_handler_dispatched(slots: Seq<u64>, vector: u32, handler: u64)
    requires
        slots.len() == 256,
        FIRST_ASSIGNABLE_VECTOR <= vector <= LAST_VECTOR,
        handler != NO_HANDLER,
    ensures
        dispatched(slots.update(vector as int, handler), vector as int) == Some(handler),
{
}

} // verus!
