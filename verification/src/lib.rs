//! x86_64 hardware-abstraction layer: boot sequencing, interrupt management,
//! timer configuration, and the physical-memory self-test, with verified
//! contracts over an explicit model of the processor state.

use vstd::prelude::*;

pub mod api;
pub mod boot;
pub mod pmm;
pub mod timer;
pub mod vectors;

verus! {

/// Page geometry of the memory subsystem: fixed at compile time, read-only.
#[derive(Clone, Copy, Debug, PartialEq, Eq, Structural)]
pub struct PagingParams {
    pub page_size: u64,
    pub page_shift: u64,
    pub page_mask: u64,
}

/// The immutable instruction-set parameters shared with the memory
/// subsystem.
#[derive(Clone, Copy, Debug, PartialEq, Eq, Structural)]
pub struct IsaParams {
    pub paging: PagingParams,
}

/// The parameter record for this architecture: 4096-byte pages, and the
/// shift and mask that go with them.
pub fn x86_isa_params() -> (r: IsaParams)
    ensures
        r.paging.page_size == crate::pmm::PAGE_SIZE,
        r.paging.page_size == 1u64 << r.paging.page_shift,
        r.paging.page_mask == !((r.paging.page_size - 1) as u64),
{
    let p = IsaParams {
        paging: PagingParams { page_size: 0x1000, page_shift: 0xC, page_mask: !0xfffu64 },
    };
    proof {
        assert(0x1000u64 == 1u64 << 0xCu64) by (bit_vector);
        assert((0x1000u64 - 1) as u64 == 0xfffu64);
    }
    p
}

/// Errors surfaced by the architecture capability contract.
#[derive(Clone, Copy, Debug, PartialEq, Eq, Structural)]
pub enum ArchError {
    /// The diagnostic or serial transport cannot be acquired.
    ChannelUnavailable,
    /// A vector-handler registration named a vector outside the assignable range.
    InvalidVector,
    /// The operation is specified but not implemented; it fails loudly.
    NotImplemented,
}

} // verus!
