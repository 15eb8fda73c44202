//! The boot state machine: the strictly ordered stages a processor passes
//! through between power-on and the point where the kernel core takes over.
//! There are no back-transitions; each stage is a precondition for the next.

use vstd::prelude::*;

verus! {

/// The stages of the boot sequence, in the order they are reached.
#[derive(Clone, Copy, Debug, PartialEq, Eq, Structural)]
pub enum BootStage {
    /// Nothing has run yet.
    PoweredOn,
    /// The display surface has been cleared.
    DisplayCleared,
    /// Descriptor tables are loaded and exception vectors registered: the
    /// bootstrap processor can safely take exceptions.
    BspReady,
    /// The platform firmware tables have been parsed.
    FirmwareParsed,
    /// The local interrupt controller has been constructed.
    ControllerConstructed,
    /// The interrupt subsystem is enabled.
    InterruptsEnabled,
    /// The hardware timer has been given its divisor/counter pair.
    TimerConfigured,
    /// The physical-memory self-test has run to completion.
    SelfTestComplete,
    /// The architecture instance may be handed to the kernel core.
    Ready,
}

/// Position of a stage in the boot order.
pub open spec fn stage_index(s: BootStage) -> int {
    match s {
        BootStage::PoweredOn => 0,
        BootStage::DisplayCleared => 1,
        BootStage::BspReady => 2,
        BootStage::FirmwareParsed => 3,
        BootStage::ControllerConstructed => 4,
        BootStage::InterruptsEnabled => 5,
        BootStage::TimerConfigured => 6,
        BootStage::SelfTestComplete => 7,
        BootStage::Ready => 8,
    }
}

/// The stages in boot order, as the orchestrator's transition log records
/// them.
pub open spec fn boot_order() -> Seq<BootStage> {
    seq![
        BootStage::PoweredOn,
        BootStage::DisplayCleared,
        BootStage::BspReady,
        BootStage::FirmwareParsed,
        BootStage::ControllerConstructed,
        BootStage::InterruptsEnabled,
        BootStage::TimerConfigured,
        BootStage::SelfTestComplete,
        BootStage::Ready,
    ]
}

/// The boot order visits each stage at its own index: the recorded transition
/// log is strictly ordered, so no stage is ever observed before one of its
/// preconditions.
pub proof fn lemma_boot_order_strictly_ordered()
    ensures
        boot_order().len() == 9,
        forall|i: int| 0 <= i < 9 ==> stage_index(#[trigger] boot_order()[i]) == i,
{
    assert forall|i: int| 0 <= i < 9 implies stage_index(#[trigger] boot_order()[i]) == i by {
        if i == 0 {
        } else if i == 1 {
        } else if i == 2 {
        } else if i == 3 {
        } else if i == 4 {
        } else if i == 5 {
        } else if i == 6 {
        } else if i == 7 {
        } else {
            assert(i == 8);
        }
    }
}

} // verus!
