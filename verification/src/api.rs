//! The architecture capability contract: the one instance the kernel core
//! drives after boot, and the orchestrator that builds it.
//!
//! The instance owns the parsed firmware information, the local interrupt
//! controller state, the interrupt-vector table and the saved
//! interrupt-flag stack.  Its well-formedness invariant pins the boot
//! ordering: the interrupt flag is never on before the stage at which the
//! descriptor tables were loaded and the controller enabled.

use vstd::arithmetic::div_mod::lemma_mod_multiples_basic;
use vstd::prelude::*;

use crate::boot::{boot_order, stage_index, BootStage};
use crate::pmm::{
    frame_of, is_lowest_free, lemma_lowest_free_frame_unique, lemma_run_free_transfers,
    AllocError, FrameAllocator, PAGE_SIZE,
};
use crate::timer::{chosen_counter, chosen_divisor, derive_timer_config};
use crate::vectors::{
    dispatched, VectorTable, FIRST_ASSIGNABLE_VECTOR, LAST_VECTOR, NO_HANDLER,
};
use crate::ArchError;

verus! {

/// Hardware timer operating mode.
#[derive(Clone, Copy, Debug, PartialEq, Eq, Structural)]
pub enum HwTimerMode {
    Periodic,
    OneShot,
}

/// The divisor/counter/mode triple applied to the controller's timer.
#[derive(Clone, Copy, Debug, PartialEq, Eq, Structural)]
pub struct TimerConfig {
    pub mode: HwTimerMode,
    pub counter: u32,
    pub divisor: u8,
}

/// Firmware information parsed once from the platform tables; immutable
/// after construction.
#[derive(Clone, Copy, Debug, PartialEq, Eq, Structural)]
pub struct FirmwareInfo {
    /// Raw tick rate (ticks per second) of the controller timer, derived
    /// from the parsed topology data.
    pub timer_tps: u64,
    /// Whether the platform exposes the line-oriented serial transport.
    pub serial_available: bool,
}

/// The local interrupt controller state this layer owns.
pub struct InterruptController {
    /// Raw timer tick rate.
    pub tps: u64,
    /// Whether the controller has been enabled against the loaded table.
    pub enabled: bool,
    /// The timer programming applied, if any.
    pub timer: Option<TimerConfig>,
    /// Whether the configured timer has been armed.
    pub timer_running: bool,
    /// How many end-of-interrupt signals have been sent.
    pub eoi_signals: u64,
}

/// A line-oriented transport channel, identified by its port.
#[derive(Clone, Copy, Debug, PartialEq, Eq, Structural)]
pub struct SerialChannel {
    pub port: u16,
}

/// Port of the first serial channel, the boot diagnostic transport.
pub const COM1_PORT: u16 = 0x3F8;

/// What the platform hands the boot orchestrator: parsed firmware
/// information and processor facts queried once.
pub struct Platform {
    pub firmware: FirmwareInfo,
    /// Significant physical address bits the processor supports.
    pub paddr_width: u8,
    /// Significant virtual address bits the processor supports.
    pub vaddr_width: u8,
    /// The processor vendor identification bytes, diagnostic only.
    pub vendor: Vec<u8>,
    /// Handler id of the first architecture exception routine; the 32
    /// exception vectors get consecutive ids from here.
    pub exception_isr_base: u64,
    /// Tick rate requested for the boot timer configuration.
    pub boot_timer_rate: u32,
}

/// Outcomes of the memory self-test, step by step, each carrying the
/// returned physical base address or the allocator error kind.
pub struct SelfTestReport {
    pub paddr_width: u8,
    pub vaddr_width: u8,
    pub first: Result<u64, AllocError>,
    pub second: Result<u64, AllocError>,
    pub first_freed: Option<Result<(), AllocError>>,
    pub third: Result<u64, AllocError>,
    pub second_freed: Option<Result<(), AllocError>>,
    pub third_freed: Option<Result<(), AllocError>>,
    pub contiguous: Result<u64, AllocError>,
    pub contiguous_freed: Option<Result<(), AllocError>>,
}

/// What the boot orchestrator reports back: the ordered stage transition
/// log, the vendor identification, and the self-test outcomes.
pub struct BootReport {
    pub stages: Vec<BootStage>,
    pub vendor: Vec<u8>,
    pub self_test: SelfTestReport,
}

/// The architecture instance for the bootstrap processor.
pub struct Api {
    pub firmware: FirmwareInfo,
    pub controller: InterruptController,
    pub vectors: VectorTable,
    /// Saved interrupt-flag snapshots, innermost last: disable pushes the
    /// flag it observed, restore pops and re-applies it.
    pub irq_flags: Vec<bool>,
    /// The modeled hardware interrupt-enable flag.
    pub interrupts_on: bool,
    pub stage: BootStage,
    pub paddr_width: u8,
    pub vaddr_width: u8,
}

impl Api {
    /// The internal consistency the instance keeps across its whole life:
    /// the vector table is intact, the controller carries the firmware's
    /// tick rate, and interrupt enablement never gets ahead of the boot
    /// sequence.
    pub open spec fn wf(self) -> bool {
        &&& self.vectors.wf()
        &&& self.controller.tps == self.firmware.timer_tps
        &&& (self.interrupts_on ==> stage_index(self.stage) >= stage_index(
            BootStage::InterruptsEnabled,
        ))
        &&& (stage_index(self.stage) >= stage_index(BootStage::InterruptsEnabled)
            ==> self.controller.enabled)
        &&& (self.controller.enabled ==> forall|v: int|
            0 <= v < 32 ==> #[trigger] self.vectors.slots()[v] != NO_HANDLER)
        &&& (stage_index(self.stage) >= stage_index(BootStage::TimerConfigured)
            ==> self.controller.timer is Some)
        &&& (forall|i: int|
            0 <= i < self.irq_flags@.len() && #[trigger] self.irq_flags@[i] ==> stage_index(
                self.stage,
            ) >= stage_index(BootStage::InterruptsEnabled))
    }

    /// The number of significant physical address bits, queried once at
    /// boot and cached in the instance.
    pub fn get_paddr_width(&self) -> (r: u8)
        ensures
            r == self.paddr_width,
    {
        self.paddr_width
    }

    /// The number of significant virtual address bits, queried once at
    /// boot and cached in the instance.
    pub fn get_vaddr_width(&self) -> (r: u8)
        ensures
            r == self.vaddr_width,
    {
        self.vaddr_width
    }

    /// A handle to the boot diagnostic transport; fails exactly when the
    /// platform has no serial channel.
    pub fn get_logger(&self) -> (r: Result<SerialChannel, ArchError>)
        ensures
            self.firmware.serial_available ==> r == Ok::<SerialChannel, ArchError>(
                SerialChannel { port: COM1_PORT },
            ),
            !self.firmware.serial_available ==> r == Err::<SerialChannel, ArchError>(
                ArchError::ChannelUnavailable,
            ),
    {
        if self.firmware.serial_available {
            Ok(SerialChannel { port: COM1_PORT })
        } else {
            Err(ArchError::ChannelUnavailable)
        }
    }

    /// A handle to the serial channel; fails exactly when the platform has
    /// no serial channel.
    pub fn get_serial(&self) -> (r: Result<SerialChannel, ArchError>)
        ensures
            self.firmware.serial_available ==> r == Ok::<SerialChannel, ArchError>(
                SerialChannel { port: COM1_PORT },
            ),
            !self.firmware.serial_available ==> r == Err::<SerialChannel, ArchError>(
                ArchError::ChannelUnavailable,
            ),
    {
        self.get_logger()
    }

    /// Bring-up hook for additional processors: specified but not yet
    /// functional, so it fails loudly instead of silently succeeding.
    pub fn init_ap(&mut self) -> (r: Result<(), ArchError>)
        ensures
            r == Err::<(), ArchError>(ArchError::NotImplemented),
            *final(self) == *old(self),
    {
        Err(ArchError::NotImplemented)
    }

    /// Whether the modeled hardware interrupt-enable flag is set.
    pub fn interrupts_enabled(&self) -> (r: bool)
        ensures
            r == self.interrupts_on,
    {
        self.interrupts_on
    }

    /// Mask interrupts, saving the flag as it was: one entry deeper on the
    /// save stack, flag off.
    pub fn disable_interrupts(&mut self)
        requires
            old(self).wf(),
        ensures
            final(self).wf(),
            final(self).interrupts_on == false,
            final(self).irq_flags@ == old(self).irq_flags@.push(old(self).interrupts_on),
            final(self).firmware == old(self).firmware,
            final(self).controller == old(self).controller,
            final(self).vectors == old(self).vectors,
            final(self).stage == old(self).stage,
            final(self).paddr_width == old(self).paddr_width,
            final(self).vaddr_width == old(self).vaddr_width,
    {
        let was_on = self.interrupts_on;
        self.irq_flags.push(was_on);
        self.interrupts_on = false;
    }

    /// Re-apply the interrupt flag saved by the matching disable: the top
    /// entry leaves the save stack and becomes the flag.
    pub fn restore_interrupts(&mut self)
        requires
            old(self).wf(),
            old(self).irq_flags@.len() > 0,
        ensures
            final(self).wf(),
            final(self).interrupts_on == old(self).irq_flags@.last(),
            final(self).irq_flags@ == old(self).irq_flags@.drop_last(),
            final(self).firmware == old(self).firmware,
            final(self).controller == old(self).controller,
            final(self).vectors == old(self).vectors,
            final(self).stage == old(self).stage,
            final(self).paddr_width == old(self).paddr_width,
            final(self).vaddr_width == old(self).vaddr_width,
    {
        let saved = self.irq_flags.pop().unwrap();
        self.interrupts_on = saved;
    }

    /// Enable the interrupt subsystem against the already-loaded table:
    /// the controller comes up and the interrupt flag goes on.
    pub fn init_interrupts(&mut self)
        requires
            old(self).wf(),
            old(self).stage == BootStage::ControllerConstructed,
            forall|v: int| 0 <= v < 32 ==> #[trigger] old(self).vectors.slots()[v] != NO_HANDLER,
        ensures
            final(self).wf(),
            final(self).stage == BootStage::InterruptsEnabled,
            final(self).interrupts_on,
            final(self).controller.enabled,
            final(self).controller.tps == old(self).controller.tps,
            final(self).controller.timer == old(self).controller.timer,
            final(self).controller.timer_running == old(self).controller.timer_running,
            final(self).controller.eoi_signals == old(self).controller.eoi_signals,
            final(self).firmware == old(self).firmware,
            final(self).vectors == old(self).vectors,
            final(self).irq_flags == old(self).irq_flags,
            final(self).paddr_width == old(self).paddr_width,
            final(self).vaddr_width == old(self).vaddr_width,
    {
        self.controller.enabled = true;
        self.interrupts_on = true;
        self.stage = BootStage::InterruptsEnabled;
    }

    /// Register `handler` for `vector`; vectors outside 32 through 255 are
    /// refused with `InvalidVector` and the table is left unchanged.
    pub fn set_interrupt_handler(&mut self, handler: u64, vector: u32) -> (r: Result<
        (),
        ArchError,
    >)
        requires
            old(self).wf(),
            handler != NO_HANDLER,
        ensures
            final(self).wf(),
            FIRST_ASSIGNABLE_VECTOR <= vector <= LAST_VECTOR ==> r == Ok::<(), ArchError>(())
                && final(self).vectors.slots() == old(self).vectors.slots().update(
                vector as int,
                handler,
            ),
            !(FIRST_ASSIGNABLE_VECTOR <= vector <= LAST_VECTOR) ==> r == Err::<(), ArchError>(
                ArchError::InvalidVector,
            ) && final(self).vectors.slots() == old(self).vectors.slots(),
            final(self).firmware == old(self).firmware,
            final(self).controller == old(self).controller,
            final(self).irq_flags == old(self).irq_flags,
            final(self).interrupts_on == old(self).interrupts_on,
            final(self).stage == old(self).stage,
            final(self).paddr_width == old(self).paddr_width,
            final(self).vaddr_width == old(self).vaddr_width,
    {
        let r = self.vectors.register(handler, vector);
        proof {
            if FIRST_ASSIGNABLE_VECTOR <= vector <= LAST_VECTOR {
                assert forall|v: int| 0 <= v < 32 implies #[trigger] final(self).vectors.slots()[v]
                    == old(self).vectors.slots()[v] by {}
            }
        }
        r
    }

    /// The handler a dispatch of `vector` would invoke, if one is
    /// registered.
    pub fn handler_for(&self, vector: u8) -> (r: Option<u64>)
        requires
            self.wf(),
        ensures
            r == dispatched(self.vectors.slots(), vector as int),
    {
        self.vectors.dispatch(vector)
    }

    /// Tell the controller the current interrupt has been serviced.
    pub fn end_of_interrupt(&mut self)
        requires
            old(self).wf(),
            old(self).controller.eoi_signals < u64::MAX,
        ensures
            final(self).wf(),
            final(self).controller.eoi_signals == old(self).controller.eoi_signals + 1,
            final(self).controller.tps == old(self).controller.tps,
            final(self).controller.enabled == old(self).controller.enabled,
            final(self).controller.timer == old(self).controller.timer,
            final(self).controller.timer_running == old(self).controller.timer_running,
            final(self).firmware == old(self).firmware,
            final(self).vectors == old(self).vectors,
            final(self).irq_flags == old(self).irq_flags,
            final(self).interrupts_on == old(self).interrupts_on,
            final(self).stage == old(self).stage,
            final(self).paddr_width == old(self).paddr_width,
            final(self).vaddr_width == old(self).vaddr_width,
    {
        self.controller.eoi_signals = self.controller.eoi_signals + 1;
    }

    /// Derive and apply the divisor/counter pair for a requested rate of
    /// `tps` ticks per second; the controller must already exist.
    pub fn setup_isa_timer(&mut self, tps: u32, mode: HwTimerMode, _reserved: u16)
        requires
            old(self).wf(),
            1 <= tps,
            stage_index(old(self).stage) >= stage_index(BootStage::ControllerConstructed),
        ensures
            final(self).wf(),
            ({
                let c = final(self).controller.timer;
                &&& c matches Some(t)
                &&& t.mode == mode
                &&& t.divisor as int == chosen_divisor(old(self).controller.tps, tps)
                &&& t.counter as int == chosen_counter(old(self).controller.tps, tps)
                    % 0x1_0000_0000
            }),
            final(self).controller.tps == old(self).controller.tps,
            final(self).controller.enabled == old(self).controller.enabled,
            final(self).controller.timer_running == old(self).controller.timer_running,
            final(self).controller.eoi_signals == old(self).controller.eoi_signals,
            final(self).firmware == old(self).firmware,
            final(self).vectors == old(self).vectors,
            final(self).irq_flags == old(self).irq_flags,
            final(self).interrupts_on == old(self).interrupts_on,
            final(self).stage == old(self).stage,
            final(self).paddr_width == old(self).paddr_width,
            final(self).vaddr_width == old(self).vaddr_width,
    {
        let (divisor, counter) = derive_timer_config(self.controller.tps, tps);
        self.controller.timer = Some(TimerConfig { mode, counter, divisor });
    }

    /// Arm the configured timer; meaningful only once the instance is
    /// ready.
    pub fn start_isa_timers(&mut self)
        requires
            old(self).wf(),
            old(self).stage == BootStage::Ready,
            old(self).controller.timer is Some,
        ensures
            final(self).wf(),
            final(self).controller.timer_running,
            final(self).controller.tps == old(self).controller.tps,
            final(self).controller.enabled == old(self).controller.enabled,
            final(self).controller.timer == old(self).controller.timer,
            final(self).controller.eoi_signals == old(self).controller.eoi_signals,
            final(self).firmware == old(self).firmware,
            final(self).vectors == old(self).vectors,
            final(self).irq_flags == old(self).irq_flags,
            final(self).interrupts_on == old(self).interrupts_on,
            final(self).stage == old(self).stage,
            final(self).paddr_width == old(self).paddr_width,
            final(self).vaddr_width == old(self).vaddr_width,
    {
        self.controller.timer_running = true;
    }

    /// Pausing the timer is specified but not implemented; it fails loudly
    /// instead of silently doing nothing.
    pub fn pause_isa_timers(&self) -> (r: Result<(), ArchError>)
        ensures
            r == Err::<(), ArchError>(ArchError::NotImplemented),
    {
        Err(ArchError::NotImplemented)
    }

    /// Exercise the physical-frame allocator: single allocations and
    /// deallocations in an interleaved order, then an aligned contiguous
    /// run, reporting every outcome.  Failures are reported, never fatal;
    /// the test always runs to completion.  On the error-free path the
    /// allocator is handed back exactly as it was, the second frame differs
    /// from the first while both are held, and the frame freed with nothing
    /// in between is the very frame handed out next.
    pub fn pmm_self_test(&self, frames: &mut FrameAllocator) -> (st: SelfTestReport)
        requires
            self.wf(),
            old(frames).wf(),
        ensures
            final(frames).wf(),
            final(frames).total_frames() == old(frames).total_frames(),
            st.paddr_width == self.paddr_width,
            st.vaddr_width == self.vaddr_width,
            // whatever happened, every frame the test took was handed back
            forall|f: int|
                #![trigger final(frames).is_allocated(f)]
                final(frames).is_allocated(f) == old(frames).is_allocated(f),
            // a deallocation is attempted exactly for each allocation that
            // succeeded, and always finds the run it returns
            st.first is Ok <==> st.first_freed is Some,
            st.second is Ok <==> st.second_freed is Some,
            st.third is Ok <==> st.third_freed is Some,
            st.contiguous is Ok <==> st.contiguous_freed is Some,
            st.first is Ok ==> st.first_freed == Some(Ok::<(), AllocError>(())),
            st.second is Ok ==> st.second_freed == Some(Ok::<(), AllocError>(())),
            st.third is Ok ==> st.third_freed == Some(Ok::<(), AllocError>(())),
            st.contiguous is Ok ==> st.contiguous_freed == Some(Ok::<(), AllocError>(())),
            // the first allocation succeeds exactly when a frame is free,
            // and returns the lowest free frame's address
            st.first is Ok <==> old(frames).has_free_frame(),
            st.first matches Ok(a) ==> a as int == frame_of(a) * PAGE_SIZE as int
                && is_lowest_free(*old(frames), frame_of(a)),
            // the second succeeds exactly when another frame is free beside
            // the first, and returns the next-lowest frame
            st.second is Ok ==> st.first is Ok,
            st.first matches Ok(a1) ==> (st.second is Ok <==> exists|f: int|
                #![trigger old(frames).is_allocated(f)]
                0 <= f < old(frames).total_frames() && !old(frames).is_allocated(f) && f
                    != frame_of(a1)),
            st.first matches Ok(a1) ==> st.second matches Ok(a2) ==> {
                &&& a2 != a1
                &&& a2 as int == frame_of(a2) * PAGE_SIZE as int
                &&& !old(frames).is_allocated(frame_of(a2))
                &&& frame_of(a2) < old(frames).total_frames()
                &&& forall|g: int|
                    0 <= g < frame_of(a2) ==> old(frames).is_allocated(g) || g == frame_of(a1)
            },
            // the frame freed with nothing held in between is the very frame
            // handed out next
            st.third is Ok <==> st.first is Ok,
            st.first is Ok ==> st.third == st.first,
            // the contiguous run is owed exactly when an aligned free run
            // exists; its base is aligned and overlaps nothing allocated
            st.contiguous is Ok <==> old(frames).has_aligned_free_run(256, 64),
            st.contiguous matches Ok(a) ==> {
                &&& a as int == frame_of(a) * PAGE_SIZE as int
                &&& frame_of(a) % 64 == 0
                &&& a as int % (64 * PAGE_SIZE as int) == 0
                &&& 0 <= frame_of(a) && frame_of(a) + 256 <= old(frames).total_frames()
                &&& old(frames).run_free(frame_of(a), 256)
            },
    {
        let ghost s0 = *frames;
        let first = frames.allocate();
        let ghost s1 = *frames;
        let second = frames.allocate();
        let ghost s2 = *frames;
        let first_freed = match first {
            Ok(a) => {
                proof {
                    lemma_frame_base_address(a);
                }
                Some(frames.deallocate(a))
            },
            Err(_) => None,
        };
        let ghost s3 = *frames;
        let third = frames.allocate();
        let ghost s4 = *frames;
        let second_freed = match second {
            Ok(a) => {
                proof {
                    lemma_frame_base_address(a);
                }
                Some(frames.deallocate(a))
            },
            Err(_) => None,
        };
        let ghost s5 = *frames;
        let third_freed = match third {
            Ok(a) => {
                proof {
                    lemma_frame_base_address(a);
                }
                Some(frames.deallocate(a))
            },
            Err(_) => None,
        };
        let ghost s6 = *frames;
        let contiguous = frames.allocate_contiguous(256, 64);
        let ghost s7 = *frames;
        let contiguous_freed = match contiguous {
            Ok(a) => {
                proof {
                    lemma_frame_base_address(a);
                }
                Some(frames.deallocate(a))
            },
            Err(_) => None,
        };
        proof {
            let fr1 = frame_of(first->Ok_0);
            let fr2 = frame_of(second->Ok_0);
            let fr3 = frame_of(third->Ok_0);
            let frc = frame_of(contiguous->Ok_0);
            if first is Err {
                // every frame was taken, and no later step can change that
                assert(s1 == s0);
                if second is Ok {
                    assert(!s1.is_allocated(fr2));
                    assert(s0.is_allocated(fr2));
                }
                assert(s2 == s1 && s3 == s2);
                if third is Ok {
                    assert(!s3.is_allocated(fr3));
                    assert(s0.is_allocated(fr3));
                }
                assert(s4 == s3 && s5 == s4 && s6 == s5);
                assert(forall|f: int|
                    #![trigger s6.is_allocated(f)]
                    s6.is_allocated(f) == s0.is_allocated(f));
            }
            if first is Ok && second is Ok {
                // the second frame differs from the first while both are held
                assert(s1.is_allocated(fr1));
                assert(!s1.is_allocated(fr2));
                assert(fr1 != fr2);
                assert(second->Ok_0 != first->Ok_0);
            }
            if first is Ok {
                // the first deallocation found its run whatever the second
                // attempt did
                if !(second is Ok) {
                    assert(s2 == s1);
                }
                assert(s2.has_base(fr1));
                assert(s2.run_len(fr1) == 1);
                assert(first_freed == Some(Ok::<(), AllocError>(())));
                // releasing the first frame leaves the map of the start,
                // plus at most the second frame
                if second is Ok {
                    assert(forall|f: int|
                        #![trigger s3.is_allocated(f)]
                        s3.is_allocated(f) == (s0.is_allocated(f) || f == fr2));
                } else {
                    assert(forall|f: int|
                        #![trigger s3.is_allocated(f)]
                        s3.is_allocated(f) == s0.is_allocated(f));
                }
                // the first frame is free again, so the third allocation is
                // owed, and it returns the lowest free frame: the first
                assert(!s3.is_allocated(fr1));
                if third is Err {
                    assert(s3.is_allocated(fr1));
                }
                assert(third is Ok);
                assert forall|g: int| 0 <= g < fr1 implies s3.is_allocated(g) by {
                    assert(s0.is_allocated(g));
                }
                lemma_lowest_free_frame_unique(s3, s3, fr1, fr3);
                assert(fr3 == fr1);
                assert(third->Ok_0 == first->Ok_0);
            }
            if second is Ok {
                // the second run survives the interleaved operations
                assert(first is Ok);
                assert(s3.has_base(fr2));
                assert(s3.run_len(fr2) == 1);
                assert(s3.is_allocated(fr2));
                if third is Ok {
                    assert(!s3.is_allocated(fr3));
                    assert(fr3 != fr2);
                    assert(s4.has_base(fr2));
                    assert(s4.run_len(fr2) == 1);
                } else {
                    assert(s4 == s3);
                }
                assert(second_freed == Some(Ok::<(), AllocError>(())));
            }
            if third is Ok {
                // and the third run survives the second's release
                assert(s4.has_base(fr3));
                assert(s4.run_len(fr3) == 1);
                if second is Ok {
                    assert(fr3 != fr2);
                    assert(s5.has_base(fr3));
                    assert(s5.run_len(fr3) == 1);
                } else {
                    assert(s5 == s4);
                }
                assert(third_freed == Some(Ok::<(), AllocError>(())));
            }
            if first is Ok {
                // the single-frame phase is a complete round trip
                if second is Ok {
                    assert(forall|f: int|
                        #![trigger s6.is_allocated(f)]
                        s6.is_allocated(f) == s0.is_allocated(f));
                } else {
                    assert(s5 == s4);
                    assert(forall|f: int|
                        #![trigger s4.is_allocated(f)]
                        s4.is_allocated(f) == (s0.is_allocated(f) || f == fr1));
                    assert(forall|f: int|
                        #![trigger s6.is_allocated(f)]
                        s6.is_allocated(f) == s0.is_allocated(f));
                }
            }
            assert(forall|f: int|
                #![trigger s6.is_allocated(f)]
                s6.is_allocated(f) == s0.is_allocated(f));
            // the contiguous step: owed exactly when an aligned run is
            // free, aligned when it comes, and handed back whole
            if contiguous is Ok {
                assert(s7.has_base(frc));
                assert(s7.run_len(frc) == 256);
                assert(contiguous_freed == Some(Ok::<(), AllocError>(())));
                lemma_run_free_transfers(s6, s0, frc, 256);
                assert(s0.run_free(frc, 256));
                assert(s0.has_aligned_free_run(256, 64));
                assert(forall|f: int|
                    #![trigger final(frames).is_allocated(f)]
                    final(frames).is_allocated(f) == s0.is_allocated(f));
            } else {
                assert(s7 == s6);
                if s0.has_aligned_free_run(256, 64) {
                    let b = choose|b: int|
                        #![trigger s0.run_free(b, 256)]
                        0 <= b && b % 64 == 0 && b + 256 <= s0.total_frames() && s0.run_free(
                            b,
                            256,
                        );
                    lemma_run_free_transfers(s6, s0, b, 256);
                    assert(!s6.run_free(b, 256));
                }
                assert(!s0.has_aligned_free_run(256, 64));
                assert(forall|f: int|
                    #![trigger final(frames).is_allocated(f)]
                    final(frames).is_allocated(f) == s0.is_allocated(f));
            }
        }
        SelfTestReport {
            paddr_width: self.get_paddr_width(),
            vaddr_width: self.get_vaddr_width(),
            first,
            second,
            first_freed,
            third,
            second_freed,
            third_freed,
            contiguous,
            contiguous_freed,
        }
    }
}

impl Api {
    /// Bootstrap-processor bring-up: the task-state and global descriptor
    /// tables are constructed and loaded by their driver, the segment
    /// registers reloaded, and every architecture exception vector (0
    /// through 31) registered before the interrupt table is loaded.  What
    /// this layer owns of that sequence is the vector table it returns:
    /// exceptions filled consecutively from `exception_isr_base`, every
    /// assignable slot still unset.
    pub fn init_bsp(exception_isr_base: u64) -> (t: VectorTable)
        requires
            1 <= exception_isr_base <= u64::MAX - 31,
        ensures
            t.wf(),
            forall|v: int| 0 <= v < 32 ==> #[trigger] t.slots()[v] == exception_isr_base + v,
            forall|v: int| 32 <= v < 256 ==> #[trigger] t.slots()[v] == NO_HANDLER,
    {
        let mut vectors = VectorTable::new();
        vectors.register_exceptions(exception_isr_base);
        vectors
    }

    /// The full boot sequence: clear the display, bring up the bootstrap
    /// processor's tables and exception vectors, take the parsed firmware
    /// information, construct the controller, enable interrupts, configure
    /// the boot timer, and run the memory self-test.  Fails with
    /// `ChannelUnavailable` exactly when the platform has no serial
    /// channel; self-test failures are reported, never fatal.
    pub fn isa_init(p: Platform, frames: &mut FrameAllocator) -> (r: Result<
        (Api, BootReport),
        ArchError,
    >)
        requires
            old(frames).wf(),
            1 <= p.exception_isr_base <= u64::MAX - 31,
            1 <= p.boot_timer_rate,
        ensures
            r is Ok <==> p.firmware.serial_available,
            r is Err ==> r == Err::<(Api, BootReport), ArchError>(ArchError::ChannelUnavailable)
                && *final(frames) == *old(frames),
            r matches Ok(x) ==> {
                let (api, report) = x;
                &&& api.wf()
                &&& api.stage == BootStage::Ready
                &&& api.interrupts_on
                &&& api.controller.enabled
                &&& api.firmware == p.firmware
                &&& api.controller.tps == p.firmware.timer_tps
                &&& !api.controller.timer_running
                &&& (api.controller.timer matches Some(t) && t.mode == HwTimerMode::Periodic
                    && t.divisor as int == chosen_divisor(p.firmware.timer_tps, p.boot_timer_rate)
                    && t.counter as int == chosen_counter(p.firmware.timer_tps, p.boot_timer_rate)
                        % 0x1_0000_0000)
                &&& api.paddr_width == p.paddr_width
                &&& api.vaddr_width == p.vaddr_width
                &&& api.irq_flags@.len() == 0
                &&& (forall|v: int|
                    0 <= v < 32 ==> #[trigger] api.vectors.slots()[v] == p.exception_isr_base + v)
                &&& (forall|v: int|
                    32 <= v < 256 ==> #[trigger] api.vectors.slots()[v] == NO_HANDLER)
                &&& report.stages@ == boot_order()
                &&& report.vendor == p.vendor
                &&& report.self_test.paddr_width == p.paddr_width
                &&& report.self_test.vaddr_width == p.vaddr_width
                &&& (report.self_test.first is Ok <==> old(frames).has_free_frame())
                &&& (report.self_test.first matches Ok(a) ==> is_lowest_free(
                    *old(frames),
                    frame_of(a),
                ))
                &&& (report.self_test.third is Ok <==> report.self_test.first is Ok)
                &&& (report.self_test.first is Ok ==> report.self_test.third
                    == report.self_test.first)
                &&& (report.self_test.contiguous is Ok <==> old(frames).has_aligned_free_run(
                    256,
                    64,
                ))
                &&& (report.self_test.contiguous matches Ok(a) ==> a as int % (64 * PAGE_SIZE
                    as int) == 0 && old(frames).run_free(frame_of(a), 256))
                &&& (forall|f: int|
                    #![trigger final(frames).is_allocated(f)]
                    final(frames).is_allocated(f) == old(frames).is_allocated(f))
                &&& final(frames).wf()
                &&& final(frames).total_frames() == old(frames).total_frames()
            },
    {
        let mut stages: Vec<BootStage> = Vec::new();
        stages.push(BootStage::PoweredOn);
        if !p.firmware.serial_available {
            // the diagnostic transport is the one fatal dependency this
            // early in the boot
            return Err(ArchError::ChannelUnavailable);
        }
        // the display surface is cleared by its driver before anything is
        // printed
        stages.push(BootStage::DisplayCleared);
        // bootstrap-processor bring-up: tables loaded, exception vectors
        // registered
        let vectors = Api::init_bsp(p.exception_isr_base);
        stages.push(BootStage::BspReady);
        // the firmware tables arrive already parsed from their parser
        stages.push(BootStage::FirmwareParsed);
        let controller = InterruptController {
            tps: p.firmware.timer_tps,
            enabled: false,
            timer: None,
            timer_running: false,
            eoi_signals: 0,
        };
        stages.push(BootStage::ControllerConstructed);
        let mut api = Api {
            firmware: p.firmware,
            controller,
            vectors,
            irq_flags: Vec::new(),
            interrupts_on: false,
            stage: BootStage::ControllerConstructed,
            paddr_width: p.paddr_width,
            vaddr_width: p.vaddr_width,
        };
        api.init_interrupts();
        stages.push(BootStage::InterruptsEnabled);
        api.setup_isa_timer(p.boot_timer_rate, HwTimerMode::Periodic, 0);
        api.stage = BootStage::TimerConfigured;
        stages.push(BootStage::TimerConfigured);
        let self_test = api.pmm_self_test(frames);
        api.stage = BootStage::SelfTestComplete;
        stages.push(BootStage::SelfTestComplete);
        api.stage = BootStage::Ready;
        stages.push(BootStage::Ready);
        proof {
            crate::boot::lemma_boot_order_strictly_ordered();
            assert(stages@ =~= boot_order());
        }
        Ok((api, BootReport { stages, vendor: p.vendor, self_test }))
    }
}

/// A physical base address handed out by an allocation is page-aligned.
proof fn lemma_frame_base_address(addr: u64)
    requires
        addr as int == crate::pmm::frame_of(addr) * PAGE_SIZE as int,
    ensures
        addr as int % PAGE_SIZE as int == 0,
{
    lemma_mod_multiples_basic(crate::pmm::frame_of(addr), PAGE_SIZE as int);
}

/// Interrupts are never observed enabled before the interrupt table is
/// ready: in any well-formed instance with the flag on, the boot sequence
/// has passed the point where the tables were loaded, and every exception
/// vector is registered.
pub proof fn lemma_no_interrupts_before_tables(a: Api)
    requires
        a.wf(),
        a.interrupts_on,
    ensures
        stage_index(a.stage) >= stage_index(BootStage::BspReady),
        forall|v: int| 0 <= v < 32 ==> #[trigger] a.vectors.slots()[v] != NO_HANDLER,
{
}

/// Interrupt-flag round trip: a disable followed by its matching restore
/// re-establishes both the flag and the save stack exactly as they were,
/// whether interrupts were on or off to begin with.
pub proof fn lemma_irq_flag_round_trip(
    a_on: bool,
    a_saved: Seq<bool>,
    b_on: bool,
    b_saved: Seq<bool>,
    c_on: bool,
    c_saved: Seq<bool>,
)
    requires
        b_on == false,
        b_saved == a_saved.push(a_on),
        c_on == b_saved.last(),
        c_saved == b_saved.drop_last(),
    ensures
        c_on == a_on,
        c_saved == a_saved,
{
}

} // verus!
