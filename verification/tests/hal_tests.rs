use hal_x86::api::{
    Api, FirmwareInfo, HwTimerMode, InterruptController, Platform, TimerConfig, COM1_PORT,
};
use hal_x86::boot::BootStage;
use hal_x86::pmm::{AllocError, FrameAllocator};
use hal_x86::timer::derive_timer_config;
use hal_x86::vectors::VectorTable;
use hal_x86::ArchError;

fn fresh_api(serial: bool, interrupts_on: bool) -> Api {
    let mut vectors = VectorTable::new();
    vectors.register_exceptions(1000);
    Api {
        firmware: FirmwareInfo { timer_tps: 1_193_180_000, serial_available: serial },
        controller: InterruptController {
            tps: 1_193_180_000,
            enabled: true,
            timer: Some(TimerConfig { mode: HwTimerMode::Periodic, counter: 119_318, divisor: 1 }),
            timer_running: false,
            eoi_signals: 0,
        },
        vectors,
        irq_flags: Vec::new(),
        interrupts_on,
        stage: BootStage::Ready,
        paddr_width: 48,
        vaddr_width: 48,
    }
}

#[test]
fn timer_example_rate() {
    let (divisor, counter) = derive_timer_config(1_193_180_000, 1000);
    assert_eq!(divisor, 1);
    assert_eq!(counter, 119_318);
}

#[test]
fn timer_deterministic() {
    let a = derive_timer_config(1_193_180_000, 1000);
    let b = derive_timer_config(1_193_180_000, 1000);
    assert_eq!(a, b);
}

#[test]
fn timer_divisor_monotonic_concrete() {
    let slow = derive_timer_config(687_194_767_360, 1);
    let fast = derive_timer_config(687_194_767_360, 2);
    assert_eq!(slow, (32, 2_147_483_648));
    assert_eq!(fast, (16, 2_147_483_648));
    assert!(slow.0 >= fast.0);
}

#[test]
fn timer_saturates_at_largest_divisor() {
    let (divisor, counter) = derive_timer_config(u64::MAX, 1);
    assert_eq!(divisor, 128);
    assert_eq!(counter, 1_717_986_918);
}

#[test]
fn setup_timer_applies_configuration() {
    let mut api = fresh_api(true, true);
    api.setup_isa_timer(1000, HwTimerMode::Periodic, 0);
    let cfg = api.controller.timer.unwrap();
    assert_eq!(cfg.divisor, 1);
    assert_eq!(cfg.counter, 119_318);
    assert_eq!(cfg.mode, HwTimerMode::Periodic);
    assert!(!api.controller.timer_running);
    api.start_isa_timers();
    assert!(api.controller.timer_running);
}

#[test]
fn register_handler_in_range_dispatches_it() {
    let mut api = fresh_api(true, true);
    assert_eq!(api.set_interrupt_handler(7, 42), Ok(()));
    assert_eq!(api.handler_for(42), Some(7));
    assert_eq!(api.handler_for(43), None);
}

#[test]
fn register_handler_above_range_rejected() {
    let mut api = fresh_api(true, true);
    assert_eq!(api.set_interrupt_handler(7, 42), Ok(()));
    assert_eq!(api.set_interrupt_handler(9, 256), Err(ArchError::InvalidVector));
    assert_eq!(api.set_interrupt_handler(9, u32::MAX), Err(ArchError::InvalidVector));
    // the table is unchanged by the refused registrations
    assert_eq!(api.handler_for(42), Some(7));
    assert_eq!(api.vectors.slot(0), 1000);
}

#[test]
fn register_handler_reserved_range_rejected() {
    let mut api = fresh_api(true, true);
    assert_eq!(api.set_interrupt_handler(9, 31), Err(ArchError::InvalidVector));
    assert_eq!(api.set_interrupt_handler(9, 0), Err(ArchError::InvalidVector));
    assert_eq!(api.vectors.slot(31), 1031);
}

#[test]
fn exception_vectors_filled_consecutively() {
    let mut table = VectorTable::new();
    assert_eq!(table.dispatch(0), None);
    table.register_exceptions(1000);
    assert_eq!(table.slot(0), 1000);
    assert_eq!(table.slot(31), 1031);
    assert_eq!(table.slot(32), 0);
    assert_eq!(table.dispatch(200), None);
}

#[test]
fn allocate_roundtrip_reuses_frame() {
    let mut frames = FrameAllocator::new(1024);
    let a = frames.allocate().unwrap();
    let b = frames.allocate().unwrap();
    assert_eq!(a, 0);
    assert_eq!(b, 4096);
    assert_ne!(a, b);
    assert_eq!(frames.deallocate(a), Ok(()));
    let c = frames.allocate().unwrap();
    assert_eq!(c, a);
}

#[test]
fn allocate_contiguous_aligned_base() {
    let mut frames = FrameAllocator::new(1024);
    let single = frames.allocate().unwrap();
    assert_eq!(single, 0);
    let run = frames.allocate_contiguous(256, 64).unwrap();
    assert_eq!(run, 64 * 4096);
    assert_eq!(run % (64 * 4096), 0);
    assert_eq!(frames.deallocate(run), Ok(()));
    let again = frames.allocate_contiguous(256, 64).unwrap();
    assert_eq!(again, run);
}

#[test]
fn allocate_out_of_memory() {
    let mut frames = FrameAllocator::new(1);
    assert_eq!(frames.allocate(), Ok(0));
    assert_eq!(frames.allocate(), Err(AllocError::OutOfMemory));
    let mut small = FrameAllocator::new(16);
    assert_eq!(
        small.allocate_contiguous(256, 64),
        Err(AllocError::OutOfMemory)
    );
}

#[test]
fn deallocate_unknown_address_rejected() {
    let mut frames = FrameAllocator::new(4);
    assert_eq!(frames.deallocate(4096), Err(AllocError::NotAllocated));
    assert_eq!(frames.deallocate(1), Err(AllocError::NotAllocated));
    let a = frames.allocate().unwrap();
    assert_eq!(frames.deallocate(a), Ok(()));
    assert_eq!(frames.deallocate(a), Err(AllocError::NotAllocated));
}

#[test]
fn self_test_error_free_path() {
    let api = fresh_api(true, true);
    let mut frames = FrameAllocator::new(1024);
    let st = api.pmm_self_test(&mut frames);
    assert_eq!(st.paddr_width, 48);
    assert_eq!(st.vaddr_width, 48);
    assert_eq!(st.first, Ok(0));
    assert_eq!(st.second, Ok(4096));
    assert_eq!(st.first_freed, Some(Ok(())));
    // the frame just freed is the one handed out next
    assert_eq!(st.third, st.first);
    assert_eq!(st.second_freed, Some(Ok(())));
    assert_eq!(st.third_freed, Some(Ok(())));
    assert_eq!(st.contiguous, Ok(0));
    assert_eq!(st.contiguous_freed, Some(Ok(())));
    // everything the test took was handed back
    assert_eq!(frames.allocate(), Ok(0));
}

#[test]
fn self_test_reports_exhaustion() {
    let api = fresh_api(true, true);
    let mut frames = FrameAllocator::new(0);
    let st = api.pmm_self_test(&mut frames);
    assert_eq!(st.first, Err(AllocError::OutOfMemory));
    assert_eq!(st.first_freed, None);
    assert_eq!(st.contiguous, Err(AllocError::OutOfMemory));
    assert_eq!(st.contiguous_freed, None);
}

#[test]
fn self_test_partial_failure_still_completes() {
    let api = fresh_api(true, true);
    // room for the single-frame phase, none for the contiguous run
    let mut frames = FrameAllocator::new(2);
    let st = api.pmm_self_test(&mut frames);
    assert_eq!(st.first, Ok(0));
    assert_eq!(st.second, Ok(4096));
    assert_eq!(st.first_freed, Some(Ok(())));
    assert_eq!(st.third, Ok(0));
    assert_eq!(st.second_freed, Some(Ok(())));
    assert_eq!(st.third_freed, Some(Ok(())));
    assert_eq!(st.contiguous, Err(AllocError::OutOfMemory));
    assert_eq!(st.contiguous_freed, None);
}

#[test]
fn boot_sequence_order_and_state() {
    let platform = Platform {
        firmware: FirmwareInfo { timer_tps: 1_193_180_000, serial_available: true },
        paddr_width: 52,
        vaddr_width: 57,
        vendor: b"GenuineIntel".to_vec(),
        exception_isr_base: 1000,
        boot_timer_rate: 1000,
    };
    let mut frames = FrameAllocator::new(1024);
    let (api, report) = Api::isa_init(platform, &mut frames).unwrap();
    let expected = vec![
        BootStage::PoweredOn,
        BootStage::DisplayCleared,
        BootStage::BspReady,
        BootStage::FirmwareParsed,
        BootStage::ControllerConstructed,
        BootStage::InterruptsEnabled,
        BootStage::TimerConfigured,
        BootStage::SelfTestComplete,
        BootStage::Ready,
    ];
    assert_eq!(report.stages, expected);
    // interrupts are never enabled before the tables are ready
    let enabled_at = report
        .stages
        .iter()
        .position(|s| *s == BootStage::InterruptsEnabled)
        .unwrap();
    let tables_at = report
        .stages
        .iter()
        .position(|s| *s == BootStage::BspReady)
        .unwrap();
    assert!(tables_at < enabled_at);
    assert_eq!(api.stage, BootStage::Ready);
    assert!(api.interrupts_enabled());
    assert_eq!(api.get_paddr_width(), 52);
    assert_eq!(api.get_vaddr_width(), 57);
    let cfg = api.controller.timer.unwrap();
    assert_eq!(cfg.divisor, 1);
    assert_eq!(cfg.counter, 119_318);
    assert_eq!(report.vendor, b"GenuineIntel".to_vec());
    assert_eq!(report.self_test.first, Ok(0));
}

#[test]
fn boot_without_serial_is_fatal() {
    let platform = Platform {
        firmware: FirmwareInfo { timer_tps: 1_193_180_000, serial_available: false },
        paddr_width: 48,
        vaddr_width: 48,
        vendor: Vec::new(),
        exception_isr_base: 1000,
        boot_timer_rate: 1000,
    };
    let mut frames = FrameAllocator::new(16);
    let r = Api::isa_init(platform, &mut frames);
    assert!(matches!(r, Err(ArchError::ChannelUnavailable)));
}

#[test]
fn interrupt_flag_roundtrip_from_enabled() {
    let mut api = fresh_api(true, true);
    assert!(api.interrupts_enabled());
    api.disable_interrupts();
    assert!(!api.interrupts_enabled());
    api.disable_interrupts();
    api.restore_interrupts();
    // still masked until the outer restore
    assert!(!api.interrupts_enabled());
    api.restore_interrupts();
    assert!(api.interrupts_enabled());
}

#[test]
fn interrupt_flag_roundtrip_from_disabled() {
    let mut api = fresh_api(true, false);
    api.disable_interrupts();
    api.restore_interrupts();
    assert!(!api.interrupts_enabled());
}

#[test]
fn unimplemented_operations_fail_loudly() {
    let mut api = fresh_api(true, true);
    assert_eq!(api.pause_isa_timers(), Err(ArchError::NotImplemented));
    assert_eq!(api.init_ap(), Err(ArchError::NotImplemented));
}

#[test]
fn serial_channel_availability() {
    let api = fresh_api(true, true);
    let chan = api.get_logger().unwrap();
    assert_eq!(chan.port, COM1_PORT);
    assert_eq!(api.get_serial().unwrap().port, 0x3F8);
    let headless = fresh_api(false, true);
    assert_eq!(headless.get_logger(), Err(ArchError::ChannelUnavailable));
    assert_eq!(headless.get_serial(), Err(ArchError::ChannelUnavailable));
}

#[test]
fn isa_parameter_record() {
    let params = hal_x86::x86_isa_params();
    assert_eq!(params.paging.page_size, 4096);
    assert_eq!(params.paging.page_shift, 12);
    assert_eq!(params.paging.page_mask, 0xFFFF_FFFF_FFFF_F000);
}

#[test]
fn init_bsp_fills_exception_vectors() {
    let table = Api::init_bsp(5000);
    assert_eq!(table.slot(0), 5000);
    assert_eq!(table.slot(31), 5031);
    assert_eq!(table.slot(32), 0);
    assert_eq!(table.slot(255), 0);
}

#[test]
fn end_of_interrupt_counts_signals() {
    let mut api = fresh_api(true, true);
    api.end_of_interrupt();
    api.end_of_interrupt();
    assert_eq!(api.controller.eoi_signals, 2);
}
