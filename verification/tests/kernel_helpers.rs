use tg_rcore::abi::{InputEventUser, VmAlgo, VmStats};
use tg_rcore::bench::{algo_name, fault_rates, lcg, pattern_name, run_pattern, run_start, Pattern, BASE};
use tg_rcore::doom::{fill_frame, is_exit_event, FRAME_BYTES};
use tg_rcore::gfx::{clear, dma_alloc, fill_rect, rgb, FrameBuffer};
use tg_rcore::syscalls::{
    alloc_slot, doom_framebuffer_info, frame_len_ok, framebuffer_map_len, make_opaque, mmap_base,
    seek_offset, timespec_of_ticks, upscale_frame, SEEK_CUR, SEEK_END, SEEK_SET,
};
use tg_rcore::syscalls::{input_read, ioctl_action, open_target, InputRecord, IoctlAction, OpenTarget, FB_FLUSH, FB_GET_RESOLUTION};
use tg_rcore::trap::{decide_trap, loop_step, LoopKind, LoopStep, SyscallOutcome, TrapAction, TrapEvent, EXIT_KILLED, EXIT_UNSUPPORTED, SYS_CONDVAR_WAIT, SYS_EXIT, SYS_MUTEX_LOCK, SYS_SEMAPHORE_DOWN};

#[test]
fn algorithm_codes() {
    assert_eq!(VmAlgo::from_raw(0), Some(VmAlgo::Fifo));
    assert_eq!(VmAlgo::from_raw(3), Some(VmAlgo::WorkingSet));
    assert_eq!(VmAlgo::from_raw(4), None);
    assert_eq!(VmAlgo::Clock.as_raw(), 1);
    assert_eq!(VmStats::zero().page_faults, 0);
}

#[test]
fn colours_pack_as_argb() {
    assert_eq!(rgb(0x12, 0x34, 0x56), 0xff12_3456);
    assert_eq!(rgb(0, 0, 0), 0xff00_0000);
}

#[test]
fn fill_rect_is_clipped_to_the_frame() {
    let mut fb = FrameBuffer::new(4, 3, 0);
    fill_rect(&mut fb, 2, 1, 10, 10, 9);
    assert_eq!(fb.pixels, vec![0, 0, 0, 0, 0, 0, 9, 9, 0, 0, 9, 9]);
    fill_rect(&mut fb, 5, 0, 1, 1, 7);
    assert_eq!(fb.pixels, vec![0, 0, 0, 0, 0, 0, 9, 9, 0, 0, 9, 9]);
    clear(&mut fb, 1);
    assert!(fb.pixels.iter().all(|&p| p == 1));
}

#[test]
fn dma_pool_bumps_page_aligned() {
    let mut next = 0usize;
    assert_eq!(dma_alloc(&mut next, 0x8000_0000, 2), 0x8000_0000);
    assert_eq!(next, 0x2000);
    next = 0x2001;
    assert_eq!(dma_alloc(&mut next, 0x8000_0000, 1), 0x8000_3000);
    assert_eq!(next, 0x4000);
    assert_eq!(dma_alloc(&mut next, 0x8000_0000, 0x400), 0);
    assert_eq!(next, 0x4000);
}

#[test]
fn benchmark_traces() {
    let mut s = 1u32;
    assert_eq!(lcg(&mut s), 1u32.wrapping_mul(1103515245).wrapping_add(12345));
    let t = run_pattern(Pattern::SeqScan, BASE);
    assert_eq!(t.len(), 2048);
    assert_eq!(t[0], (BASE, true));
    assert_eq!(t[1], (BASE + 0x1000, false));
    assert_eq!(t[64], (BASE, false));
    assert_eq!(t[67], (BASE + 3 * 0x1000, true));
    let r = run_pattern(Pattern::LocalityStrong, BASE);
    assert_eq!(r.len(), 32768);
    assert!(r.iter().all(|&(a, _)| a >= BASE && a < BASE + 64 * 0x1000));
    assert_eq!(run_pattern(Pattern::RandUniform, BASE), run_pattern(Pattern::RandUniform, BASE));
    assert_eq!(run_start(2), BASE + 0x20_0000);
    assert_eq!(algo_name(VmAlgo::LruApprox), "lru");
    assert_eq!(pattern_name(Pattern::LocalityWeak), "locality_weak");
}

#[test]
fn benchmark_rates() {
    let mut s = VmStats::zero();
    assert_eq!(fault_rates(&s), (0, 0));
    s.page_faults = 10;
    s.elapsed_ns = 2_000_000_000;
    s.instret_delta = 5000;
    assert_eq!(fault_rates(&s), (5, 2));
    s.page_faults = u64::MAX;
    s.elapsed_ns = 1;
    assert_eq!(fault_rates(&s).0, u64::MAX);
}

#[test]
fn doom_test_pattern() {
    let mut frame = vec![0u8; FRAME_BYTES + 4];
    fill_frame(&mut frame, 3);
    assert_eq!(&frame[0..4], &[3, 6, 3, 0xff]);
    let p = 320 + 5;
    assert_eq!(&frame[p * 4..p * 4 + 4], &[7, 7, 8, 0xff]);
    assert_eq!(&frame[FRAME_BYTES..], &[0, 0, 0, 0]);
    let esc = InputEventUser { event_type: 1, code: 1, value: 1 };
    assert!(is_exit_event(true, &esc));
    assert!(!is_exit_event(false, &esc));
    assert!(!is_exit_event(true, &InputEventUser { event_type: 1, code: 1, value: 0 }));
}

#[test]
fn slots_are_reused() {
    let mut v: Vec<Option<u8>> = vec![Some(1), None, Some(3)];
    assert_eq!(alloc_slot(&mut v, Some(9)), 1);
    assert_eq!(v, vec![Some(1), Some(9), Some(3)]);
    assert_eq!(alloc_slot(&mut v, Some(4)), 3);
    assert_eq!(v.len(), 4);
}

#[test]
fn frame_buffer_calls() {
    let info = doom_framebuffer_info();
    assert_eq!((info.width, info.height, info.stride, info.bpp), (320, 200, 1280, 32));
    assert!(frame_len_ok(256000));
    assert!(!frame_len_ok(255999));
    let mut px = vec![0x12u32, 0xff00_0000];
    make_opaque(&mut px);
    assert_eq!(px, vec![0xff00_0012, 0xff00_0000]);
    let src: Vec<u32> = (0..320 * 200).map(|i| i as u32 & 0xff).collect();
    let mut dst = vec![0u32; 640 * 400];
    assert_eq!(upscale_frame(&src, &mut dst, 640, 400), 0);
    assert_eq!(dst[0], 0xff00_0000);
    assert_eq!(dst[641], 0xff00_0000);
    assert_eq!(dst[2], 0xff00_0001);
    assert_eq!(dst[640 * 2 + 3], 0xff00_0000 | 65);
    let mut small = vec![5u32; 100];
    assert_eq!(upscale_frame(&src, &mut small, 10, 10), -1);
    assert!(small.iter().all(|&p| p == 5));
}

#[test]
fn lseek_targets() {
    assert_eq!(seek_offset(SEEK_SET, 10, 100, 5), Some(5));
    assert_eq!(seek_offset(SEEK_CUR, 10, 100, 5), Some(15));
    assert_eq!(seek_offset(SEEK_END, 10, 100, -5), Some(95));
    assert_eq!(seek_offset(SEEK_CUR, 10, 100, -11), None);
    assert_eq!(seek_offset(3, 10, 100, 0), None);
}

#[test]
fn clock_and_mmap_helpers() {
    assert_eq!(timespec_of_ticks(12_500_000), (1, 0));
    assert_eq!(timespec_of_ticks(12_500_001), (1, 80));
    assert_eq!(mmap_base(0), 0x4000_0000);
    assert_eq!(mmap_base(0x1000), 0x1000);
    assert_eq!(framebuffer_map_len(0x8000_1000, 0x1000, 0x2000), Some(0x1000));
    assert_eq!(framebuffer_map_len(0x8000_1000, 0x3000, 0x2000), Some(0x2000));
    assert_eq!(framebuffer_map_len(0x8000_1004, 0x3000, 0x2000), None);
}

#[test]
fn traps_decide_the_program_fate() {
    assert_eq!(
        decide_trap(LoopKind::ReadyQueue, TrapEvent::Syscall { id: SYS_EXIT, outcome: SyscallOutcome::Done(3), signal_kill: None }),
        TrapAction::Exit(3)
    );
    assert_eq!(
        decide_trap(LoopKind::ReadyQueue, TrapEvent::Syscall { id: 64, outcome: SyscallOutcome::Done(12), signal_kill: None }),
        TrapAction::Suspend(12)
    );
    assert_eq!(
        decide_trap(LoopKind::ReadyQueue, TrapEvent::Syscall { id: 999, outcome: SyscallOutcome::Unsupported, signal_kill: None }),
        TrapAction::Exit(EXIT_UNSUPPORTED)
    );
    for id in [SYS_MUTEX_LOCK, SYS_SEMAPHORE_DOWN, SYS_CONDVAR_WAIT] {
        assert_eq!(
            decide_trap(LoopKind::ReadyQueue, TrapEvent::Syscall { id, outcome: SyscallOutcome::Done(-1), signal_kill: None }),
            TrapAction::Block
        );
        assert_eq!(
            decide_trap(LoopKind::ReadyQueue, TrapEvent::Syscall { id, outcome: SyscallOutcome::Done(0), signal_kill: None }),
            TrapAction::Suspend(0)
        );
    }
    assert_eq!(
        decide_trap(LoopKind::ReadyQueue, TrapEvent::Syscall { id: 64, outcome: SyscallOutcome::Done(-1), signal_kill: None }),
        TrapAction::Suspend(-1)
    );
    assert_eq!(decide_trap(LoopKind::ReadyQueue, TrapEvent::PageFault { handled: true }), TrapAction::Retry);
    assert_eq!(decide_trap(LoopKind::ReadyQueue, TrapEvent::PageFault { handled: false }), TrapAction::Exit(EXIT_KILLED));
    assert_eq!(decide_trap(LoopKind::ReadyQueue, TrapEvent::Timer), TrapAction::Preempt);
    assert_eq!(decide_trap(LoopKind::ReadyQueue, TrapEvent::Other), TrapAction::Exit(-3));
    assert_eq!(
        decide_trap(LoopKind::SameTask, TrapEvent::Syscall { id: 64, outcome: SyscallOutcome::Done(12), signal_kill: None }),
        TrapAction::Resume(12)
    );
    assert_eq!(
        decide_trap(LoopKind::ReadyQueue, TrapEvent::Syscall { id: 64, outcome: SyscallOutcome::Done(12), signal_kill: Some(9) }),
        TrapAction::Exit(9)
    );
    assert_eq!(
        decide_trap(LoopKind::ReadyQueue, TrapEvent::Syscall { id: 999, outcome: SyscallOutcome::Unsupported, signal_kill: Some(-9) }),
        TrapAction::Exit(-9)
    );
    assert_eq!(loop_step(2, 1), LoopStep::Run);
    assert_eq!(loop_step(0, 0), LoopStep::Shutdown);
    assert_eq!(loop_step(0, 1), LoopStep::Park);
}

#[test]
fn device_paths_and_requests() {
    assert_eq!(open_target(b"/dev/fb0"), OpenTarget::Framebuffer);
    assert_eq!(open_target(b"/dev/input0"), OpenTarget::Input);
    assert_eq!(open_target(b"/dev/fb"), OpenTarget::File);
    assert_eq!(open_target(b"hello.txt"), OpenTarget::File);
    assert_eq!(ioctl_action(true, FB_GET_RESOLUTION), IoctlAction::Resolution);
    assert_eq!(ioctl_action(true, FB_FLUSH), IoctlAction::Flush);
    assert_eq!(ioctl_action(true, 9), IoctlAction::Refuse);
    assert_eq!(ioctl_action(false, FB_FLUSH), IoctlAction::Refuse);
}

#[test]
fn input_reads() {
    let e = InputEventUser { event_type: 1, code: 30, value: 1 };
    assert_eq!(input_read(8, Some(e), 0), (-1, None));
    assert_eq!(input_read(16, None, 0), (-1, None));
    assert_eq!(
        input_read(16, Some(e), 12_500_000),
        (16, Some(InputRecord { timestamp_usec: 1_000_000, event_type: 1, code: 30, value: 1 }))
    );
}
