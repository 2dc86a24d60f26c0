use tg_rcore::process::{NewProcess, StdFd, ThreadStart};
use tg_rcore::elf::{checked_load_plan, load_plan, Segment, STACK_TOP_VPN, USER_SP};

fn put16(b: &mut [u8], at: usize, v: u16) {
    b[at..at + 2].copy_from_slice(&v.to_le_bytes());
}
fn put32(b: &mut [u8], at: usize, v: u32) {
    b[at..at + 4].copy_from_slice(&v.to_le_bytes());
}
fn put64(b: &mut [u8], at: usize, v: u64) {
    b[at..at + 8].copy_from_slice(&v.to_le_bytes());
}

/// A RISC-V executable with one loadable segment of the whole file.
fn image(elf_type: u16, machine: u16, file_size: u64, offset: u64) -> Vec<u8> {
    let mut b = vec![0u8; 136];
    b[0..4].copy_from_slice(&[0x7f, b'E', b'L', b'F']);
    b[4] = 2;
    b[5] = 1;
    b[6] = 1;
    put16(&mut b, 16, elf_type);
    put16(&mut b, 18, machine);
    put32(&mut b, 20, 1);
    put64(&mut b, 24, 0x10000);
    put64(&mut b, 32, 64);
    put16(&mut b, 52, 64);
    put16(&mut b, 54, 56);
    put16(&mut b, 56, 1);
    put32(&mut b, 64, 1);
    put32(&mut b, 68, 5);
    put64(&mut b, 72, offset);
    put64(&mut b, 80, 0x10000);
    put64(&mut b, 88, 0x10000);
    put64(&mut b, 96, file_size);
    put64(&mut b, 104, 0x2000);
    put64(&mut b, 112, 0x1000);
    b
}

#[test]
fn executable_image_is_planned() {
    let b = image(2, 0xf3, 136, 0);
    let plan = checked_load_plan(&b).unwrap();
    assert_eq!(plan.entry, 0x10000);
    assert_eq!(
        plan.segments,
        vec![Segment { start_vpn: 0x10, end_vpn: 0x12, file_offset: 0, file_len: 136, page_offset: 0, flags: 27 }]
    );
    assert_eq!(plan.heap_bottom, 0x12000);
    assert_eq!(plan.stack_start_vpn, STACK_TOP_VPN - 2);
    assert_eq!(plan.stack_end_vpn, STACK_TOP_VPN);
    assert_eq!(plan.stack_flags, 23);
    assert_eq!(plan.user_sp, USER_SP);
    assert_eq!(load_plan(&b).unwrap().segments, plan.segments);
}

#[test]
fn garbage_is_not_planned() {
    assert!(checked_load_plan(&[0u8; 200]).is_none());
    assert!(checked_load_plan(&[0x7f, b'E', b'L', b'F']).is_none());
}

#[test]
fn other_types_and_machines_are_not_planned() {
    assert!(checked_load_plan(&image(3, 0xf3, 136, 0)).is_none());
    assert!(checked_load_plan(&image(2, 0x3e, 136, 0)).is_none());
}

#[test]
fn segment_outside_the_image_is_refused() {
    assert!(checked_load_plan(&image(2, 0xf3, 4096, 0)).is_none());
    assert!(checked_load_plan(&image(2, 0xf3, 8, 4)).is_none());
}

#[test]
fn thirty_two_bit_image_is_not_planned() {
    let mut b = image(2, 0xf3, 136, 0);
    b[4] = 1;
    assert!(checked_load_plan(&b).is_none());
}

#[test]
fn new_process_starts_with_standard_streams() {
    let b = image(2, 0xf3, 136, 0);
    let (plan, p) = NewProcess::from_elf(&b, 0x8_0123).unwrap();
    assert_eq!(plan.entry, 0x10000);
    assert_eq!(
        p.fd_table,
        vec![
            Some(StdFd { read: true, write: false }),
            Some(StdFd { read: false, write: true }),
            Some(StdFd { read: false, write: true }),
        ]
    );
    assert_eq!((p.semaphores, p.mutexes, p.condvars), (0, 0, 0));
    assert!(!p.sync.deadlock);
    assert!(p.sync.mutex_owner.is_empty());
    assert_eq!(p.thread, ThreadStart { pc: 0x10000, sp: 1 << 38, a0: 0, satp: (8 << 60) | 0x8_0123 });
    let now = ThreadStart { pc: 0x10040, sp: (1 << 38) - 64, a0: 7, satp: p.thread.satp };
    let child = p.fork(now, 0x9_0000);
    assert_eq!(child.fd_table, p.fd_table);
    assert_eq!(child.thread, ThreadStart { pc: 0x10040, sp: (1 << 38) - 64, a0: 0, satp: (8 << 60) | 0x9_0000 });
    assert!(!child.sync.deadlock);
    assert!(NewProcess::from_elf(&image(3, 0xf3, 136, 0), 1).is_none());
}
