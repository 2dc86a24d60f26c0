//! Loading a program: what the kernel maps for an ELF image, read with the
//! `xmas_elf` crate. The plan lists, for each loadable segment, the pages
//! it covers, the bytes of the image that fill them and the page flags;
//! the kernel's address space then carries it out.
use vstd::prelude::*;
use xmas_elf::header::{HeaderPt2, Machine};
use xmas_elf::program::Type;
use xmas_elf::ElfFile;
use crate::pager::{vpn_ceil, vpn_ceil_of, vpn_floor, vpn_of, FLAG_R, FLAG_U, FLAG_V, FLAG_W, FLAG_X};

verus! {

/// The ELF type of an executable.
pub const ET_EXEC: u16 = 2;
/// Segment flag: executable.
pub const PF_X: u32 = 1;
/// Segment flag: writable.
pub const PF_W: u32 = 2;
/// Segment flag: readable.
pub const PF_R: u32 = 4;
/// Bytes of a 64-bit program header.
pub const PH64_SIZE: u16 = 56;
/// The first page above the user stack.
pub const STACK_TOP_VPN: usize = 0x400_0000;
/// Pages of user stack.
pub const STACK_PAGES: usize = 2;
/// The user stack pointer a program starts with.
pub const USER_SP: u64 = 0x40_0000_0000;

/// What the kernel reads of a 64-bit ELF header.
#[derive(Clone, Copy, PartialEq, Eq, Structural, Debug)]
pub struct ElfHeader {
    pub elf_type: u16,
    /// The machine is RISC-V.
    pub riscv: bool,
    pub entry: u64,
    pub ph_offset: u64,
    pub ph_entry_size: u16,
    pub ph_count: u16,
}

/// What the kernel reads of a program header.
#[derive(Clone, Copy, PartialEq, Eq, Structural, Debug)]
pub struct ElfProgram {
    /// The segment is loadable.
    pub is_load: bool,
    pub offset: u64,
    pub file_size: u64,
    pub virtual_addr: u64,
    pub mem_size: u64,
    pub flags: u32,
}

/// The 16-bit little-endian number at byte `at`.
pub open spec fn le16(b: Seq<u8>, at: int) -> int {
    b[at] + 256 * b[at + 1]
}

/// The 32-bit little-endian number at byte `at`.
pub open spec fn le32(b: Seq<u8>, at: int) -> int {
    le16(b, at) + 65536 * le16(b, at + 2)
}

/// The 64-bit little-endian number at byte `at`.
pub open spec fn le64(b: Seq<u8>, at: int) -> int {
    le32(b, at) + 4294967296 * le32(b, at + 4)
}

/// The header `xmas_elf` reads from an image: for an image of at least 64
/// bytes that starts with the ELF magic and class 2 (64-bit), the type at
/// byte 16, the machine at 18 (RISC-V is 0xF3), the entry point at 24, the
/// program header table's offset at 32, entry size at 54 and count at 56;
/// none for any other image.
pub open spec fn elf_header_of(bytes: Seq<u8>) -> Option<ElfHeader> {
    if bytes.len() >= 64 && bytes[0] == 0x7f && bytes[1] == 0x45 && bytes[2] == 0x4c && bytes[3]
        == 0x46 && bytes[4] == 2 {
        Some(
            ElfHeader {
                elf_type: le16(bytes, 16) as u16,
                riscv: le16(bytes, 18) == 0xf3,
                entry: le64(bytes, 24) as u64,
                ph_offset: le64(bytes, 32) as u64,
                ph_entry_size: le16(bytes, 54) as u16,
                ph_count: le16(bytes, 56) as u16,
            },
        )
    } else {
        None
    }
}

/// Program header `index` as `xmas_elf` reads it from an image: at
/// `ph_offset + index * ph_entry_size`, the type (1 is loadable), flags at
/// +4, file offset at +8, virtual address at +16, file size at +32 and
/// memory size at +40.
pub open spec fn elf_program_of(bytes: Seq<u8>, index: u16) -> ElfProgram {
    let h = elf_header_of(bytes)->0;
    let at = h.ph_offset + index * h.ph_entry_size;
    ElfProgram {
        is_load: le32(bytes, at) == 1,
        flags: le32(bytes, at + 4) as u32,
        offset: le64(bytes, at + 8) as u64,
        virtual_addr: le64(bytes, at + 16) as u64,
        file_size: le64(bytes, at + 32) as u64,
        mem_size: le64(bytes, at + 40) as u64,
    }
}

/// The program header table lies within the image with entries large
/// enough for a 64-bit program header, each starting at a multiple of 8
/// (or is absent, as an offset or entry size of 0 or a count of 0 says).
pub open spec fn ph_table_ok(h: ElfHeader, len: int) -> bool {
    ||| h.ph_offset == 0
    ||| h.ph_entry_size == 0
    ||| h.ph_count == 0
    ||| (h.ph_entry_size >= PH64_SIZE && h.ph_offset + h.ph_count * h.ph_entry_size <= len
        && h.ph_offset % 8 == 0 && h.ph_entry_size % 8 == 0)
}

/// The program headers the kernel walks: all of them, or none when the
/// table is absent.
pub open spec fn program_count(h: ElfHeader) -> int {
    if h.ph_offset == 0 || h.ph_entry_size == 0 {
        0
    } else {
        h.ph_count as int
    }
}

/// Program header `index` can be read.
pub open spec fn program_readable(bytes: Seq<u8>, index: u16) -> bool {
    &&& elf_header_of(bytes) is Some
    &&& ph_table_ok(elf_header_of(bytes)->0, bytes.len() as int)
    &&& index < program_count(elf_header_of(bytes)->0)
}

/// Reads the header of an image with `xmas_elf::ElfFile::new`: the type,
/// whether the machine is RISC-V, the entry point and where the program
/// header table is, for a 64-bit image; none for an image that does not
/// parse or is 32-bit. `xmas_elf` checks the length, the magic and the
/// class, and reads the fields in the machine's byte order, which the
/// contract takes as little-endian (as on RISC-V and x86, where the kernel
/// and its host tools run). It reads its header structures in place and
/// asserts that they are aligned in memory, so the bytes are first copied
/// to an address that is a multiple of 8.
#[verifier::external_body]
fn read_header(bytes: &[u8]) -> (r: Option<ElfHeader>)
    ensures
        r == elf_header_of(bytes@),
{
    let mut buf = [bytes, &[0u8; 7]].concat();
    let at = buf.as_ptr().align_offset(8);
    buf.copy_within(..bytes.len(), at);
    let elf = ElfFile::new(&buf[at..][..bytes.len()]).ok()?;
    match elf.header.pt2 {
        HeaderPt2::Header64(h) => Some(ElfHeader {
            elf_type: h.type_.0,
            riscv: matches!(h.machine.as_machine(), Machine::RISC_V),
            entry: h.entry_point,
            ph_offset: h.ph_offset,
            ph_entry_size: h.ph_entry_size,
            ph_count: h.ph_count,
        }),
        HeaderPt2::Header32(_) => None,
    }
}

/// Reads program header `index` with `xmas_elf::ElfFile::program_header`:
/// whether it is loadable, its file offset and size, virtual address,
/// memory size and flags. The header must lie within the image and start
/// at a multiple of 8 from the image's start (else the crate panics); the
/// bytes are copied to an address that is a multiple of 8, as for
/// `read_header`. Its type counts as loadable when it is 1, as
/// `xmas_elf`'s `Type::Load` is.
#[verifier::external_body]
fn read_program(bytes: &[u8], index: u16) -> (r: ElfProgram)
    requires
        program_readable(bytes@, index),
    ensures
        r == elf_program_of(bytes@, index),
{
    let mut buf = [bytes, &[0u8; 7]].concat();
    let at = buf.as_ptr().align_offset(8);
    buf.copy_within(..bytes.len(), at);
    let ph = ElfFile::new(&buf[at..][..bytes.len()]).unwrap().program_header(index).unwrap();
    ElfProgram {
        is_load: matches!(ph.get_type(), Ok(Type::Load)),
        offset: ph.offset(),
        file_size: ph.file_size(),
        virtual_addr: ph.virtual_addr(),
        mem_size: ph.mem_size(),
        flags: ph.flags().0,
    }
}

/// A loadable segment the kernel can map: its bytes lie within the image,
/// its end fits the address width, and its file offset and address agree
/// within a page.
pub open spec fn segment_ok(p: ElfProgram, len: int) -> bool {
    &&& p.offset + p.file_size <= len
    &&& p.virtual_addr + p.mem_size <= usize::MAX
    &&& p.offset <= usize::MAX
    &&& p.offset % 4096 == p.virtual_addr % 4096
}

/// The image can be loaded without the kernel panicking: an executable
/// RISC-V header with a readable program table, every loadable segment
/// mappable.
pub open spec fn loadable(bytes: Seq<u8>) -> bool {
    match elf_header_of(bytes) {
        None => true,
        Some(h) => (h.elf_type == ET_EXEC && h.riscv) ==> {
            &&& ph_table_ok(h, bytes.len() as int)
            &&& forall|i: u16| #![trigger elf_program_of(bytes, i)] i < program_count(h) && elf_program_of(bytes, i).is_load
                ==> segment_ok(elf_program_of(bytes, i), bytes.len() as int)
        },
    }
}

/// A segment to map: pages `start_vpn..end_vpn`, filled from `file_len`
/// bytes of the image at `file_offset`, starting `page_offset` bytes into
/// the first page, with page flags `flags`.
#[derive(Clone, Copy, PartialEq, Eq, Structural, Debug)]
pub struct Segment {
    pub start_vpn: usize,
    pub end_vpn: usize,
    pub file_offset: usize,
    pub file_len: usize,
    pub page_offset: usize,
    pub flags: usize,
}

/// The page flags of a segment: user and valid, plus execute, write and
/// read as its flags say.
pub open spec fn segment_flags(flags: u32) -> usize {
    (FLAG_U + FLAG_V + (if flags & PF_X != 0 { FLAG_X as int } else { 0 }) + (if flags & PF_W != 0 {
        FLAG_W as int
    } else {
        0
    }) + (if flags & PF_R != 0 { FLAG_R as int } else { 0 })) as usize
}

/// Bit `b` (a power of two) is set in `v`.
pub open spec fn has_bit(v: int, b: int) -> bool {
    (v / b) % 2 == 1
}

/// A segment's page flags follow its program header: writable exactly
/// when the header says PF_W, executable exactly when PF_X, readable
/// exactly when PF_R; user and valid always, and no other bit.
pub proof fn lemma_segment_flags_follow_header(f: u32)
    ensures
        has_bit(segment_flags(f) as int, FLAG_W as int) <==> f & PF_W != 0,
        has_bit(segment_flags(f) as int, FLAG_X as int) <==> f & PF_X != 0,
        has_bit(segment_flags(f) as int, FLAG_R as int) <==> f & PF_R != 0,
        has_bit(segment_flags(f) as int, FLAG_U as int),
        has_bit(segment_flags(f) as int, FLAG_V as int),
        segment_flags(f) < 32,
{
    let x = f & PF_X != 0;
    let w = f & PF_W != 0;
    let r = f & PF_R != 0;
    let v = segment_flags(f) as int;
    assert(v == 17 + (if x { 8int } else { 0int }) + (if w { 4int } else { 0int }) + (if r { 2int } else { 0int }));
}

/// The segment a loadable program header asks for.
pub open spec fn segment_of(p: ElfProgram) -> Segment {
    Segment {
        start_vpn: vpn_of(p.virtual_addr as usize),
        end_vpn: vpn_ceil_of((p.virtual_addr + p.mem_size) as usize),
        file_offset: p.offset as usize,
        file_len: p.file_size as usize,
        page_offset: (p.virtual_addr % 4096) as usize,
        flags: segment_flags(p.flags),
    }
}

/// The segments of the first `n` program headers, in order.
pub open spec fn segments_upto(bytes: Seq<u8>, n: int) -> Seq<Segment>
    decreases n,
{
    if n <= 0 {
        seq![]
    } else {
        let p = elf_program_of(bytes, (n - 1) as u16);
        segments_upto(bytes, n - 1) + if p.is_load {
            seq![segment_of(p)]
        } else {
            seq![]
        }
    }
}

/// The highest end address among the loadable segments of the first `n`
/// program headers (0 when none).
pub open spec fn max_end_upto(bytes: Seq<u8>, n: int) -> int
    decreases n,
{
    if n <= 0 {
        0
    } else {
        let p = elf_program_of(bytes, (n - 1) as u16);
        let prev = max_end_upto(bytes, n - 1);
        if p.is_load && p.virtual_addr + p.mem_size > prev {
            p.virtual_addr + p.mem_size
        } else {
            prev
        }
    }
}

/// What loading a program does: where it starts, the segments to map, the
/// first page-aligned address above them (where the heap begins), and the
/// user stack of two pages below `STACK_TOP_VPN` with the stack pointer
/// at `USER_SP`.
pub struct LoadPlan {
    pub entry: usize,
    pub segments: Vec<Segment>,
    pub heap_bottom: u64,
    pub stack_start_vpn: usize,
    pub stack_end_vpn: usize,
    pub stack_flags: usize,
    pub user_sp: u64,
}

/// The heap's first address above a program that ends at `max_end`: the
/// page-aligned end taken as a 39-bit address, with bit 38 extended into
/// the upper bits as an Sv39 virtual address is.
pub open spec fn heap_bottom_of(max_end: int) -> int {
    let t = (vpn_ceil_of(max_end as usize) * 4096) % 0x80_0000_0000;
    if t < 0x40_0000_0000 {
        t
    } else {
        t + 0xffff_ff80_0000_0000
    }
}

/// The plan for an image: none unless it is an executable for RISC-V.
pub open spec fn plan_matches(bytes: Seq<u8>, r: Option<LoadPlan>) -> bool {
    match elf_header_of(bytes) {
        None => r is None,
        Some(h) => if h.elf_type == ET_EXEC && h.riscv {
            let n = program_count(h);
            &&& r is Some
            &&& r->0.entry == h.entry as usize
            &&& r->0.segments@ == segments_upto(bytes, n)
            &&& r->0.heap_bottom == heap_bottom_of(max_end_upto(bytes, n))
            &&& r->0.stack_start_vpn == STACK_TOP_VPN - STACK_PAGES
            &&& r->0.stack_end_vpn == STACK_TOP_VPN
            &&& r->0.stack_flags == FLAG_U + FLAG_W + FLAG_R + FLAG_V
            &&& r->0.user_sp == USER_SP
        } else {
            r is None
        },
    }
}

/// The segment a loadable program header asks for.
fn plan_segment(p: ElfProgram) -> (s: Segment)
    requires
        p.virtual_addr + p.mem_size <= usize::MAX,
        p.offset <= usize::MAX,
    ensures
        s == segment_of(p),
        has_bit(s.flags as int, FLAG_W as int) <==> p.flags & PF_W != 0,
        has_bit(s.flags as int, FLAG_X as int) <==> p.flags & PF_X != 0,
        has_bit(s.flags as int, FLAG_R as int) <==> p.flags & PF_R != 0,
{
    proof {
        lemma_segment_flags_follow_header(p.flags);
    }
    let off_mem = p.virtual_addr as usize;
    let end_mem = off_mem + p.mem_size as usize;
    let mut flags: usize = FLAG_U + FLAG_V;
    if p.flags & PF_X != 0 {
        flags = flags + FLAG_X;
    }
    if p.flags & PF_W != 0 {
        flags = flags + FLAG_W;
    }
    if p.flags & PF_R != 0 {
        flags = flags + FLAG_R;
    }
    Segment {
        start_vpn: vpn_floor(off_mem),
        end_vpn: vpn_ceil(end_mem),
        file_offset: p.offset as usize,
        file_len: p.file_size as usize,
        page_offset: off_mem % 4096,
        flags,
    }
}

/// Plans loading an image: none unless its header is that of an
/// executable for RISC-V; else its entry, a segment per loadable program
/// header in order, the heap's start and the user stack.
pub fn load_plan(bytes: &[u8]) -> (r: Option<LoadPlan>)
    requires
        loadable(bytes@),
    ensures
        plan_matches(bytes@, r),
{
    let h = match read_header(bytes) {
        Some(h) => h,
        None => {
            return None;
        },
    };
    if h.elf_type != ET_EXEC || !h.riscv {
        return None;
    }
    let count: u16 = if h.ph_offset == 0 || h.ph_entry_size == 0 {
        0
    } else {
        h.ph_count
    };
    let mut segments: Vec<Segment> = Vec::new();
    let mut max_end: usize = 0;
    let mut i: u16 = 0;
    while i < count
        invariant
            i <= count,
            count == program_count(h),
            elf_header_of(bytes@) == Some(h),
            h.elf_type == ET_EXEC && h.riscv,
            loadable(bytes@),
            segments@ == segments_upto(bytes@, i as int),
            max_end == max_end_upto(bytes@, i as int),
        decreases count - i,
    {
        let p = read_program(bytes, i);
        if p.is_load {
            assert(segment_ok(elf_program_of(bytes@, i), bytes@.len() as int));
            let seg = plan_segment(p);
            segments.push(seg);
            let end_mem = p.virtual_addr as usize + p.mem_size as usize;
            if end_mem > max_end {
                max_end = end_mem;
            }
        }
        proof {
            assert(((i + 1) as int - 1) as u16 == i);
        }
        i = i + 1;
    }
    let heap_vpn = vpn_ceil(max_end);
    let low: u64 = (heap_vpn as u64 * 4096) % 0x80_0000_0000;
    let heap_bottom: u64 = if low < 0x40_0000_0000 {
        low
    } else {
        low + 0xffff_ff80_0000_0000
    };
    Some(
        LoadPlan {
            entry: h.entry as usize,
            segments,
            heap_bottom,
            stack_start_vpn: STACK_TOP_VPN - STACK_PAGES,
            stack_end_vpn: STACK_TOP_VPN,
            stack_flags: FLAG_U + FLAG_W + FLAG_R + FLAG_V,
            user_sp: USER_SP,
        },
    )
}

/// Plans loading an image that may be malformed: reads the header and
/// each program header, and gives none where loading it would make the
/// kernel panic (a program table outside the image or with entries not at
/// multiples of 8, a segment outside the image, a segment whose end
/// overflows or whose offset and address disagree within a
/// page); else the plan `load_plan` gives.
pub fn checked_load_plan(bytes: &[u8]) -> (r: Option<LoadPlan>)
    ensures
        loadable(bytes@) ==> plan_matches(bytes@, r),
        !loadable(bytes@) ==> r is None,
{
    let h = match read_header(bytes) {
        Some(h) => h,
        None => {
            return None;
        },
    };
    if h.elf_type != ET_EXEC || !h.riscv {
        return None;
    }
    let len = bytes.len();
    assert((h.ph_count as u64) * (h.ph_entry_size as u64) <= 0xffff * 0xffff) by (nonlinear_arith)
        requires
            h.ph_count <= 0xffff,
            h.ph_entry_size <= 0xffff,
    ;
    let table_bytes: u64 = (h.ph_count as u64) * (h.ph_entry_size as u64);
    let table_ok = h.ph_offset == 0 || h.ph_entry_size == 0 || h.ph_count == 0 || (h.ph_entry_size
        >= PH64_SIZE && table_bytes <= len as u64 && h.ph_offset <= len as u64 - table_bytes
        && h.ph_offset % 8 == 0 && h.ph_entry_size % 8 == 0);
    if !table_ok {
        return None;
    }
    let count: u16 = if h.ph_offset == 0 || h.ph_entry_size == 0 {
        0
    } else {
        h.ph_count
    };
    let mut i: u16 = 0;
    while i < count
        invariant
            i <= count,
            count == program_count(h),
            elf_header_of(bytes@) == Some(h),
            ph_table_ok(h, bytes@.len() as int),
            len == bytes@.len(),
            forall|j: u16| #![trigger elf_program_of(bytes@, j)] j < i && elf_program_of(bytes@, j).is_load ==> segment_ok(
                elf_program_of(bytes@, j),
                bytes@.len() as int,
            ),
        decreases count - i,
    {
        let p = read_program(bytes, i);
        if p.is_load {
            let fits = p.file_size <= len as u64 && p.offset <= len as u64 - p.file_size;
            let no_overflow = p.mem_size <= usize::MAX as u64 && p.virtual_addr <= usize::MAX as u64
                - p.mem_size;
            let aligned = p.offset % 4096 == p.virtual_addr % 4096;
            if !(fits && no_overflow && aligned) {
                return None;
            }
        }
        i = i + 1;
    }
    load_plan(bytes)
}

} // verus!
