//! The kernel's own address space: each section of the kernel image and
//! the memory above it mapped onto itself, and the portal page that user
//! address spaces share with the kernel.
use vstd::prelude::*;
use crate::pager::{vpn_ceil, vpn_ceil_of, vpn_floor, vpn_of, FLAG_R, FLAG_V, FLAG_W, FLAG_X};

verus! {

/// Page table entry flag: global.
pub const FLAG_G: usize = 32;
/// The page the portal is mapped at: the highest page of the address space.
pub const PORTAL_VPN: usize = 0x7ff_ffff;

/// The part of the kernel image a section holds.
#[derive(Clone, Copy, PartialEq, Eq, Structural, Debug)]
pub enum SectionKind {
    Text,
    Rodata,
    Data,
    Boot,
}

/// A section of the kernel image, `start..end` in bytes.
#[derive(Clone, Copy, PartialEq, Eq, Structural, Debug)]
pub struct Section {
    pub kind: SectionKind,
    pub start: usize,
    pub end: usize,
}

/// Pages `start_vpn..end_vpn` mapped onto frames from `ppn` with `flags`.
#[derive(Clone, Copy, PartialEq, Eq, Structural, Debug)]
pub struct KernelMapping {
    pub start_vpn: usize,
    pub end_vpn: usize,
    pub ppn: usize,
    pub flags: usize,
}

/// Code is executable, read-only data readable, the rest writable.
pub open spec fn section_flags(kind: SectionKind) -> usize {
    match kind {
        SectionKind::Text => (FLAG_X + FLAG_R + FLAG_V) as usize,
        SectionKind::Rodata => (FLAG_R + FLAG_V) as usize,
        SectionKind::Data | SectionKind::Boot => (FLAG_W + FLAG_R + FLAG_V) as usize,
    }
}

/// The bytes `start..end` mapped onto themselves, whole pages, with `flags`.
pub open spec fn identity(start: usize, end: usize, flags: usize) -> KernelMapping {
    KernelMapping { start_vpn: vpn_of(start), end_vpn: vpn_ceil_of(end), ppn: vpn_of(start), flags }
}

/// The flags of a section.
fn flags_of(kind: SectionKind) -> (r: usize)
    ensures
        r == section_flags(kind),
{
    match kind {
        SectionKind::Text => FLAG_X + FLAG_R + FLAG_V,
        SectionKind::Rodata => FLAG_R + FLAG_V,
        SectionKind::Data | SectionKind::Boot => FLAG_W + FLAG_R + FLAG_V,
    }
}

/// The mappings of the kernel's address space, in order: each section
/// onto itself with its flags; the memory from the end of the image up to
/// `memory` bytes past its start, writable; the portal page at
/// `PORTAL_VPN` onto the frame at `portal`, global and fully accessible.
pub fn kernel_mappings(
    sections: &[Section],
    image_start: usize,
    image_end: usize,
    memory: usize,
    portal: usize,
) -> (r: Vec<KernelMapping>)
    requires
        image_start + memory <= usize::MAX,
    ensures
        r@.len() == sections@.len() + 2,
        forall|i: int|
            0 <= i < sections@.len() ==> #[trigger] r@[i] == identity(
                sections@[i].start,
                sections@[i].end,
                section_flags(sections@[i].kind),
            ),
        r@[sections@.len() as int] == identity(
            image_end,
            (image_start + memory) as usize,
            (FLAG_W + FLAG_R + FLAG_V) as usize,
        ),
        r@[sections@.len() + 1int] == (KernelMapping {
            start_vpn: PORTAL_VPN,
            end_vpn: (PORTAL_VPN + 1) as usize,
            ppn: portal / 4096,
            flags: (FLAG_G + FLAG_X + FLAG_W + FLAG_R + FLAG_V) as usize,
        }),
{
    let mut v: Vec<KernelMapping> = Vec::new();
    let mut i: usize = 0;
    while i < sections.len()
        invariant
            i <= sections@.len(),
            v@.len() == i,
            forall|k: int|
                0 <= k < i ==> #[trigger] v@[k] == identity(
                    sections@[k].start,
                    sections@[k].end,
                    section_flags(sections@[k].kind),
                ),
        decreases sections.len() - i,
    {
        let s = sections[i];
        let start = vpn_floor(s.start);
        v.push(KernelMapping { start_vpn: start, end_vpn: vpn_ceil(s.end), ppn: start, flags: flags_of(s.kind) });
        i = i + 1;
    }
    let heap_start = vpn_floor(image_end);
    v.push(
        KernelMapping {
            start_vpn: heap_start,
            end_vpn: vpn_ceil(image_start + memory),
            ppn: heap_start,
            flags: FLAG_W + FLAG_R + FLAG_V,
        },
    );
    v.push(
        KernelMapping {
            start_vpn: PORTAL_VPN,
            end_vpn: PORTAL_VPN + 1,
            ppn: portal / 4096,
            flags: FLAG_G + FLAG_X + FLAG_W + FLAG_R + FLAG_V,
        },
    );
    v
}

} // verus!
