use tg_rcore::kernel_map::{kernel_mappings, KernelMapping, Section, SectionKind, PORTAL_VPN};

#[test]
fn kernel_sections_map_onto_themselves() {
    let sections = [
        Section { kind: SectionKind::Text, start: 0x8020_0000, end: 0x8020_3456 },
        Section { kind: SectionKind::Rodata, start: 0x8020_4000, end: 0x8020_5000 },
        Section { kind: SectionKind::Data, start: 0x8020_5000, end: 0x8020_6001 },
        Section { kind: SectionKind::Boot, start: 0x8020_7000, end: 0x8020_8000 },
    ];
    let m = kernel_mappings(&sections, 0x8020_0000, 0x8030_0000, 0x600_0000, 0x8700_0000);
    assert_eq!(
        m,
        vec![
            KernelMapping { start_vpn: 0x80200, end_vpn: 0x80204, ppn: 0x80200, flags: 11 },
            KernelMapping { start_vpn: 0x80204, end_vpn: 0x80205, ppn: 0x80204, flags: 3 },
            KernelMapping { start_vpn: 0x80205, end_vpn: 0x80207, ppn: 0x80205, flags: 7 },
            KernelMapping { start_vpn: 0x80207, end_vpn: 0x80208, ppn: 0x80207, flags: 7 },
            KernelMapping { start_vpn: 0x80300, end_vpn: 0x86200, ppn: 0x80300, flags: 7 },
            KernelMapping { start_vpn: PORTAL_VPN, end_vpn: PORTAL_VPN + 1, ppn: 0x87000, flags: 47 },
        ]
    );
}
