use estros::paging::{
    device_memory, elf_flags_to_mmu_bits, elf_flags_to_mmu_constrains, kernel_memory, kernel_physical_to_virtual,
    kernel_virtual_to_physical, normal_cacheable, normal_cacheable_bits,
};

#[test]
fn kernel_addresses_translate() {
    assert_eq!(kernel_virtual_to_physical(0xFFFF_FFFF_8000_0000), 0x4000_0000);
    assert_eq!(kernel_virtual_to_physical(0xFFFF_FFFF_8012_3456), 0x4012_3456);
    assert_eq!(kernel_physical_to_virtual(0x4000_0000), 0xFFFF_FFFF_8000_0000);
    assert_eq!(kernel_physical_to_virtual(0x4012_3456), 0xFFFF_FFFF_8012_3456);
}

#[test]
fn translations_round_trip() {
    for pa in [0x4000_0000u64, 0x4000_1000, 0x5555_5555, 0x7FFF_FFFF] {
        assert_eq!(kernel_virtual_to_physical(kernel_physical_to_virtual(pa)), pa);
    }
}

#[test]
fn memory_attributes() {
    assert_eq!(normal_cacheable_bits(), 0x300);
    assert_eq!(normal_cacheable().bits(), 0x300);
    assert_eq!(device_memory().bits(), 0x4 | 0x400 | 0x1 | 0x800);
    assert_eq!(kernel_memory().bits(), 0x300 | 0x800 | 0x1 | 0x400);
}

#[test]
fn elf_segment_flags_to_attributes() {
    let base: u64 = 0x300 | (1 << 53) | 0x40 | 0x1 | 0x400 | 0x800;
    // read only, not executable
    assert_eq!(elf_flags_to_mmu_bits(0x4), base | (1 << 54) | 0x80);
    // executable
    assert_eq!(elf_flags_to_mmu_bits(0x5), base | 0x80);
    // writable
    assert_eq!(elf_flags_to_mmu_bits(0x6), base | (1 << 54));
    // writable and executable
    assert_eq!(elf_flags_to_mmu_bits(0x7), base);
    assert_eq!(elf_flags_to_mmu_constrains(0x6).bits() as u64, base | (1 << 54));
}
