//! Address arithmetic between the kernel's virtual addresses and physical
//! memory, and the page-table attributes the kernel maps memory with.
use vstd::prelude::*;
use aarch64_paging::descriptor::Attributes;

verus! {

/// Where the kernel image is mapped in the virtual address space.
pub const KERNEL_VIRTUAL_BASE: u64 = 0xFFFF_FFFF_8000_0000;

/// Where the kernel image sits in physical memory.
pub const KERNEL_PHYSICAL_BASE: u64 = 0x4000_0000;

/// The physical address behind a kernel virtual address.
pub fn kernel_virtual_to_physical(ptr: u64) -> (r: u64)
    requires
        ptr >= KERNEL_VIRTUAL_BASE,
    ensures
        r == ptr - KERNEL_VIRTUAL_BASE + KERNEL_PHYSICAL_BASE,
{
    ptr - KERNEL_VIRTUAL_BASE + KERNEL_PHYSICAL_BASE
}

/// The kernel virtual address of a physical address (the translation page
/// tables are reached through).
pub fn kernel_physical_to_virtual(pa: u64) -> (r: u64)
    requires
        pa <= u64::MAX - KERNEL_VIRTUAL_BASE,
    ensures
        r == pa + KERNEL_VIRTUAL_BASE - KERNEL_PHYSICAL_BASE,
        r != 0,
{
    pa + KERNEL_VIRTUAL_BASE - KERNEL_PHYSICAL_BASE
}

/// The two translations undo each other on the physical addresses from the
/// kernel's physical base up, as far as the virtual window reaches.
pub proof fn lemma_translation_round_trip(pa: u64, va: u64)
    ensures
        KERNEL_PHYSICAL_BASE <= pa <= u64::MAX - KERNEL_VIRTUAL_BASE ==> {
            let v = pa + KERNEL_VIRTUAL_BASE - KERNEL_PHYSICAL_BASE;
            &&& v >= KERNEL_VIRTUAL_BASE
            &&& v - KERNEL_VIRTUAL_BASE + KERNEL_PHYSICAL_BASE == pa
        },
        va >= KERNEL_VIRTUAL_BASE && va - KERNEL_VIRTUAL_BASE + KERNEL_PHYSICAL_BASE <= u64::MAX - KERNEL_VIRTUAL_BASE ==> {
            let p = va - KERNEL_VIRTUAL_BASE + KERNEL_PHYSICAL_BASE;
            p + KERNEL_VIRTUAL_BASE - KERNEL_PHYSICAL_BASE == va
        },
{
}

/// Specifications of the page-table attribute values of `aarch64_paging`.
#[verifier::external_type_specification]
#[verifier::external_body]
pub struct ExAttributes(Attributes);

/// The attribute value `Attributes::from_bits_retain` builds from `bits`.
pub uninterp spec fn attributes_of_bits(bits: u64) -> Attributes;

/// `Attributes::from_bits_retain`: the attribute value with exactly these
/// bits; the result is named by `attributes_of_bits`.
#[verifier::external_body]
fn attributes_from_bits(bits: u64) -> (r: Attributes)
    ensures
        r == attributes_of_bits(bits),
{
    Attributes::from_bits_retain(bits as usize)
}

/// The bits of `Attributes::VALID` (bit 0, as its definition gives them).
#[verifier::external_body]
fn attr_valid_bits() -> (r: u64)
    ensures
        r == 0x1,
{
    Attributes::VALID.bits() as u64
}

/// The bits of `Attributes::ATTRIBUTE_INDEX_0` (none).
#[verifier::external_body]
fn attr_index0_bits() -> (r: u64)
    ensures
        r == 0x0,
{
    Attributes::ATTRIBUTE_INDEX_0.bits() as u64
}

/// The bits of `Attributes::ATTRIBUTE_INDEX_1` (1 << 2).
#[verifier::external_body]
fn attr_index1_bits() -> (r: u64)
    ensures
        r == 0x4,
{
    Attributes::ATTRIBUTE_INDEX_1.bits() as u64
}

/// The bits of `Attributes::USER` (1 << 6).
#[verifier::external_body]
fn attr_user_bits() -> (r: u64)
    ensures
        r == 0x40,
{
    Attributes::USER.bits() as u64
}

/// The bits of `Attributes::READ_ONLY` (1 << 7).
#[verifier::external_body]
fn attr_read_only_bits() -> (r: u64)
    ensures
        r == 0x80,
{
    Attributes::READ_ONLY.bits() as u64
}

/// The bits of `Attributes::OUTER_SHAREABLE` (2 << 8).
#[verifier::external_body]
fn attr_outer_shareable_bits() -> (r: u64)
    ensures
        r == 0x200,
{
    Attributes::OUTER_SHAREABLE.bits() as u64
}

/// The bits of `Attributes::INNER_SHAREABLE` (3 << 8).
#[verifier::external_body]
fn attr_inner_shareable_bits() -> (r: u64)
    ensures
        r == 0x300,
{
    Attributes::INNER_SHAREABLE.bits() as u64
}

/// The bits of `Attributes::ACCESSED` (1 << 10).
#[verifier::external_body]
fn attr_accessed_bits() -> (r: u64)
    ensures
        r == 0x400,
{
    Attributes::ACCESSED.bits() as u64
}

/// The bits of `Attributes::NON_GLOBAL` (1 << 11).
#[verifier::external_body]
fn attr_non_global_bits() -> (r: u64)
    ensures
        r == 0x800,
{
    Attributes::NON_GLOBAL.bits() as u64
}

/// The bits of `Attributes::PXN` (1 << 53).
#[verifier::external_body]
fn attr_pxn_bits() -> (r: u64)
    ensures
        r == 0x20_0000_0000_0000,
{
    Attributes::PXN.bits() as u64
}

/// The bits of `Attributes::UXN` (1 << 54).
#[verifier::external_body]
fn attr_uxn_bits() -> (r: u64)
    ensures
        r == 0x40_0000_0000_0000,
{
    Attributes::UXN.bits() as u64
}

/// Bits of normal cacheable memory: memory attribute index 0, inner shareable.
pub open spec fn normal_cacheable_spec() -> u64 {
    0x0u64 | 0x300u64
}

/// Attributes of normal cacheable memory (memory attribute index 0, inner
/// shareable), as bits.
pub fn normal_cacheable_bits() -> (r: u64)
    ensures
        r == normal_cacheable_spec(),
{
    attr_index0_bits() | attr_inner_shareable_bits()
}

/// Attributes of normal cacheable memory.
pub fn normal_cacheable() -> (r: Attributes)
    ensures
        r == attributes_of_bits(normal_cacheable_spec()),
{
    attributes_from_bits(normal_cacheable_bits())
}

/// Bits of device memory: memory attribute index 1, accessed, valid, not
/// global.
pub open spec fn device_memory_spec() -> u64 {
    0x4u64 | 0x400u64 | 0x1u64 | 0x800u64
}

/// Attributes of device memory (memory attribute index 1, accessed, valid,
/// not global).
pub fn device_memory() -> (r: Attributes)
    ensures
        r == attributes_of_bits(device_memory_spec()),
{
    let bits = attr_index1_bits() | attr_accessed_bits() | attr_valid_bits() | attr_non_global_bits();
    attributes_from_bits(bits)
}

/// Bits of the kernel image's mapping: normal cacheable, not global, valid,
/// accessed, outer shareable.
pub open spec fn kernel_memory_spec() -> u64 {
    normal_cacheable_spec() | 0x800u64 | 0x1u64 | 0x400u64 | 0x200u64
}

/// Attributes the kernel image is mapped with.
pub fn kernel_memory() -> (r: Attributes)
    ensures
        r == attributes_of_bits(kernel_memory_spec()),
{
    let bits = normal_cacheable_bits() | attr_non_global_bits() | attr_valid_bits() | attr_accessed_bits()
        | attr_outer_shareable_bits();
    attributes_from_bits(bits)
}

/// Bits of a user segment with ELF segment flags `flags`: normal cacheable,
/// never executable at EL1, user accessible, valid, accessed, not global;
/// never executable at EL0 unless the segment is executable (flag bit 0), and
/// read-only unless it is writable (flag bit 1).
pub open spec fn elf_segment_bits(flags: u32) -> u64 {
    let base = normal_cacheable_spec() | 0x20_0000_0000_0000u64 | 0x40u64 | 0x1u64 | 0x400u64 | 0x800u64;
    let with_uxn = if flags & 1u32 == 0 { base | 0x40_0000_0000_0000u64 } else { base };
    if flags & 2u32 == 0 { with_uxn | 0x80u64 } else { with_uxn }
}

/// The attributes a user segment with ELF segment flags `flags` is mapped
/// with, as bits.
pub fn elf_flags_to_mmu_bits(flags: u32) -> (r: u64)
    ensures
        r == elf_segment_bits(flags),
{
    let exec = flags & 0x1 != 0;
    let write = flags & 0x2 != 0;
    let mut acc = normal_cacheable_bits() | attr_pxn_bits() | attr_user_bits() | attr_valid_bits()
        | attr_accessed_bits() | attr_non_global_bits();
    if !exec {
        acc = acc | attr_uxn_bits();
    }
    if !write {
        acc = acc | attr_read_only_bits();
    }
    acc
}

/// The attributes a user segment with ELF segment flags `flags` is mapped with.
pub fn elf_flags_to_mmu_constrains(flags: u32) -> (r: Attributes)
    ensures
        r == attributes_of_bits(elf_segment_bits(flags)),
{
    attributes_from_bits(elf_flags_to_mmu_bits(flags))
}

} // verus!
