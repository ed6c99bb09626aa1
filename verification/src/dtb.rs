//! The flattened device tree blob: its header and its memory reservation
//! block, both stored big-endian.
use vstd::prelude::*;

verus! {

/// Size of the header in bytes.
pub const DTB_HEADER_SIZE: usize = 40;

/// The magic number a device tree blob starts with.
pub const DTB_MAGIC: u32 = 0xd00dfeed;

/// The one version of the format the kernel reads.
pub const DTB_VERSION: u32 = 17;

/// The big-endian 32-bit number at byte `off` of `s`.
pub open spec fn be_u32(s: Seq<u8>, off: int) -> u32 {
    (s[off] as int * 0x100_0000 + s[off + 1] as int * 0x1_0000 + s[off + 2] as int * 0x100 + s[off + 3] as int) as u32
}

/// The big-endian 64-bit number at byte `off` of `s`.
pub open spec fn be_u64(s: Seq<u8>, off: int) -> u64 {
    (be_u32(s, off) as int * 0x1_0000_0000 + be_u32(s, off + 4) as int) as u64
}

/// Reads the big-endian 32-bit number at byte `off`.
fn read_be_u32(bytes: &[u8], off: usize) -> (r: u32)
    requires
        off + 4 <= bytes@.len(),
    ensures
        r == be_u32(bytes@, off as int),
{
    let b0 = bytes[off] as u32;
    let b1 = bytes[off + 1] as u32;
    let b2 = bytes[off + 2] as u32;
    let b3 = bytes[off + 3] as u32;
    let r = (b0 << 24u32) | (b1 << 16u32) | (b2 << 8u32) | b3;
    assert(b0 < 256 && b1 < 256 && b2 < 256 && b3 < 256 ==> (b0 << 24u32) | (b1 << 16u32) | (b2 << 8u32) | b3
        == b0 * 0x100_0000 + b1 * 0x1_0000 + b2 * 0x100 + b3) by (bit_vector);
    r
}

/// Reads the big-endian 64-bit number at byte `off`.
fn read_be_u64(bytes: &[u8], off: usize) -> (r: u64)
    requires
        off + 8 <= bytes@.len(),
    ensures
        r == be_u64(bytes@, off as int),
{
    let _len = bytes.len();
    let hi = read_be_u32(bytes, off) as u64;
    let lo = read_be_u32(bytes, off + 4) as u64;
    assert(hi < 0x1_0000_0000 && lo < 0x1_0000_0000 ==> (hi << 32u64) | lo == hi * 0x1_0000_0000 + lo) by (bit_vector);
    (hi << 32u64) | lo
}

/// Why a device tree blob was refused.
#[derive(Debug, PartialEq, Eq, Structural)]
pub enum DtbError {
    /// The header does not start with the magic number.
    InvalidMagic,
    /// The blob is not of version 17.
    UnsupportedVersion,
}

impl DtbError {
    /// The message the error is displayed with.
    pub fn message(&self) -> (m: &'static str)
        ensures
            m@ == match *self {
                DtbError::InvalidMagic => "invalid header magic"@,
                DtbError::UnsupportedVersion => "dtb version is not v17"@,
            },
    {
        match self {
            DtbError::InvalidMagic => "invalid header magic",
            DtbError::UnsupportedVersion => "dtb version is not v17",
        }
    }
}

/// The header of a device tree blob, in native byte order.
#[derive(Clone, Debug)]
pub struct DtbHeader {
    magic: u32,
    pub totalsize: u32,
    pub off_dt_struct: u32,
    pub off_dt_strings: u32,
    pub off_mem_rsvmap: u32,
    version: u32,
    last_comp_version: u32,
    boot_cpuid_phys: u32,
    pub size_dt_strings: u32,
    pub size_dt_structs: u32,
}

/// The ten header fields stored big-endian at the start of `s`.
pub open spec fn header_fields(s: Seq<u8>) -> Seq<u32> {
    Seq::new(10, |i: int| be_u32(s, 4 * i))
}

/// Whether header fields pass the checks of `is_sane`.
pub open spec fn fields_sane(f: Seq<u32>) -> bool {
    f[0] == DTB_MAGIC && f[5] == DTB_VERSION
}

impl View for DtbHeader {
    /// The fields in the order they are stored: magic, totalsize,
    /// off_dt_struct, off_dt_strings, off_mem_rsvmap, version,
    /// last_comp_version, boot_cpuid_phys, size_dt_strings, size_dt_structs.
    type V = Seq<u32>;

    closed spec fn view(&self) -> Seq<u32> {
        seq![
            self.magic,
            self.totalsize,
            self.off_dt_struct,
            self.off_dt_strings,
            self.off_mem_rsvmap,
            self.version,
            self.last_comp_version,
            self.boot_cpuid_phys,
            self.size_dt_strings,
            self.size_dt_structs,
        ]
    }
}

impl DtbHeader {
    /// Reads the header from the first 40 bytes of a blob.
    pub fn new(bytes: &[u8]) -> (h: DtbHeader)
        requires
            bytes@.len() >= DTB_HEADER_SIZE,
        ensures
            h@ == header_fields(bytes@),
    {
        let h = DtbHeader {
            magic: read_be_u32(bytes, 0),
            totalsize: read_be_u32(bytes, 4),
            off_dt_struct: read_be_u32(bytes, 8),
            off_dt_strings: read_be_u32(bytes, 12),
            off_mem_rsvmap: read_be_u32(bytes, 16),
            version: read_be_u32(bytes, 20),
            last_comp_version: read_be_u32(bytes, 24),
            boot_cpuid_phys: read_be_u32(bytes, 28),
            size_dt_strings: read_be_u32(bytes, 32),
            size_dt_structs: read_be_u32(bytes, 36),
        };
        assert(h@ =~= header_fields(bytes@));
        h
    }

    /// Checks the magic number, then the version.
    pub fn is_sane(&self) -> (r: Result<(), DtbError>)
        ensures
            match r {
                Ok(()) => fields_sane(self@),
                Err(e) => {
                    &&& !fields_sane(self@)
                    &&& e == if self@[0] != DTB_MAGIC { DtbError::InvalidMagic } else { DtbError::UnsupportedVersion }
                },
            },
    {
        if self.magic != DTB_MAGIC {
            return Err(DtbError::InvalidMagic);
        }
        if self.version != DTB_VERSION {
            return Err(DtbError::UnsupportedVersion);
        }
        Ok(())
    }
}

/// A memory reservation: a physical address range the kernel must not use.
#[derive(Clone, Copy, Debug, PartialEq, Eq, Structural)]
pub struct BlockEntry {
    pub address: u64,
    pub size: u64,
}

/// Entry `i` of the reservation list that starts at byte `start`.
pub open spec fn entry_at(s: Seq<u8>, start: int, i: int) -> BlockEntry {
    BlockEntry { address: be_u64(s, start + 16 * i), size: be_u64(s, start + 16 * i + 8) }
}

/// The all-zero entry ends the list.
pub open spec fn is_terminator(e: BlockEntry) -> bool {
    e.address == 0 && e.size == 0
}

/// The reservation list at `start` lies inside `s` up to its first entry,
/// and that first entry is the terminating one.
pub open spec fn ends_at_first_entry(s: Seq<u8>, start: int) -> bool {
    start + 16 <= s.len() && is_terminator(entry_at(s, start, 0))
}

/// The memory reservation block: its entries, in order, without the
/// terminating all-zero entry.
#[derive(Debug)]
pub struct MemoryReservationBlock {
    pub entries: Vec<BlockEntry>,
}

impl MemoryReservationBlock {
    /// Reads the reservation list that starts at byte `start` of `bytes`.
    /// The reader does not move past the first entry, reading it again on
    /// every round, so it returns (with no entries) only where that first
    /// entry is the terminating one.
    fn parse_at(bytes: &[u8], start: usize) -> (b: MemoryReservationBlock)
        requires
            ends_at_first_entry(bytes@, start as int),
        ensures
            b.entries@ == Seq::<BlockEntry>::empty(),
    {
        let entries: Vec<BlockEntry> = Vec::new();
        let _len = bytes.len();
        let entry = BlockEntry { address: read_be_u64(bytes, start), size: read_be_u64(bytes, start + 8) };
        assert(entry == entry_at(bytes@, start as int, 0));
        assert(entry.address == 0 && entry.size == 0);
        MemoryReservationBlock { entries }
    }

    /// Whether the reservation list that starts at byte `start` of `bytes`
    /// ends with its first entry, inside `bytes`.
    pub fn ends_at_first_entry(bytes: &[u8], start: usize) -> (b: bool)
        ensures
            b == ends_at_first_entry(bytes@, start as int),
    {
        if start > bytes.len() || bytes.len() - start < 16 {
            return false;
        }
        let entry = BlockEntry { address: read_be_u64(bytes, start), size: read_be_u64(bytes, start + 8) };
        assert(entry == entry_at(bytes@, start as int, 0));
        entry.address == 0 && entry.size == 0
    }

    /// Reads the reservation list that starts at the first byte of `bytes`.
    pub fn new(bytes: &[u8]) -> (b: MemoryReservationBlock)
        requires
            ends_at_first_entry(bytes@, 0),
        ensures
            b.entries@ == Seq::<BlockEntry>::empty(),
    {
        Self::parse_at(bytes, 0)
    }
}

/// A parsed device tree blob.
pub struct Dtb {
    pub header: DtbHeader,
    pub memory_reservations: MemoryReservationBlock,
}

impl Dtb {
    /// Reads and checks the header of `blob`, then reads the memory
    /// reservation block it points to.
    pub fn new(blob: &[u8]) -> (r: Result<Dtb, DtbError>)
        requires
            blob@.len() >= DTB_HEADER_SIZE,
            fields_sane(header_fields(blob@)) ==> ends_at_first_entry(blob@, header_fields(blob@)[4] as int),
        ensures
            match r {
                Ok(d) => {
                    &&& fields_sane(header_fields(blob@))
                    &&& d.header@ == header_fields(blob@)
                    &&& d.memory_reservations.entries@ == Seq::<BlockEntry>::empty()
                },
                Err(e) => {
                    &&& !fields_sane(header_fields(blob@))
                    &&& e == if header_fields(blob@)[0] != DTB_MAGIC { DtbError::InvalidMagic } else { DtbError::UnsupportedVersion }
                },
            },
    {
        let header = DtbHeader::new(blob);
        match header.is_sane() {
            Ok(()) => {},
            Err(e) => return Err(e),
        }
        let mem_base = header.off_mem_rsvmap as usize;
        let memory_reservations = MemoryReservationBlock::parse_at(blob, mem_base);
        Ok(Dtb { header, memory_reservations })
    }
}

/// The strings block of a blob: the property names.
pub struct StringsBlock {
    pub strings: Vec<String>,
}

} // verus!
