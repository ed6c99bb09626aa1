use estros::dtb::{Dtb, DtbError, DtbHeader, MemoryReservationBlock};

fn be32(v: u32) -> [u8; 4] {
    v.to_be_bytes()
}

fn header_bytes(magic: u32, version: u32, off_mem_rsvmap: u32) -> Vec<u8> {
    let fields = [magic, 0x1000, 0x38, 0x200, off_mem_rsvmap, version, 16, 0, 0x40, 0x180];
    fields.iter().flat_map(|f| be32(*f)).collect()
}

fn entry(address: u64, size: u64) -> Vec<u8> {
    let mut v = address.to_be_bytes().to_vec();
    v.extend_from_slice(&size.to_be_bytes());
    v
}

#[test]
fn sane_header_passes() {
    let bytes = header_bytes(0xd00dfeed, 17, 0x28);
    let h = DtbHeader::new(&bytes);
    assert_eq!(h.totalsize, 0x1000);
    assert_eq!(h.off_dt_struct, 0x38);
    assert_eq!(h.off_dt_strings, 0x200);
    assert_eq!(h.off_mem_rsvmap, 0x28);
    assert_eq!(h.size_dt_strings, 0x40);
    assert_eq!(h.size_dt_structs, 0x180);
    assert_eq!(h.is_sane(), Ok(()));
}

#[test]
fn wrong_magic_is_refused_first() {
    let h = DtbHeader::new(&header_bytes(0xedfe0dd0, 16, 0x28));
    assert_eq!(h.is_sane(), Err(DtbError::InvalidMagic));
    assert_eq!(DtbError::InvalidMagic.message(), "invalid header magic");
}

#[test]
fn wrong_version_is_refused() {
    let h = DtbHeader::new(&header_bytes(0xd00dfeed, 16, 0x28));
    assert_eq!(h.is_sane(), Err(DtbError::UnsupportedVersion));
    assert_eq!(DtbError::UnsupportedVersion.message(), "dtb version is not v17");
}

#[test]
fn empty_reservation_block() {
    let block = MemoryReservationBlock::new(&entry(0, 0));
    assert!(block.entries.is_empty());
}

#[test]
fn whole_blob_parses() {
    let mut blob = header_bytes(0xd00dfeed, 17, 0x30);
    blob.extend([0u8; 8]);
    blob.extend(entry(0, 0));
    blob.extend(entry(0x4000_0000, 0x10_0000));
    let dtb = Dtb::new(&blob).ok().unwrap();
    assert_eq!(dtb.header.off_mem_rsvmap, 0x30);
    assert!(dtb.memory_reservations.entries.is_empty());
}

#[test]
fn blob_with_bad_header_is_refused() {
    let blob = header_bytes(0, 17, 0x28);
    assert_eq!(Dtb::new(&blob).err(), Some(DtbError::InvalidMagic));
    let blob = header_bytes(0xd00dfeed, 1, 0x28);
    assert_eq!(Dtb::new(&blob).err(), Some(DtbError::UnsupportedVersion));
}

#[test]
fn only_a_list_ending_at_its_first_entry_is_read_to_its_end() {
    let mut bytes = entry(0x4000_0000, 0x1000);
    bytes.extend(entry(0, 0));
    assert!(!MemoryReservationBlock::ends_at_first_entry(&bytes, 0));
    assert!(MemoryReservationBlock::ends_at_first_entry(&bytes, 16));
    assert!(!MemoryReservationBlock::ends_at_first_entry(&bytes, 8));
    assert!(!MemoryReservationBlock::ends_at_first_entry(&bytes[..31], 16));
    assert!(!MemoryReservationBlock::ends_at_first_entry(&bytes, 40));
    assert!(!MemoryReservationBlock::ends_at_first_entry(&[], 0));
    let mut zero_address = entry(0, 0x1000);
    zero_address.extend(entry(0, 0));
    assert!(!MemoryReservationBlock::ends_at_first_entry(&zero_address, 0));
}
