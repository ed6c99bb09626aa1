use estros::elf_load::{ElfFile, ProcessError, SegmentHeader, PT_LOAD};
use estros::scheduler::Process;

fn put_u16(v: &mut Vec<u8>, at: usize, x: u16) {
    v[at..at + 2].copy_from_slice(&x.to_le_bytes());
}

fn put_u32(v: &mut Vec<u8>, at: usize, x: u32) {
    v[at..at + 4].copy_from_slice(&x.to_le_bytes());
}

fn put_u64(v: &mut Vec<u8>, at: usize, x: u64) {
    v[at..at + 8].copy_from_slice(&x.to_le_bytes());
}

const PHOFF: usize = 64;
const DATA: usize = 232;
const SYMTAB: usize = 240;
const STRTAB: usize = 312;
const SHOFF: usize = 328;

fn program_header(v: &mut Vec<u8>, i: usize, p_type: u32, offset: u64, vaddr: u64, filesz: u64, memsz: u64) {
    let at = PHOFF + i * 56;
    put_u32(v, at, p_type);
    put_u32(v, at + 4, 5);
    put_u64(v, at + 8, offset);
    put_u64(v, at + 16, vaddr);
    put_u64(v, at + 24, vaddr);
    put_u64(v, at + 32, filesz);
    put_u64(v, at + 40, memsz);
    put_u64(v, at + 48, 0x1000);
}

fn symbol(v: &mut Vec<u8>, i: usize, name: u32, value: u64) {
    let at = SYMTAB + i * 24;
    put_u32(v, at, name);
    v[at + 4] = 0x12;
    put_u16(v, at + 6, 1);
    put_u64(v, at + 8, value);
    put_u64(v, at + 16, 0);
}

fn section_header(v: &mut Vec<u8>, i: usize, sh_type: u32, offset: u64, size: u64, link: u32, entsize: u64) {
    let at = SHOFF + i * 64;
    put_u32(v, at + 4, sh_type);
    put_u64(v, at + 24, offset);
    put_u64(v, at + 32, size);
    put_u32(v, at + 40, link);
    put_u64(v, at + 48, 1);
    put_u64(v, at + 56, entsize);
}

/// A small little-endian ELF64 executable: three program headers (a
/// loadable segment, a note, an empty loadable segment), and a symbol table
/// with the symbols `main` and `_start`.
fn sample_elf() -> Vec<u8> {
    let mut v = vec![0u8; SHOFF + 3 * 64];
    v[0..4].copy_from_slice(&[0x7f, b'E', b'L', b'F']);
    v[4] = 2;
    v[5] = 1;
    v[6] = 1;
    put_u16(&mut v, 16, 2);
    put_u16(&mut v, 18, 0xb7);
    put_u32(&mut v, 20, 1);
    put_u64(&mut v, 24, 0x400010);
    put_u64(&mut v, 32, PHOFF as u64);
    put_u64(&mut v, 40, SHOFF as u64);
    put_u16(&mut v, 52, 64);
    put_u16(&mut v, 54, 56);
    put_u16(&mut v, 56, 3);
    put_u16(&mut v, 58, 64);
    put_u16(&mut v, 60, 3);
    put_u16(&mut v, 62, 0);
    program_header(&mut v, 0, PT_LOAD, DATA as u64, 0x400000, 4, 8);
    program_header(&mut v, 1, 4, DATA as u64, 0, 4, 4);
    program_header(&mut v, 2, PT_LOAD, DATA as u64, 0x500000, 0, 0);
    v[DATA..DATA + 4].copy_from_slice(&[1, 2, 3, 4]);
    symbol(&mut v, 0, 0, 0);
    symbol(&mut v, 1, 1, 0x1000);
    symbol(&mut v, 2, 6, 0x400010);
    v[STRTAB..STRTAB + 13].copy_from_slice(b"\0main\0_start\0");
    section_header(&mut v, 1, 2, SYMTAB as u64, 72, 2, 24);
    section_header(&mut v, 2, 3, STRTAB as u64, 13, 0, 0);
    v
}

#[test]
fn bytes_that_are_no_elf_file_do_not_parse() {
    assert!(ElfFile::parse(&[0u8; 64]).is_none());
    assert!(ElfFile::parse(&[]).is_none());
    let data = sample_elf();
    assert!(ElfFile::parse(&data).is_some());
}

#[test]
fn only_loadable_segments_with_memory_are_loaded() {
    let data = sample_elf();
    let elf = ElfFile::parse(&data).unwrap();
    let segments = elf.load_segments().unwrap();
    assert_eq!(
        segments,
        vec![SegmentHeader {
            p_type: PT_LOAD,
            p_offset: DATA as u64,
            p_vaddr: 0x400000,
            p_paddr: 0x400000,
            p_filesz: 4,
            p_memsz: 8,
            p_flags: 5,
            p_align: 0x1000,
        }]
    );
}

#[test]
fn a_file_without_program_headers_has_no_segments() {
    let mut data = sample_elf();
    put_u64(&mut data, 32, 0);
    let elf = ElfFile::parse(&data).unwrap();
    assert!(matches!(
        elf.load_segments(),
        Err(ProcessError::ElfParseError("couldnt get elf segments"))
    ));
}

#[test]
fn segment_image_is_file_bytes_then_zeros() {
    let data = sample_elf();
    let elf = ElfFile::parse(&data).unwrap();
    let segments = elf.load_segments().unwrap();
    assert_eq!(elf.segment_image(&segments[0]), Some(vec![1, 2, 3, 4, 0, 0, 0, 0]));
    let mut past_end = segments[0];
    past_end.p_offset = data.len() as u64 - 2;
    assert_eq!(elf.segment_image(&past_end), None);
    let mut bss = segments[0];
    bss.p_filesz = 0;
    bss.p_memsz = 3;
    assert_eq!(elf.segment_image(&bss), Some(vec![0, 0, 0]));
}

#[test]
fn start_address_is_the_value_of_start() {
    let data = sample_elf();
    let elf = ElfFile::parse(&data).unwrap();
    assert!(matches!(elf.start_address(), Some(Ok(0x400010))));
}

#[test]
fn a_file_without_start_has_no_start_label() {
    let mut data = sample_elf();
    data[STRTAB + 6] = b'X';
    let elf = ElfFile::parse(&data).unwrap();
    assert!(matches!(
        elf.start_address(),
        Some(Err(ProcessError::ElfParseError("process has no start label")))
    ));
}

#[test]
fn a_file_without_sections_has_no_common_data() {
    let mut data = sample_elf();
    put_u64(&mut data, 40, 0);
    let elf = ElfFile::parse(&data).unwrap();
    assert!(matches!(
        elf.start_address(),
        Some(Err(ProcessError::ElfParseError("elf has no common data")))
    ));
}

#[test]
fn an_unreadable_name_before_start_gives_no_address() {
    let mut data = sample_elf();
    put_u32(&mut data, SYMTAB + 24, 100);
    let elf = ElfFile::parse(&data).unwrap();
    assert!(elf.start_address().is_none());
    let process: Option<Result<Process<()>, ProcessError>> = Process::from_elf(&elf, ());
    assert!(process.is_none());
}

#[test]
fn an_unreadable_name_after_start_is_never_read() {
    let mut data = sample_elf();
    put_u32(&mut data, SYMTAB + 2 * 24, 6);
    put_u32(&mut data, SYMTAB + 24, 6);
    put_u64(&mut data, SYMTAB + 24 + 8, 0x2222);
    put_u32(&mut data, SYMTAB + 2 * 24, 100);
    let elf = ElfFile::parse(&data).unwrap();
    assert!(matches!(elf.start_address(), Some(Ok(0x2222))));
}

#[test]
fn the_first_start_symbol_wins() {
    let mut data = sample_elf();
    put_u32(&mut data, SYMTAB + 24, 6);
    let elf = ElfFile::parse(&data).unwrap();
    assert!(matches!(elf.start_address(), Some(Ok(0x1000))));
}

#[test]
fn a_process_from_an_elf_file_starts_at_start() {
    let data = sample_elf();
    let elf = ElfFile::parse(&data).unwrap();
    let process = Process::from_elf(&elf, 7u32).unwrap().unwrap();
    assert_eq!(process.memory, 7);
    assert_eq!(process.threads.len(), 1);
    assert_eq!(process.threads.get(1).unwrap().state.elr, 0x400010);
}

#[test]
fn a_file_without_program_headers_gives_no_process() {
    let mut data = sample_elf();
    put_u64(&mut data, 32, 0);
    let elf = ElfFile::parse(&data).unwrap();
    assert!(matches!(elf.start_address(), Some(Ok(0x400010))));
    let process: Option<Result<Process<()>, ProcessError>> = Process::from_elf(&elf, ());
    assert!(matches!(process, Some(Err(ProcessError::ElfParseError("couldnt get elf segments")))));
}

#[test]
fn mapping_plan_covers_the_segment_in_memory() {
    let data = sample_elf();
    let elf = ElfFile::parse(&data).unwrap();
    let segments = elf.load_segments().unwrap();
    let plan = elf.mapping_plan(&segments[0]).unwrap();
    assert_eq!(plan.header, segments[0]);
    assert_eq!((plan.start, plan.end), (0x400000, 0x400008));
    assert_eq!(plan.image, Some(vec![1, 2, 3, 4, 0, 0, 0, 0]));
    assert_eq!(plan.attributes, estros::paging::elf_flags_to_mmu_constrains(5));
    let mut past_end = segments[0];
    past_end.p_offset = data.len() as u64;
    assert_eq!(elf.mapping_plan(&past_end).unwrap().image, None);
    let mut wraps = segments[0];
    wraps.p_vaddr = u64::MAX - 4;
    assert!(elf.mapping_plan(&wraps).is_none());
}

#[test]
fn a_name_that_is_not_utf8_before_start_gives_no_address() {
    let mut data = sample_elf();
    data[STRTAB + 1] = 0xff;
    let elf = ElfFile::parse(&data).unwrap();
    assert!(elf.start_address().is_none());
    data[STRTAB + 1] = b'm';
    data[STRTAB + 7] = 0xc3;
    let elf = ElfFile::parse(&data).unwrap();
    assert!(elf.start_address().is_none());
}
