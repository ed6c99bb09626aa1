//! What the kernel takes from an ELF executable to load it as a process:
//! its loadable segments and the address of its `_start` symbol.
use vstd::prelude::*;
use elf::endian::AnyEndian;
use elf::parse::ParsingTable;
use elf::segment::ProgramHeader;
use elf::symbol::Symbol;
use elf::string_table::StringTable;
use elf::{ElfBytes, ParseError};
use aarch64_paging::descriptor::Attributes;
use vstd::utf8::valid_utf8;
use crate::messages::greeting;
use crate::paging::{attributes_of_bits, elf_flags_to_mmu_constrains, elf_segment_bits};
use crate::scheduler::Process;
use crate::threads::{SchedulerThread, Tid};

verus! {

/// Segment type of a loadable segment.
pub const PT_LOAD: u32 = 1;

/// `elf::ParseError`, an opaque type here.
#[verifier::external_type_specification]
#[verifier::external_body]
pub struct ExParseError(ParseError);

/// Errors of loading a process.
#[derive(Debug)]
pub enum ProcessError {
    /// No thread has the given id.
    InvalidTid,
    /// A walk of the process's translation table failed.
    PageTableWalkError(&'static str),
    /// A memory range of the process was invalid.
    MemoryRangeError,
    /// The ELF file could not be loaded, for the reason given.
    ElfParseError(&'static str),
}

/// A parsed ELF file (an `elf::ElfBytes` over the file's bytes). The type
/// parameter of `ElfBytes` is bound by a trait of `elf`, so the type is held
/// in a struct of ours that Verus does not look into, as are the parsing
/// tables below.
#[verifier::external_body]
pub struct ElfFile<'data> {
    elf: ElfBytes<'data, AnyEndian>,
}

/// The program header table of an ELF file.
#[verifier::external_body]
pub struct SegmentTable<'data> {
    table: ParsingTable<'data, AnyEndian, ProgramHeader>,
}

/// The symbol table of an ELF file.
#[verifier::external_body]
pub struct SymbolTable<'data> {
    table: ParsingTable<'data, AnyEndian, Symbol>,
}

/// `elf::string_table::StringTable`, an opaque type here.
#[verifier::external_type_specification]
#[verifier::external_body]
pub struct ExStringTable<'data>(StringTable<'data>);

/// A program header of an ELF file, as plain values.
#[derive(Clone, Copy, Debug, PartialEq, Eq, Structural)]
pub struct SegmentHeader {
    pub p_type: u32,
    pub p_offset: u64,
    pub p_vaddr: u64,
    pub p_paddr: u64,
    pub p_filesz: u64,
    pub p_memsz: u64,
    pub p_flags: u32,
    pub p_align: u64,
}

/// A symbol table entry of an ELF file, as plain values.
#[derive(Clone, Copy, Debug, PartialEq, Eq, Structural)]
pub struct SymbolEntry {
    pub st_name: u32,
    pub st_shndx: u16,
    pub st_info: u8,
    pub st_other: u8,
    pub st_value: u64,
    pub st_size: u64,
}

/// The bytes an ELF file was parsed from.
pub uninterp spec fn elf_file_bytes(e: ElfFile<'_>) -> Seq<u8>;

/// The program headers a segment table holds, in order.
pub uninterp spec fn segment_table_headers(t: SegmentTable<'_>) -> Seq<SegmentHeader>;

/// The entries a symbol table holds, in order.
pub uninterp spec fn symbol_table_entries(t: SymbolTable<'_>) -> Seq<SymbolEntry>;

/// The bytes of a string table.
pub uninterp spec fn symbol_names_bytes(t: StringTable<'_>) -> Seq<u8>;

/// Whether `ElfBytes::minimal_parse` accepts `bytes`.
pub uninterp spec fn elf_parses(bytes: Seq<u8>) -> bool;

/// The program headers `ElfBytes::segments` finds in the file `bytes`.
pub uninterp spec fn file_segment_headers(bytes: Seq<u8>) -> Option<Seq<SegmentHeader>>;

/// What `ElfBytes::find_common_data` finds in the file `bytes`: `None` where
/// it fails, else the entries of the symbol table and the bytes of its
/// string table, each where the file has one.
pub uninterp spec fn file_symbol_tables(bytes: Seq<u8>) -> Option<(Option<Seq<SymbolEntry>>, Option<Seq<u8>>)>;

/// `ElfBytes::minimal_parse`: parses the file header of `data`; a parsed file
/// keeps `data` as its bytes.
#[verifier::external_body]
fn elf_minimal_parse(data: &[u8]) -> (r: Result<ElfFile<'_>, ParseError>)
    ensures
        r is Ok <==> elf_parses(data@),
        r matches Ok(e) ==> elf_file_bytes(e) == data@,
{
    match ElfBytes::<AnyEndian>::minimal_parse(data) {
        Ok(elf) => Ok(ElfFile { elf }),
        Err(e) => Err(e),
    }
}

/// `ElfBytes::segments`: the program header table of the file, if it has
/// one; which table that is follows from the file's bytes alone.
#[verifier::external_body]
fn elf_segments<'data>(e: &ElfFile<'data>) -> (r: Option<SegmentTable<'data>>)
    ensures
        r is Some <==> file_segment_headers(elf_file_bytes(*e)) is Some,
        r matches Some(t) ==> file_segment_headers(elf_file_bytes(*e)) == Some(segment_table_headers(t)),
{
    match e.elf.segments() {
        Some(table) => Some(SegmentTable { table }),
        None => None,
    }
}

/// `ParsingTable::len` on a program header table: the number of headers it
/// holds (every entry of the table parses, as a header has a fixed size).
#[verifier::external_body]
fn segment_count(t: &SegmentTable<'_>) -> (r: usize)
    ensures
        r == segment_table_headers(*t).len(),
{
    t.table.len()
}

/// `ParsingTable::get` on a program header table: header `i`.
#[verifier::external_body]
fn segment_at(t: &SegmentTable<'_>, i: usize) -> (r: Result<SegmentHeader, ParseError>)
    requires
        i < segment_table_headers(*t).len(),
    ensures
        r is Ok,
        r matches Ok(h) ==> h == segment_table_headers(*t)[i as int],
{
    match t.table.get(i) {
        Ok(h) => Ok(SegmentHeader {
            p_type: h.p_type,
            p_offset: h.p_offset,
            p_vaddr: h.p_vaddr,
            p_paddr: h.p_paddr,
            p_filesz: h.p_filesz,
            p_memsz: h.p_memsz,
            p_flags: h.p_flags,
            p_align: h.p_align,
        }),
        Err(e) => Err(e),
    }
}

/// `ElfBytes::segment_data`: the `p_filesz` bytes at `p_offset` of the file,
/// or an error when they lie past its end.
#[verifier::external_body]
fn elf_segment_data<'data>(e: &ElfFile<'data>, h: &SegmentHeader) -> (r: Result<&'data [u8], ParseError>)
    ensures
        r is Ok <==> h.p_offset + h.p_filesz <= elf_file_bytes(*e).len(),
        r matches Ok(s) ==> s@ == elf_file_bytes(*e).subrange(h.p_offset as int, h.p_offset + h.p_filesz),
{
    let phdr = ProgramHeader {
        p_type: h.p_type,
        p_offset: h.p_offset,
        p_vaddr: h.p_vaddr,
        p_paddr: h.p_paddr,
        p_filesz: h.p_filesz,
        p_memsz: h.p_memsz,
        p_flags: h.p_flags,
        p_align: h.p_align,
    };
    e.elf.segment_data(&phdr)
}

/// The entries of an optional symbol table.
pub open spec fn entries_of(t: Option<SymbolTable<'_>>) -> Option<Seq<SymbolEntry>> {
    match t {
        Some(t) => Some(symbol_table_entries(t)),
        None => None,
    }
}

/// The bytes of an optional string table.
pub open spec fn names_of(t: Option<StringTable<'_>>) -> Option<Seq<u8>> {
    match t {
        Some(t) => Some(symbol_names_bytes(t)),
        None => None,
    }
}

/// `ElfBytes::find_common_data`, of which the symbol table (`symtab`) and
/// its string table (`symtab_strs`) are kept. Whether it fails and what it
/// finds follow from the file's bytes alone.
#[verifier::external_body]
fn elf_symbol_tables<'data>(e: &ElfFile<'data>) -> (r: Result<(Option<SymbolTable<'data>>, Option<StringTable<'data>>), ParseError>)
    ensures
        r is Ok <==> file_symbol_tables(elf_file_bytes(*e)) is Some,
        r matches Ok(p) ==> file_symbol_tables(elf_file_bytes(*e)) == Some((entries_of(p.0), names_of(p.1))),
{
    match e.elf.find_common_data() {
        Ok(data) => Ok((
            data.symtab.map(|table| SymbolTable { table }),
            data.symtab_strs,
        )),
        Err(e) => Err(e),
    }
}

/// `ParsingTable::len` on a symbol table: the number of entries it holds
/// (every entry parses, as an entry has a fixed size).
#[verifier::external_body]
fn symbol_count(t: &SymbolTable<'_>) -> (r: usize)
    ensures
        r == symbol_table_entries(*t).len(),
{
    t.table.len()
}

/// `ParsingTable::get` on a symbol table: entry `i`.
#[verifier::external_body]
fn symbol_at(t: &SymbolTable<'_>, i: usize) -> (r: Result<SymbolEntry, ParseError>)
    requires
        i < symbol_table_entries(*t).len(),
    ensures
        r is Ok,
        r matches Ok(s) ==> s == symbol_table_entries(*t)[i as int],
{
    match t.table.get(i) {
        Ok(s) => Ok(SymbolEntry {
            st_name: s.st_name,
            st_shndx: s.st_shndx,
            st_info: s.st_info,
            st_other: s.st_other,
            st_value: s.st_value,
            st_size: s.st_size,
        }),
        Err(e) => Err(e),
    }
}

/// The bytes from `offset` up to (not including) the first NUL byte after
/// it, if the table is not empty, `offset` lies in it and such a NUL exists.
#[verifier::opaque]
pub open spec fn nul_terminated_at(d: Seq<u8>, offset: int) -> Option<Seq<u8>> {
    if d.len() == 0 || offset > d.len() {
        None
    } else if exists|k: int| offset <= k < d.len() && d[k] == 0 {
        let k = choose|k: int| offset <= k < d.len() && d[k] == 0 && forall|j: int| offset <= j < k ==> d[j] != 0;
        Some(d.subrange(offset, k))
    } else {
        None
    }
}

/// The name at `offset` of a string table: its NUL-terminated bytes, if they
/// are valid UTF-8 (which `core::str::from_utf8` checks).
pub open spec fn name_at(d: Seq<u8>, offset: int) -> Option<Seq<u8>> {
    match nul_terminated_at(d, offset) {
        Some(raw) => if valid_utf8(raw) { Some(raw) } else { None },
        None => None,
    }
}

/// `StringTable::get`: the string at `offset`, as bytes. It succeeds exactly
/// when the table holds a NUL at or after `offset` and the bytes before the
/// first such NUL are valid UTF-8.
#[verifier::external_body]
fn symbol_name_at(t: &StringTable<'_>, offset: usize) -> (r: Result<Vec<u8>, ParseError>)
    ensures
        r is Ok <==> name_at(symbol_names_bytes(*t), offset as int) is Some,
        r is Ok ==> valid_utf8(nul_terminated_at(symbol_names_bytes(*t), offset as int).unwrap()),
        r matches Ok(b) ==> nul_terminated_at(symbol_names_bytes(*t), offset as int) == Some(b@),
{
    match t.get(offset) {
        Ok(s) => Ok(s.as_bytes().to_vec()),
        Err(e) => Err(e),
    }
}

/// Whether a program header is loaded into a process: a loadable segment
/// that takes up memory.
pub open spec fn is_loaded(h: SegmentHeader) -> bool {
    h.p_type == PT_LOAD && h.p_memsz != 0
}

/// The headers of `hs` that are loaded into a process, in order.
pub open spec fn loaded_headers(hs: Seq<SegmentHeader>) -> Seq<SegmentHeader> {
    hs.filter(|h: SegmentHeader| is_loaded(h))
}

/// The headers loaded into a process are exactly the program headers of
/// type `PT_LOAD` that take up memory, whatever their size in the file, in
/// the order of the table.
pub proof fn lemma_loaded_headers_are_the_loadable_ones(hs: Seq<SegmentHeader>)
    ensures
        forall|h: SegmentHeader| #[trigger] loaded_headers(hs).contains(h) <==> {
            &&& hs.contains(h)
            &&& h.p_type == PT_LOAD
            &&& h.p_memsz != 0
        },
        forall|i: int| 0 <= i < loaded_headers(hs).len() ==> {
            &&& #[trigger] loaded_headers(hs)[i].p_type == PT_LOAD
            &&& loaded_headers(hs)[i].p_memsz != 0
        },
{
    let pred = |h: SegmentHeader| is_loaded(h);
    assert forall|h: SegmentHeader| #[trigger] loaded_headers(hs).contains(h) <==> {
        &&& hs.contains(h)
        &&& h.p_type == PT_LOAD
        &&& h.p_memsz != 0
    } by {
        if loaded_headers(hs).contains(h) {
            let j = loaded_headers(hs).index_of(h);
            hs.lemma_filter_pred(pred, j);
            hs.lemma_filter_contains_rev(pred, h);
        }
        if hs.contains(h) && h.p_type == PT_LOAD && h.p_memsz != 0 {
            let k = hs.index_of(h);
            hs.lemma_filter_contains(pred, k);
        }
    }
    assert forall|i: int| 0 <= i < loaded_headers(hs).len() implies {
        &&& #[trigger] loaded_headers(hs)[i].p_type == PT_LOAD
        &&& loaded_headers(hs)[i].p_memsz != 0
    } by {
        hs.lemma_filter_pred(pred, i);
    }
}

/// The bytes of the name `_start`.
pub open spec fn start_name() -> Seq<u8> {
    seq![0x5fu8, 0x73u8, 0x74u8, 0x61u8, 0x72u8, 0x74u8]
}

/// What looking for the `_start` symbol finds.
#[derive(Clone, Copy, Debug, PartialEq, Eq, Structural)]
pub enum StartSymbol {
    /// The value of the first symbol named `_start`.
    Found(u64),
    /// No symbol is named `_start`.
    Missing,
    /// The name of a symbol before the first `_start` cannot be read.
    UnreadableName,
}

/// Looks through `entries` from index `i` on, in order, for a symbol named
/// `_start`, reading each name from the string table `names`.
pub open spec fn start_lookup(entries: Seq<SymbolEntry>, names: Seq<u8>, i: nat) -> StartSymbol
    decreases entries.len() - i,
{
    if i >= entries.len() {
        StartSymbol::Missing
    } else {
        match name_at(names, entries[i as int].st_name as int) {
            None => StartSymbol::UnreadableName,
            Some(n) => if n == start_name() {
                StartSymbol::Found(entries[i as int].st_value)
            } else {
                start_lookup(entries, names, i + 1)
            },
        }
    }
}

/// Every symbol from `k` up to (not including) `i` has a readable name
/// other than `_start`.
pub open spec fn passed_over(entries: Seq<SymbolEntry>, names: Seq<u8>, k: int, i: int) -> bool {
    forall|j: int| k <= j < i ==> {
        &&& #[trigger] name_at(names, entries[j].st_name as int) is Some
        &&& name_at(names, entries[j].st_name as int) != Some(start_name())
    }
}

/// The lookup from `k` on stops at the first symbol whose name is `_start`
/// or cannot be read: it finds the value of a symbol named `_start` when
/// every symbol before it has a readable name, and finds nothing when every
/// name is readable and none is `_start`.
pub proof fn lemma_start_lookup_stops_at_first(entries: Seq<SymbolEntry>, names: Seq<u8>, k: nat)
    ensures
        start_lookup(entries, names, k) matches StartSymbol::Found(a) ==> exists|i: int| {
            &&& k <= i < entries.len()
            &&& #[trigger] entries[i].st_value == a
            &&& name_at(names, entries[i].st_name as int) == Some(start_name())
            &&& passed_over(entries, names, k as int, i)
        },
        start_lookup(entries, names, k) is Missing ==> passed_over(entries, names, k as int, entries.len() as int),
        start_lookup(entries, names, k) is UnreadableName ==> exists|i: int| {
            &&& k <= i < entries.len()
            &&& #[trigger] name_at(names, entries[i].st_name as int) is None
            &&& passed_over(entries, names, k as int, i)
        },
    decreases entries.len() - k,
{
    if k < entries.len() {
        lemma_start_lookup_stops_at_first(entries, names, k + 1);
        let i = k as int;
        if let StartSymbol::Found(a) = start_lookup(entries, names, k) {
            if name_at(names, entries[i].st_name as int) == Some(start_name()) {
                assert(entries[i].st_value == a);
            } else {
                let w = choose|w: int| {
                    &&& k + 1 <= w < entries.len()
                    &&& #[trigger] entries[w].st_value == a
                    &&& name_at(names, entries[w].st_name as int) == Some(start_name())
                    &&& passed_over(entries, names, (k + 1) as int, w)
                };
                assert(entries[w].st_value == a);
            }
        }
        if start_lookup(entries, names, k) is UnreadableName {
            if name_at(names, entries[i].st_name as int) is None {
                assert(passed_over(entries, names, k as int, i));
            } else {
                let w = choose|w: int| {
                    &&& k + 1 <= w < entries.len()
                    &&& #[trigger] name_at(names, entries[w].st_name as int) is None
                    &&& passed_over(entries, names, (k + 1) as int, w)
                };
                assert(passed_over(entries, names, k as int, w));
            }
        }
    }
}

/// The lookup from `k` on, over symbols whose names up to `i` are readable
/// and not `_start`, is decided at `i`: by the name there alone (whatever
/// else the symbol holds), it finds the value of symbol `i` where that name
/// is `_start`, and stops on an unreadable name where it cannot be read.
/// Where every name from `k` on is readable and none is `_start`, it finds
/// nothing.
pub proof fn lemma_start_lookup_decided_by_names(entries: Seq<SymbolEntry>, names: Seq<u8>, k: nat, i: int)
    requires
        k <= i,
        passed_over(entries, names, k as int, i),
    ensures
        i < entries.len() && name_at(names, entries[i].st_name as int) == Some(start_name())
            ==> start_lookup(entries, names, k) == StartSymbol::Found(entries[i].st_value),
        i < entries.len() && name_at(names, entries[i].st_name as int) is None
            ==> start_lookup(entries, names, k) == StartSymbol::UnreadableName,
        i >= entries.len() ==> start_lookup(entries, names, k) == StartSymbol::Missing,
    decreases i - k,
{
    if k < i && k < entries.len() {
        assert(name_at(names, entries[k as int].st_name as int) is Some);
        lemma_start_lookup_decided_by_names(entries, names, k + 1, i);
    }
}

/// The start address of a file whose symbol tables are `tables` (as
/// `ElfBytes::find_common_data` finds them); `None` where a symbol name that
/// has to be read cannot be.
pub open spec fn start_address_of(tables: Option<(Option<Seq<SymbolEntry>>, Option<Seq<u8>>)>) -> Option<Result<u64, ProcessError>> {
    match tables {
        Some((Some(entries), Some(names))) => match start_lookup(entries, names, 0) {
            StartSymbol::Found(a) => Some(Ok(a)),
            StartSymbol::Missing => Some(Err(ProcessError::ElfParseError("process has no start label"))),
            StartSymbol::UnreadableName => None,
        },
        _ => Some(Err(ProcessError::ElfParseError("elf has no common data"))),
    }
}

/// Whether `name` is `_start`.
fn is_start_name(name: &Vec<u8>) -> (r: bool)
    ensures
        r == (name@ == start_name()),
{
    let wanted: [u8; 6] = [0x5f, 0x73, 0x74, 0x61, 0x72, 0x74];
    if name.len() != 6 {
        return false;
    }
    let mut i: usize = 0;
    while i < 6
        invariant
            name.len() == 6,
            wanted@ == start_name(),
            i <= 6,
            forall|j: int| 0 <= j < i ==> name@[j] == wanted@[j],
        decreases 6 - i,
    {
        if name[i] != wanted[i] {
            return false;
        }
        i = i + 1;
    }
    assert(name@ =~= start_name());
    true
}

/// The lookup of `find_start_symbol`, symbol by symbol in table order.
fn lookup_start_symbol(symtab: &SymbolTable<'_>, strtab: &StringTable<'_>) -> (r: StartSymbol)
    ensures
        r == start_lookup(symbol_table_entries(*symtab), symbol_names_bytes(*strtab), 0),
{
    let ghost entries = symbol_table_entries(*symtab);
    let ghost names = symbol_names_bytes(*strtab);
    let n = symbol_count(symtab);
    let mut i: usize = 0;
    while i < n
        invariant
            n == entries.len(),
            entries == symbol_table_entries(*symtab),
            names == symbol_names_bytes(*strtab),
            i <= n,
            start_lookup(entries, names, 0) == start_lookup(entries, names, i as nat),
        decreases n - i,
    {
        let entry = symbol_at(symtab, i);
        if let Ok(sym) = entry {
            match symbol_name_at(strtab, sym.st_name as usize) {
                Ok(name) => {
                    if is_start_name(&name) {
                        return StartSymbol::Found(sym.st_value);
                    }
                },
                Err(_) => {
                    return StartSymbol::UnreadableName;
                },
            }
        }
        i = i + 1;
    }
    StartSymbol::Missing
}

/// Looks through the symbol table, in order, for the first symbol named
/// `_start`, reading each name from `strtab`: it finds the value of that
/// symbol when every name before it can be read, whatever else the symbol
/// holds.
pub fn find_start_symbol(symtab: &SymbolTable<'_>, strtab: &StringTable<'_>) -> (r: StartSymbol)
    ensures
        r == start_lookup(symbol_table_entries(*symtab), symbol_names_bytes(*strtab), 0),
        forall|i: int| 0 <= i < symbol_table_entries(*symtab).len()
            && passed_over(symbol_table_entries(*symtab), symbol_names_bytes(*strtab), 0, i)
            && #[trigger] name_at(symbol_names_bytes(*strtab), symbol_table_entries(*symtab)[i].st_name as int) == Some(start_name())
            ==> r == StartSymbol::Found(symbol_table_entries(*symtab)[i].st_value),
{
    let r = lookup_start_symbol(symtab, strtab);
    proof {
        let entries = symbol_table_entries(*symtab);
        let names = symbol_names_bytes(*strtab);
        assert forall|i: int| 0 <= i < entries.len()
            && passed_over(entries, names, 0, i)
            && #[trigger] name_at(names, entries[i].st_name as int) == Some(start_name())
            implies r == StartSymbol::Found(entries[i].st_value) by {
            lemma_start_lookup_decided_by_names(entries, names, 0, i);
        }
    }
    r
}

/// What the platform maps for one loaded segment: the virtual range
/// `[start, end)`, the bytes to put at `start` (`None` where the file holds
/// none for it), and the page attributes.
pub struct SegmentMapping {
    pub header: SegmentHeader,
    pub start: u64,
    pub end: u64,
    pub image: Option<Vec<u8>>,
    pub attributes: Attributes,
}

impl<'data> ElfFile<'data> {
    /// Parses the file header of `data`; `None` where it is no ELF file.
    pub fn parse(data: &'data [u8]) -> (r: Option<ElfFile<'data>>)
        ensures
            r is Some <==> elf_parses(data@),
            r matches Some(e) ==> elf_file_bytes(e) == data@,
    {
        match elf_minimal_parse(data) {
            Ok(e) => Some(e),
            Err(_) => None,
        }
    }

    /// The program headers of the file that are loaded into a process, in
    /// order: those of loadable segments that take up memory.
    pub fn load_segments(&self) -> (r: Result<Vec<SegmentHeader>, ProcessError>)
        ensures
            r is Err <==> file_segment_headers(elf_file_bytes(*self)) is None,
            r matches Err(e) ==> e == ProcessError::ElfParseError("couldnt get elf segments"),
            r matches Ok(v) ==> v@ == loaded_headers(file_segment_headers(elf_file_bytes(*self)).unwrap()),
            r matches Ok(v) ==> forall|h: SegmentHeader| #[trigger] v@.contains(h) <==> {
                &&& file_segment_headers(elf_file_bytes(*self)).unwrap().contains(h)
                &&& h.p_type == PT_LOAD
                &&& h.p_memsz != 0
            },
    {
        let table = match elf_segments(self) {
            Some(t) => t,
            None => {
                return Err(ProcessError::ElfParseError("couldnt get elf segments"));
            },
        };
        let ghost hs = segment_table_headers(table);
        let n = segment_count(&table);
        let mut out: Vec<SegmentHeader> = Vec::new();
        let mut i: usize = 0;
        while i < n
            invariant
                n == hs.len(),
                hs == segment_table_headers(table),
                i <= n,
                out@ == loaded_headers(hs.take(i as int)),
            decreases n - i,
        {
            let r = segment_at(&table, i);
            proof {
                reveal(Seq::filter);
                assert(hs.take(i + 1).drop_last() =~= hs.take(i as int));
                assert(hs.take(i + 1).last() == hs[i as int]);
            }
            if let Ok(h) = r {
                if h.p_type == PT_LOAD && h.p_memsz != 0 {
                    out.push(h);
                }
            }
            i = i + 1;
        }
        assert(hs.take(n as int) =~= hs);
        proof {
            lemma_loaded_headers_are_the_loadable_ones(hs);
        }
        Ok(out)
    }

    /// The memory image of a loaded segment: its bytes in the file followed
    /// by zeros up to its size in memory; `None` where its bytes lie past
    /// the end of the file.
    pub fn segment_image(&self, h: &SegmentHeader) -> (r: Option<Vec<u8>>)
        requires
            h.p_filesz <= h.p_memsz,
            h.p_memsz <= usize::MAX,
        ensures
            r is Some <==> h.p_offset + h.p_filesz <= elf_file_bytes(*self).len(),
            r matches Some(img) ==> img@ == elf_file_bytes(*self).subrange(h.p_offset as int, h.p_offset + h.p_filesz)
                + Seq::new((h.p_memsz - h.p_filesz) as nat, |k: int| 0u8),
    {
        let data = match elf_segment_data(self, h) {
            Ok(d) => d,
            Err(_) => {
                return None;
            },
        };
        let mut img: Vec<u8> = Vec::new();
        let mut i: usize = 0;
        while i < data.len()
            invariant
                i <= data.len(),
                img@ == data@.take(i as int),
            decreases data.len() - i,
        {
            img.push(data[i]);
            i = i + 1;
            assert(img@ =~= data@.take(i as int));
        }
        assert(data@.take(data.len() as int) =~= data@);
        let size = h.p_memsz as usize;
        while img.len() < size
            invariant
                data.len() == h.p_filesz,
                size == h.p_memsz,
                data.len() <= img.len() <= size,
                img@ == data@ + Seq::new((img.len() - data.len()) as nat, |k: int| 0u8),
            decreases size - img.len(),
        {
            img.push(0);
            assert(img@ =~= data@ + Seq::new((img.len() - data.len()) as nat, |k: int| 0u8));
        }
        Some(img)
    }

    /// How a loaded segment is mapped: at its virtual address, over its size
    /// in memory, with the attributes its flags give, filled with its memory
    /// image where the file holds its bytes. `None` where the end of the
    /// range does not fit in 64 bits. A segment with more bytes in the file
    /// than in memory is not admitted: its bytes would be copied past its
    /// memory.
    pub fn mapping_plan(&self, h: &SegmentHeader) -> (r: Option<SegmentMapping>)
        requires
            h.p_filesz <= h.p_memsz,
            h.p_memsz <= usize::MAX,
        ensures
            r is Some <==> h.p_vaddr + h.p_memsz <= u64::MAX,
            r matches Some(m) ==> {
                &&& m.header == *h
                &&& m.start == h.p_vaddr
                &&& m.end == h.p_vaddr + h.p_memsz
                &&& m.attributes == attributes_of_bits(elf_segment_bits(h.p_flags))
                &&& (m.image is Some <==> h.p_offset + h.p_filesz <= elf_file_bytes(*self).len())
                &&& (m.image matches Some(img) ==> img@ == elf_file_bytes(*self).subrange(h.p_offset as int, h.p_offset + h.p_filesz)
                    + Seq::new((h.p_memsz - h.p_filesz) as nat, |k: int| 0u8))
            },
    {
        if h.p_memsz > u64::MAX - h.p_vaddr {
            return None;
        }
        let image = self.segment_image(h);
        Some(SegmentMapping {
            header: *h,
            start: h.p_vaddr,
            end: h.p_vaddr + h.p_memsz,
            image,
            attributes: elf_flags_to_mmu_constrains(h.p_flags),
        })
    }

    /// The address of the file's `_start` symbol; `None` where the name of a
    /// symbol before it cannot be read.
    pub fn start_address(&self) -> (r: Option<Result<u64, ProcessError>>)
        ensures
            r == start_address_of(file_symbol_tables(elf_file_bytes(*self))),
    {
        match elf_symbol_tables(self) {
            Ok((Some(symtab), Some(strtab))) => match find_start_symbol(&symtab, &strtab) {
                StartSymbol::Found(a) => Some(Ok(a)),
                StartSymbol::Missing => Some(Err(ProcessError::ElfParseError("process has no start label"))),
                StartSymbol::UnreadableName => None,
            },
            _ => Some(Err(ProcessError::ElfParseError("elf has no common data"))),
        }
    }
}

/// Whether `p` is a freshly loaded process over `memory`: the initial
/// message store and one thread, id 1, that starts at `start_address` with
/// its registers cleared.
pub open spec fn is_fresh_process<M>(p: Process<M>, start_address: u64, memory: M) -> bool {
    &&& p.wf()
    &&& p.threads@ == Map::<Tid, SchedulerThread>::empty().insert(1, p.threads@[1])
    &&& p.threads@[1].state.elr == start_address
    &&& forall|i: int| 0 <= i < 30 ==> p.threads@[1].state.x@[i] == 0
    &&& p.threads.last_tid() == 1
    &&& p.message_store.next_id() == 0
    &&& p.message_store@.dom() == set![0u64]
    &&& p.message_store@[0]@ == (greeting(), 0nat)
    &&& p.memory == memory
}

impl<M> Process<M> {
    /// The process of an ELF file whose loaded segments `memory` maps: one
    /// thread, at the file's `_start` symbol. A file without a program header
    /// table is refused first; `None` where the name of a symbol before
    /// `_start` cannot be read.
    pub fn from_elf(elf: &ElfFile<'_>, memory: M) -> (r: Option<Result<Process<M>, ProcessError>>)
        ensures
            file_segment_headers(elf_file_bytes(*elf)) is None ==> (r matches Some(Err(e))
                && e == ProcessError::ElfParseError("couldnt get elf segments")),
            file_segment_headers(elf_file_bytes(*elf)) is Some ==> match start_address_of(file_symbol_tables(elf_file_bytes(*elf))) {
                None => r is None,
                Some(Err(e)) => r matches Some(Err(e2)) && e2 == e,
                Some(Ok(a)) => r matches Some(Ok(p)) && is_fresh_process(p, a, memory),
            },
    {
        match elf.load_segments() {
            Err(e) => {
                return Some(Err(e));
            },
            Ok(_) => {},
        }
        match elf.start_address() {
            None => None,
            Some(Err(e)) => Some(Err(e)),
            Some(Ok(a)) => Some(Ok(Process::with_entry(a, memory))),
        }
    }
}

} // verus!
