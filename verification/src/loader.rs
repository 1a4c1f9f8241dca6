//! ELF loader.
//!
//! Extracts the LOAD segments (target address + bytes), the entry point, and
//! the symbol table from an ELF file. It does not write anything into memory:
//! how segments get placed is left to the Cpu/Bus side.

use object::{Object, ObjectSegment, ObjectSymbol};
use vstd::prelude::*;


verus! {

/// One region to be placed in memory.
#[derive(Debug)]
pub struct Segment {
    /// Target address
    pub addr: u64,
    /// Bytes present in the file (FileSiz worth)
    pub data: Vec<u8>,
    /// Size occupied in memory (MemSiz). If larger than data.len(), the excess is
    /// .bss-like and must be zero-filled.
    pub mem_size: u64,
}

/// Contents of a parsed ELF.
#[derive(Debug)]
pub struct LoadedElf {
    /// Entry point (the initial value of pc)
    pub entry: u64,
    /// LOAD segments (only PT_LOAD program headers)
    pub segments: Vec<Segment>,
    /// The symbol table in file order, as (name, address).
    symbols: Vec<(String, u64)>,
}

/// The address a symbol table maps `name` to: that of the last entry with
/// this name (a later definition replaces an earlier one), if any.
pub open spec fn lookup_symbol(syms: Seq<(Seq<char>, u64)>, name: Seq<char>) -> Option<u64>
    decreases syms.len(),
{
    if syms.len() == 0 {
        None
    } else if syms.last().0 == name {
        Some(syms.last().1)
    } else {
        lookup_symbol(syms.drop_last(), name)
    }
}

impl LoadedElf {
    /// The entry point.
    pub closed spec fn entry_point(&self) -> u64 {
        self.entry
    }

    /// The LOAD segments, in file order.
    pub closed spec fn segment_list(&self) -> Seq<Segment> {
        self.segments@
    }

    /// The symbol table, names as character sequences.
    pub closed spec fn symbol_table(&self) -> Seq<(Seq<char>, u64)> {
        self.symbols@.map_values(|e: (String, u64)| (e.0@, e.1))
    }

    /// An ELF image with the given entry point, segments and symbol table.
    pub fn new(entry: u64, segments: Vec<Segment>, symbols: Vec<(String, u64)>) -> (elf: Self)
        ensures
            elf.entry_point() == entry,
            elf.segment_list() == segments@,
            elf.symbol_table() == symbols@.map_values(|e: (String, u64)| (e.0@, e.1)),
    {
        LoadedElf { entry, segments, symbols }
    }

    /// The entry point (the initial value of pc).
    pub fn entry(&self) -> (e: u64)
        ensures
            e == self.entry_point(),
    {
        self.entry
    }

    /// The LOAD segments, in file order.
    pub fn segments(&self) -> (s: &Vec<Segment>)
        ensures
            s@ == self.segment_list(),
    {
        &self.segments
    }

    /// Look up a symbol address (used e.g. to find tohost in riscv-tests).
    pub fn symbol(&self, name: &str) -> (r: Option<u64>)
        ensures
            r == lookup_symbol(self.symbol_table(), name@),
    {
        let key = String::from_str(name);
        let mut i = self.symbols.len();
        assert(self.symbol_table().subrange(0, i as int) =~= self.symbol_table());
        while i > 0
            invariant
                i <= self.symbols@.len(),
                key@ == name@,
                lookup_symbol(self.symbol_table(), name@) == lookup_symbol(
                    self.symbol_table().subrange(0, i as int),
                    name@,
                ),
            decreases i,
        {
            let ghost table = self.symbol_table().subrange(0, i as int);
            assert(table.drop_last() =~= self.symbol_table().subrange(0, i - 1));
            i = i - 1;
            if self.symbols[i].0 == key {
                return Some(self.symbols[i].1);
            }
        }
        assert(self.symbol_table().subrange(0, 0) =~= Seq::<(Seq<char>, u64)>::empty());
        None
    }
}

// --- Parsing an ELF image ---------------------------------------------------------------

/// Why an image could not be loaded.
#[derive(Debug)]
pub enum LoadError {
    /// Not parseable as an ELF (the parser's message)
    Parse(String),
    /// Not an ELF for RISC-V (64-bit); the architecture found, by name
    UnsupportedArch(String),
}

/// A load error with its messages as character sequences.
pub enum LoadErrorView {
    Parse(Seq<char>),
    UnsupportedArch(Seq<char>),
}

impl View for LoadError {
    type V = LoadErrorView;

    open spec fn view(&self) -> LoadErrorView {
        match self {
            LoadError::Parse(m) => LoadErrorView::Parse(m@),
            LoadError::UnsupportedArch(a) => LoadErrorView::UnsupportedArch(a@),
        }
    }
}

/// One LOAD segment as the ELF parser reports it: its address, its file
/// bytes (or why they cannot be read), and its size in memory.
pub struct SegmentEntry {
    pub addr: u64,
    pub data: Result<Vec<u8>, String>,
    pub size: u64,
}

/// A segment entry with its bytes and message as sequences.
pub open spec fn segment_entry_view(e: SegmentEntry) -> (u64, Result<Seq<u8>, Seq<char>>, u64) {
    (
        e.addr,
        match e.data {
            Ok(d) => Ok(d@),
            Err(m) => Err(m@),
        },
        e.size,
    )
}

/// The error message `object::File::parse` gives for `bytes`, or `None`
/// when they parse as an object file.
pub uninterp spec fn elf_parse_error(bytes: Seq<u8>) -> Option<Seq<char>>;

/// What `Object::architecture` says of the file in `bytes`: whether it is
/// 64-bit RISC-V, and the architecture's name (its `Debug` form).
pub uninterp spec fn elf_architecture(bytes: Seq<u8>) -> (bool, Seq<char>);

/// `Object::entry` of the file in `bytes`.
pub uninterp spec fn elf_entry(bytes: Seq<u8>) -> u64;

/// The segments `Object::segments` lists for the file in `bytes`, each by
/// `ObjectSegment::address`, `data` and `size`.
pub uninterp spec fn elf_segments(bytes: Seq<u8>) -> Seq<(u64, Result<Seq<u8>, Seq<char>>, u64)>;

/// The symbols `Object::symbols` lists for the file in `bytes`, each by
/// `ObjectSymbol::name` (`None` where the name cannot be read) and `address`.
pub uninterp spec fn elf_symbols(bytes: Seq<u8>) -> Seq<(Option<Seq<char>>, u64)>;

/// `object::File::parse`: whether `bytes` parse as an object file, with the
/// parser's message when they do not. The result is named, not described.
#[verifier::external_body]
fn parse_elf(bytes: &[u8]) -> (r: Result<(), String>)
    ensures
        r is Ok <==> elf_parse_error(bytes@) is None,
        r matches Err(m) ==> elf_parse_error(bytes@) == Some(m@),
{
    match object::File::parse(bytes) {
        Ok(_) => Ok(()),
        Err(e) => Err(e.to_string()),
    }
}

/// `Object::architecture` of the file in `bytes` (which parse): whether it
/// is `Architecture::Riscv64`, and its `Debug` name. The result is named.
#[verifier::external_body]
fn architecture_of(bytes: &[u8]) -> (r: (bool, String))
    requires
        elf_parse_error(bytes@) is None,
    ensures
        (r.0, r.1@) == elf_architecture(bytes@),
{
    let arch = object::File::parse(bytes).unwrap().architecture();
    (matches!(arch, object::Architecture::Riscv64), format!("{:?}", arch))
}

/// `Object::entry` of the file in `bytes` (which parse). The result is named.
#[verifier::external_body]
fn entry_of(bytes: &[u8]) -> (r: u64)
    requires
        elf_parse_error(bytes@) is None,
    ensures
        r == elf_entry(bytes@),
{
    object::File::parse(bytes).unwrap().entry()
}

/// `Object::segments` of the file in `bytes` (which parse), each segment
/// converted to its address, data (copied, or the error's message) and
/// size. The result is named.
#[verifier::external_body]
fn segments_of(bytes: &[u8]) -> (r: Vec<SegmentEntry>)
    requires
        elf_parse_error(bytes@) is None,
    ensures
        r@.map_values(|e: SegmentEntry| segment_entry_view(e)) == elf_segments(bytes@),
{
    let file = object::File::parse(bytes).unwrap();
    file.segments().map(|seg| SegmentEntry {
        addr: seg.address(),
        data: seg.data().map(|d| d.to_vec()).map_err(|e| e.to_string()),
        size: seg.size(),
    }).collect()
}

/// `Object::symbols` of the file in `bytes` (which parse), each symbol
/// converted to its name (`None` where it cannot be read) and address. The
/// result is named.
#[verifier::external_body]
fn symbols_of(bytes: &[u8]) -> (r: Vec<(Option<String>, u64)>)
    requires
        elf_parse_error(bytes@) is None,
    ensures
        r@.map_values(|e: (Option<String>, u64)| (
            match e.0 {
                Some(n) => Some(n@),
                None => None,
            },
            e.1,
        )) == elf_symbols(bytes@),
{
    let file = object::File::parse(bytes).unwrap();
    file.symbols().map(|sym| (sym.name().ok().map(|n| n.to_string()), sym.address())).collect()
}

/// The first segment whose bytes cannot be read, by its message.
pub open spec fn first_segment_error(segs: Seq<(u64, Result<Seq<u8>, Seq<char>>, u64)>) -> Option<
    Seq<char>,
>
    decreases segs.len(),
{
    if segs.len() == 0 {
        None
    } else {
        match segs[0].1 {
            Err(m) => Some(m),
            Ok(_) => first_segment_error(segs.drop_first()),
        }
    }
}

/// The symbols with readable names, in order.
pub open spec fn named_symbols(syms: Seq<(Option<Seq<char>>, u64)>) -> Seq<(Seq<char>, u64)>
    decreases syms.len(),
{
    if syms.len() == 0 {
        Seq::empty()
    } else {
        let rest = named_symbols(syms.drop_last());
        match syms.last().0 {
            Some(n) => rest.push((n, syms.last().1)),
            None => rest,
        }
    }
}

/// A segment as (address, bytes, size in memory).
pub open spec fn segment_view(s: Segment) -> (u64, Seq<u8>, u64) {
    (s.addr, s.data@, s.mem_size)
}

/// The segments the parser lists, as (address, bytes, size in memory),
/// when all of them read.
pub open spec fn loaded_segments(segs: Seq<(u64, Result<Seq<u8>, Seq<char>>, u64)>) -> Seq<
    (u64, Seq<u8>, u64),
> {
    segs.map_values(|e: (u64, Result<Seq<u8>, Seq<char>>, u64)| (e.0, e.1->Ok_0, e.2))
}

/// What the image assembled from the parser's results is: the first
/// unreadable segment's error, or else the entry point, the segments as
/// (address, bytes, size in memory) and the symbols with readable names.
pub open spec fn assembled(
    entry: u64,
    segs: Seq<(u64, Result<Seq<u8>, Seq<char>>, u64)>,
    syms: Seq<(Option<Seq<char>>, u64)>,
) -> Result<(u64, Seq<(u64, Seq<u8>, u64)>, Seq<(Seq<char>, u64)>), LoadErrorView> {
    match first_segment_error(segs) {
        Some(m) => Err(LoadErrorView::Parse(m)),
        None => Ok((entry, loaded_segments(segs), named_symbols(syms))),
    }
}

/// What loading `bytes` gives: a parse error, an architecture other than
/// 64-bit RISC-V, or else the image assembled from what the parser lists.
pub open spec fn load_result(bytes: Seq<u8>) -> Result<(u64, Seq<(u64, Seq<u8>, u64)>, Seq<(Seq<char>, u64)>), LoadErrorView> {
    match elf_parse_error(bytes) {
        Some(m) => Err(LoadErrorView::Parse(m)),
        None => if !elf_architecture(bytes).0 {
            Err(LoadErrorView::UnsupportedArch(elf_architecture(bytes).1))
        } else {
            assembled(elf_entry(bytes), elf_segments(bytes), elf_symbols(bytes))
        },
    }
}

/// A loaded image, or the error, matches its description.
pub open spec fn load_matches(
    r: Result<LoadedElf, LoadError>,
    v: Result<(u64, Seq<(u64, Seq<u8>, u64)>, Seq<(Seq<char>, u64)>), LoadErrorView>,
) -> bool {
    match (r, v) {
        (Ok(elf), Ok((entry, segs, syms))) => {
            &&& elf.entry_point() == entry
            &&& elf.segment_list().map_values(|s: Segment| segment_view(s)) == segs
            &&& elf.symbol_table() == syms
        },
        (Err(e), Err(v)) => e@ == v,
        _ => false,
    }
}

/// Copy a string.
fn copy_string(s: &String) -> (r: String)
    ensures
        r@ == s@,
{
    let mut r = String::new();
    r.append(s.as_str());
    r
}

/// Parse an ELF byte stream into LOAD segments, entry point, and symbol table.
pub fn load(bytes: &[u8]) -> (r: Result<LoadedElf, LoadError>)
    ensures
        load_matches(r, load_result(bytes@)),
{
    if let Err(m) = parse_elf(bytes) {
        return Err(LoadError::Parse(m));
    }
    let (riscv64, arch) = architecture_of(bytes);
    if !riscv64 {
        return Err(LoadError::UnsupportedArch(arch));
    }
    assemble(entry_of(bytes), segments_of(bytes), symbols_of(bytes))
}

/// Assemble the image from what the parser lists: the entry point, the
/// segments (the first one whose bytes cannot be read fails the load) and
/// the symbols (those without a readable name are left out).
pub fn assemble(entry: u64, entries: Vec<SegmentEntry>, named: Vec<(Option<String>, u64)>) -> (r:
    Result<LoadedElf, LoadError>)
    ensures
        load_matches(
            r,
            assembled(
                entry,
                entries@.map_values(|e: SegmentEntry| segment_entry_view(e)),
                named@.map_values(|e: (Option<String>, u64)| (
                    match e.0 {
                        Some(n) => Some(n@),
                        None => None,
                    },
                    e.1,
                )),
            ),
        ),
{
    let ghost segs = entries@.map_values(|e: SegmentEntry| segment_entry_view(e));
    let mut segments: Vec<Segment> = Vec::new();
    let mut i: usize = 0;
    assert(segs.skip(0) =~= segs);
    while i < entries.len()
        invariant
            i <= entries@.len(),
            entries@.map_values(|e: SegmentEntry| segment_entry_view(e)) == segs,
            first_segment_error(segs) == first_segment_error(segs.skip(i as int)),
            segments@.len() == i,
            forall|k: int|
                0 <= k < i ==> segment_view(#[trigger] segments@[k]) == loaded_segments(segs)[k],
            forall|k: int| 0 <= k < i ==> segs[k].1 is Ok,
        decreases entries@.len() - i,
    {
        let e = &entries[i];
        assert(segment_entry_view(entries@[i as int]) == segs[i as int]);
        assert(segs.skip(i as int).drop_first() =~= segs.skip(i + 1));
        assert(segs.skip(i as int)[0] == segs[i as int]);
        match &e.data {
            Err(m) => {
                assert(segs.skip(i as int)[0].1 == Err::<Seq<u8>, Seq<char>>(m@));
                assert(first_segment_error(segs) == Some(m@));
                return Err(LoadError::Parse(copy_string(m)));
            },
            Ok(d) => {
                let data = d.clone();
                segments.push(Segment { addr: e.addr, data, mem_size: e.size });
            },
        }
        i = i + 1;
    }
    assert(segs.skip(i as int).len() == 0);
    assert(segments@.map_values(|s: Segment| segment_view(s)) =~= loaded_segments(segs));
    let ghost syms = named@.map_values(|e: (Option<String>, u64)| (
        match e.0 {
            Some(n) => Some(n@),
            None => None,
        },
        e.1,
    ));
    let mut symbols: Vec<(String, u64)> = Vec::new();
    let mut j: usize = 0;
    while j < named.len()
        invariant
            j <= named@.len(),
            named@.map_values(|e: (Option<String>, u64)| (
                match e.0 {
                    Some(n) => Some(n@),
                    None => None,
                },
                e.1,
            )) == syms,
            symbols@.map_values(|e: (String, u64)| (e.0@, e.1)) == named_symbols(syms.take(j as int)),
        decreases named@.len() - j,
    {
        assert(syms.take(j + 1).drop_last() =~= syms.take(j as int));
        let ghost before = symbols@;
        match &named[j].0 {
            Some(n) => {
                symbols.push((copy_string(n), named[j].1));
                assert(symbols@.map_values(|e: (String, u64)| (e.0@, e.1)) =~= before.map_values(
                    |e: (String, u64)| (e.0@, e.1),
                ).push((n@, named@[j as int].1)));
            },
            None => {},
        }
        j = j + 1;
    }
    assert(syms.take(j as int) =~= syms);
    Ok(LoadedElf::new(entry, segments, symbols))
}

impl LoadError {
    /// The error in words.
    pub fn to_text(&self) -> (r: String)
        ensures
            r@ == match self@ {
                LoadErrorView::Parse(m) => "cannot parse as ELF: "@ + m,
                LoadErrorView::UnsupportedArch(a) => "not a 64-bit RISC-V ELF (architecture: "@ + a
                    + ")"@,
            },
    {
        let mut s = String::new();
        match self {
            LoadError::Parse(m) => {
                s.append("cannot parse as ELF: ");
                s.append(m.as_str());
            },
            LoadError::UnsupportedArch(a) => {
                s.append("not a 64-bit RISC-V ELF (architecture: ");
                s.append(a.as_str());
                s.append(")");
            },
        }
        s
    }
}

} // verus!
