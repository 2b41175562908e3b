//! ELF file discovery: the libraries that a 64-bit ELF file links, and where
//! binaries and libraries are found on the host.
//!
//! Reading the ELF structures is left to the `object` crate; what the library
//! decides from them (which dynamic entries count, where the names are in the
//! string table, where each library is found) is verified here.

use crate::path::{parse_path, PathView, VfsPath};
use crate::search::{
    binary_search_paths, binary_search_paths_exec, found_first, found_nowhere,
    library_search_paths, library_search_paths_exec, search_paths,
};
use object::elf::{FileHeader64, ProgramHeader64};
use object::read::elf::{Dyn, FileHeader, ProgramHeader};
use object::{Endianness, FileKind};
use vstd::prelude::*;

verus! {

/// `object::Error`, the error of the `object` crate's readers.
#[verifier::external_type_specification]
#[verifier::external_body]
pub struct ExObjectError(object::Error);

/// `object::Endianness`, the byte order of an ELF file.
#[verifier::external_type_specification]
#[verifier::external_body]
pub struct ExEndianness(Endianness);

/// The identification bytes that start a 64-bit ELF file.
pub open spec fn elf64_ident() -> Seq<u8> {
    seq![0x7fu8, 0x45u8, 0x4cu8, 0x46u8, 2u8]
}

/// The segment type of a dynamic segment.
pub const PT_DYNAMIC: u32 = 2;

/// The dynamic tag of a needed library's name.
pub const DT_NEEDED: i64 = 1;

/// The dynamic tag of the address of the string table.
pub const DT_STRTAB: i64 = 5;

/// The dynamic tag of the size of the string table.
pub const DT_STRSZ: i64 = 10;

/// Whether `object::FileKind::parse` recognises the kind of a file with the
/// given bytes (some kind rather than an error).
pub uninterp spec fn file_kind_known(data: Seq<u8>) -> bool;

/// Calls `object::FileKind::parse` and tells whether the kind found is
/// `FileKind::Elf64`. The source reads 16 bytes first, and fails where there
/// are fewer; it then answers `Elf64` exactly where the data starts with the
/// five bytes `7f 45 4c 46 02`. Whether it recognises some kind at all is a
/// function of the bytes alone, named here; which kinds it recognises (a long
/// list of magic numbers) is not stated.
#[verifier::external_body]
fn file_kind_is_elf64(data: &[u8]) -> (r: Result<bool, object::Error>)
    ensures
        data@.len() < 16 ==> r is Err,
        r is Ok <==> file_kind_known(data@),
        r matches Ok(b) ==> (b <==> data@.subrange(0, 5) == elf64_ident()),
        data@.len() >= 16 && data@.subrange(0, 5) == elf64_ident() ==> r matches Ok(true),
{
    match FileKind::parse(data) {
        Ok(FileKind::Elf64) => Ok(true),
        Ok(_) => Ok(false),
        Err(e) => Err(e),
    }
}

/// The segments of a 64-bit ELF file, read by the `object` crate, with the
/// byte order and the data they were read from. The `object` types are generic
/// over a trait of that crate, which Verus does not take as a bound, so they
/// are held out of its sight here.
#[verifier::external_body]
pub struct ElfSegments<'a> {
    endian: Endianness,
    data: &'a [u8],
    headers: &'a [ProgramHeader64<Endianness>],
}

/// The data that segments were read from.
pub uninterp spec fn segments_source(s: ElfSegments<'_>) -> Seq<u8>;

/// Whether the `object` crate reads the header and the segment headers of a
/// 64-bit ELF file from the data.
pub uninterp spec fn elf_segments_read(data: Seq<u8>) -> bool;

/// The type of each segment of the data, as `ProgramHeader::p_type` reads it.
pub uninterp spec fn elf_segment_types(data: Seq<u8>) -> Seq<u32>;

/// For each segment of the data, what `ProgramHeader::dynamic` gives: `None`
/// where it fails, else its entries as (tag, value) pairs, or `None` inside for
/// a segment that is not dynamic.
pub uninterp spec fn elf_segment_dynamics(data: Seq<u8>) -> Seq<Option<Option<Seq<(i64, u64)>>>>;

/// For each segment of the data, its virtual address and its bytes in the
/// file, as `ProgramHeader::p_vaddr` and `ProgramHeader::data` read them;
/// `None` where the bytes lie outside the data.
pub uninterp spec fn elf_segment_contents(data: Seq<u8>) -> Seq<Option<(u64, Seq<u8>)>>;

/// The bytes of a segment at a virtual address, as `ProgramHeader::data_range`
/// takes them: `size` bytes from `address`, where the segment at `vaddr` with
/// the bytes `bytes` holds them.
pub open spec fn range_at(bytes: Seq<u8>, vaddr: u64, address: u64, size: u64) -> Option<Seq<u8>> {
    if address < vaddr {
        None
    } else if address - vaddr > bytes.len() {
        None
    } else if size > bytes.len() - (address - vaddr) {
        None
    } else {
        Some(bytes.subrange(address - vaddr, address - vaddr + size))
    }
}

impl<'a> ElfSegments<'a> {
    /// Calls `FileHeader::parse` for `FileHeader64<Endianness>`, then
    /// `FileHeader::endian` and `FileHeader::program_headers` on the header:
    /// the three steps by which the `object` crate reaches the segment
    /// headers. Claimed: success is a function of the data alone, and the
    /// per-segment readings that the other items name have one element per
    /// segment header.
    #[verifier::external_body]
    fn parse(data: &'a [u8]) -> (r: Result<ElfSegments<'a>, object::Error>)
        ensures
            r is Ok <==> elf_segments_read(data@),
            r matches Ok(s) ==> segments_source(s) == data@ && elf_segment_dynamics(data@).len()
                == elf_segment_types(data@).len() && elf_segment_contents(data@).len()
                == elf_segment_types(data@).len(),
    {
        let header = FileHeader64::<Endianness>::parse(data)?;
        let endian = header.endian()?;
        let headers = header.program_headers(endian, data)?;
        Ok(ElfSegments { endian, data, headers })
    }

    /// The number of segment headers (the length of the slice that
    /// `FileHeader::program_headers` gave).
    #[verifier::external_body]
    fn count(&self) -> (r: usize)
        ensures
            r == elf_segment_types(segments_source(*self)).len(),
    {
        self.headers.len()
    }

    /// Calls `ProgramHeader::p_type` on the `i`-th segment header and gives
    /// the number inside the type; `None` past the last header.
    #[verifier::external_body]
    fn segment_type(&self, i: usize) -> (r: Option<u32>)
        ensures
            i < elf_segment_types(segments_source(*self)).len() ==> r == Some(
                elf_segment_types(segments_source(*self))[i as int],
            ),
            i >= elf_segment_types(segments_source(*self)).len() ==> r is None,
    {
        self.headers.get(i).map(|h| h.p_type(self.endian).0)
    }

    /// Calls `ProgramHeader::dynamic` on the `i`-th segment header and gives
    /// each entry as its tag (`Dyn::d_tag`, the number inside) and its value
    /// (`Dyn::d_val`); `Ok(None)` past the last header. The source answers
    /// `Ok(None)` for a segment that is not dynamic.
    #[verifier::external_body]
    fn dynamic_entries(&self, i: usize) -> (r: Result<Option<Vec<(i64, u64)>>, object::Error>)
        ensures
            i < elf_segment_types(segments_source(*self)).len() ==> match elf_segment_dynamics(
                segments_source(*self),
            )[i as int] {
                None => r is Err,
                Some(None) => r matches Ok(None),
                Some(Some(es)) => r matches Ok(Some(v)) && v@ == es,
            },
            i < elf_segment_types(segments_source(*self)).len() && elf_segment_types(
                segments_source(*self),
            )[i as int] != PT_DYNAMIC ==> r matches Ok(None),
            i >= elf_segment_types(segments_source(*self)).len() ==> r matches Ok(None),
    {
        let Some(h) = self.headers.get(i) else { return Ok(None) };
        let entries = h.dynamic(self.endian, self.data)?;
        Ok(entries.map(|es| es.iter().map(|d| (d.d_tag(self.endian).0, d.d_val(self.endian))).collect()))
    }

    /// Calls `ProgramHeader::data_range` on the `i`-th segment header: the
    /// bytes of that segment at a virtual address; `Err(())` past the last
    /// header. The source fails where the segment's bytes lie outside the
    /// data, and otherwise takes `size` bytes from the address within them.
    #[verifier::external_body]
    fn data_range(&self, i: usize, address: u64, size: u64) -> (r: Result<Option<&'a [u8]>, ()>)
        ensures
            i < elf_segment_types(segments_source(*self)).len() ==> match elf_segment_contents(
                segments_source(*self),
            )[i as int] {
                None => r is Err,
                Some((vaddr, bytes)) => match range_at(bytes, vaddr, address, size) {
                    Some(x) => r matches Ok(Some(v)) && v@ == x,
                    None => r matches Ok(None),
                },
            },
            i >= elf_segment_types(segments_source(*self)).len() ==> r is Err,
    {
        let Some(h) = self.headers.get(i) else { return Err(()) };
        h.data_range(self.endian, self.data, address, size)
    }
}

/// Custom error type for ELF file processing.
#[derive(Debug)]
pub enum ElfError {
    InputOutput(std::io::Error),
    Parsing(object::Error),
    Not64BitElf,
    BinaryNotFound(VfsPath),
    LibraryNotFound(VfsPath),
    /// A needed library's name is not a nul-terminated string of the string
    /// table, or its offset does not fit in 32 bits.
    InvalidStringTable,
}

/// What the dynamic entries say, read in order: the address and the size of
/// the string table (the last entry of each kind counts) and the string table
/// offsets of the needed libraries' names.
pub open spec fn scan_dynamic(entries: Seq<(i64, u64)>) -> (u64, u64, Seq<u64>)
    decreases entries.len(),
{
    if entries.len() == 0 {
        (0, 0, Seq::empty())
    } else {
        let (strtab, strsz, needed) = scan_dynamic(entries.drop_last());
        let (tag, value) = entries.last();
        if tag == DT_STRTAB {
            (value, strsz, needed)
        } else if tag == DT_STRSZ {
            (strtab, value, needed)
        } else if tag == DT_NEEDED {
            (strtab, strsz, needed.push(value))
        } else {
            (strtab, strsz, needed)
        }
    }
}

/// The address and size of the string table and the offsets of the needed
/// libraries' names, from the dynamic entries in order.
pub fn scan_dynamic_entries(entries: &Vec<(i64, u64)>) -> (r: (u64, u64, Vec<u64>))
    ensures
        (r.0, r.1, r.2@) == scan_dynamic(entries@),
{
    let mut strtab: u64 = 0;
    let mut strsz: u64 = 0;
    let mut needed: Vec<u64> = Vec::new();
    let mut i: usize = 0;
    while i < entries.len()
        invariant
            i <= entries@.len(),
            (strtab, strsz, needed@) == scan_dynamic(entries@.take(i as int)),
        decreases entries@.len() - i,
    {
        let (tag, value) = entries[i];
        assert(entries@.take(i + 1).drop_last() =~= entries@.take(i as int));
        if tag == DT_STRTAB {
            strtab = value;
        } else if tag == DT_STRSZ {
            strsz = value;
        } else if tag == DT_NEEDED {
            needed.push(value);
        }
        i = i + 1;
    }
    assert(entries@.take(i as int) =~= entries@);
    (strtab, strsz, needed)
}

/// The index of the first nul byte of `t` at or after `i`.
pub open spec fn first_nul(t: Seq<u8>, i: int) -> Option<int>
    decreases t.len() - i,
{
    if i < 0 || i >= t.len() {
        None
    } else if t[i] == 0 {
        Some(i)
    } else {
        first_nul(t, i + 1)
    }
}

/// The string of a string table at an offset: the bytes from the offset up to
/// the next nul byte, which must be there.
pub open spec fn string_at(t: Seq<u8>, offset: int) -> Option<Seq<u8>> {
    match first_nul(t, offset) {
        Some(e) => Some(t.subrange(offset, e)),
        None => None,
    }
}

proof fn lemma_first_nul_bounds(t: Seq<u8>, i: int)
    ensures
        first_nul(t, i) matches Some(e) ==> 0 <= i <= e < t.len() && t[e] == 0 && forall|k: int|
            i <= k < e ==> t[k] != 0,
    decreases t.len() - i,
{
    if 0 <= i < t.len() && t[i] != 0 {
        lemma_first_nul_bounds(t, i + 1);
    }
}

/// The string of the string table `table` at `offset` (what
/// `object::StringTable::get` gives on a table over all of `table`).
pub fn string_table_get(table: &[u8], offset: u32) -> (r: Option<Vec<u8>>)
    ensures
        r matches Some(v) ==> string_at(table@, offset as int) == Some(v@),
        r is None ==> string_at(table@, offset as int) is None,
{
    let start = offset as usize;
    if start > table.len() {
        return None;
    }
    let mut e: usize = start;
    while e < table.len() && table[e] != 0
        invariant
            start <= e <= table@.len(),
            first_nul(table@, start as int) == first_nul(table@, e as int),
        decreases table@.len() - e,
    {
        e = e + 1;
    }
    if e == table.len() {
        return None;
    }
    let mut v: Vec<u8> = Vec::new();
    let mut k: usize = start;
    while k < e
        invariant
            start <= k <= e < table@.len(),
            v@ == table@.subrange(start as int, k as int),
        decreases e - k,
    {
        v.push(table[k]);
        assert(table@.subrange(start as int, k + 1) =~= table@.subrange(start as int, k as int).push(
            table@[k as int],
        ));
        k = k + 1;
    }
    Some(v)
}

/// The name at an offset of a string table: `None` where the offset does not
/// fit in 32 bits or names no string there.
pub open spec fn name_at(t: Seq<u8>, offset: u64) -> Option<Seq<u8>> {
    if offset <= u32::MAX {
        string_at(t, offset as int)
    } else {
        None
    }
}

/// Reading the needed names from the string table `t` at `offsets` and
/// looking each up in turn gives `r`: each library where it is found first,
/// or the error of the first offset that names no string or whose library is
/// found nowhere, every name before it having been read and found.
pub open spec fn table_libraries<F: Fn(&VfsPath) -> bool>(
    probe: F,
    t: Seq<u8>,
    offsets: Seq<u64>,
    r: Result<Vec<VfsPath>, ElfError>,
) -> bool {
    &&& r matches Ok(libs) ==> libs@.len() == offsets.len() && (forall|k: int|
        0 <= k < offsets.len() ==> #[trigger] name_at(t, offsets[k]) is Some) && forall|k: int|
        0 <= k < offsets.len() ==> found_first(
            probe,
            library_search_paths(),
            parse_path(name_at(t, offsets[k])->0),
            #[trigger] libs@[k]@,
        )
    &&& r is Err ==> exists|m: int|
        #![trigger offsets[m]]
        0 <= m < offsets.len() && (forall|k: int|
            0 <= k < m ==> #[trigger] name_at(t, offsets[k]) is Some && exists|p: PathView|
                #[trigger] found_first(probe, library_search_paths(), parse_path(name_at(t, offsets[k])->0), p)) && match r {
            Err(ElfError::InvalidStringTable) => name_at(t, offsets[m]) is None,
            Err(ElfError::LibraryNotFound(q)) => name_at(t, offsets[m]) matches Some(n) && found_nowhere(
                probe,
                library_search_paths(),
                parse_path(n),
            ) && q@ == parse_path(n),
            _ => false,
        }
}

/// The entries of the dynamic segments, in order; `None` where one of them
/// cannot be read.
pub open spec fn dynamic_entries_in(
    types: Seq<u32>,
    dynamics: Seq<Option<Option<Seq<(i64, u64)>>>>,
) -> Option<Seq<(i64, u64)>>
    decreases types.len(),
{
    if types.len() == 0 {
        Some(Seq::empty())
    } else {
        let n = types.len() - 1;
        match dynamic_entries_in(types.drop_last(), dynamics.take(n)) {
            None => None,
            Some(es) => if types.last() == PT_DYNAMIC {
                match dynamics[n] {
                    None => None,
                    Some(None) => Some(es),
                    Some(Some(more)) => Some(es + more),
                }
            } else {
                Some(es)
            },
        }
    }
}

/// The bytes at a virtual address of the first segment, in order, that holds
/// them.
pub open spec fn first_range(contents: Seq<Option<(u64, Seq<u8>)>>, address: u64, size: u64) -> Option<
    Seq<u8>,
>
    decreases contents.len(),
{
    if contents.len() == 0 {
        None
    } else {
        match first_range(contents.drop_last(), address, size) {
            Some(t) => Some(t),
            None => match contents.last() {
                Some((vaddr, bytes)) => range_at(bytes, vaddr, address, size),
                None => None,
            },
        }
    }
}

/// What the segments of a 64-bit ELF file say it links.
pub enum LinkedNames {
    /// A dynamic segment cannot be read.
    Unreadable,
    /// No segment holds the string table.
    NoStringTable,
    /// The string table, and the offsets in it of the needed libraries' names,
    /// in order.
    Table(Seq<u8>, Seq<u64>),
}

/// The names of the libraries that the ELF data links: read at the needed
/// offsets of the string table that its dynamic entries locate.
pub open spec fn linked_names(data: Seq<u8>) -> LinkedNames {
    match dynamic_entries_in(elf_segment_types(data), elf_segment_dynamics(data)) {
        None => LinkedNames::Unreadable,
        Some(es) => {
            let (strtab, strsz, offsets) = scan_dynamic(es);
            match first_range(elf_segment_contents(data), strtab, strsz) {
                None => LinkedNames::NoStringTable,
                Some(t) => LinkedNames::Table(t, offsets),
            }
        },
    }
}

proof fn lemma_dynamic_prefix_none(
    types: Seq<u32>,
    dynamics: Seq<Option<Option<Seq<(i64, u64)>>>>,
    k: int,
)
    requires
        0 <= k <= types.len(),
        dynamics.len() == types.len(),
        dynamic_entries_in(types.take(k), dynamics.take(k)) is None,
    ensures
        dynamic_entries_in(types, dynamics) is None,
    decreases types.len() - k,
{
    if k < types.len() {
        assert(types.take(k + 1).drop_last() =~= types.take(k));
        assert(dynamics.take(k + 1).take(k) =~= dynamics.take(k));
        lemma_dynamic_prefix_none(types, dynamics, k + 1);
    } else {
        assert(types.take(k) =~= types);
        assert(dynamics.take(k) =~= dynamics);
    }
}

proof fn lemma_first_range_prefix(contents: Seq<Option<(u64, Seq<u8>)>>, address: u64, size: u64, k: int)
    requires
        0 <= k <= contents.len(),
        first_range(contents.take(k), address, size) is Some,
    ensures
        first_range(contents, address, size) == first_range(contents.take(k), address, size),
    decreases contents.len() - k,
{
    if k < contents.len() {
        assert(contents.take(k + 1).drop_last() =~= contents.take(k));
        lemma_first_range_prefix(contents, address, size, k + 1);
    } else {
        assert(contents.take(k) =~= contents);
    }
}

/// What reading the libraries that the ELF data links gives, where `probe`
/// tells which paths exist: a parse error for data too short to tell its
/// kind or whose kind the `object` crate does not recognise or cannot read,
/// `Not64BitElf` for a file of another kind that it recognises, else the
/// libraries named in its string table at the
/// needed offsets, each where it is found first (nothing without a string
/// table).
pub open spec fn linked_result<F: Fn(&VfsPath) -> bool>(
    probe: F,
    data: Seq<u8>,
    r: Result<Vec<VfsPath>, ElfError>,
) -> bool {
    &&& (data.len() < 16 ==> (r matches Err(ElfError::Parsing(_))))
    &&& (data.len() >= 16 && data.subrange(0, 5) != elf64_ident() ==> if file_kind_known(data) {
        r matches Err(ElfError::Not64BitElf)
    } else {
        r matches Err(ElfError::Parsing(_))
    })
    &&& !(r matches Err(ElfError::BinaryNotFound(_)))
    &&& (data.len() >= 16 && data.subrange(0, 5) == elf64_ident() ==> if !elf_segments_read(data) {
        r matches Err(ElfError::Parsing(_))
    } else {
        match linked_names(data) {
            LinkedNames::Unreadable => r matches Err(ElfError::Parsing(_)),
            LinkedNames::NoStringTable => r matches Ok(libs) && libs@.len() == 0,
            LinkedNames::Table(t, offsets) => table_libraries(probe, t, offsets, r),
        }
    })
}

/// Utility type for ELF files.
pub struct Elf;

impl Elf {
    /// Find an ELF binary with the given name, the first that `probe` says
    /// exists in the binary search paths.
    pub fn find_binary<F: Fn(&VfsPath) -> bool>(name: &VfsPath, probe: &F) -> (r: Result<
        VfsPath,
        ElfError,
    >)
        requires
            forall|q: &VfsPath| #[trigger] probe.requires((q,)),
        ensures
            r matches Ok(p) ==> found_first(*probe, binary_search_paths(), name@, p@),
            r matches Err(e) ==> e matches ElfError::BinaryNotFound(q) && q@ == name@
                && found_nowhere(*probe, binary_search_paths(), name@),
    {
        let dirs = binary_search_paths_exec();
        match search_paths(name, &dirs, probe) {
            Some(p) => Ok(p),
            None => Err(ElfError::BinaryNotFound(name.duplicate())),
        }
    }

    /// Find an ELF library with the given name, the first that `probe` says
    /// exists in the library search paths.
    pub fn find_library<F: Fn(&VfsPath) -> bool>(name: &VfsPath, probe: &F) -> (r: Result<
        VfsPath,
        ElfError,
    >)
        requires
            forall|q: &VfsPath| #[trigger] probe.requires((q,)),
        ensures
            r matches Ok(p) ==> found_first(*probe, library_search_paths(), name@, p@),
            r matches Err(e) ==> e matches ElfError::LibraryNotFound(q) && q@ == name@
                && found_nowhere(*probe, library_search_paths(), name@),
    {
        let dirs = library_search_paths_exec();
        match search_paths(name, &dirs, probe) {
            Some(p) => Ok(p),
            None => Err(ElfError::LibraryNotFound(name.duplicate())),
        }
    }

    /// The libraries named in the string table `table` at `offsets`, in order:
    /// each name is read, then looked up where `probe` first finds it in the
    /// library search paths, before the next name is read.
    pub fn table_libraries<F: Fn(&VfsPath) -> bool>(table: &[u8], offsets: &Vec<u64>, probe: &F) -> (r:
        Result<Vec<VfsPath>, ElfError>)
        requires
            forall|q: &VfsPath| #[trigger] probe.requires((q,)),
        ensures
            table_libraries(*probe, table@, offsets@, r),
    {
        let mut libs: Vec<VfsPath> = Vec::new();
        let mut i: usize = 0;
        while i < offsets.len()
            invariant
                i <= offsets@.len(),
                libs@.len() == i,
                forall|q: &VfsPath| #[trigger] probe.requires((q,)),
                forall|k: int| 0 <= k < i ==> #[trigger] name_at(table@, offsets@[k]) is Some,
                forall|k: int|
                    0 <= k < i ==> found_first(
                        *probe,
                        library_search_paths(),
                        parse_path(name_at(table@, offsets@[k])->0),
                        #[trigger] libs@[k]@,
                    ),
            decreases offsets@.len() - i,
        {
            proof {
                assert forall|k: int| 0 <= k < i implies #[trigger] name_at(table@, offsets@[k]) is Some
                    && exists|p: PathView|
                    #[trigger] found_first(
                        *probe,
                        library_search_paths(),
                        parse_path(name_at(table@, offsets@[k])->0),
                        p,
                    ) by {
                    assert(found_first(
                        *probe,
                        library_search_paths(),
                        parse_path(name_at(table@, offsets@[k])->0),
                        libs@[k]@,
                    ));
                }
            }
            let offset = offsets[i];
            if offset > 0xffff_ffffu64 {
                assert(name_at(table@, offsets@[i as int]) is None);
                return Err(ElfError::InvalidStringTable);
            }
            let short = offset as u32;
            assert(short as int == offsets@[i as int] as int);
            let name = match string_table_get(table, short) {
                Some(n) => n,
                None => {
                    assert(name_at(table@, offsets@[i as int]) is None);
                    return Err(ElfError::InvalidStringTable);
                },
            };
            assert(name_at(table@, offsets@[i as int]) == Some(name@));
            let lib = VfsPath::from_bytes(name.as_slice());
            match Elf::find_library(&lib, probe) {
                Ok(p) => {
                    libs.push(p);
                },
                Err(e) => {
                    return Err(e);
                },
            }
            i = i + 1;
        }
        Ok(libs)
    }

    /// The dynamic libraries that a 64-bit ELF file links (given its data),
    /// each where `probe` first finds it in the library search paths.
    pub fn linked_libraries<F: Fn(&VfsPath) -> bool>(data: &[u8], probe: &F) -> (r: Result<
        Vec<VfsPath>,
        ElfError,
    >)
        requires
            forall|q: &VfsPath| #[trigger] probe.requires((q,)),
        ensures
            linked_result(*probe, data@, r),
    {
        match file_kind_is_elf64(data) {
            Ok(true) => {},
            Ok(false) => {
                return Err(ElfError::Not64BitElf);
            },
            Err(e) => {
                return Err(ElfError::Parsing(e));
            },
        }
        let segments = match ElfSegments::parse(data) {
            Ok(s) => s,
            Err(e) => {
                return Err(ElfError::Parsing(e));
            },
        };
        let ghost types = elf_segment_types(data@);
        let ghost dyns = elf_segment_dynamics(data@);
        let ghost contents = elf_segment_contents(data@);
        let n = segments.count();
        let mut entries: Vec<(i64, u64)> = Vec::new();
        let mut i: usize = 0;
        assert(types.take(0) =~= Seq::<u32>::empty());
        while i < n
            invariant
                data@.len() >= 16 && data@.subrange(0, 5) == elf64_ident(),
                segments_source(segments) == data@,
                types == elf_segment_types(data@),
                dyns == elf_segment_dynamics(data@),
                n == types.len(),
                dyns.len() == n,
                i <= n,
                dynamic_entries_in(types.take(i as int), dyns.take(i as int)) == Some(entries@),
            decreases n - i,
        {
            assert(types.take(i + 1).drop_last() =~= types.take(i as int));
            assert(dyns.take(i + 1).take(i as int) =~= dyns.take(i as int));
            assert(types.take(i + 1).last() == types[i as int]);
            assert(dyns.take(i + 1)[i as int] == dyns[i as int]);
            if let Some(t) = segments.segment_type(i) {
                if t == PT_DYNAMIC {
                    match segments.dynamic_entries(i) {
                        Ok(Some(found)) => {
                            let ghost before = entries@;
                            let mut j: usize = 0;
                            while j < found.len()
                                invariant
                                    j <= found@.len(),
                                    entries@ == before + found@.take(j as int),
                                decreases found@.len() - j,
                            {
                                entries.push(found[j]);
                                assert(found@.take(j + 1) =~= found@.take(j as int).push(found@[j as int]));
                                assert(entries@ =~= before + found@.take(j + 1));
                                j = j + 1;
                            }
                            assert(found@.take(j as int) =~= found@);
                        },
                        Ok(None) => {},
                        Err(e) => {
                            proof {
                                lemma_dynamic_prefix_none(types, dyns, i + 1);
                            }
                            return Err(ElfError::Parsing(e));
                        },
                    }
                }
            }
            i = i + 1;
        }
        assert(types.take(i as int) =~= types);
        assert(dyns.take(i as int) =~= dyns);
        let (strtab, strsz, offsets) = scan_dynamic_entries(&entries);
        let mut table: Option<&[u8]> = None;
        let mut i: usize = 0;
        assert(contents.take(0) =~= Seq::<Option<(u64, Seq<u8>)>>::empty());
        while i < n && table.is_none()
            invariant
                segments_source(segments) == data@,
                types == elf_segment_types(data@),
                contents == elf_segment_contents(data@),
                n == types.len(),
                contents.len() == n,
                i <= n,
                table is None ==> first_range(contents.take(i as int), strtab, strsz) is None,
                table matches Some(t) ==> first_range(contents.take(i as int), strtab, strsz) == Some(
                    t@,
                ),
            decreases n - i,
        {
            assert(contents.take(i + 1).drop_last() =~= contents.take(i as int));
            assert(contents.take(i + 1).last() == contents[i as int]);
            if let Ok(Some(d)) = segments.data_range(i, strtab, strsz) {
                table = Some(d);
            }
            i = i + 1;
        }
        match table {
            None => {
                assert(contents.take(i as int) =~= contents);
                Ok(Vec::new())
            },
            Some(t) => {
                proof {
                    lemma_first_range_prefix(contents, strtab, strsz, i as int);
                }
                Elf::table_libraries(t, &offsets, probe)
            },
        }
    }
}

} // verus!
