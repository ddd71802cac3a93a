//! Reads a PE image without loading it. Every field is bounds-checked against
//! the slice it came from.

use vstd::prelude::*;

use crate::text::{decode_lossy, hex, push_hex, push_hex_padded, texts, utf8_lossy, zeroes};

pub mod version;

verus! {

/// Why a buffer could not be read as a PE image.
#[derive(Debug, Clone, Copy, PartialEq, Eq, Structural)]
pub enum Error {
    /// A field ran past the end of the buffer.
    Truncated { at: usize },
    /// No `MZ` at offset 0.
    NotMz,
    /// `e_lfanew` did not point at a `PE\0\0` signature.
    NotPe,
    /// Optional header magic was neither PE32 nor PE32+.
    BadOptionalMagic(u16),
    /// An RVA fell outside every section.
    UnmappedRva(u32),
    /// A name ran for `MAX_NAME` bytes without a terminator.
    UnterminatedName { at: usize },
    /// A resource directory entry pointed at a subdirectory where a leaf was
    /// expected, or the reverse.
    MalformedResourceTree { at: usize },
    /// A descriptor table at this RVA ran for `MAX_DESCRIPTORS` entries with
    /// no terminator. Reported rather than cut short, because a truncated
    /// import list reads exactly like a complete one.
    UnterminatedDescriptors { rva: u32 },
}

/// `0x` and `n` in hexadecimal, as `{:#x}` prints it.
pub open spec fn hex_text(n: nat) -> Seq<char> {
    "0x"@ + hex(n)
}

/// `0x` and `n` in four or more hexadecimal digits, as `{:#06x}` prints it.
pub open spec fn hex4_text(n: nat) -> Seq<char> {
    "0x"@ + zeroes(6 - 2 - hex(n).len()) + hex(n)
}

impl Error {
    /// The sentence that reports this error.
    pub open spec fn spec_describe(self) -> Seq<char> {
        match self {
            Error::Truncated { at } => "truncated at offset "@ + hex_text(at as nat),
            Error::NotMz => "not a DOS image: missing MZ"@,
            Error::NotPe => "not a PE image: missing PE signature"@,
            Error::BadOptionalMagic(m) => "unknown optional header magic "@ + hex4_text(m as nat),
            Error::UnmappedRva(rva) => "rva "@ + hex_text(rva as nat) + " is in no section"@,
            Error::UnterminatedName { at } => "unterminated name at offset "@ + hex_text(
                at as nat,
            ),
            Error::MalformedResourceTree { at } => "malformed resource directory at offset "@
                + hex_text(at as nat),
            Error::UnterminatedDescriptors { rva } => "descriptor table at rva "@ + hex_text(
                rva as nat,
            ) + " has no terminator within 4096 entries"@,
        }
    }

    /// The sentence that reports this error.
    pub fn describe(&self) -> (s: String)
        ensures
            s@ == self.spec_describe(),
    {
        let mut s = String::new();
        match *self {
            Error::Truncated { at } => {
                s.push_str("truncated at offset 0x");
                push_hex(&mut s, at as u64);
            },
            Error::NotMz => s.push_str("not a DOS image: missing MZ"),
            Error::NotPe => s.push_str("not a PE image: missing PE signature"),
            Error::BadOptionalMagic(m) => {
                s.push_str("unknown optional header magic ");
                push_hex_padded(&mut s, m as u64, 4);
            },
            Error::UnmappedRva(rva) => {
                s.push_str("rva 0x");
                push_hex(&mut s, rva as u64);
                s.push_str(" is in no section");
            },
            Error::UnterminatedName { at } => {
                s.push_str("unterminated name at offset 0x");
                push_hex(&mut s, at as u64);
            },
            Error::MalformedResourceTree { at } => {
                s.push_str("malformed resource directory at offset 0x");
                push_hex(&mut s, at as u64);
            },
            Error::UnterminatedDescriptors { rva } => {
                s.push_str("descriptor table at rva 0x");
                push_hex(&mut s, rva as u64);
                s.push_str(" has no terminator within 4096 entries");
            },
        }
        proof {
            reveal_strlit("truncated at offset 0x");
            reveal_strlit("truncated at offset ");
            reveal_strlit("0x");
            reveal_strlit("rva 0x");
            reveal_strlit("rva ");
            reveal_strlit("unterminated name at offset 0x");
            reveal_strlit("unterminated name at offset ");
            reveal_strlit("malformed resource directory at offset 0x");
            reveal_strlit("malformed resource directory at offset ");
            reveal_strlit("unknown optional header magic ");
            reveal_strlit("descriptor table at rva 0x");
            reveal_strlit("descriptor table at rva ");
        }
        assert(s@ =~= self.spec_describe());
        s
    }
}

/// Little-endian `u16` stored at `at`.
pub open spec fn u16_at(b: Seq<u8>, at: int) -> u16 {
    (b[at] as int + b[at + 1] as int * 256) as u16
}

/// Little-endian `u32` stored at `at`.
pub open spec fn u32_at(b: Seq<u8>, at: int) -> u32 {
    (b[at] as int + b[at + 1] as int * 0x100 + b[at + 2] as int * 0x1_0000 + b[at + 3] as int
        * 0x100_0000) as u32
}

/// Reading a `u16` at `at`: the value, or truncation at the offset asked for.
pub open spec fn read16(b: Seq<u8>, at: int) -> Result<u16, Error> {
    if at + 2 <= b.len() {
        Ok(u16_at(b, at))
    } else {
        Err(Error::Truncated { at: at as usize })
    }
}

/// Reading a `u32` at `at`: the value, or truncation at the offset asked for.
pub open spec fn read32(b: Seq<u8>, at: int) -> Result<u32, Error> {
    if at + 4 <= b.len() {
        Ok(u32_at(b, at))
    } else {
        Err(Error::Truncated { at: at as usize })
    }
}

/// Reads a little-endian `u16` at `at`.
pub fn read_u16(buf: &[u8], at: usize) -> (res: Result<u16, Error>)
    ensures
        res == read16(buf@, at as int),
{
    if at > buf.len() || buf.len() - at < 2 {
        return Err(Error::Truncated { at });
    }
    let lo = buf[at] as u16;
    let hi = buf[at + 1] as u16;
    Ok(lo + hi * 256)
}

/// Reads a little-endian `u32` at `at`.
pub fn read_u32(buf: &[u8], at: usize) -> (res: Result<u32, Error>)
    ensures
        res == read32(buf@, at as int),
{
    if at > buf.len() || buf.len() - at < 4 {
        return Err(Error::Truncated { at });
    }
    let b0 = buf[at] as u32;
    let b1 = buf[at + 1] as u32;
    let b2 = buf[at + 2] as u32;
    let b3 = buf[at + 3] as u32;
    Ok(b0 + b1 * 0x100 + b2 * 0x1_0000 + b3 * 0x100_0000)
}

/// The COFF `Machine` field.
#[derive(Debug, Clone, Copy, PartialEq, Eq, Structural)]
pub enum Machine {
    I386,
    Amd64,
    Arm64,
    Other(u16),
}

impl Machine {
    /// How this machine is named in a report.
    pub open spec fn spec_describe(self) -> Seq<char> {
        match self {
            Machine::I386 => "x86"@,
            Machine::Amd64 => "x86-64"@,
            Machine::Arm64 => "arm64"@,
            Machine::Other(v) => "unknown("@ + hex4_text(v as nat) + ")"@,
        }
    }

    /// How this machine is named in a report.
    pub fn describe(&self) -> (s: String)
        ensures
            s@ == self.spec_describe(),
    {
        let mut s = String::new();
        match *self {
            Machine::I386 => s.push_str("x86"),
            Machine::Amd64 => s.push_str("x86-64"),
            Machine::Arm64 => s.push_str("arm64"),
            Machine::Other(v) => {
                s.push_str("unknown(");
                push_hex_padded(&mut s, v as u64, 4);
                s.push_str(")");
            },
        }
        assert(s@ =~= self.spec_describe());
        s
    }

    /// The machine a COFF header value names; unknown values are kept.
    pub open spec fn spec_from_u16(v: u16) -> Machine {
        if v == 0x014c {
            Machine::I386
        } else if v == 0x8664 {
            Machine::Amd64
        } else if v == 0xaa64 {
            Machine::Arm64
        } else {
            Machine::Other(v)
        }
    }

    pub fn from_u16(v: u16) -> (m: Machine)
        ensures
            m == Machine::spec_from_u16(v),
    {
        if v == 0x014c {
            Machine::I386
        } else if v == 0x8664 {
            Machine::Amd64
        } else if v == 0xaa64 {
            Machine::Arm64
        } else {
            Machine::Other(v)
        }
    }
}


/// Index of the import table in the optional header's data directory.
pub const DIR_IMPORT: usize = 1;

/// Index of the delay-load import table.
pub const DIR_DELAY_IMPORT: usize = 13;

/// A descriptor array is terminated by an all-zero entry; this caps the walk
/// in case the terminator was lost.
pub const MAX_DESCRIPTORS: usize = 4096;

/// Longest DLL name accepted.
pub const MAX_NAME: usize = 256;

/// Size of one `IMAGE_SECTION_HEADER`.
pub const SECTION_HEADER: usize = 40;

/// `x`, or `usize::MAX` when it does not fit: what `saturating_add` yields.
pub open spec fn sat(x: int) -> int {
    if x > usize::MAX {
        usize::MAX as int
    } else {
        x
    }
}

/// A successful sequence with `prefix` in front, or the same error.
pub open spec fn extend<T>(prefix: Seq<T>, r: Result<Seq<T>, Error>) -> Result<Seq<T>, Error> {
    match r {
        Ok(s) => Ok(prefix + s),
        Err(e) => Err(e),
    }
}

/// Extending by a prefix and then by one more element is extending by both.
pub proof fn lemma_extend_push<T>(prefix: Seq<T>, x: T, r: Result<Seq<T>, Error>)
    ensures
        extend(prefix, extend(seq![x], r)) == extend(prefix.push(x), r),
{
    match r {
        Ok(s) => {
            assert(prefix + (seq![x] + s) =~= prefix.push(x) + s);
        },
        Err(_) => {},
    }
}

/// Just enough of a section header to translate an RVA into a file offset.
#[derive(Debug, Clone, Copy, PartialEq, Eq, Structural)]
pub struct Section {
    pub virtual_address: u32,
    pub virtual_size: u32,
    pub raw_pointer: u32,
    pub raw_size: u32,
}

impl Section {
    pub fn new(virtual_address: u32, virtual_size: u32, raw_pointer: u32, raw_size: u32) -> (s:
        Section)
        ensures
            s == (Section { virtual_address, virtual_size, raw_pointer, raw_size }),
    {
        Section { virtual_address, virtual_size, raw_pointer, raw_size }
    }
}

/// A parsed PE image, borrowing the bytes it was read from.
#[derive(Debug)]
pub struct Pe<'a> {
    buf: &'a [u8],
    machine: Machine,
    pe32_plus: bool,
    sections: Vec<Section>,
    /// `(rva, size)` per data directory entry, in file order.
    directories: Vec<(u32, u32)>,
}

/// What a [`Pe`] holds, as plain values.
pub struct PeView {
    pub buf: Seq<u8>,
    pub machine: Machine,
    pub pe32_plus: bool,
    pub sections: Seq<Section>,
    pub directories: Seq<(u32, u32)>,
}

impl<'a> View for Pe<'a> {
    type V = PeView;

    closed spec fn view(&self) -> PeView {
        PeView {
            buf: self.buf@,
            machine: self.machine,
            pe32_plus: self.pe32_plus,
            sections: self.sections@,
            directories: self.directories@,
        }
    }
}

/// The data directory entries from `i` on: each is a pair of `u32`s, eight
/// bytes apart from `base`.
pub open spec fn directories_from(b: Seq<u8>, base: int, n: int, i: int) -> Result<
    Seq<(u32, u32)>,
    Error,
>
    decreases n - i,
{
    if i >= n {
        Ok(Seq::empty())
    } else {
        let at = sat(base + 8 * i);
        match read32(b, at) {
            Err(e) => Err(e),
            Ok(rva) => match read32(b, sat(at + 4)) {
                Err(e) => Err(e),
                Ok(size) => extend(seq![(rva, size)], directories_from(b, base, n, i + 1)),
            },
        }
    }
}

/// The section headers from `i` on, forty bytes apart from `base`.
pub open spec fn sections_from(b: Seq<u8>, base: int, n: int, i: int) -> Result<
    Seq<Section>,
    Error,
>
    decreases n - i,
{
    if i >= n {
        Ok(Seq::empty())
    } else {
        let at = sat(base + 40 * i);
        match read32(b, sat(at + 8)) {
            Err(e) => Err(e),
            Ok(virtual_size) => match read32(b, sat(at + 12)) {
                Err(e) => Err(e),
                Ok(virtual_address) => match read32(b, sat(at + 16)) {
                    Err(e) => Err(e),
                    Ok(raw_size) => match read32(b, sat(at + 20)) {
                        Err(e) => Err(e),
                        Ok(raw_pointer) => extend(
                            seq![Section { virtual_address, virtual_size, raw_pointer, raw_size }],
                            sections_from(b, base, n, i + 1),
                        ),
                    },
                },
            },
        }
    }
}

/// The headers of a PE image once the optional header's magic is known.
pub open spec fn spec_parse_tables(
    b: Seq<u8>,
    machine: u16,
    section_count: u16,
    optional_size: u16,
    optional: int,
    magic: u16,
) -> Result<PeView, Error> {
    let pe32_plus = magic == 0x20b;
    let dir_count_at = sat(optional + if pe32_plus { 108int } else { 92int });
    match read32(b, dir_count_at) {
        Err(e) => Err(e),
        Ok(dir_count) => match directories_from(b, sat(dir_count_at + 4), dir_count as int, 0) {
            Err(e) => Err(e),
            Ok(directories) => match sections_from(
                b,
                sat(optional + optional_size),
                section_count as int,
                0,
            ) {
                Err(e) => Err(e),
                Ok(sections) => Ok(
                    PeView {
                        buf: b,
                        machine: Machine::spec_from_u16(machine),
                        pe32_plus,
                        sections,
                        directories,
                    },
                ),
            },
        },
    }
}

/// The COFF and optional headers that follow the `PE\0\0` signature at `coff - 4`.
pub open spec fn spec_parse_coff(b: Seq<u8>, coff: int) -> Result<PeView, Error> {
    match read16(b, coff) {
        Err(e) => Err(e),
        Ok(machine) => match read16(b, sat(coff + 2)) {
            Err(e) => Err(e),
            Ok(section_count) => match read16(b, sat(coff + 16)) {
                Err(e) => Err(e),
                Ok(optional_size) => {
                    let optional = sat(coff + 20);
                    match read16(b, optional) {
                        Err(e) => Err(e),
                        Ok(magic) => if magic != 0x10b && magic != 0x20b {
                            Err(Error::BadOptionalMagic(magic))
                        } else {
                            spec_parse_tables(
                                b,
                                machine,
                                section_count,
                                optional_size,
                                optional,
                                magic,
                            )
                        },
                    }
                },
            },
        },
    }
}

/// What [`Pe::parse`] makes of `b`: the DOS header, the `PE` signature it
/// points at, the COFF and optional headers, every data directory entry the
/// header declares and every section header; or the first check or read that
/// fails.
pub open spec fn spec_parse(b: Seq<u8>) -> Result<PeView, Error> {
    match read16(b, 0) {
        Err(e) => Err(e),
        Ok(mz) => if mz != 0x5a4d {
            Err(Error::NotMz)
        } else {
            match read32(b, 0x3c) {
                Err(e) => Err(e),
                Ok(pe_offset) => match read32(b, pe_offset as int) {
                    Err(e) => Err(e),
                    Ok(signature) => if signature != 0x4550 {
                        Err(Error::NotPe)
                    } else {
                        spec_parse_coff(b, sat(pe_offset + 4))
                    },
                },
            }
        },
    }
}

/// `x`'s larger of two `u32`s.
pub open spec fn max32(a: u32, b: u32) -> u32 {
    if a >= b {
        a
    } else {
        b
    }
}

/// True when `rva` falls in the span the section covers in memory or on disk.
pub open spec fn covers(s: Section, rva: u32) -> bool {
    let end = if s.virtual_address + max32(s.virtual_size, s.raw_size) > u32::MAX {
        u32::MAX as int
    } else {
        s.virtual_address + max32(s.virtual_size, s.raw_size)
    };
    s.virtual_address <= rva && rva < end
}

/// Where a covering section stores `rva` in the file: refused past the stored
/// bytes, and refused when the sum leaves `u32`.
pub open spec fn translate(s: Section, rva: u32) -> Result<usize, Error> {
    let delta = rva - s.virtual_address;
    if delta >= s.raw_size {
        Err(Error::UnmappedRva(rva))
    } else if s.raw_pointer + delta > u32::MAX {
        Err(Error::UnmappedRva(rva))
    } else {
        Ok((s.raw_pointer + delta) as usize)
    }
}

/// The file offset of `rva`, by the first section that covers it.
pub open spec fn offset_in(sections: Seq<Section>, rva: u32) -> Result<usize, Error>
    decreases sections.len(),
{
    if sections.len() == 0 {
        Err(Error::UnmappedRva(rva))
    } else if covers(sections[0], rva) {
        translate(sections[0], rva)
    } else {
        offset_in(sections.drop_first(), rva)
    }
}

/// The index of the first zero byte of `s` at or after `from`.
pub open spec fn first_zero(s: Seq<u8>, from: int) -> Option<int>
    decreases s.len() - from,
{
    if from >= s.len() {
        None
    } else if s[from] == 0 {
        Some(from)
    } else {
        first_zero(s, from + 1)
    }
}

/// The NUL-terminated name stored at `rva`, read within `MAX_NAME` bytes.
pub open spec fn cstr_at(pe: PeView, rva: u32) -> Result<Seq<char>, Error> {
    match offset_in(pe.sections, rva) {
        Err(e) => Err(e),
        Ok(at) => if at > pe.buf.len() {
            Err(Error::Truncated { at })
        } else {
            let end = if pe.buf.len() - at < MAX_NAME {
                pe.buf.len() as int
            } else {
                at + MAX_NAME
            };
            let window = pe.buf.subrange(at as int, end);
            match first_zero(window, 0) {
                None => Err(Error::UnterminatedName { at }),
                Some(z) => Ok(utf8_lossy(window.subrange(0, z))),
            }
        },
    }
}

/// True when every byte of `s` is zero.
pub open spec fn all_zero(s: Seq<u8>) -> bool {
    forall|k: int| 0 <= k < s.len() ==> s[k] == 0
}

/// Descriptor `i` of a table at `rva`: `None` at the terminator, else the DLL
/// name its name field points at.
pub open spec fn descriptor_at(pe: PeView, rva: u32, stride: int, name_at: int, i: int) -> Result<
    Option<Seq<char>>,
    Error,
> {
    let target = if rva + i * stride > u32::MAX {
        u32::MAX
    } else {
        (rva + i * stride) as u32
    };
    match offset_in(pe.sections, target) {
        Err(e) => Err(e),
        Ok(at) => if at + stride > pe.buf.len() {
            Err(Error::Truncated { at })
        } else {
            let descriptor = pe.buf.subrange(at as int, at + stride);
            if all_zero(descriptor) {
                Ok(None)
            } else if u32_at(descriptor, name_at) == 0 {
                Ok(None)
            } else {
                match cstr_at(pe, u32_at(descriptor, name_at)) {
                    Err(e) => Err(e),
                    Ok(name) => Ok(Some(name)),
                }
            }
        },
    }
}

/// The names of descriptors `i` onwards, up to the terminator; a table that
/// reaches the cap without one is refused.
pub open spec fn descriptor_names_from(
    pe: PeView,
    rva: u32,
    stride: int,
    name_at: int,
    i: int,
) -> Result<Seq<Seq<char>>, Error>
    decreases MAX_DESCRIPTORS - i,
{
    if i >= MAX_DESCRIPTORS {
        Err(Error::UnterminatedDescriptors { rva })
    } else {
        match descriptor_at(pe, rva, stride, name_at, i) {
            Err(e) => Err(e),
            Ok(None) => Ok(Seq::empty()),
            Ok(Some(name)) => extend(
                seq![name],
                descriptor_names_from(pe, rva, stride, name_at, i + 1),
            ),
        }
    }
}

/// The DLL names of the descriptor table in data directory `dir`: none when
/// the image declares no such directory or leaves it at RVA zero.
pub open spec fn descriptor_names(pe: PeView, dir: int, stride: int, name_at: int) -> Result<
    Seq<Seq<char>>,
    Error,
> {
    if dir >= pe.directories.len() {
        Ok(Seq::empty())
    } else if pe.directories[dir].0 == 0 {
        Ok(Seq::empty())
    } else {
        descriptor_names_from(pe, pe.directories[dir].0, stride, name_at, 0)
    }
}


/// A list of names, or an error, as plain text.
pub open spec fn names_view(r: Result<Vec<String>, Error>) -> Result<Seq<Seq<char>>, Error> {
    match r {
        Ok(v) => Ok(texts(v@)),
        Err(e) => Err(e),
    }
}

impl<'a> Pe<'a> {
    /// A `Pe` assembled from parts already known.
    pub fn from_parts(
        buf: &'a [u8],
        machine: Machine,
        pe32_plus: bool,
        sections: Vec<Section>,
        directories: Vec<(u32, u32)>,
    ) -> (pe: Pe<'a>)
        ensures
            pe@ == (PeView {
                buf: buf@,
                machine,
                pe32_plus,
                sections: sections@,
                directories: directories@,
            }),
    {
        Pe { buf, machine, pe32_plus, sections, directories }
    }

    /// Parses the headers of `buf`. Section contents are read lazily by the
    /// accessors.
    pub fn parse(buf: &'a [u8]) -> (res: Result<Pe<'a>, Error>)
        ensures
            match res {
                Ok(pe) => spec_parse(buf@) == Ok::<PeView, Error>(pe@),
                Err(e) => spec_parse(buf@) == Err::<PeView, Error>(e),
            },
    {
        let mz = read_u16(buf, 0)?;
        if mz != 0x5a4d {
            return Err(Error::NotMz);
        }
        let pe_offset = read_u32(buf, 0x3c)? as usize;
        let signature = read_u32(buf, pe_offset)?;
        if signature != 0x0000_4550 {
            return Err(Error::NotPe);
        }
        // COFF header, 20 bytes, immediately after the 4-byte signature.
        Self::parse_coff(buf, pe_offset.saturating_add(4))
    }

    fn parse_coff(buf: &'a [u8], coff: usize) -> (res: Result<Pe<'a>, Error>)
        ensures
            match res {
                Ok(pe) => spec_parse_coff(buf@, coff as int) == Ok::<PeView, Error>(pe@),
                Err(e) => spec_parse_coff(buf@, coff as int) == Err::<PeView, Error>(e),
            },
    {
        let machine = read_u16(buf, coff)?;
        let section_count = read_u16(buf, coff.saturating_add(2))?;
        let optional_size = read_u16(buf, coff.saturating_add(16))?;
        let optional = coff.saturating_add(20);
        let magic = read_u16(buf, optional)?;
        if magic != 0x010b && magic != 0x020b {
            return Err(Error::BadOptionalMagic(magic));
        }
        Self::parse_tables(buf, machine, section_count, optional_size, optional, magic)
    }

    /// The data directories and the section headers. The two optional header
    /// layouts differ in that PE32+ widens four fields, which pushes the
    /// directory count 16 bytes on.
    fn parse_tables(
        buf: &'a [u8],
        machine: u16,
        section_count: u16,
        optional_size: u16,
        optional: usize,
        magic: u16,
    ) -> (res: Result<Pe<'a>, Error>)
        ensures
            match res {
                Ok(pe) => spec_parse_tables(
                    buf@,
                    machine,
                    section_count,
                    optional_size,
                    optional as int,
                    magic,
                ) == Ok::<PeView, Error>(pe@),
                Err(e) => spec_parse_tables(
                    buf@,
                    machine,
                    section_count,
                    optional_size,
                    optional as int,
                    magic,
                ) == Err::<PeView, Error>(e),
            },
    {
        let pe32_plus = magic == 0x020b;
        let dir_count_at = if pe32_plus {
            optional.saturating_add(108)
        } else {
            optional.saturating_add(92)
        };
        let dir_count = read_u32(buf, dir_count_at)? as usize;
        let directories = read_directories(buf, dir_count_at.saturating_add(4), dir_count)?;
        // Section headers follow the optional header, whose length the COFF
        // header states rather than the magic implying it.
        let sections = read_sections(
            buf,
            optional.saturating_add(optional_size as usize),
            section_count as usize,
        )?;
        Ok(Pe { buf, machine: Machine::from_u16(machine), pe32_plus, sections, directories })
    }

    pub fn machine(&self) -> (m: Machine)
        ensures
            m == self@.machine,
    {
        self.machine
    }

    /// True for PE32+.
    pub fn is_64bit(&self) -> (b: bool)
        ensures
            b == self@.pe32_plus,
    {
        self.pe32_plus
    }

    /// DLL names from the import table. A 20-byte descriptor whose name RVA
    /// sits at +12.
    pub fn imports(&self) -> (res: Result<Vec<String>, Error>)
        ensures
            names_view(res) == descriptor_names(self@, DIR_IMPORT as int, 20, 12),
    {
        self.descriptor_names(DIR_IMPORT, 20, 12)
    }

    /// DLL names from the delay-load table. A 32-byte descriptor whose name
    /// RVA sits at +4.
    pub fn delay_imports(&self) -> (res: Result<Vec<String>, Error>)
        ensures
            names_view(res) == descriptor_names(self@, DIR_DELAY_IMPORT as int, 32, 4),
    {
        self.descriptor_names(DIR_DELAY_IMPORT, 32, 4)
    }

    fn descriptor_names(&self, dir: usize, stride: usize, name_at: usize) -> (res: Result<
        Vec<String>,
        Error,
    >)
        requires
            stride == 20 || stride == 32,
            name_at + 4 <= stride,
        ensures
            names_view(res) == descriptor_names(self@, dir as int, stride as int, name_at as int),
    {
        assert(texts(Seq::<String>::empty()) =~= Seq::<Seq<char>>::empty());
        if dir >= self.directories.len() {
            return Ok(Vec::new());
        }
        let rva = self.directories[dir].0;
        if rva == 0 {
            return Ok(Vec::new());
        }
        let ghost pe = self@;
        let mut names: Vec<String> = Vec::new();
        let mut i: usize = 0;
        while i < MAX_DESCRIPTORS
            invariant
                pe == self@,
                dir < pe.directories.len(),
                rva == pe.directories[dir as int].0,
                rva != 0,
                stride == 20 || stride == 32,
                name_at + 4 <= stride,
                i <= MAX_DESCRIPTORS,
                descriptor_names_from(pe, rva, stride as int, name_at as int, 0) == extend(
                    texts(names@),
                    descriptor_names_from(pe, rva, stride as int, name_at as int, i as int),
                ),
            decreases MAX_DESCRIPTORS - i,
        {
            assert(i * stride <= 4096 * 32) by (nonlinear_arith)
                requires
                    i < 4096,
                    stride <= 32,
            ;
            let step = (i * stride) as u32;
            let target = rva.saturating_add(step);
            let at = match self.offset_of(target) {
                Ok(at) => at,
                Err(e) => {
                    assert(descriptor_at(pe, rva, stride as int, name_at as int, i as int) == Err::<
                        Option<Seq<char>>,
                        Error,
                    >(e));
                    assert(descriptor_names_from(pe, rva, stride as int, name_at as int, i as int) == Err::<
                        Seq<Seq<char>>,
                        Error,
                    >(e));
                    return Err(e);
                },
            };
            let end = match at.checked_add(stride) {
                Some(end) => end,
                None => {
                    let len = self.buf.len();
                    assert(at + stride > pe.buf.len());
                    assert(descriptor_at(pe, rva, stride as int, name_at as int, i as int) == Err::<
                        Option<Seq<char>>,
                        Error,
                    >(Error::Truncated { at }));
                    return Err(Error::Truncated { at });
                },
            };
            if end > self.buf.len() {
                return Err(Error::Truncated { at });
            }
            let ghost descriptor = pe.buf.subrange(at as int, at + stride);
            let mut zero = true;
            let mut k: usize = at;
            while k < end
                invariant
                    at <= k <= end,
                    end == at + stride,
                    end <= self.buf@.len(),
                    descriptor == self.buf@.subrange(at as int, end as int),
                    zero == (forall|j: int| 0 <= j < k - at ==> descriptor[j] == 0),
                decreases end - k,
            {
                assert(descriptor[k - at] == self.buf@[k as int]);
                if self.buf[k] != 0 {
                    zero = false;
                }
                k = k + 1;
            }
            if zero {
                assert(texts(names@) + Seq::<Seq<char>>::empty() =~= texts(names@));
                return Ok(names);
            }
            let name_rva = read_u32(self.buf, at + name_at)?;
            assert(descriptor[name_at as int] == self.buf@[at + name_at]);
            assert(descriptor[name_at + 1] == self.buf@[at + name_at + 1]);
            assert(descriptor[name_at + 2] == self.buf@[at + name_at + 2]);
            assert(descriptor[name_at + 3] == self.buf@[at + name_at + 3]);
            assert(name_rva == u32_at(descriptor, name_at as int));
            if name_rva == 0 {
                assert(texts(names@) + Seq::<Seq<char>>::empty() =~= texts(names@));
                return Ok(names);
            }
            let name = match self.cstr_at_rva(name_rva) {
                Ok(name) => name,
                Err(e) => {
                    assert(descriptor_at(pe, rva, stride as int, name_at as int, i as int) == Err::<
                        Option<Seq<char>>,
                        Error,
                    >(e));
                    return Err(e);
                },
            };
            proof {
                assert(texts(names@.push(name)) =~= texts(names@).push(name@));
                lemma_extend_push(
                    texts(names@),
                    name@,
                    descriptor_names_from(pe, rva, stride as int, name_at as int, i + 1),
                );
            }
            names.push(name);
            i = i + 1;
        }
        Err(Error::UnterminatedDescriptors { rva })
    }

    /// Translates an RVA to an index into the file, using the first section
    /// that covers it.
    pub fn offset_of(&self, rva: u32) -> (res: Result<usize, Error>)
        ensures
            res == offset_in(self@.sections, rva),
    {
        let mut i: usize = 0;
        assert(self@.sections.skip(0) =~= self@.sections);
        while i < self.sections.len()
            invariant
                i <= self.sections@.len(),
                offset_in(self@.sections, rva) == offset_in(self@.sections.skip(i as int), rva),
            decreases self.sections@.len() - i,
        {
            let s = self.sections[i];
            let span = if s.virtual_size >= s.raw_size {
                s.virtual_size
            } else {
                s.raw_size
            };
            proof {
                assert(self@.sections.skip(i as int)[0] == s);
                assert(self@.sections.skip(i as int).drop_first() =~= self@.sections.skip(
                    i + 1,
                ));
            }
            if rva >= s.virtual_address && rva < s.virtual_address.saturating_add(span) {
                let delta = rva - s.virtual_address;
                if delta >= s.raw_size {
                    return Err(Error::UnmappedRva(rva));
                }
                return match s.raw_pointer.checked_add(delta) {
                    Some(at) => Ok(at as usize),
                    None => Err(Error::UnmappedRva(rva)),
                };
            }
            i = i + 1;
        }
        Err(Error::UnmappedRva(rva))
    }

    /// The NUL-terminated name at `rva`.
    pub fn cstr_at_rva(&self, rva: u32) -> (res: Result<String, Error>)
        ensures
            match res {
                Ok(s) => cstr_at(self@, rva) == Ok::<Seq<char>, Error>(s@),
                Err(e) => cstr_at(self@, rva) == Err::<Seq<char>, Error>(e),
            },
    {
        let at = self.offset_of(rva)?;
        if at > self.buf.len() {
            return Err(Error::Truncated { at });
        }
        let end = if self.buf.len() - at < MAX_NAME {
            self.buf.len()
        } else {
            at + MAX_NAME
        };
        let ghost window = self.buf@.subrange(at as int, end as int);
        let mut k: usize = at;
        while k < end
            invariant
                at <= k <= end <= self.buf@.len(),
                offset_in(self@.sections, rva) == Ok::<usize, Error>(at),
                end == if self.buf@.len() - at < MAX_NAME {
                    self.buf@.len() as int
                } else {
                    at + MAX_NAME
                },
                window == self.buf@.subrange(at as int, end as int),
                first_zero(window, 0) == first_zero(window, k - at),
            decreases end - k,
        {
            assert(window[k - at] == self.buf@[k as int]);
            if self.buf[k] == 0 {
                let name = slice_range(self.buf, at, k);
                assert(name@ =~= window.subrange(0, k - at));
                assert(first_zero(window, k - at) == Some(k - at));
                assert(first_zero(window, 0) == Some(k - at));
                let text = decode_lossy(name);
                assert(cstr_at(self@, rva) == Ok::<Seq<char>, Error>(utf8_lossy(window.subrange(0, k - at))));
                return Ok(text);
            }
            k = k + 1;
        }
        Err(Error::UnterminatedName { at })
    }
}

/// `buf[from..to]`.
pub fn slice_range(buf: &[u8], from: usize, to: usize) -> (s: &[u8])
    requires
        from <= to <= buf@.len(),
    ensures
        s@ == buf@.subrange(from as int, to as int),
{
    let (head, _) = buf.split_at(to);
    let (_, tail) = head.split_at(from);
    proof {
        assert(tail@ =~= buf@.subrange(from as int, to as int));
    }
    tail
}

/// Reads `n` data directory entries from `base`.
fn read_directories(buf: &[u8], base: usize, n: usize) -> (res: Result<Vec<(u32, u32)>, Error>)
    ensures
        match res {
            Ok(v) => directories_from(buf@, base as int, n as int, 0) == Ok::<
                Seq<(u32, u32)>,
                Error,
            >(v@),
            Err(e) => directories_from(buf@, base as int, n as int, 0) == Err::<
                Seq<(u32, u32)>,
                Error,
            >(e),
        },
{
    let mut directories: Vec<(u32, u32)> = Vec::new();
    let mut i: usize = 0;
    let mut at = base;
    while i < n
        invariant
            i <= n,
            at == sat(base + 8 * i),
            directories_from(buf@, base as int, n as int, 0) == extend(
                directories@,
                directories_from(buf@, base as int, n as int, i as int),
            ),
        decreases n - i,
    {
        let rva = read_u32(buf, at)?;
        let size = read_u32(buf, at.saturating_add(4))?;
        proof {
            lemma_extend_push(
                directories@,
                (rva, size),
                directories_from(buf@, base as int, n as int, i + 1),
            );
        }
        directories.push((rva, size));
        i = i + 1;
        at = at.saturating_add(8);
    }
    Ok(directories)
}

/// Reads `n` section headers from `base`.
fn read_sections(buf: &[u8], base: usize, n: usize) -> (res: Result<Vec<Section>, Error>)
    ensures
        match res {
            Ok(v) => sections_from(buf@, base as int, n as int, 0) == Ok::<Seq<Section>, Error>(
                v@,
            ),
            Err(e) => sections_from(buf@, base as int, n as int, 0) == Err::<Seq<Section>, Error>(
                e,
            ),
        },
{
    let mut sections: Vec<Section> = Vec::new();
    let mut i: usize = 0;
    let mut at = base;
    while i < n
        invariant
            i <= n,
            at == sat(base + 40 * i),
            sections_from(buf@, base as int, n as int, 0) == extend(
                sections@,
                sections_from(buf@, base as int, n as int, i as int),
            ),
        decreases n - i,
    {
        let virtual_size = read_u32(buf, at.saturating_add(8))?;
        let virtual_address = read_u32(buf, at.saturating_add(12))?;
        let raw_size = read_u32(buf, at.saturating_add(16))?;
        let raw_pointer = read_u32(buf, at.saturating_add(20))?;
        let section = Section { virtual_address, virtual_size, raw_pointer, raw_size };
        proof {
            lemma_extend_push(
                sections@,
                section,
                sections_from(buf@, base as int, n as int, i + 1),
            );
        }
        sections.push(section);
        i = i + 1;
        at = at.saturating_add(40);
    }
    Ok(sections)
}

/// True when `e`, if it is a truncation, names an offset from which a field
/// of at most four bytes does not fit in `b`.
pub open spec fn truncated_past(b: Seq<u8>, e: Error) -> bool {
    e matches Error::Truncated { at } ==> at + 4 > b.len()
}

proof fn lemma_reads_short(b: Seq<u8>, at: int)
    requires
        0 <= at <= usize::MAX,
    ensures
        read16(b, at) matches Err(e) ==> truncated_past(b, e),
        read32(b, at) matches Err(e) ==> truncated_past(b, e),
{
}

proof fn lemma_directories_short(b: Seq<u8>, base: int, n: int, i: int)
    requires
        0 <= base,
        0 <= i,
    ensures
        directories_from(b, base, n, i) matches Err(e) ==> truncated_past(b, e),
    decreases n - i,
{
    if i < n {
        let at = sat(base + 8 * i);
        lemma_reads_short(b, at);
        lemma_reads_short(b, sat(at + 4));
        lemma_directories_short(b, base, n, i + 1);
    }
}

proof fn lemma_sections_short(b: Seq<u8>, base: int, n: int, i: int)
    requires
        0 <= base,
        0 <= i,
    ensures
        sections_from(b, base, n, i) matches Err(e) ==> truncated_past(b, e),
    decreases n - i,
{
    if i < n {
        let at = sat(base + 40 * i);
        lemma_reads_short(b, sat(at + 8));
        lemma_reads_short(b, sat(at + 12));
        lemma_reads_short(b, sat(at + 16));
        lemma_reads_short(b, sat(at + 20));
        lemma_sections_short(b, base, n, i + 1);
    }
}

/// Parsing never reads past the end of the buffer: when it fails for
/// truncation, the offset it names is that of a header field (of at most
/// four bytes) that does not fit in the bytes there are.
pub proof fn lemma_parse_truncated(b: Seq<u8>)
    ensures
        spec_parse(b) matches Err(e) ==> truncated_past(b, e),
{
    lemma_reads_short(b, 0);
    lemma_reads_short(b, 0x3c);
    if let Ok(pe_offset) = read32(b, 0x3c) {
        lemma_reads_short(b, pe_offset as int);
        let coff = sat(pe_offset + 4);
        lemma_reads_short(b, coff);
        lemma_reads_short(b, sat(coff + 2));
        lemma_reads_short(b, sat(coff + 16));
        let optional = sat(coff + 20);
        lemma_reads_short(b, optional);
        if let (Ok(section_count), Ok(optional_size), Ok(magic)) = (
            read16(b, sat(coff + 2)),
            read16(b, sat(coff + 16)),
            read16(b, optional),
        ) {
            let pe32_plus = magic == 0x20b;
            let dir_count_at = sat(optional + if pe32_plus { 108int } else { 92int });
            lemma_reads_short(b, dir_count_at);
            if let Ok(dir_count) = read32(b, dir_count_at) {
                lemma_directories_short(b, sat(dir_count_at + 4), dir_count as int, 0);
            }
            lemma_sections_short(b, sat(optional + optional_size), section_count as int, 0);
        }
    }
}

} // verus!
