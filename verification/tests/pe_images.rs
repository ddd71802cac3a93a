//! Whole PE images built byte by byte, so every fixture byte is deliberate
//! and awkward shapes can be asked for, read through the parser's public
//! calls.

use dxray::pe::version::Version;
use dxray::pe::{Error, Machine, Pe, MAX_DESCRIPTORS};

#[test]
fn reads_the_import_table_of_a_64_bit_image() {
    let buf = Image::x64()
        .importing(&["d3d12.dll", "dxgi.dll", "KERNEL32.dll"])
        .build();
    let pe = Pe::parse(&buf).unwrap();

    assert_eq!(pe.machine(), Machine::Amd64);
    assert!(pe.is_64bit());
    assert_eq!(
        pe.imports().unwrap(),
        ["d3d12.dll", "dxgi.dll", "KERNEL32.dll"]
    );
}

#[test]
fn reads_the_import_table_of_a_32_bit_image() {
    // PE32 puts the data directory 16 bytes earlier than PE32+. Reading it with
    // the wrong layout does not fail: it finds a zero where the directory count
    // should be and reports no imports at all. Verified by mutation - a silent
    // empty answer is the whole reason both widths get the same assertion.
    let buf = Image::x86()
        .importing(&["d3d9.dll", "opengl32.dll"])
        .build();
    let pe = Pe::parse(&buf).unwrap();

    assert_eq!(pe.machine(), Machine::I386);
    assert!(!pe.is_64bit());
    assert_eq!(pe.imports().unwrap(), ["d3d9.dll", "opengl32.dll"]);
}

#[test]
fn a_delay_loaded_renderer_is_invisible_to_the_import_table() {
    // The case that makes naive detection wrong: at startup this process links
    // against nothing but KERNEL32, yet it is a D3D12 game.
    let buf = Image::x64()
        .importing(&["KERNEL32.dll"])
        .delay_loading(&["d3d12.dll"])
        .build();
    let pe = Pe::parse(&buf).unwrap();

    assert_eq!(pe.imports().unwrap(), ["KERNEL32.dll"]);
    assert_eq!(pe.delay_imports().unwrap(), ["d3d12.dll"]);
}

#[test]
fn an_image_that_delay_loads_nothing_reports_an_empty_list_not_an_error() {
    let buf = Image::x64().importing(&["vulkan-1.dll"]).build();
    let pe = Pe::parse(&buf).unwrap();

    assert_eq!(pe.delay_imports().unwrap(), Vec::<String>::new());
}

#[test]
fn a_truncated_image_reports_where_it_ran_out() {
    let buf = Image::x64().importing(&["d3d11.dll"]).build();
    let err = Pe::parse(&buf[..0x90]).unwrap_err();

    assert!(matches!(err, Error::Truncated { .. }), "got {err:?}");
}

#[test]
fn an_unknown_optional_header_magic_is_not_guessed_at() {
    let mut buf = Image::x64().importing(&["d3d11.dll"]).build();
    put16(&mut buf, OPTIONAL_MAGIC, 0x0107); // ROM image

    assert_eq!(
        Pe::parse(&buf).unwrap_err(),
        Error::BadOptionalMagic(0x0107)
    );
}

#[test]
fn an_import_table_reached_through_an_overflowing_section_is_refused_not_answered() {
    // The whole image, not just the arithmetic: a file whose only section
    // claims its bytes start at 0xFFFF_FD00 and whose import directory sits
    // 0x500 into it. The sum leaves u32. In a debug build that used to panic;
    // in a release build it wrapped to file offset 0x200 and the parser
    // reported whatever DLL name happened to be lying there, out of a table
    // the header never declared. A name read from the wrong place is the one
    // failure this crate must never produce, so the answer has to be an error.
    let mut buf = Image::x64().importing(&["d3d12.dll"]).build();
    put32(&mut buf, DIRECTORIES + IMPORT_DIRECTORY * 8, 0x1500);
    put32(&mut buf, FIRST_SECTION_HEADER + 8, 0x2000); // VirtualSize
    put32(&mut buf, FIRST_SECTION_HEADER + 16, 0x2000); // SizeOfRawData
    put32(&mut buf, FIRST_SECTION_HEADER + 20, 0xFFFF_FD00); // PointerToRawData

    let pe = Pe::parse(&buf).expect("the headers themselves are well formed");
    assert_eq!(pe.imports(), Err(Error::UnmappedRva(0x1500)));
}

#[test]
fn a_directory_count_no_file_could_hold_is_an_error_rather_than_an_allocation() {
    // `NumberOfRvaAndSizes` is four bytes nobody validated. Reserving what it
    // claims asked for 34 GB on a file of one kilobyte, and a failed
    // allocation aborts the process: not an `Err` a caller can catch, so one
    // hostile or corrupt file killed a whole directory walk.
    //
    // This test proving anything at all is the proof. An abort takes the test
    // binary down with it, so reaching the assertion below is what says the
    // process survived; the assertion only adds that it survived with the
    // right answer.
    let mut buf = Image::x64().importing(&["d3d12.dll"]).build();
    put32(&mut buf, DIRECTORY_COUNT, 0xFFFF_FFFF);

    let err = Pe::parse(&buf).unwrap_err();
    assert!(
        matches!(err, Error::Truncated { .. }),
        "the walk stops where the file does, got {err:?}"
    );
}

#[test]
fn a_descriptor_array_that_never_terminates_is_an_error_rather_than_a_short_list() {
    // A truncated import list reads exactly like a complete one, so a binary
    // whose `d3d12.dll` sat past the bound came back "no graphics API
    // determined" with nothing saying why. Built from the constant.
    let names = vec!["engine.dll"; MAX_DESCRIPTORS + 1];
    let buf = Image::x64().importing(&names).build();
    let pe = Pe::parse(&buf).unwrap();

    let error = pe.imports().expect_err("the array runs past the bound");

    assert!(
        matches!(error, Error::UnterminatedDescriptors { .. }),
        "got {error:?}"
    );
}

#[test]
fn a_descriptor_array_ending_exactly_at_the_bound_still_reads() {
    let names = vec!["engine.dll"; MAX_DESCRIPTORS - 1];
    let buf = Image::x64().importing(&names).build();
    let pe = Pe::parse(&buf).unwrap();

    assert_eq!(
        pe.imports()
            .expect("the terminator is within the bound")
            .len(),
        MAX_DESCRIPTORS - 1
    );
}

#[test]
fn reads_the_file_version_out_of_the_resource_tree() {
    // A real DLSS runtime: the number is nowhere in the file name, which is
    // nvngx_dlss.dll in every version ever shipped.
    let buf = Image::x64()
        .importing(&["KERNEL32.dll"])
        .versioned([3, 7, 20, 0], [3, 7, 20, 0])
        .build();
    let pe = Pe::parse(&buf).unwrap();

    let info = pe
        .version_info()
        .unwrap()
        .expect("image carries RT_VERSION");
    assert_eq!(
        info.file,
        Version {
            major: 3,
            minor: 7,
            patch: 20,
            build: 0
        }
    );
    assert_eq!(info.file.describe(), "3.7.20.0");
}

#[test]
fn file_and_product_versions_are_read_separately() {
    // They routinely differ, and conflating them would report the product's
    // number for a DLL that is actually older.
    let buf = Image::x64()
        .versioned([310, 2, 1, 0], [572, 16, 0, 0])
        .build();
    let pe = Pe::parse(&buf).unwrap();

    let info = pe.version_info().unwrap().unwrap();
    assert_eq!(info.file.describe(), "310.2.1.0");
    assert_eq!(info.product.describe(), "572.16.0.0");
}

#[test]
fn an_image_with_no_resources_has_no_version_rather_than_an_error() {
    // Plenty of game executables ship without a version resource. That is an
    // absent answer, not a failure, and the two must not look alike.
    let buf = Image::x64().importing(&["d3d12.dll"]).build();
    let pe = Pe::parse(&buf).unwrap();

    assert_eq!(pe.version_info().unwrap(), None);
}

#[test]
fn a_resource_tree_without_rt_version_yields_nothing() {
    // RT_MANIFEST is 24. The walk has to match the type, not take whichever
    // resource happens to be first in the tree.
    let buf = Image::x64()
        .versioned([1, 0, 0, 0], [1, 0, 0, 0])
        .filed_under_type(24)
        .build();
    let pe = Pe::parse(&buf).unwrap();

    assert_eq!(pe.version_info().unwrap(), None);
}

#[test]
fn every_part_survives_the_round_trip_through_two_packed_words() {
    // Windows stores four u16 in two u32, high half first. Getting the halves
    // backwards still produces a plausible-looking version.
    let buf = Image::x64().versioned([1, 2, 3, 4], [5, 6, 7, 8]).build();
    let pe = Pe::parse(&buf).unwrap();

    let info = pe.version_info().unwrap().unwrap();
    assert_eq!(info.file.describe(), "1.2.3.4");
    assert_eq!(info.product.describe(), "5.6.7.8");
}

// ---------------------------------------------------------------------------
// The image builder.

const PE_SIGNATURE: usize = 0x80;
const COFF: usize = PE_SIGNATURE + 4;
const OPTIONAL: usize = COFF + 20;

const DIR_IMPORT: usize = 1;
const DIR_RESOURCE: usize = 2;
const DIR_DELAY_IMPORT: usize = 13;

const RDATA_RVA: u32 = 0x1000;
const RSRC_RVA: u32 = 0x2000;
const RDATA_RAW: usize = 0x400;
const RSRC_RAW: usize = 0x800;

const RT_VERSION: u32 = 16;
const FIXED_INFO_SIGNATURE: u32 = 0xFEEF_04BD;
const HIGH_BIT: u32 = 0x8000_0000;

struct Image {
    machine: u16,
    pe32_plus: bool,
    imports: Vec<String>,
    delayed: Vec<String>,
    version: Option<([u16; 4], [u16; 4])>,
    resource_type: u32,
}

impl Image {
    fn x64() -> Self {
        Self {
            machine: 0x8664,
            pe32_plus: true,
            imports: Vec::new(),
            delayed: Vec::new(),
            version: None,
            resource_type: RT_VERSION,
        }
    }

    fn x86() -> Self {
        Self {
            machine: 0x014c,
            pe32_plus: false,
            ..Self::x64()
        }
    }

    fn importing(mut self, names: &[&str]) -> Self {
        self.imports = names.iter().map(|s| (*s).to_owned()).collect();
        self
    }

    fn delay_loading(mut self, names: &[&str]) -> Self {
        self.delayed = names.iter().map(|s| (*s).to_owned()).collect();
        self
    }

    /// `file` and `product` are the four parts in display order.
    fn versioned(mut self, file: [u16; 4], product: [u16; 4]) -> Self {
        self.version = Some((file, product));
        self
    }

    /// Files the version resource under a different `RT_*` type, to prove the
    /// walk matches the type rather than taking whatever is first.
    fn filed_under_type(mut self, type_id: u32) -> Self {
        self.resource_type = type_id;
        self
    }

    fn build(&self) -> Vec<u8> {
        let import_bytes = (self.imports.len() + 1) * 20;
        let delay_bytes = (self.delayed.len() + 1) * 32;
        let rdata = self.import_section(import_bytes, delay_bytes);
        let rsrc = self
            .version
            .map(|(file, product)| resource_section(self.resource_type, file, product));

        let optional_size = if self.pe32_plus { 240 } else { 224 };
        let directory_count_at = OPTIONAL + if self.pe32_plus { 108 } else { 92 };
        let section_headers = OPTIONAL + optional_size;
        let section_count = 1 + usize::from(rsrc.is_some());

        let mut buf = vec![0u8; RDATA_RAW];
        buf[0] = b'M';
        buf[1] = b'Z';
        put32(&mut buf, 0x3c, PE_SIGNATURE as u32);
        buf[PE_SIGNATURE] = b'P';
        buf[PE_SIGNATURE + 1] = b'E';

        put16(&mut buf, COFF, self.machine);
        put16(&mut buf, COFF + 2, section_count as u16);
        put16(&mut buf, COFF + 16, optional_size as u16);

        put16(
            &mut buf,
            OPTIONAL,
            if self.pe32_plus { 0x020b } else { 0x010b },
        );
        put32(&mut buf, directory_count_at, 16);
        let directories = directory_count_at + 4;
        directory(
            &mut buf,
            directories,
            DIR_IMPORT,
            RDATA_RVA,
            import_bytes as u32,
        );
        directory(
            &mut buf,
            directories,
            DIR_DELAY_IMPORT,
            RDATA_RVA + import_bytes as u32,
            delay_bytes as u32,
        );

        header(
            &mut buf,
            section_headers,
            b".rdata",
            RDATA_RVA,
            RDATA_RAW,
            rdata.len(),
        );
        if let Some(rsrc) = &rsrc {
            directory(
                &mut buf,
                directories,
                DIR_RESOURCE,
                RSRC_RVA,
                rsrc.len() as u32,
            );
            header(
                &mut buf,
                section_headers + 40,
                b".rsrc",
                RSRC_RVA,
                RSRC_RAW,
                rsrc.len(),
            );
        }

        buf.extend_from_slice(&rdata);
        if let Some(rsrc) = &rsrc {
            buf.resize(RSRC_RAW, 0);
            buf.extend_from_slice(rsrc);
        }
        buf
    }

    /// Descriptors first, then the names they point at.
    fn import_section(&self, import_bytes: usize, delay_bytes: usize) -> Vec<u8> {
        let mut section = vec![0u8; import_bytes + delay_bytes];
        let mut rvas = (Vec::new(), Vec::new());
        for (names, out) in [(&self.imports, &mut rvas.0), (&self.delayed, &mut rvas.1)] {
            for name in names {
                out.push(RDATA_RVA + section.len() as u32);
                section.extend_from_slice(name.as_bytes());
                section.push(0);
            }
        }

        // IMAGE_IMPORT_DESCRIPTOR: 20 bytes, name RVA at +12. OriginalFirstThunk
        // is set so the entry is not the all-zero terminator.
        for (i, rva) in rvas.0.iter().enumerate() {
            put32(&mut section, i * 20, 1);
            put32(&mut section, i * 20 + 12, *rva);
        }
        // IMAGE_DELAYLOAD_DESCRIPTOR is 32 bytes with the name RVA at +4.
        for (i, rva) in rvas.1.iter().enumerate() {
            put32(&mut section, import_bytes + i * 32, 1);
            put32(&mut section, import_bytes + i * 32 + 4, *rva);
        }
        section
    }
}

/// A resource table: type → name → language, then a data entry, then the blob.
/// The levels land at 0, 24 and 48, and the data entry at 72.
fn resource_section(type_id: u32, file: [u16; 4], product: [u16; 4]) -> Vec<u8> {
    const LEVEL: usize = 24;
    let data_entry = LEVEL * 3;
    let blob_at = data_entry + 16;

    let mut section = vec![0u8; blob_at];
    // One integer-id entry per level; NumberOfIdEntries sits at +14.
    for (i, (id, target)) in [
        (type_id, LEVEL | (HIGH_BIT as usize)),
        (1, (LEVEL * 2) | (HIGH_BIT as usize)),
        (1033, data_entry), // en-US, and a leaf: no high bit
    ]
    .into_iter()
    .enumerate()
    {
        put16(&mut section, i * LEVEL + 14, 1);
        put32(&mut section, i * LEVEL + 16, id);
        put32(&mut section, i * LEVEL + 20, target as u32);
    }

    let blob = version_info(file, product);
    // IMAGE_RESOURCE_DATA_ENTRY: OffsetToData is an RVA, not a table offset.
    put32(&mut section, data_entry, RSRC_RVA + blob_at as u32);
    put32(&mut section, data_entry + 4, blob.len() as u32);
    section.extend_from_slice(&blob);
    section
}

/// `VS_VERSIONINFO`: a header, a UTF-16 key, padding to four bytes, then the
/// 52-byte `VS_FIXEDFILEINFO`.
fn version_info(file: [u16; 4], product: [u16; 4]) -> Vec<u8> {
    let mut blob = Vec::new();
    blob.extend_from_slice(&0u16.to_le_bytes()); // wLength, patched below
    blob.extend_from_slice(&52u16.to_le_bytes()); // wValueLength
    blob.extend_from_slice(&0u16.to_le_bytes()); // wType: binary
    for c in "VS_VERSION_INFO".chars() {
        blob.extend_from_slice(&(c as u16).to_le_bytes());
    }
    blob.extend_from_slice(&0u16.to_le_bytes()); // key terminator
    while blob.len() % 4 != 0 {
        blob.push(0);
    }

    let mut fixed = vec![0u8; 52];
    put32(&mut fixed, 0, FIXED_INFO_SIGNATURE);
    put32(&mut fixed, 4, 0x0001_0000); // dwStrucVersion
    put32(&mut fixed, 8, pack(file[0], file[1]));
    put32(&mut fixed, 12, pack(file[2], file[3]));
    put32(&mut fixed, 16, pack(product[0], product[1]));
    put32(&mut fixed, 20, pack(product[2], product[3]));
    blob.extend_from_slice(&fixed);

    let len = blob.len() as u16;
    put16(&mut blob, 0, len);
    blob
}

const fn pack(high: u16, low: u16) -> u32 {
    ((high as u32) << 16) | low as u32
}

fn directory(buf: &mut [u8], base: usize, index: usize, rva: u32, size: u32) {
    put32(buf, base + index * 8, rva);
    put32(buf, base + index * 8 + 4, size);
}

fn header(buf: &mut [u8], at: usize, name: &[u8], rva: u32, raw: usize, size: usize) {
    buf[at..at + name.len()].copy_from_slice(name);
    put32(buf, at + 8, size as u32); // VirtualSize
    put32(buf, at + 12, rva); // VirtualAddress
    put32(buf, at + 16, size as u32); // SizeOfRawData
    put32(buf, at + 20, raw as u32); // PointerToRawData
}

fn put16(buf: &mut [u8], at: usize, v: u16) {
    buf[at..at + 2].copy_from_slice(&v.to_le_bytes());
}

fn put32(buf: &mut [u8], at: usize, v: u32) {
    buf[at..at + 4].copy_from_slice(&v.to_le_bytes());
}

/// Offset of the optional header magic, which a test corrupts on purpose.
const OPTIONAL_MAGIC: usize = OPTIONAL;

// Offsets for shapes no linker emits, patched into an `Image::x64` build
// (240-byte optional header) rather than offered by the builder.

/// `NumberOfRvaAndSizes` in a PE32+ image: four unvalidated bytes that decide
/// how much the parser reserves.
const DIRECTORY_COUNT: usize = OPTIONAL + 108;
/// The data directory array, which follows the count.
const DIRECTORIES: usize = DIRECTORY_COUNT + 4;
/// The first `IMAGE_SECTION_HEADER`, which follows the optional header.
const FIRST_SECTION_HEADER: usize = OPTIONAL + 240;

/// Index of the import table, for tests that repoint it.
const IMPORT_DIRECTORY: usize = DIR_IMPORT;
