//! The version stamped into a binary's resources: how a DLSS runtime says
//! which build it is.

use vstd::prelude::*;

use crate::text::{decimal, push_decimal};
use super::{offset_in, read16, read32, read_u16, read_u32, sat, slice_range, Error, Pe, PeView};

verus! {

/// Index of the resource table in the optional header's data directory.
pub const DIR_RESOURCE: usize = 2;

/// `RT_VERSION`, the resource type that carries `VS_VERSIONINFO`.
pub const RT_VERSION: u32 = 16;

/// `VS_FIXEDFILEINFO.dwSignature`.
pub const FIXED_INFO_SIGNATURE: u32 = 0xFEEF_04BD;

/// A cap on how much of a version resource is read.
pub const MAX_VERSION_BLOB: usize = 65536;

/// The high bit of a resource entry's offset marks a subdirectory; of its
/// name, a string rather than an integer id.
pub const HIGH_BIT: u32 = 0x8000_0000;

/// A four-part Windows version, as stored. Ordered part by part, major first.
#[derive(Debug, Clone, Copy, PartialEq, Eq, Structural, PartialOrd, Ord)]
pub struct Version {
    pub major: u16,
    pub minor: u16,
    pub patch: u16,
    pub build: u16,
}

impl Version {
    /// The version two packed words carry, high half first.
    pub open spec fn spec_from_parts(ms: u32, ls: u32) -> Version {
        Version {
            major: (ms / 0x10000) as u16,
            minor: (ms % 0x10000) as u16,
            patch: (ls / 0x10000) as u16,
            build: (ls % 0x10000) as u16,
        }
    }

    /// All four parts, always: `3.7.0.0` and `3.7` are not printed alike.
    pub open spec fn spec_describe(self) -> Seq<char> {
        decimal(self.major as nat) + "."@ + decimal(self.minor as nat) + "."@ + decimal(
            self.patch as nat,
        ) + "."@ + decimal(self.build as nat)
    }

    /// All four parts, dotted.
    pub fn describe(&self) -> (s: String)
        ensures
            s@ == self.spec_describe(),
    {
        let mut s = String::new();
        push_decimal(&mut s, self.major as u64);
        s.push('.');
        push_decimal(&mut s, self.minor as u64);
        s.push('.');
        push_decimal(&mut s, self.patch as u64);
        s.push('.');
        push_decimal(&mut s, self.build as u64);
        proof {
            reveal_strlit(".");
        }
        assert(s@ =~= self.spec_describe());
        s
    }

    pub fn from_parts(ms: u32, ls: u32) -> (v: Version)
        ensures
            v == Version::spec_from_parts(ms, ls),
    {
        Version {
            major: (ms / 0x10000) as u16,
            minor: (ms % 0x10000) as u16,
            patch: (ls / 0x10000) as u16,
            build: (ls % 0x10000) as u16,
        }
    }
}

/// The two versions every `VS_FIXEDFILEINFO` carries.
#[derive(Debug, Clone, Copy, PartialEq, Eq, Structural)]
pub struct VersionInfo {
    pub file: Version,
    pub product: Version,
}

/// The low 31 bits of a resource offset.
pub open spec fn low31(x: u32) -> u32 {
    if x >= HIGH_BIT {
        (x - HIGH_BIT) as u32
    } else {
        x
    }
}

/// The entries of one resource directory from `i` to `stop`: the first whose
/// integer id is `want` (or the first at all, without one), as `(offset,
/// is_directory)`.
pub open spec fn entry_from(b: Seq<u8>, entries: int, want: Option<u32>, i: int, stop: int) -> Result<
    Option<(usize, bool)>,
    Error,
>
    decreases stop - i,
{
    if i >= stop {
        Ok(None)
    } else {
        let at = sat(entries + 8 * i);
        match read32(b, at) {
            Err(e) => Err(e),
            Ok(name) => match read32(b, sat(at + 4)) {
                Err(e) => Err(e),
                Ok(offset) => if want is Some && (name >= HIGH_BIT || name != want->0) {
                    entry_from(b, entries, want, i + 1, stop)
                } else {
                    Ok(Some((low31(offset) as usize, offset >= HIGH_BIT)))
                },
            },
        }
    }
}

/// One entry from the resource directory at `dir_at`. Named entries are
/// stored before integer ones, so an id lookup starts past them.
pub open spec fn resource_entry(b: Seq<u8>, dir_at: int, want: Option<u32>) -> Result<
    Option<(usize, bool)>,
    Error,
> {
    match read16(b, sat(dir_at + 12)) {
        Err(e) => Err(e),
        Ok(named) => match read16(b, sat(dir_at + 14)) {
            Err(e) => Err(e),
            Ok(by_id) => {
                let entries = sat(dir_at + 16);
                match want {
                    Some(_) => entry_from(b, entries, want, named as int, named + by_id),
                    None => entry_from(
                        b,
                        entries,
                        want,
                        0,
                        if named + by_id >= 1 {
                            1int
                        } else {
                            0int
                        },
                    ),
                }
            },
        }
    }
}

/// One level down the resource tree from the directory at `at`: where the
/// next table sits (offsets are relative to `base`), `None` when there is no
/// such entry, or an error when a leaf and a directory trade places.
pub open spec fn descend(b: Seq<u8>, base: int, at: int, want: Option<u32>, last: bool) -> Result<
    Option<int>,
    Error,
> {
    match resource_entry(b, at, want) {
        Err(e) => Err(e),
        Ok(None) => Ok(None),
        Ok(Some((offset, is_directory))) => if is_directory == last {
            Err(Error::MalformedResourceTree { at: at as usize })
        } else {
            Ok(Some(sat(base + offset)))
        },
    }
}

/// The bytes an `IMAGE_RESOURCE_DATA_ENTRY` at `at` describes, capped at
/// `MAX_VERSION_BLOB`. Its `OffsetToData` is an RVA.
pub open spec fn leaf(pe: PeView, at: int) -> Result<Option<Seq<u8>>, Error> {
    match read32(pe.buf, at) {
        Err(e) => Err(e),
        Ok(data_rva) => match read32(pe.buf, sat(at + 4)) {
            Err(e) => Err(e),
            Ok(size) => match offset_in(pe.sections, data_rva) {
                Err(e) => Err(e),
                Ok(start) => {
                    let end = start + if size < MAX_VERSION_BLOB {
                        size as int
                    } else {
                        MAX_VERSION_BLOB as int
                    };
                    if end > usize::MAX || end > pe.buf.len() {
                        Err(Error::Truncated { at: start })
                    } else {
                        Ok(Some(pe.buf.subrange(start as int, end)))
                    }
                },
            },
        },
    }
}

/// The first leaf of resource type `type_id`: type, then the first name, then
/// the first language.
pub open spec fn resource(pe: PeView, type_id: u32) -> Result<Option<Seq<u8>>, Error> {
    if DIR_RESOURCE >= pe.directories.len() || pe.directories[DIR_RESOURCE as int].0 == 0 {
        Ok(None)
    } else {
        match offset_in(pe.sections, pe.directories[DIR_RESOURCE as int].0) {
            Err(e) => Err(e),
            Ok(base) => match descend(pe.buf, base as int, base as int, Some(type_id), false) {
                Err(e) => Err(e),
                Ok(None) => Ok(None),
                Ok(Some(name_at)) => match descend(pe.buf, base as int, name_at, None, false) {
                    Err(e) => Err(e),
                    Ok(None) => Ok(None),
                    Ok(Some(lang_at)) => match descend(pe.buf, base as int, lang_at, None, true) {
                        Err(e) => Err(e),
                        Ok(None) => Ok(None),
                        Ok(Some(data_at)) => leaf(pe, data_at),
                    },
                },
            },
        }
    }
}

/// The first 4-aligned offset from `i` where the fixed-info signature sits.
pub open spec fn find_signature(blob: Seq<u8>, i: int) -> Option<int>
    decreases blob.len() - i,
{
    if i < 0 || i + 4 > blob.len() {
        None
    } else if super::u32_at(blob, i) == FIXED_INFO_SIGNATURE {
        Some(i)
    } else {
        find_signature(blob, i + 4)
    }
}

/// The two versions of a `VS_FIXEDFILEINFO` whose signature is at `at`.
pub open spec fn fixed_info(blob: Seq<u8>, at: int) -> Result<VersionInfo, Error> {
    match read32(blob, at + 8) {
        Err(e) => Err(e),
        Ok(file_ms) => match read32(blob, at + 12) {
            Err(e) => Err(e),
            Ok(file_ls) => match read32(blob, at + 16) {
                Err(e) => Err(e),
                Ok(product_ms) => match read32(blob, at + 20) {
                    Err(e) => Err(e),
                    Ok(product_ls) => Ok(
                        VersionInfo {
                            file: Version::spec_from_parts(file_ms, file_ls),
                            product: Version::spec_from_parts(product_ms, product_ls),
                        },
                    ),
                },
            },
        },
    }
}

/// What [`Pe::version_info`] reads: the fixed part of the version resource,
/// `None` when there is no version resource or no signature in it.
pub open spec fn version_info(pe: PeView) -> Result<Option<VersionInfo>, Error> {
    match resource(pe, RT_VERSION) {
        Err(e) => Err(e),
        Ok(None) => Ok(None),
        Ok(Some(blob)) => match find_signature(blob, 0) {
            None => Ok(None),
            Some(at) => match fixed_info(blob, at) {
                Err(e) => Err(e),
                Ok(info) => Ok(Some(info)),
            },
        },
    }
}

impl<'a> Pe<'a> {
    /// Reads `VS_FIXEDFILEINFO` out of the resource tree. `Ok(None)` when the
    /// image carries no version resource.
    pub fn version_info(&self) -> (res: Result<Option<VersionInfo>, Error>)
        ensures
            res == version_info(self@),
    {
        let blob = match self.resource(RT_VERSION)? {
            Some(blob) => blob,
            None => return Ok(None),
        };
        let len = blob.len();
        let mut i: usize = 0;
        while i < len && len - i >= 4
            invariant
                i <= len,
                len == blob@.len(),
                len <= MAX_VERSION_BLOB,
                resource(self@, RT_VERSION) == Ok::<Option<Seq<u8>>, Error>(Some(blob@)),
                find_signature(blob@, 0) == find_signature(blob@, i as int),
            decreases len - i,
        {
            let word = read_u32(blob, i)?;
            if word == FIXED_INFO_SIGNATURE {
                assert(find_signature(blob@, i as int) == Some(i as int));
                let file_ms = read_u32(blob, i + 8)?;
                let file_ls = read_u32(blob, i + 12)?;
                let product_ms = read_u32(blob, i + 16)?;
                let product_ls = read_u32(blob, i + 20)?;
                return Ok(
                    Some(
                        VersionInfo {
                            file: Version::from_parts(file_ms, file_ls),
                            product: Version::from_parts(product_ms, product_ls),
                        },
                    ),
                );
            }
            i = i + 4;
        }
        Ok(None)
    }

    /// One entry from a resource directory.
    fn resource_entry(&self, dir_at: usize, want: Option<u32>) -> (res: Result<
        Option<(usize, bool)>,
        Error,
    >)
        ensures
            res == resource_entry(self@.buf, dir_at as int, want),
    {
        let named = read_u16(self.buf, dir_at.saturating_add(12))? as usize;
        let by_id = read_u16(self.buf, dir_at.saturating_add(14))? as usize;
        let entries = dir_at.saturating_add(16);
        let (start, stop) = match want {
            Some(_) => (named, named + by_id),
            None => (0, if named + by_id >= 1 { 1 } else { 0 }),
        };
        let mut i = start;
        assert(entries == sat(dir_at + 16));
        while i < stop
            invariant
                start <= i <= stop,
                stop <= 2 * 65535,
                resource_entry(self@.buf, dir_at as int, want) == entry_from(
                    self@.buf,
                    entries as int,
                    want,
                    i as int,
                    stop as int,
                ),
            decreases stop - i,
        {
            let at = entries.saturating_add(i * 8);
            let name = read_u32(self.buf, at)?;
            let offset = read_u32(self.buf, at.saturating_add(4))?;
            let skip = match want {
                Some(id) => name >= HIGH_BIT || name != id,
                None => false,
            };
            if !skip {
                let low = if offset >= HIGH_BIT {
                    offset - HIGH_BIT
                } else {
                    offset
                };
                return Ok(Some((low as usize, offset >= HIGH_BIT)));
            }
            i = i + 1;
        }
        Ok(None)
    }

    /// One step down the resource tree.
    fn descend(&self, base: usize, at: usize, want: Option<u32>, last: bool) -> (res: Result<
        Option<usize>,
        Error,
    >)
        ensures
            match res {
                Ok(Some(next)) => descend(self@.buf, base as int, at as int, want, last) == Ok::<
                    Option<int>,
                    Error,
                >(Some(next as int)),
                Ok(None) => descend(self@.buf, base as int, at as int, want, last) == Ok::<
                    Option<int>,
                    Error,
                >(None),
                Err(e) => descend(self@.buf, base as int, at as int, want, last) == Err::<
                    Option<int>,
                    Error,
                >(e),
            },
    {
        match self.resource_entry(at, want)? {
            None => Ok(None),
            Some((offset, is_directory)) => {
                if is_directory == last {
                    Err(Error::MalformedResourceTree { at })
                } else {
                    Ok(Some(base.saturating_add(offset)))
                }
            },
        }
    }

    /// The bytes of the first leaf of `type_id`.
    fn resource(&self, type_id: u32) -> (res: Result<Option<&'a [u8]>, Error>)
        ensures
            match res {
                Ok(Some(blob)) => resource(self@, type_id) == Ok::<Option<Seq<u8>>, Error>(
                    Some(blob@),
                ),
                Ok(None) => resource(self@, type_id) == Ok::<Option<Seq<u8>>, Error>(None),
                Err(e) => resource(self@, type_id) == Err::<Option<Seq<u8>>, Error>(e),
            },
    {
        if DIR_RESOURCE >= self.directories.len() {
            return Ok(None);
        }
        let base_rva = self.directories[DIR_RESOURCE].0;
        if base_rva == 0 {
            return Ok(None);
        }
        let base = self.offset_of(base_rva)?;
        let name_at = match self.descend(base, base, Some(type_id), false)? {
            Some(next) => next,
            None => return Ok(None),
        };
        let lang_at = match self.descend(base, name_at, None, false)? {
            Some(next) => next,
            None => return Ok(None),
        };
        let data_at = match self.descend(base, lang_at, None, true)? {
            Some(next) => next,
            None => return Ok(None),
        };

        let data_rva = read_u32(self.buf, data_at)?;
        let size = read_u32(self.buf, data_at.saturating_add(4))? as usize;
        let start = self.offset_of(data_rva)?;
        let capped = if size < MAX_VERSION_BLOB {
            size
        } else {
            MAX_VERSION_BLOB
        };
        let end = match start.checked_add(capped) {
            Some(end) => end,
            None => return Err(Error::Truncated { at: start }),
        };
        if end > self.buf.len() {
            return Err(Error::Truncated { at: start });
        }
        Ok(Some(slice_range(self.buf, start, end)))
    }
}

} // verus!
