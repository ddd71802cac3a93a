//! The mount table read for container homes: which mounted volumes are data
//! volumes, with each mount point unescaped byte for byte as the kernel
//! escaped it.

use vstd::prelude::*;

use crate::file_path::{Component, FilePath, Part};
use crate::launcher::no_repeats;
use crate::nvapi::quoting::{physical_lines, physical_lines_of};
use crate::steam::library::under;
use crate::text::{chars_of, copy_text, same_text, string_of_range, texts};

verus! {

/// Where the first `" - "` in `s` starts, from `i` on, or the end of `s`.
pub open spec fn separator_at(s: Seq<char>, i: int) -> int
    decreases s.len() - i,
{
    if i < 0 || i + 3 > s.len() {
        s.len() as int
    } else if s[i] == ' ' && s[i + 1] == '-' && s[i + 2] == ' ' {
        i
    } else {
        separator_at(s, i + 1)
    }
}

/// The fields of a `mountinfo` line before its `" - "` separator: the text
/// `str::split` hands back first.
pub open spec fn left_part(line: Seq<char>) -> Seq<char> {
    line.take(separator_at(line, 0))
}

/// ASCII white space, as `str::split_ascii_whitespace` splits on it.
pub open spec fn ascii_space(c: char) -> bool {
    c == ' ' || c == '\t' || c == '\n' || c == '\x0C' || c == '\r'
}

/// The fields of `s` from `i` on, the one being read starting at `start`
/// (`None` between fields), added to `acc`.
pub open spec fn fields_from(s: Seq<char>, start: Option<int>, i: int, acc: Seq<Seq<char>>) -> Seq<
    Seq<char>,
>
    decreases s.len() - i,
{
    if i < 0 || i >= s.len() {
        match start {
            Some(b) => acc.push(s.subrange(b, s.len() as int)),
            None => acc,
        }
    } else if ascii_space(s[i]) {
        match start {
            Some(b) => fields_from(s, None, i + 1, acc.push(s.subrange(b, i))),
            None => fields_from(s, None, i + 1, acc),
        }
    } else {
        match start {
            Some(b) => fields_from(s, Some(b), i + 1, acc),
            None => fields_from(s, Some(i), i + 1, acc),
        }
    }
}

/// The fields of `s`, as `str::split_ascii_whitespace` yields them.
pub open spec fn fields(s: Seq<char>) -> Seq<Seq<char>> {
    fields_from(s, None, 0, Seq::empty())
}

/// The byte three octal digits name, when they are digits and name a byte.
pub open spec fn octal_byte(a: u8, b: u8, c: u8) -> Option<u8> {
    if 48 <= a <= 55 && 48 <= b <= 55 && 48 <= c <= 55 {
        let v = (a - 48) * 64 + (b - 48) * 8 + (c - 48);
        if v <= 255 {
            Some(v as u8)
        } else {
            None
        }
    } else {
        None
    }
}

/// The bytes of `p` from `i` on unescaped, added to `acc`: a backslash and
/// three octal digits naming a byte is that byte; any other backslash is
/// itself.
pub open spec fn unescape_from(p: Seq<u8>, i: int, acc: Seq<u8>) -> Seq<u8>
    decreases p.len() - i,
{
    if i < 0 || i >= p.len() {
        acc
    } else if p[i] != 92 {
        unescape_from(p, i + 1, acc.push(p[i]))
    } else if i + 4 <= p.len() && octal_byte(p[i + 1], p[i + 2], p[i + 3]) is Some {
        unescape_from(p, i + 4, acc.push(octal_byte(p[i + 1], p[i + 2], p[i + 3])->Some_0))
    } else {
        unescape_from(p, i + 1, acc.push(92u8))
    }
}

/// What the kernel's `mangle_path` escaped, reversed.
pub open spec fn unescaped(p: Seq<u8>) -> Seq<u8> {
    unescape_from(p, 0, Seq::empty())
}

/// The byte three octal digits name.
fn octal(a: u8, b: u8, c: u8) -> (r: Option<u8>)
    ensures
        r == octal_byte(a, b, c),
{
    if 48 <= a && a <= 55 && 48 <= b && b <= 55 && 48 <= c && c <= 55 {
        let v: u32 = (a as u32 - 48) * 64 + (b as u32 - 48) * 8 + (c as u32 - 48);
        if v <= 255 {
            Some(v as u8)
        } else {
            None
        }
    } else {
        None
    }
}

/// Reverses the kernel's `mangle_path()` over one `mountinfo` field, byte
/// for byte: the kernel escapes space, tab, newline and backslash as three
/// octal digits and passes every other byte through, so a mount point is a
/// byte string and not text.
pub fn unescape_mount_path(path: &[u8]) -> (out: Vec<u8>)
    ensures
        out@ == unescaped(path@),
{
    let mut out: Vec<u8> = Vec::new();
    let mut at: usize = 0;
    while at < path.len()
        invariant
            at <= path@.len(),
            unescaped(path@) == unescape_from(path@, at as int, out@),
        decreases path@.len() - at,
    {
        let byte = path[at];
        if byte != 92 {
            out.push(byte);
            at = at + 1;
        } else {
            let escape = if path.len() - at >= 4 {
                octal(path[at + 1], path[at + 2], path[at + 3])
            } else {
                None
            };
            match escape {
                Some(v) => {
                    out.push(v);
                    at = at + 4;
                },
                None => {
                    out.push(92u8);
                    at = at + 1;
                },
            }
        }
    }
    out
}

/// The segments of a byte path from `i` on, the current one starting at
/// `start`, added to `acc`: the text between slashes, empty ones and `.`
/// left out, as `Path::components` leaves them out of an absolute path.
pub open spec fn segments_from(p: Seq<u8>, start: int, i: int, acc: Seq<Seq<u8>>) -> Seq<Seq<u8>>
    decreases p.len() - i,
{
    if i < 0 || i >= p.len() {
        kept(acc, p.subrange(start, p.len() as int))
    } else if p[i] == 47 {
        segments_from(p, i + 1, i + 1, kept(acc, p.subrange(start, i)))
    } else {
        segments_from(p, start, i + 1, acc)
    }
}

/// `acc` with `seg` after it, unless it is empty or `.`.
pub open spec fn kept(acc: Seq<Seq<u8>>, seg: Seq<u8>) -> Seq<Seq<u8>> {
    if seg.len() == 0 || seg == seq![46u8] {
        acc
    } else {
        acc.push(seg)
    }
}

/// The names an absolute byte path is made of.
pub open spec fn segments(p: Seq<u8>) -> Seq<Seq<u8>> {
    segments_from(p, 0, 0, Seq::empty())
}

/// Whether an absolute byte path lies under `/media`, `/run/media` or
/// `/mnt`, compared component by component as `Path::starts_with` does.
pub open spec fn data_mount(p: Seq<u8>) -> bool {
    let s = segments(p);
    &&& p.len() > 0 && p[0] == 47
    &&& {
        ||| s.len() >= 1 && s[0] == seq![109u8, 101u8, 100u8, 105u8, 97u8]
        ||| s.len() >= 2 && s[0] == seq![114u8, 117u8, 110u8] && s[1] == seq![
            109u8,
            101u8,
            100u8,
            105u8,
            97u8,
        ]
        ||| s.len() >= 1 && s[0] == seq![109u8, 110u8, 116u8]
    }
}

/// The mount points a `/proc/self/mountinfo` text names on data volumes:
/// the fifth field of each line, unescaped, kept when it lies under
/// `/media`, `/run/media` or `/mnt`.
pub open spec fn mounts_upto(lines: Seq<Seq<char>>, n: int) -> Seq<Seq<u8>>
    decreases n,
{
    if n <= 0 || n > lines.len() {
        Seq::empty()
    } else {
        let before = mounts_upto(lines, n - 1);
        let f = fields(left_part(lines[n - 1]));
        if f.len() > 4 && data_mount(unescaped(vstd::utf8::encode_utf8(f[4]))) {
            before.push(unescaped(vstd::utf8::encode_utf8(f[4])))
        } else {
            before
        }
    }
}

/// The segments of a byte path, as plain byte strings.
fn path_segments(p: &Vec<u8>) -> (v: Vec<Vec<u8>>)
    ensures
        v@.map_values(|s: Vec<u8>| s@) == segments(p@),
{
    let mut out: Vec<Vec<u8>> = Vec::new();
    let mut start: usize = 0;
    let mut i: usize = 0;
    assert(out@.map_values(|s: Vec<u8>| s@) =~= Seq::<Seq<u8>>::empty());
    while i < p.len()
        invariant
            start <= i <= p@.len(),
            segments(p@) == segments_from(p@, start as int, i as int, out@.map_values(|s: Vec<u8>| s@)),
        decreases p@.len() - i,
    {
        if p[i] == 47 {
            push_kept(&mut out, p, start, i);
            start = i + 1;
        }
        i = i + 1;
    }
    push_kept(&mut out, p, start, i);
    out
}

/// Adds `p[start..end]` unless it is empty or `.`.
fn push_kept(out: &mut Vec<Vec<u8>>, p: &Vec<u8>, start: usize, end: usize)
    requires
        start <= end <= p@.len(),
    ensures
        final(out)@.map_values(|s: Vec<u8>| s@) == kept(
            old(out)@.map_values(|s: Vec<u8>| s@),
            p@.subrange(start as int, end as int),
        ),
{
    let ghost before = out@.map_values(|s: Vec<u8>| s@);
    let ghost seg = p@.subrange(start as int, end as int);
    if end == start {
        assert(seg.len() == 0);
        return ;
    }
    if end - start == 1 && p[start] == 46 {
        assert(seg =~= seq![46u8]);
        return ;
    }
    proof {
        if end - start == 1 {
            assert(seg[0] == p@[start as int]);
            assert(seg != seq![46u8]);
        }
    }
    let mut s: Vec<u8> = Vec::new();
    let mut k = start;
    while k < end
        invariant
            start <= k <= end <= p@.len(),
            s@ == p@.subrange(start as int, k as int),
        decreases end - k,
    {
        s.push(p[k]);
        assert(s@ =~= p@.subrange(start as int, k + 1));
        k = k + 1;
    }
    out.push(s);
    assert(out@.map_values(|s: Vec<u8>| s@) =~= before.push(seg));
}

/// Whether two byte strings are equal.
fn same_bytes(a: &Vec<u8>, b: &[u8]) -> (r: bool)
    ensures
        r == (a@ == b@),
{
    if a.len() != b.len() {
        return false;
    }
    let mut i: usize = 0;
    while i < a.len()
        invariant
            i <= a@.len() == b@.len(),
            forall|j: int| 0 <= j < i ==> a@[j] == b@[j],
        decreases a@.len() - i,
    {
        if a[i] != b[i] {
            return false;
        }
        i = i + 1;
    }
    assert(a@ =~= b@);
    true
}

/// Whether an absolute byte path lies under a data volume's mount root.
pub fn is_data_mount(p: &Vec<u8>) -> (b: bool)
    ensures
        b == data_mount(p@),
{
    if p.len() == 0 || p[0] != 47 {
        return false;
    }
    let s = path_segments(p);
    let ghost sv = s@.map_values(|x: Vec<u8>| x@);
    let media: [u8; 5] = [109, 101, 100, 105, 97];
    let run: [u8; 3] = [114, 117, 110];
    let mnt: [u8; 3] = [109, 110, 116];
    assert(media@ =~= seq![109u8, 101u8, 100u8, 105u8, 97u8]);
    assert(run@ =~= seq![114u8, 117u8, 110u8]);
    assert(mnt@ =~= seq![109u8, 110u8, 116u8]);
    if s.len() >= 1 {
        assert(sv[0] == s@[0]@);
        if same_bytes(&s[0], &media) || same_bytes(&s[0], &mnt) {
            return true;
        }
    }
    if s.len() >= 2 {
        assert(sv[1] == s@[1]@);
        if same_bytes(&s[0], &run) && same_bytes(&s[1], &media) {
            return true;
        }
    }
    false
}

/// Where a line's text before its first `" - "` ends.
fn left_end(line: &Vec<char>) -> (e: usize)
    ensures
        e == separator_at(line@, 0),
        e <= line@.len(),
{
    let n = line.len();
    let mut i: usize = 0;
    while n >= 3 && i <= n - 3 && !(line[i] == ' ' && line[i + 1] == '-' && line[i + 2] == ' ')
        invariant
            i <= n == line@.len(),
            separator_at(line@, 0) == separator_at(line@, i as int),
        decreases n - i,
    {
        i = i + 1;
    }
    if n >= 3 && i <= n - 3 {
        i
    } else {
        n
    }
}

/// Whether `c` is ASCII white space.
fn is_ascii_space(c: char) -> (b: bool)
    ensures
        b == ascii_space(c),
{
    c == ' ' || c == '\t' || c == '\n' || c == '\x0C' || c == '\r'
}

/// The fields of `s`, as `str::split_ascii_whitespace` yields them.
fn split_fields(s: &Vec<char>) -> (v: Vec<String>)
    ensures
        texts(v@) == fields(s@),
{
    let mut out: Vec<String> = Vec::new();
    let mut start: Option<usize> = None;
    let mut i: usize = 0;
    assert(texts(out@) =~= Seq::<Seq<char>>::empty());
    while i < s.len()
        invariant
            i <= s@.len(),
            match start {
                Some(b) => b < i,
                None => true,
            },
            fields(s@) == fields_from(
                s@,
                match start {
                    Some(b) => Some(b as int),
                    None => None,
                },
                i as int,
                texts(out@),
            ),
        decreases s@.len() - i,
    {
        if is_ascii_space(s[i]) {
            match start {
                Some(b) => {
                    let ghost before = texts(out@);
                    let f = string_of_range(s.as_slice(), b, i);
                    out.push(f);
                    assert(texts(out@) =~= before.push(s@.subrange(b as int, i as int)));
                },
                None => {},
            }
            start = None;
        } else {
            match start {
                Some(_) => {},
                None => {
                    start = Some(i);
                },
            }
        }
        i = i + 1;
    }
    match start {
        Some(b) => {
            let ghost before = texts(out@);
            let f = string_of_range(s.as_slice(), b, s.len());
            out.push(f);
            assert(texts(out@) =~= before.push(s@.subrange(b as int, s@.len() as int)));
        },
        None => {},
    }
    out
}

/// The mount points a `/proc/self/mountinfo` text names on data volumes,
/// each unescaped byte for byte.
pub fn mount_points(text: &str) -> (v: Vec<Vec<u8>>)
    ensures
        v@.map_values(|p: Vec<u8>| p@) == mounts_upto(
            physical_lines(text@),
            physical_lines(text@).len() as int,
        ),
{
    let lines = physical_lines_of(text);
    let ghost ls = texts(lines@);
    let mut out: Vec<Vec<u8>> = Vec::new();
    let mut k: usize = 0;
    assert(out@.map_values(|p: Vec<u8>| p@) =~= Seq::<Seq<u8>>::empty());
    while k < lines.len()
        invariant
            k <= lines@.len(),
            ls == texts(lines@),
            ls == physical_lines(text@),
            out@.map_values(|p: Vec<u8>| p@) == mounts_upto(ls, k as int),
        decreases lines@.len() - k,
    {
        let chars = chars_of(lines[k].as_str());
        let e = left_end(&chars);
        let left = string_of_range(chars.as_slice(), 0, e);
        assert(left@ =~= left_part(ls[k as int]));
        let left_chars = chars_of(left.as_str());
        let f = split_fields(&left_chars);
        if f.len() > 4 {
            let bytes = f[4].as_str().as_bytes();
            let p = unescape_mount_path(bytes);
            if is_data_mount(&p) {
                let ghost before = out@.map_values(|p: Vec<u8>| p@);
                let ghost pv = p@;
                out.push(p);
                assert(out@.map_values(|p: Vec<u8>| p@) =~= before.push(pv));
            }
        }
        k = k + 1;
    }
    out
}

/// The entries of a path list, split at each `:` as Unix spells the list,
/// empty entries kept: from the entry that starts at `start`, reading from
/// `i`, added to `acc`.
pub open spec fn list_entries(p: Seq<u8>, start: int, i: int, acc: Seq<Seq<u8>>) -> Seq<Seq<u8>>
    decreases p.len() - i,
{
    if i >= p.len() {
        acc.push(p.subrange(start, p.len() as int))
    } else if p[i] == 58u8 {
        list_entries(p, i + 1, i + 1, acc.push(p.subrange(start, i)))
    } else {
        list_entries(p, start, i + 1, acc)
    }
}

/// What `DXRAY_CONTAINER_HOMES` says: when it is not set, nothing (the
/// mounts are to be scanned); when it is set but empty, no homes at all,
/// which turns the scan off; else the homes its entries name.
pub open spec fn spec_container_homes(value: Option<Seq<u8>>) -> Option<Seq<Seq<u8>>> {
    match value {
        None => None,
        Some(v) => if v.len() == 0 {
            Some(Seq::empty())
        } else {
            Some(list_entries(v, 0, 0, Seq::empty()))
        },
    }
}

/// The homes a `DXRAY_CONTAINER_HOMES` value, as its bytes, lists: see
/// [`spec_container_homes`].
pub fn parse_container_homes(value: Option<Vec<u8>>) -> (r: Option<Vec<Vec<u8>>>)
    ensures
        match r {
            None => spec_container_homes(
                match value {
                    Some(v) => Some(v@),
                    None => None,
                },
            ) is None,
            Some(homes) => spec_container_homes(
                match value {
                    Some(v) => Some(v@),
                    None => None,
                },
            ) == Some(homes@.map_values(|h: Vec<u8>| h@)),
        },
{
    let v = match value {
        None => {
            return None;
        },
        Some(v) => v,
    };
    let mut out: Vec<Vec<u8>> = Vec::new();
    if v.len() == 0 {
        assert(out@.map_values(|h: Vec<u8>| h@) =~= Seq::<Seq<u8>>::empty());
        return Some(out);
    }
    let ghost p = v@;
    let mut start: usize = 0;
    let mut i: usize = 0;
    assert(out@.map_values(|h: Vec<u8>| h@) =~= Seq::<Seq<u8>>::empty());
    while i < v.len()
        invariant
            p == v@,
            start <= i <= v@.len(),
            list_entries(p, 0, 0, Seq::empty()) == list_entries(
                p,
                start as int,
                i as int,
                out@.map_values(|h: Vec<u8>| h@),
            ),
        decreases v@.len() - i,
    {
        if v[i] == 58u8 {
            let ghost before = out@.map_values(|h: Vec<u8>| h@);
            let piece = slice_of(&v, start, i);
            out.push(piece);
            assert(out@.map_values(|h: Vec<u8>| h@) =~= before.push(p.subrange(start as int, i as int)));
            start = i + 1;
        }
        i = i + 1;
    }
    let ghost before = out@.map_values(|h: Vec<u8>| h@);
    let piece = slice_of(&v, start, v.len());
    out.push(piece);
    assert(out@.map_values(|h: Vec<u8>| h@) =~= before.push(p.subrange(start as int, p.len() as int)));
    Some(out)
}

/// The bytes of `v` from `lo` to `hi`.
fn slice_of(v: &Vec<u8>, lo: usize, hi: usize) -> (out: Vec<u8>)
    requires
        lo <= hi <= v@.len(),
    ensures
        out@ == v@.subrange(lo as int, hi as int),
{
    let mut out: Vec<u8> = Vec::new();
    let mut k: usize = lo;
    while k < hi
        invariant
            lo <= k <= hi <= v@.len(),
            out@ == v@.subrange(lo as int, k as int),
        decreases hi - k,
    {
        out.push(v[k]);
        assert(out@ =~= v@.subrange(lo as int, k + 1));
        k = k + 1;
    }
    out
}

/// What a container-home scan asks of the machine next.
#[derive(Debug)]
pub enum HomeProbe {
    /// List the direct children of this directory.
    List(FilePath),
    /// Say whether this path is a directory, and what it resolves to.
    Check(FilePath),
    /// The scan is over.
    Done,
}

/// What the machine answered.
#[derive(Debug)]
pub enum HomeEvent {
    /// The children of the directory asked for, or `None` when it could not
    /// be listed.
    Listed(Option<Vec<FilePath>>),
    /// Whether the path asked about is a directory, and its identity.
    Checked { is_dir: bool, identity: String },
}

/// A probe as plain values.
pub enum HomeProbeV {
    List(Seq<Part>),
    Check(Seq<Part>),
    Done,
}

/// An event as plain values.
pub enum HomeEventV {
    Listed(Option<Seq<Seq<Part>>>),
    Checked { is_dir: bool, identity: Seq<char> },
}

impl View for HomeProbe {
    type V = HomeProbeV;

    open spec fn view(&self) -> HomeProbeV {
        match self {
            HomeProbe::List(p) => HomeProbeV::List(p@),
            HomeProbe::Check(p) => HomeProbeV::Check(p@),
            HomeProbe::Done => HomeProbeV::Done,
        }
    }
}

/// The plain values of each path.
pub open spec fn paths_of(v: Seq<FilePath>) -> Seq<Seq<Part>> {
    v.map_values(|p: FilePath| p@)
}

impl View for HomeEvent {
    type V = HomeEventV;

    open spec fn view(&self) -> HomeEventV {
        match self {
            HomeEvent::Listed(None) => HomeEventV::Listed(None),
            HomeEvent::Listed(Some(v)) => HomeEventV::Listed(Some(paths_of(v@))),
            HomeEvent::Checked { is_dir, identity } => HomeEventV::Checked {
                is_dir: *is_dir,
                identity: identity@,
            },
        }
    }
}

/// An optional event as plain values.
pub open spec fn event_view(e: Option<HomeEvent>) -> Option<HomeEventV> {
    match e {
        Some(x) => Some(x@),
        None => None,
    }
}

/// What a scan waits for.
#[derive(Debug, Clone, Copy, PartialEq, Eq, Structural)]
pub enum Awaiting {
    /// Nothing yet: the first call takes no event.
    Start,
    /// The listing it asked for.
    Listing,
    /// The check it asked for.
    Checking,
    /// Nothing more: it is over.
    Finished,
}

/// A scan as plain values: the mounts, the next base directory to list
/// (`mount`, and whether it is the second of the mount's two), the children
/// of the base read last and the candidate being checked among them
/// (`child`, and `stage`: the child itself, its `home`, its `root`), the
/// identities kept so far and the homes kept with them.
pub struct HomeScanV {
    pub mounts: Seq<Seq<Part>>,
    pub mount: int,
    pub second: bool,
    pub children: Seq<Seq<Part>>,
    pub child: int,
    pub stage: int,
    pub seen: Seq<Seq<char>>,
    pub homes: Seq<Seq<Part>>,
    pub awaiting: Awaiting,
}

/// The directories a mount's container homes may sit in: `data/distrobox`,
/// then `distrobox`.
pub open spec fn base_path(mount: Seq<Part>, second: bool) -> Seq<Part> {
    if second {
        under(mount, seq!["distrobox"@])
    } else {
        under(mount, seq!["data"@, "distrobox"@])
    }
}

/// The candidate a stage of a child names: the child, its `home`, its
/// `root`.
pub open spec fn candidate(child: Seq<Part>, stage: int) -> Seq<Part> {
    if stage == 0 {
        child
    } else if stage == 1 {
        under(child, seq!["home"@])
    } else {
        under(child, seq!["root"@])
    }
}

/// The probe a settled scan makes next: the pending candidate, else the next
/// base directory, else the end.
pub open spec fn advance(s: HomeScanV) -> (HomeScanV, HomeProbeV) {
    if 0 <= s.child < s.children.len() {
        (HomeScanV { awaiting: Awaiting::Checking, ..s }, HomeProbeV::Check(candidate(s.children[s.child], s.stage)))
    } else if 0 <= s.mount < s.mounts.len() {
        (
            HomeScanV {
                mount: if s.second {
                    s.mount + 1
                } else {
                    s.mount
                },
                second: !s.second,
                awaiting: Awaiting::Listing,
                ..s
            },
            HomeProbeV::List(base_path(s.mounts[s.mount], s.second)),
        )
    } else {
        (HomeScanV { awaiting: Awaiting::Finished, ..s }, HomeProbeV::Done)
    }
}

/// One step of the scan. A listing starts on the base's children (none when
/// it could not be listed). A check of a child that is not a directory
/// skips the child; a candidate that is a directory, of an identity not
/// kept before, is kept; then the next candidate of the child, or the next
/// child. Then [`advance`].
pub open spec fn spec_home_step(s: HomeScanV, e: Option<HomeEventV>) -> (HomeScanV, HomeProbeV) {
    match e {
        None => advance(s),
        Some(HomeEventV::Listed(l)) => advance(
            HomeScanV {
                children: match l {
                    Some(c) => c,
                    None => Seq::empty(),
                },
                child: 0,
                stage: 0,
                ..s
            },
        ),
        Some(HomeEventV::Checked { is_dir, identity }) => if 0 <= s.child < s.children.len() {
            let c = candidate(s.children[s.child], s.stage);
            let fresh = is_dir && !s.seen.contains(identity);
            let next_child = (s.stage == 0 && !is_dir) || s.stage >= 2;
            advance(
                HomeScanV {
                    seen: if fresh {
                        s.seen.push(identity)
                    } else {
                        s.seen
                    },
                    homes: if fresh {
                        s.homes.push(c)
                    } else {
                        s.homes
                    },
                    child: if next_child {
                        s.child + 1
                    } else {
                        s.child
                    },
                    stage: if next_child {
                        0
                    } else {
                        s.stage + 1
                    },
                    ..s
                },
            )
        } else {
            advance(s)
        },
    }
}

/// Whether the scan is waiting for `e`: nothing at the start, a listing
/// after a list probe, a check after a check probe; nothing once over.
pub open spec fn awaits(s: HomeScanV, e: Option<HomeEventV>) -> bool {
    match s.awaiting {
        Awaiting::Start => e is None,
        Awaiting::Listing => e matches Some(HomeEventV::Listed(_)),
        Awaiting::Checking => e matches Some(HomeEventV::Checked { .. }),
        Awaiting::Finished => false,
    }
}

/// Bounded discovery of container homes on mounted volumes, one probe at a
/// time: for each mount, `data/distrobox` then `distrobox` is listed, and
/// each direct child that is a directory is considered with its `home` and
/// `root`; a candidate that is a directory is kept, the first of each
/// identity. Nothing else is listed or checked.
pub struct HomeScan {
    mounts: Vec<FilePath>,
    mount: usize,
    second: bool,
    children: Vec<FilePath>,
    child: usize,
    stage: u8,
    seen: Vec<String>,
    homes: Vec<FilePath>,
    awaiting: Awaiting,
}

impl View for HomeScan {
    type V = HomeScanV;

    closed spec fn view(&self) -> HomeScanV {
        HomeScanV {
            mounts: paths_of(self.mounts@),
            mount: self.mount as int,
            second: self.second,
            children: paths_of(self.children@),
            child: self.child as int,
            stage: self.stage as int,
            seen: texts(self.seen@),
            homes: paths_of(self.homes@),
            awaiting: self.awaiting,
        }
    }
}

/// `base` with one more name after it.
pub(crate) fn joined(base: &FilePath, name: &str) -> (p: FilePath)
    ensures
        p@ == under(base@, seq![name@]),
{
    let mut p = base.copy();
    let ghost before = p@;
    p.components.push(Component::Normal(copy_text(name)));
    assert(p@ =~= under(before, seq![name@]));
    p
}

/// Whether `v` holds `x`.
fn holds(v: &Vec<String>, x: &str) -> (b: bool)
    ensures
        b == texts(v@).contains(x@),
{
    let mut i: usize = 0;
    while i < v.len()
        invariant
            i <= v@.len(),
            forall|j: int| 0 <= j < i ==> texts(v@)[j] != x@,
        decreases v@.len() - i,
    {
        if same_text(v[i].as_str(), x) {
            assert(texts(v@)[i as int] == x@);
            return true;
        }
        i = i + 1;
    }
    false
}

impl HomeScan {
    /// Whether the scan's own counters stand where a scan can put them.
    pub closed spec fn wf(&self) -> bool {
        &&& self.mount <= self.mounts@.len()
        &&& self.child <= self.children@.len()
        &&& self.stage < 3
        &&& texts(self.seen@).len() == paths_of(self.homes@).len()
        &&& no_repeats(texts(self.seen@))
    }

    /// A scan of `mounts` that has probed nothing.
    pub fn new(mounts: Vec<FilePath>) -> (s: HomeScan)
        ensures
            s.wf(),
            s@.mounts == paths_of(mounts@),
            s@.mount == 0,
            !s@.second,
            s@.children == Seq::<Seq<Part>>::empty(),
            s@.child == 0,
            s@.stage == 0,
            s@.seen == Seq::<Seq<char>>::empty(),
            s@.homes == Seq::<Seq<Part>>::empty(),
            s@.awaiting == Awaiting::Start,
    {
        let s = HomeScan {
            mounts,
            mount: 0,
            second: false,
            children: Vec::new(),
            child: 0,
            stage: 0,
            seen: Vec::new(),
            homes: Vec::new(),
            awaiting: Awaiting::Start,
        };
        assert(paths_of(s.children@) =~= Seq::<Seq<Part>>::empty());
        assert(texts(s.seen@) =~= Seq::<Seq<char>>::empty());
        assert(paths_of(s.homes@) =~= Seq::<Seq<Part>>::empty());
        s
    }

    /// The candidate the scan stands at.
    fn current(&self) -> (c: FilePath)
        requires
            self.child < self.children@.len(),
            self.stage < 3,
        ensures
            c@ == candidate(self@.children[self@.child], self@.stage),
    {
        let base = &self.children[self.child];
        assert(self@.children[self@.child] == base@);
        if self.stage == 0 {
            base.copy()
        } else if self.stage == 1 {
            proof { reveal_strlit("home"); }
            joined(base, "home")
        } else {
            proof { reveal_strlit("root"); }
            joined(base, "root")
        }
    }

    /// The next probe from a settled scan: see [`advance`].
    fn advance(&mut self) -> (p: HomeProbe)
        requires
            old(self).wf(),
        ensures
            final(self).wf(),
            (final(self)@, p@) == advance(old(self)@),
    {
        if self.child < self.children.len() {
            self.awaiting = Awaiting::Checking;
            let c = self.current();
            HomeProbe::Check(c)
        } else if self.mount < self.mounts.len() {
            let m = &self.mounts[self.mount];
            assert(self@.mounts[self@.mount] == m@);
            proof {
                reveal_strlit("data");
                reveal_strlit("distrobox");
            }
            let b = if self.second {
                joined(m, "distrobox")
            } else {
                let d = joined(m, "data");
                let b = joined(&d, "distrobox");
                assert(b@ =~= under(m@, seq!["data"@, "distrobox"@]));
                b
            };
            if self.second {
                self.mount = self.mount + 1;
            }
            self.second = !self.second;
            self.awaiting = Awaiting::Listing;
            HomeProbe::List(b)
        } else {
            self.awaiting = Awaiting::Finished;
            HomeProbe::Done
        }
    }

    /// Takes what the machine answered to the last probe (nothing on the
    /// first call) and says what to probe next.
    pub fn next(&mut self, event: Option<HomeEvent>) -> (p: HomeProbe)
        requires
            old(self).wf(),
            awaits(old(self)@, event_view(event)),
        ensures
            final(self).wf(),
            (final(self)@, p@) == spec_home_step(old(self)@, event_view(event)),
            p matches HomeProbe::List(b) ==> exists|i: int|
                0 <= i < old(self)@.mounts.len() && (b@ == under(old(self)@.mounts[i], seq!["data"@, "distrobox"@])
                    || b@ == under(old(self)@.mounts[i], seq!["distrobox"@])),
            p matches HomeProbe::Check(c) ==> exists|k: int|
                0 <= k < final(self)@.children.len() && (c@ == final(self)@.children[k] || c@ == under(
                    final(self)@.children[k],
                    seq!["home"@],
                ) || c@ == under(final(self)@.children[k], seq!["root"@])),
    {
        match event {
            None => {},
            Some(HomeEvent::Listed(l)) => {
                self.children = match l {
                    Some(c) => c,
                    None => Vec::new(),
                };
                self.child = 0;
                self.stage = 0;
                assert(self@.children =~= match event_view(event) {
                    Some(HomeEventV::Listed(Some(c))) => c,
                    _ => Seq::<Seq<Part>>::empty(),
                });
            },
            Some(HomeEvent::Checked { is_dir, identity }) => {
                if self.child < self.children.len() {
                    let c = self.current();
                    let ghost id = identity@;
                    if is_dir && !holds(&self.seen, identity.as_str()) {
                        let ghost seen0 = texts(self.seen@);
                        let ghost homes0 = paths_of(self.homes@);
                        self.seen.push(identity);
                        self.homes.push(c);
                        assert(texts(self.seen@) =~= seen0.push(id));
                        assert(paths_of(self.homes@) =~= homes0.push(c@));
                        assert forall|i: int, j: int|
                            0 <= i < j < texts(self.seen@).len() implies #[trigger] texts(self.seen@)[i]
                            != #[trigger] texts(self.seen@)[j] by {
                            if j == seen0.len() {
                                assert(seen0[i] == texts(self.seen@)[i]);
                                assert(seen0.contains(seen0[i]));
                            } else {
                                assert(seen0[i] == texts(self.seen@)[i] && seen0[j] == texts(self.seen@)[j]);
                            }
                        }
                    }
                    if (self.stage == 0 && !is_dir) || self.stage >= 2 {
                        self.child = self.child + 1;
                        self.stage = 0;
                    } else {
                        self.stage = self.stage + 1;
                    }
                }
            },
        }
        let p = self.advance();
        proof {
            if p is Check {
                let k = self@.child;
                assert(0 <= k < self@.children.len());
                assert(p->Check_0@ == candidate(self@.children[k], self@.stage));
            }
            if p is List {
                assert(0 <= old(self)@.mount < old(self)@.mounts.len());
            }
        }
        p
    }

    /// The homes kept, in the order they were found.
    pub fn homes(self) -> (v: Vec<FilePath>)
        ensures
            paths_of(v@) == self@.homes,
    {
        self.homes
    }
}

/// What one step of a scan keeps: a home is added only by a check that
/// found a directory whose identity was not kept before, and it is then the
/// candidate checked, its identity kept with it; the mounts never change;
/// a listing is only ever of a mount's `data/distrobox` or `distrobox`, and
/// a check only of a child of the last listing, its `home` or its `root`,
/// so nothing deeper is ever read.
pub proof fn lemma_home_step(s: HomeScanV, e: Option<HomeEventV>)
    requires
        awaits(s, e),
        0 <= s.mount <= s.mounts.len(),
        0 <= s.stage < 3,
    ensures
        ({
            let (t, p) = spec_home_step(s, e);
            &&& t.mounts == s.mounts
            &&& (t.homes == s.homes && t.seen == s.seen) || (e matches Some(
                HomeEventV::Checked { is_dir, identity },
            ) && is_dir && !s.seen.contains(identity) && 0 <= s.child < s.children.len() && t.seen
                == s.seen.push(identity) && t.homes == s.homes.push(candidate(s.children[s.child], s.stage)))
            &&& p matches HomeProbeV::List(b) ==> exists|i: int|
                0 <= i < s.mounts.len() && (b == base_path(s.mounts[i], false) || b == base_path(
                    s.mounts[i],
                    true,
                ))
            &&& p matches HomeProbeV::Check(c) ==> exists|k: int, st: int|
                0 <= k < t.children.len() && 0 <= st < 3 && c == candidate(t.children[k], st)
        }),
{
    let (t, p) = spec_home_step(s, e);
    if p is List {
        assert(0 <= s.mount < s.mounts.len());
        assert(p->List_0 == base_path(s.mounts[s.mount], s.second));
    }
    if p is Check {
        assert(0 <= t.child < t.children.len() && 0 <= t.stage < 3);
        assert(p->Check_0 == candidate(t.children[t.child], t.stage));
    }
}

/// The state a scan reaches from `s` after each of `events` in turn, and
/// the probe it made after each.
pub open spec fn run(s: HomeScanV, events: Seq<Option<HomeEventV>>) -> (HomeScanV, Seq<HomeProbeV>)
    decreases events.len(),
{
    if events.len() == 0 {
        (s, Seq::empty())
    } else {
        let (t, ps) = run(s, events.drop_last());
        let (u, p) = spec_home_step(t, events.last());
        (u, ps.push(p))
    }
}

/// Whether every event of a run from `s` is one the scan was waiting for.
pub open spec fn answered(s: HomeScanV, events: Seq<Option<HomeEventV>>) -> bool {
    forall|k: int| 0 <= k < events.len() ==> awaits(run(s, events.take(k)).0, #[trigger] events[k])
}

/// The homes a run keeps, and the identities with them, from `seen`: each
/// check answered as a directory whose identity was not met before gives the
/// candidate that check was made on, in the order of the checks.
pub open spec fn kept_homes(probes: Seq<HomeProbeV>, events: Seq<Option<HomeEventV>>, seen: Seq<Seq<char>>) -> (
    Seq<Seq<Part>>,
    Seq<Seq<char>>,
)
    decreases events.len(),
{
    if events.len() <= 1 {
        (Seq::empty(), seen)
    } else {
        let (h, ids) = kept_homes(probes, events.drop_last(), seen);
        let k = events.len() - 1;
        match (probes[k - 1], events[k]) {
            (HomeProbeV::Check(c), Some(HomeEventV::Checked { is_dir, identity })) => if is_dir
                && !ids.contains(identity) {
                (h.push(c), ids.push(identity))
            } else {
                (h, ids)
            },
            _ => (h, ids),
        }
    }
}

proof fn lemma_run_prefix(s: HomeScanV, events: Seq<Option<HomeEventV>>, k: int)
    requires
        0 <= k <= events.len(),
    ensures
        run(s, events.take(k)).1 == run(s, events).1.take(k),
        run(s, events).1.len() == events.len(),
    decreases events.len(),
{
    if events.len() > 0 {
        lemma_run_prefix(s, events.drop_last(), if k == events.len() { k - 1 } else { k });
        if k == events.len() {
            assert(events.take(k) =~= events);
        } else {
            assert(events.drop_last().take(k) =~= events.take(k));
        }
    }
}

/// Over a whole run from the start, the homes are exactly the candidates
/// of the checks that found a directory whose identity was not met before,
/// in the order of the checks, and the identities kept are theirs.
pub proof fn lemma_home_run(s: HomeScanV, events: Seq<Option<HomeEventV>>)
    requires
        s.awaiting == Awaiting::Start,
        0 <= s.stage < 3,
        0 <= s.child,
        answered(s, events),
    ensures
        ({
            let (t, probes) = run(s, events);
            let (h, ids) = kept_homes(probes, events, s.seen);
            &&& t.homes == s.homes + h
            &&& t.seen == ids
            &&& 0 <= t.stage < 3
            &&& 0 <= t.child
            &&& t.awaiting == Awaiting::Checking ==> 0 <= t.child < t.children.len() && probes.len() > 0
                && probes.last() == HomeProbeV::Check(candidate(t.children[t.child], t.stage))
        }),
    decreases events.len(),
{
    if events.len() == 0 {
        assert(s.homes + Seq::<Seq<Part>>::empty() =~= s.homes);
    } else {
        let d = events.drop_last();
        assert forall|k: int| 0 <= k < d.len() implies awaits(run(s, d.take(k)).0, #[trigger] d[k]) by {
            assert(d.take(k) =~= events.take(k));
            assert(d[k] == events[k]);
        }
        lemma_home_run(s, d);
        lemma_run_prefix(s, events, events.len() - 1);
        let (t0, ps) = run(s, d);
        let e = events.last();
        assert(events.take(events.len() - 1) =~= d);
        assert(awaits(t0, e)) by {
            assert(awaits(run(s, events.take(events.len() - 1)).0, events[events.len() - 1]));
        }
        let (t, probes) = run(s, events);
        assert(probes == ps.push(spec_home_step(t0, e).1));
        if events.len() == 1 {
            assert(d =~= Seq::<Option<HomeEventV>>::empty());
            assert(t0 == s);
        } else {
            assert(ps.len() == d.len());
            assert(probes[events.len() - 2] == ps.last());
            let (h0, ids0) = kept_homes(ps, d, s.seen);
            assert(kept_homes(probes, d, s.seen) == kept_homes(ps, d, s.seen)) by {
                lemma_kept_prefix(probes, ps, d, s.seen);
            }
        }
    }
}

proof fn lemma_kept_prefix(
    probes: Seq<HomeProbeV>,
    ps: Seq<HomeProbeV>,
    events: Seq<Option<HomeEventV>>,
    seen: Seq<Seq<char>>,
)
    requires
        ps.len() >= events.len() - 1,
        probes.len() >= ps.len(),
        forall|k: int| 0 <= k < ps.len() ==> probes[k] == ps[k],
    ensures
        kept_homes(probes, events, seen) == kept_homes(ps, events, seen),
    decreases events.len(),
{
    if events.len() > 1 {
        lemma_kept_prefix(probes, ps, events.drop_last(), seen);
        assert(probes[events.len() - 2] == ps[events.len() - 2]);
    }
}

} // verus!
