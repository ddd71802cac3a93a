//! The libraries beside an executable, read at most once for both questions
//! asked of them: what they import, and what version they carry. This module
//! decides which files are read and what each read answers; reading them is
//! the caller's.

use vstd::prelude::*;

use crate::order::{sort_by, sort_texts, text_order_by};

use crate::analysis::{
    findings_view, signals_view, FileVersion, Finding, FindingV, Linked, LinkedV, Signal,
    SignalV, Verdict, VerdictV,
};
use crate::file_path::{file_name, parse_path, FilePath, Part};
use crate::pe::version::version_info;
use crate::pe::{self, descriptor_names, names_view, spec_parse, Pe, PeView, DIR_DELAY_IMPORT, DIR_IMPORT};
use crate::steam::library::extension;
use crate::text::{
    chars_of, copy_text, copy_texts, eq_ignore_ascii_case, eq_ignore_case, lower_seq,
    same_text, string_of_range, texts, to_lower,
};

verus! {

/// How many local libraries one executable's imports are followed into, one
/// link deep: enough to see the renderer behind a Unity stub.
pub const MAX_LOCAL_LIBRARIES: usize = 16;

/// One library read once: what it imports, and what version it carries.
#[derive(Debug)]
pub struct Library {
    /// `None` when the file's import tables cannot be read.
    pub linked: Option<Linked>,
    /// The file was found beside the executable and an attempt was made on
    /// it, so never [`FileVersion::Elsewhere`] or [`FileVersion::Unread`].
    pub version: FileVersion,
}

/// A library as plain values.
pub struct LibraryV {
    pub linked: Option<LinkedV>,
    pub version: FileVersion,
}

impl View for Library {
    type V = LibraryV;

    open spec fn view(&self) -> LibraryV {
        LibraryV {
            linked: match self.linked {
                Some(l) => Some(l@),
                None => None,
            },
            version: self.version,
        }
    }
}

/// A copy of a linked library.
pub fn copy_linked(l: &Linked) -> (c: Linked)
    ensures
        c@ == l@,
{
    Linked {
        library: copy_text(l.library.as_str()),
        imports: copy_texts(&l.imports),
        delay_imports: copy_texts(&l.delay_imports),
    }
}

/// What the reads so far say of the library keyed `key`: the latest read
/// under that key.
pub open spec fn read_of(read: Seq<(Seq<char>, LibraryV)>, key: Seq<char>) -> Option<LibraryV>
    decreases read.len(),
{
    if read.len() == 0 {
        None
    } else if read.last().0 == key {
        Some(read.last().1)
    } else {
        read_of(read.drop_last(), key)
    }
}

/// The directory's own spelling of `lower`: the first neighbour equal to it
/// once ASCII case is ignored.
pub open spec fn on_disk(neighbours: Seq<Seq<char>>, lower: Seq<char>) -> Option<Seq<char>>
    decreases neighbours.len(),
{
    if neighbours.len() == 0 {
        None
    } else if eq_ignore_case(neighbours[0], lower) {
        Some(neighbours[0])
    } else {
        on_disk(neighbours.drop_first(), lower)
    }
}

/// Whether a lower-cased import names a `.dll`. A `.exe` beside a game is
/// another candidate for being the game, not a library this one loads.
pub open spec fn names_dll(lower: Seq<char>) -> bool {
    match file_name(parse_path(lower)) {
        Some(f) => extension(f) == Some("dll"@),
        None => false,
    }
}

/// One library a plan consults: its key, the import lower-cased, and the
/// file to read for it, or `None` when an earlier read already answers.
pub type Step = (Seq<char>, Option<Seq<char>>);

/// The keys a plan consults, in order.
pub open spec fn plan_keys(p: Seq<Step>) -> Seq<Seq<char>> {
    p.map_values(|s: Step| s.0)
}

/// The libraries following the first `n` of `names` consults, with reads so
/// far `read`: at most [`MAX_LOCAL_LIBRARIES`], each `.dll` once, a name
/// already read answered from that read and a name with no file beside the
/// executable skipped without spending the budget.
pub open spec fn follow_plan(
    names: Seq<Seq<char>>,
    neighbours: Seq<Seq<char>>,
    read: Seq<(Seq<char>, LibraryV)>,
    n: int,
) -> Seq<Step>
    decreases n,
{
    if n <= 0 || n > names.len() {
        Seq::empty()
    } else {
        let p = follow_plan(names, neighbours, read, n - 1);
        let lower = lower_seq(names[n - 1]);
        if p.len() >= MAX_LOCAL_LIBRARIES || plan_keys(p).contains(lower) || !names_dll(lower) {
            p
        } else if read_of(read, lower) is Some {
            p.push((lower, None))
        } else {
            match on_disk(neighbours, lower) {
                Some(f) => p.push((lower, Some(f))),
                None => p,
            }
        }
    }
}

/// How the importing image spelled the library keyed `key`: the first of
/// `names` that lowercases to it, or the key itself when none does.
pub open spec fn spelled_as(names: Seq<Seq<char>>, key: Seq<char>) -> Seq<char>
    decreases names.len(),
{
    if names.len() == 0 {
        key
    } else if lower_seq(names[0]) == key {
        names[0]
    } else {
        spelled_as(names.drop_first(), key)
    }
}

/// What following a plan hands the analysis: each consulted library whose
/// import tables could be read, in plan order, spelled as the importing
/// image spelled it among `names`.
pub open spec fn linked_from(p: Seq<Step>, read: Seq<(Seq<char>, LibraryV)>, names: Seq<Seq<char>>) -> Seq<
    LinkedV,
>
    decreases p.len(),
{
    if p.len() == 0 {
        Seq::empty()
    } else {
        let before = linked_from(p.drop_last(), read, names);
        match read_of(read, p.last().0) {
            Some(l) => match l.linked {
                Some(k) => before.push(
                    LinkedV {
                        library: spelled_as(names, p.last().0),
                        imports: k.imports,
                        delay_imports: k.delay_imports,
                    },
                ),
                None => before,
            },
            None => before,
        }
    }
}

/// How the importing image spelled the library keyed `key`.
fn spelling_of(names: &Vec<String>, key: &str) -> (s: String)
    ensures
        s@ == spelled_as(texts(names@), key@),
{
    let ghost ns = texts(names@);
    let mut i: usize = 0;
    assert(ns.skip(0) =~= ns);
    while i < names.len()
        invariant
            i <= names@.len(),
            ns == texts(names@),
            spelled_as(ns, key@) == spelled_as(ns.skip(i as int), key@),
        decreases names@.len() - i,
    {
        assert(ns.skip(i as int)[0] == names@[i as int]@);
        assert(ns.skip(i as int).drop_first() =~= ns.skip(i + 1));
        let lower = to_lower(names[i].as_str());
        if same_text(lower.as_str(), key) {
            return copy_text(names[i].as_str());
        }
        i = i + 1;
    }
    assert(ns.skip(i as int) =~= Seq::<Seq<char>>::empty());
    copy_text(key)
}

/// The extension of `name`, as [`extension`] cuts it.
fn extension_of(name: &Vec<char>) -> (e: Option<String>)
    ensures
        match e {
            Some(t) => extension(name@) == Some(t@),
            None => extension(name@) is None,
        },
{
    let mut i = name.len();
    assert(name@.take(i as int) =~= name@);
    while i > 0 && name[i - 1] != '.'
        invariant
            i <= name@.len(),
            crate::file_path::last_dot(name@) == crate::file_path::last_dot(name@.take(i as int)),
        decreases i,
    {
        assert(name@.take(i as int).drop_last() =~= name@.take(i - 1));
        i = i - 1;
    }
    proof {
        if i > 0 {
            assert(name@.take(i as int).last() == '.');
        } else {
            assert(name@.take(0) =~= Seq::<char>::empty());
        }
    }
    if i <= 1 {
        return None;
    }
    let e = string_of_range(name.as_slice(), i, name.len());
    assert(e@ =~= name@.skip(i as int));
    Some(e)
}

/// Whether a lower-cased import names a `.dll`.
fn is_dll(lower: &str) -> (b: bool)
    ensures
        b == names_dll(lower@),
{
    let path = FilePath::parse(lower);
    match path.file_name() {
        Some(f) => {
            let chars = chars_of(f.as_str());
            match extension_of(&chars) {
                Some(e) => {
                    let r = same_text(e.as_str(), "dll");
                    proof {
                        if e@ == "dll"@ {
                            assert(r);
                        }
                    }
                    r
                },
                None => false,
            }
        },
        None => false,
    }
}

/// The directory's own spelling of `lower`, if a neighbour has it.
fn find_on_disk(neighbours: &Vec<String>, lower: &str) -> (f: Option<String>)
    ensures
        match f {
            Some(t) => on_disk(texts(neighbours@), lower@) == Some(t@),
            None => on_disk(texts(neighbours@), lower@) is None,
        },
{
    let ghost all = texts(neighbours@);
    let mut i: usize = 0;
    assert(all.skip(0) =~= all);
    while i < neighbours.len()
        invariant
            i <= neighbours@.len(),
            all == texts(neighbours@),
            on_disk(all, lower@) == on_disk(all.skip(i as int), lower@),
        decreases neighbours@.len() - i,
    {
        assert(all.skip(i as int)[0] == neighbours@[i as int]@);
        if eq_ignore_ascii_case(neighbours[i].as_str(), lower) {
            return Some(copy_text(neighbours[i].as_str()));
        }
        assert(all.skip(i as int).drop_first() =~= all.skip(i + 1));
        i = i + 1;
    }
    None
}

/// The plain values of each read.
pub open spec fn reads_view(v: Seq<(String, Library)>) -> Seq<(Seq<char>, LibraryV)> {
    v.map_values(|e: (String, Library)| (e.0@, e.1@))
}

/// The plain values of each step.
pub open spec fn steps_view(v: Seq<(String, Option<String>)>) -> Seq<Step> {
    v.map_values(
        |s: (String, Option<String>)|
            (
                s.0@,
                match s.1 {
                    Some(f) => Some(f@),
                    None => None,
                },
            ),
    )
}

/// Reads each library beside an executable at most once, for both questions
/// asked of it. Scoped to one directory, and it enforces that itself: the
/// key is a library name, so entering another directory drops everything.
#[derive(Debug, Default)]
pub struct LibraryCache {
    /// The directory every read below was made in, once anything has been.
    dir: Option<FilePath>,
    /// That directory's file names, listed once.
    listing: Option<Vec<String>>,
    /// Every read, under its lower-cased name.
    read: Vec<(String, Library)>,
}

/// A cache as plain values: its directory, its listing, and its reads.
pub struct CacheV {
    pub dir: Option<Seq<Part>>,
    pub listing: Option<Seq<Seq<char>>>,
    pub read: Seq<(Seq<char>, LibraryV)>,
}

impl View for LibraryCache {
    type V = CacheV;

    closed spec fn view(&self) -> CacheV {
        CacheV {
            dir: match self.dir {
                Some(d) => Some(d@),
                None => None,
            },
            listing: match self.listing {
                Some(l) => Some(texts(l@)),
                None => None,
            },
            read: reads_view(self.read@),
        }
    }
}

impl LibraryCache {
    /// A cache that has read nothing.
    pub fn new() -> (c: LibraryCache)
        ensures
            c@.dir is None,
            c@.listing is None,
            c@.read.len() == 0,
    {
        let c = LibraryCache { dir: None, listing: None, read: Vec::new() };
        assert(reads_view(c.read@) =~= Seq::<(Seq<char>, LibraryV)>::empty());
        c
    }

    /// Points the cache at `dir`, forgetting another directory's files.
    pub fn enter(&mut self, dir: &FilePath)
        ensures
            final(self)@.dir == Some(dir@),
            old(self)@.dir == Some(dir@) ==> final(self)@ == old(self)@,
            old(self)@.dir != Some(dir@) ==> final(self)@.listing is None && final(self)@.read.len()
                == 0,
    {
        let same = match &self.dir {
            Some(d) => d.same(dir),
            None => false,
        };
        if !same {
            self.read = Vec::new();
            self.listing = None;
            self.dir = Some(dir.copy());
            assert(reads_view(self.read@) =~= Seq::<(Seq<char>, LibraryV)>::empty());
        }
    }

    /// Whether the directory still has to be listed.
    pub fn needs_listing(&self) -> (b: bool)
        ensures
            b == self@.listing is None,
    {
        self.listing.is_none()
    }

    /// Keeps the directory's file names, sorted, listed once however many
    /// of its files are inspected.
    pub fn keep_listing(&mut self, names: Vec<String>)
        ensures
            final(self)@.listing == Some(sort_by(texts(names@), text_order_by())),
            final(self)@.dir == old(self)@.dir,
            final(self)@.read == old(self)@.read,
    {
        self.listing = Some(sort_texts(names));
    }

    /// The names of the files beside the file called `own`: the listing
    /// with `own` left out, since a file is not its own neighbour.
    pub fn neighbours(&self, own: Option<&str>) -> (v: Vec<String>)
        ensures
            texts(v@) == match self@.listing {
                Some(l) => l.filter(|n: Seq<char>| Some(n) != own_view(own)),
                None => Seq::<Seq<char>>::empty(),
            },
    {
        let mut out: Vec<String> = Vec::new();
        match &self.listing {
            None => {
                assert(texts(out@) =~= Seq::<Seq<char>>::empty());
            },
            Some(names) => {
                let ghost all = texts(names@);
                let ghost keep = |n: Seq<char>| Some(n) != own_view(own);
                let mut i: usize = 0;
                proof {
                    reveal(Seq::filter);
                }
                assert(all.take(0).filter(keep) =~= Seq::<Seq<char>>::empty());
                while i < names.len()
                    invariant
                        i <= names@.len(),
                        all == texts(names@),
                        keep == (|n: Seq<char>| Some(n) != own_view(own)),
                        texts(out@) == all.take(i as int).filter(keep),
                    decreases names@.len() - i,
                {
                    let is_own = match own {
                        Some(o) => same_text(names[i].as_str(), o),
                        None => false,
                    };
                    let ghost before = texts(out@);
                    assert(all.take(i + 1).drop_last() =~= all.take(i as int));
                    assert(all.take(i + 1).last() == names@[i as int]@);
                    proof {
                        reveal(Seq::filter);
                    }
                    if !is_own {
                        out.push(copy_text(names[i].as_str()));
                        assert(texts(out@) =~= before.push(names@[i as int]@));
                    }
                    i = i + 1;
                }
                assert(all.take(i as int) =~= all);
            },
        }
        out
    }

    /// What the reads so far say of `key`.
    fn lookup(&self, key: &str) -> (r: Option<&Library>)
        ensures
            match r {
                Some(l) => read_of(self@.read, key@) == Some(l@),
                None => read_of(self@.read, key@) is None,
            },
    {
        let ghost all = self@.read;
        let mut i = self.read.len();
        assert(all.take(i as int) =~= all);
        while i > 0
            invariant
                i <= self.read@.len(),
                all == reads_view(self.read@),
                all == self@.read,
                read_of(all, key@) == read_of(all.take(i as int), key@),
            decreases i,
        {
            assert(all.take(i as int).last() == (self.read@[i - 1].0@, self.read@[i - 1].1@));
            if same_text(self.read[i - 1].0.as_str(), key) {
                return Some(&self.read[i - 1].1);
            }
            assert(all.take(i as int).drop_last() =~= all.take(i - 1));
            i = i - 1;
        }
        None
    }

    /// Records what reading the library keyed `key` gave.
    pub fn remember(&mut self, key: String, library: Library)
        ensures
            final(self)@.read == old(self)@.read.push((key@, library@)),
            final(self)@.dir == old(self)@.dir,
            final(self)@.listing == old(self)@.listing,
    {
        let ghost before = reads_view(self.read@);
        let ghost entry = (key@, library@);
        self.read.push((key, library));
        assert(reads_view(self.read@) =~= before.push(entry));
    }
}

/// What `own` names, as plain values.
pub open spec fn own_view(own: Option<&str>) -> Option<Seq<char>> {
    match own {
        Some(o) => Some(o@),
        None => None,
    }
}

/// Whether `key` is among the keys of `out`.
fn planned(out: &Vec<(String, Option<String>)>, key: &str) -> (b: bool)
    ensures
        b == plan_keys(steps_view(out@)).contains(key@),
{
    let ghost keys = plan_keys(steps_view(out@));
    let mut i: usize = 0;
    while i < out.len()
        invariant
            i <= out@.len(),
            keys == plan_keys(steps_view(out@)),
            forall|j: int| 0 <= j < i ==> keys[j] != key@,
        decreases out@.len() - i,
    {
        assert(keys[i as int] == out@[i as int].0@);
        if same_text(out[i].0.as_str(), key) {
            return true;
        }
        i = i + 1;
    }
    false
}

/// A step's plain values after one more step is pushed.
proof fn lemma_steps_push(v: Seq<(String, Option<String>)>, s: (String, Option<String>))
    ensures
        steps_view(v.push(s)) == steps_view(v).push(
            (
                s.0@,
                match s.1 {
                    Some(f) => Some(f@),
                    None => None,
                },
            ),
        ),
        plan_keys(steps_view(v.push(s))) == plan_keys(steps_view(v)).push(s.0@),
{
    assert(steps_view(v.push(s)) =~= steps_view(v).push(
        (
            s.0@,
            match s.1 {
                Some(f) => Some(f@),
                None => None,
            },
        ),
    ));
    assert(plan_keys(steps_view(v.push(s))) =~= plan_keys(steps_view(v)).push(s.0@));
}

/// The names an image imports, then the names it delay-loads.
fn all_imports(imports: &Vec<String>, delay_imports: &Vec<String>) -> (v: Vec<String>)
    ensures
        texts(v@) == texts(imports@) + texts(delay_imports@),
{
    let mut v = copy_texts(imports);
    let mut i: usize = 0;
    while i < delay_imports.len()
        invariant
            i <= delay_imports@.len(),
            texts(v@) == texts(imports@) + texts(delay_imports@).take(i as int),
        decreases delay_imports@.len() - i,
    {
        let ghost before = texts(v@);
        v.push(copy_text(delay_imports[i].as_str()));
        assert(texts(v@) =~= before.push(delay_imports@[i as int]@));
        assert(texts(delay_imports@).take(i + 1) =~= texts(delay_imports@).take(i as int).push(
            delay_imports@[i as int]@,
        ));
        i = i + 1;
    }
    assert(texts(delay_imports@).take(i as int) =~= texts(delay_imports@));
    v
}

impl LibraryCache {
    /// Which libraries following an image's imports one step consults, and
    /// which of them have to be read: the `.dll` names among `imports` and
    /// then `delay_imports` that sit beside the executable, each once, at
    /// most [`MAX_LOCAL_LIBRARIES`] of them.
    pub fn follow_plan(
        &self,
        imports: &Vec<String>,
        delay_imports: &Vec<String>,
        neighbours: &Vec<String>,
    ) -> (p: Vec<(String, Option<String>)>)
        ensures
            steps_view(p@) == follow_plan(
                texts(imports@) + texts(delay_imports@),
                texts(neighbours@),
                self@.read,
                (imports@.len() + delay_imports@.len()) as int,
            ),
    {
        let names = all_imports(imports, delay_imports);
        let ghost ns = texts(names@);
        let ghost nb = texts(neighbours@);
        let mut out: Vec<(String, Option<String>)> = Vec::new();
        let mut i: usize = 0;
        assert(steps_view(out@) =~= Seq::<Step>::empty());
        while i < names.len()
            invariant
                i <= names@.len(),
                ns == texts(names@),
                nb == texts(neighbours@),
                steps_view(out@) == follow_plan(ns, nb, self@.read, i as int),
            decreases names@.len() - i,
        {
            let lower = to_lower(names[i].as_str());
            assert(ns[i as int] == names@[i as int]@);
            if out.len() < MAX_LOCAL_LIBRARIES && !planned(&out, lower.as_str()) && is_dll(
                lower.as_str(),
            ) {
                if self.lookup(lower.as_str()).is_some() {
                    proof {
                        lemma_steps_push(out@, (lower, None));
                    }
                    out.push((lower, None));
                } else {
                    match find_on_disk(neighbours, lower.as_str()) {
                        Some(f) => {
                            proof {
                                lemma_steps_push(out@, (lower, Some(f)));
                            }
                            out.push((lower, Some(f)));
                        },
                        None => {},
                    }
                }
            }
            i = i + 1;
        }
        out
    }

    /// What following a plan hands the analysis, once its reads are
    /// remembered: each consulted library whose import tables could be read.
    pub fn linked(
        &self,
        plan: &Vec<(String, Option<String>)>,
        imports: &Vec<String>,
        delay_imports: &Vec<String>,
    ) -> (v: Vec<Linked>)
        ensures
            v@.map_values(|l: Linked| l@) == linked_from(
                steps_view(plan@),
                self@.read,
                texts(imports@) + texts(delay_imports@),
            ),
    {
        let names = all_imports(imports, delay_imports);
        let ghost ns = texts(names@);
        let ghost ps = steps_view(plan@);
        let mut out: Vec<Linked> = Vec::new();
        let mut i: usize = 0;
        assert(out@.map_values(|l: Linked| l@) =~= Seq::<LinkedV>::empty());
        assert(ps.take(0) =~= Seq::<Step>::empty());
        while i < plan.len()
            invariant
                i <= plan@.len(),
                ps == steps_view(plan@),
                ns == texts(names@),
                out@.map_values(|l: Linked| l@) == linked_from(ps.take(i as int), self@.read, ns),
            decreases plan@.len() - i,
        {
            assert(ps.take(i + 1).drop_last() =~= ps.take(i as int));
            assert(ps.take(i + 1).last().0 == plan@[i as int].0@);
            let ghost before = out@.map_values(|l: Linked| l@);
            match self.lookup(plan[i].0.as_str()) {
                Some(library) => match &library.linked {
                    Some(l) => {
                        let c = Linked {
                            library: spelling_of(&names, plan[i].0.as_str()),
                            imports: copy_texts(&l.imports),
                            delay_imports: copy_texts(&l.delay_imports),
                        };
                        out.push(c);
                        assert(out@.map_values(|l: Linked| l@) =~= before.push(c@));
                    },
                    None => {},
                },
                None => {},
            }
            i = i + 1;
        }
        assert(ps.take(i as int) =~= ps);
        out
    }
}

/// The libraries the signals of `fs` name, finding by finding.
pub open spec fn signal_libraries(fs: Seq<FindingV>) -> Seq<Seq<char>>
    decreases fs.len(),
{
    if fs.len() == 0 {
        Seq::empty()
    } else {
        signal_libraries(fs.drop_last()) + fs.last().signals.map_values(|s: SignalV| s.library)
    }
}

/// The libraries a verdict's signals name: renderers, infrastructure,
/// features, then local overrides.
pub open spec fn verdict_libraries(v: VerdictV) -> Seq<Seq<char>> {
    signal_libraries(v.renderers) + signal_libraries(v.infrastructure) + signal_libraries(
        v.features,
    ) + signal_libraries(v.local_overrides)
}

/// The files stamping a verdict has to read, in the order its signals name
/// them: each library not read before and sitting beside the executable,
/// once.
pub open spec fn stamp_plan(
    libs: Seq<Seq<char>>,
    neighbours: Seq<Seq<char>>,
    read: Seq<(Seq<char>, LibraryV)>,
    n: int,
) -> Seq<Step>
    decreases n,
{
    if n <= 0 || n > libs.len() {
        Seq::empty()
    } else {
        let p = stamp_plan(libs, neighbours, read, n - 1);
        let lower = lower_seq(libs[n - 1]);
        if plan_keys(p).contains(lower) || read_of(read, lower) is Some {
            p
        } else {
            match on_disk(neighbours, lower) {
                Some(f) => p.push((lower, Some(f))),
                None => p,
            }
        }
    }
}

/// The version a signal naming `library` carries: the read of the file of
/// that name beside the executable, or [`FileVersion::Elsewhere`] when there
/// is none.
pub open spec fn version_from(read: Seq<(Seq<char>, LibraryV)>, library: Seq<char>) -> FileVersion {
    match read_of(read, lower_seq(library)) {
        Some(l) => l.version,
        None => FileVersion::Elsewhere,
    }
}

/// A signal with its version filled in.
pub open spec fn stamped_signal(s: SignalV, read: Seq<(Seq<char>, LibraryV)>) -> SignalV {
    SignalV { library: s.library, source: s.source, version: version_from(read, s.library) }
}

/// A finding with every signal's version filled in.
pub open spec fn stamped_finding(f: FindingV, read: Seq<(Seq<char>, LibraryV)>) -> FindingV {
    FindingV {
        name: f.name,
        signals: f.signals.map_values(|s: SignalV| stamped_signal(s, read)),
        rank: f.rank,
    }
}

/// Every finding with its signals' versions filled in.
pub open spec fn stamped_findings(fs: Seq<FindingV>, read: Seq<(Seq<char>, LibraryV)>) -> Seq<
    FindingV,
> {
    fs.map_values(|f: FindingV| stamped_finding(f, read))
}

/// A verdict with every signal's version filled in.
pub open spec fn stamped(v: VerdictV, read: Seq<(Seq<char>, LibraryV)>) -> VerdictV {
    VerdictV {
        renderers: stamped_findings(v.renderers, read),
        infrastructure: stamped_findings(v.infrastructure, read),
        features: stamped_findings(v.features, read),
        local_overrides: stamped_findings(v.local_overrides, read),
    }
}

/// Appends the libraries the signals of `fs` name.
fn push_libraries(fs: &Vec<Finding>, out: &mut Vec<String>)
    ensures
        texts(final(out)@) == texts(old(out)@) + signal_libraries(findings_view(fs@)),
{
    let ghost start = texts(out@);
    let ghost fv = findings_view(fs@);
    let mut i: usize = 0;
    assert(fv.take(0) =~= Seq::<FindingV>::empty());
    assert(start + signal_libraries(fv.take(0)) =~= start);
    while i < fs.len()
        invariant
            i <= fs@.len(),
            fv == findings_view(fs@),
            texts(out@) == start + signal_libraries(fv.take(i as int)),
        decreases fs@.len() - i,
    {
        let f = &fs[i];
        assert(fv.take(i + 1).drop_last() =~= fv.take(i as int));
        assert(fv.take(i + 1).last() == f@);
        let ghost names = f@.signals.map_values(|s: SignalV| s.library);
        let ghost mid = texts(out@);
        let mut j: usize = 0;
        while j < f.signals.len()
            invariant
                j <= f.signals@.len(),
                names == f@.signals.map_values(|s: SignalV| s.library),
                texts(out@) == mid + names.take(j as int),
            decreases f.signals@.len() - j,
        {
            let ghost before = texts(out@);
            out.push(copy_text(f.signals[j].library.as_str()));
            assert(names[j as int] == f.signals@[j as int].library@);
            assert(texts(out@) =~= before.push(names[j as int]));
            assert(names.take(j + 1) =~= names.take(j as int).push(names[j as int]));
            j = j + 1;
        }
        assert(names.take(j as int) =~= names);
        i = i + 1;
    }
    assert(fv.take(i as int) =~= fv);
}

/// A copy of `f` with every signal's version filled in from `cache`.
fn stamp_finding(cache: &LibraryCache, f: &Finding) -> (g: Finding)
    ensures
        g@ == stamped_finding(f@, cache@.read),
{
    let mut signals: Vec<Signal> = Vec::new();
    let mut j: usize = 0;
    while j < f.signals.len()
        invariant
            j <= f.signals@.len(),
            signals_view(signals@) == f@.signals.take(j as int).map_values(
                |s: SignalV| stamped_signal(s, cache@.read),
            ),
        decreases f.signals@.len() - j,
    {
        let s = &f.signals[j];
        let lower = to_lower(s.library.as_str());
        let version = match cache.lookup(lower.as_str()) {
            Some(l) => l.version,
            None => FileVersion::Elsewhere,
        };
        let t = Signal { library: copy_text(s.library.as_str()), source: s.source, version };
        let ghost before = signals_view(signals@);
        signals.push(t);
        assert(signals_view(signals@) =~= before.push(t@));
        assert(f@.signals[j as int] == s@);
        assert(f@.signals.take(j + 1).map_values(|s: SignalV| stamped_signal(s, cache@.read))
            =~= f@.signals.take(j as int).map_values(|s: SignalV| stamped_signal(s, cache@.read)).push(
            stamped_signal(s@, cache@.read),
        ));
        j = j + 1;
    }
    assert(f@.signals.take(j as int) =~= f@.signals);
    Finding { name: copy_text(f.name.as_str()), signals, rank: f.rank }
}

/// Copies of `fs` with every signal's version filled in from `cache`.
fn stamp_findings(cache: &LibraryCache, fs: &Vec<Finding>) -> (out: Vec<Finding>)
    ensures
        findings_view(out@) == stamped_findings(findings_view(fs@), cache@.read),
{
    let mut out: Vec<Finding> = Vec::new();
    let mut i: usize = 0;
    while i < fs.len()
        invariant
            i <= fs@.len(),
            findings_view(out@) == stamped_findings(findings_view(fs@).take(i as int), cache@.read),
        decreases fs@.len() - i,
    {
        let g = stamp_finding(cache, &fs[i]);
        let ghost before = findings_view(out@);
        out.push(g);
        assert(findings_view(out@) =~= before.push(g@));
        assert(findings_view(fs@).take(i + 1) =~= findings_view(fs@).take(i as int).push(fs@[i as int]@));
        assert(stamped_findings(findings_view(fs@).take(i + 1), cache@.read) =~= stamped_findings(
            findings_view(fs@).take(i as int),
            cache@.read,
        ).push(stamped_finding(fs@[i as int]@, cache@.read)));
        i = i + 1;
    }
    assert(findings_view(fs@).take(i as int) =~= findings_view(fs@));
    out
}

impl LibraryCache {
    /// The files stamping `verdict` has to read before [`LibraryCache::stamp`]
    /// can answer, so that each file it names is read once.
    pub fn stamp_plan(&self, verdict: &Verdict, neighbours: &Vec<String>) -> (p: Vec<
        (String, Option<String>),
    >)
        ensures
            steps_view(p@) == stamp_plan(
                verdict_libraries(verdict@),
                texts(neighbours@),
                self@.read,
                verdict_libraries(verdict@).len() as int,
            ),
    {
        let mut libs: Vec<String> = Vec::new();
        assert(texts(libs@) =~= Seq::<Seq<char>>::empty());
        push_libraries(&verdict.renderers, &mut libs);
        push_libraries(&verdict.infrastructure, &mut libs);
        push_libraries(&verdict.features, &mut libs);
        push_libraries(&verdict.local_overrides, &mut libs);
        let ghost ls = texts(libs@);
        assert(ls =~= verdict_libraries(verdict@));
        let ghost nb = texts(neighbours@);
        let mut out: Vec<(String, Option<String>)> = Vec::new();
        let mut i: usize = 0;
        assert(steps_view(out@) =~= Seq::<Step>::empty());
        while i < libs.len()
            invariant
                i <= libs@.len(),
                ls == texts(libs@),
                nb == texts(neighbours@),
                steps_view(out@) == stamp_plan(ls, nb, self@.read, i as int),
            decreases libs@.len() - i,
        {
            let lower = to_lower(libs[i].as_str());
            assert(ls[i as int] == libs@[i as int]@);
            if !planned(&out, lower.as_str()) && self.lookup(lower.as_str()).is_none() {
                match find_on_disk(neighbours, lower.as_str()) {
                    Some(f) => {
                        proof {
                            lemma_steps_push(out@, (lower, Some(f)));
                        }
                        out.push((lower, Some(f)));
                    },
                    None => {},
                }
            }
            i = i + 1;
        }
        out
    }

    /// `verdict` with the version of every file its signals name filled in:
    /// a file of that name beside the executable reports what reading it
    /// gave, and anything else is [`FileVersion::Elsewhere`].
    pub fn stamp(&self, verdict: &Verdict) -> (v: Verdict)
        ensures
            v@ == stamped(verdict@, self@.read),
    {
        Verdict {
            renderers: stamp_findings(self, &verdict.renderers),
            infrastructure: stamp_findings(self, &verdict.infrastructure),
            features: stamp_findings(self, &verdict.features),
            local_overrides: stamp_findings(self, &verdict.local_overrides),
        }
    }
}

/// The names one image imports and delay-loads, or why its headers or
/// tables could not be read.
pub open spec fn spec_image_names(bytes: Seq<u8>) -> Result<(Seq<Seq<char>>, Seq<Seq<char>>), pe::Error> {
    match spec_parse(bytes) {
        Err(e) => Err(e),
        Ok(p) => match descriptor_names(p, DIR_IMPORT as int, 20, 12) {
            Err(e) => Err(e),
            Ok(imports) => match descriptor_names(p, DIR_DELAY_IMPORT as int, 32, 4) {
                Err(e) => Err(e),
                Ok(delay) => Ok((imports, delay)),
            },
        },
    }
}

/// The import tables of one image, read out of its bytes.
pub fn image_names(bytes: &[u8]) -> (r: Result<(Vec<String>, Vec<String>), pe::Error>)
    ensures
        match r {
            Ok((imports, delay)) => spec_image_names(bytes@) == Ok::<_, pe::Error>(
                (texts(imports@), texts(delay@)),
            ),
            Err(e) => spec_image_names(bytes@) == Err::<(Seq<Seq<char>>, Seq<Seq<char>>), _>(e),
        },
{
    let image = match Pe::parse(bytes) {
        Ok(p) => p,
        Err(e) => {
            return Err(e);
        },
    };
    let imports = match image.imports() {
        Ok(v) => v,
        Err(e) => {
            return Err(e);
        },
    };
    let delay = match image.delay_imports() {
        Ok(v) => v,
        Err(e) => {
            return Err(e);
        },
    };
    Ok((imports, delay))
}

/// What one read of a library's bytes answers: its import tables, when
/// both can be read, under the name the directory spells it with; and its
/// version, [`FileVersion::Unreadable`] when the file is not a PE image or
/// its resources are malformed.
pub open spec fn spec_library(bytes: Seq<u8>, spelled: Seq<char>) -> LibraryV {
    match spec_parse(bytes) {
        Err(_) => LibraryV { linked: None, version: FileVersion::Unreadable },
        Ok(p) => LibraryV {
            linked: match (
                descriptor_names(p, DIR_IMPORT as int, 20, 12),
                descriptor_names(p, DIR_DELAY_IMPORT as int, 32, 4),
            ) {
                (Ok(imports), Ok(delay)) => Some(
                    LinkedV { library: spelled, imports, delay_imports: delay },
                ),
                _ => None,
            },
            version: match version_info(p) {
                Ok(Some(info)) => FileVersion::Stamped(info),
                Ok(None) => FileVersion::Unstamped,
                Err(_) => FileVersion::Unreadable,
            },
        },
    }
}

impl Library {
    /// A library whose file could not be read at all.
    pub fn unreadable() -> (l: Library)
        ensures
            l@ == (LibraryV { linked: None, version: FileVersion::Unreadable }),
    {
        Library { linked: None, version: FileVersion::Unreadable }
    }

    /// One library read from its bytes: its import tables and its version,
    /// which fail independently. `spelled` is the directory's spelling of
    /// its name.
    pub fn from_bytes(bytes: &[u8], spelled: &str) -> (l: Library)
        ensures
            l@ == spec_library(bytes@, spelled@),
    {
        let image = match Pe::parse(bytes) {
            Ok(p) => p,
            Err(_) => {
                return Library::unreadable();
            },
        };
        let linked = match (image.imports(), image.delay_imports()) {
            (Ok(imports), Ok(delay_imports)) => Some(
                Linked { library: copy_text(spelled), imports, delay_imports },
            ),
            _ => None,
        };
        let version = match image.version_info() {
            Ok(Some(info)) => FileVersion::Stamped(info),
            Ok(None) => FileVersion::Unstamped,
            Err(_) => FileVersion::Unreadable,
        };
        Library { linked, version }
    }
}

/// Following an image's imports reads at most [`MAX_LOCAL_LIBRARIES`]
/// libraries, consults each at most once, and reads only a file that sits
/// beside the executable and has not been read before: a read already made
/// is never made again.
pub proof fn lemma_follow_plan_reads_once(
    names: Seq<Seq<char>>,
    neighbours: Seq<Seq<char>>,
    read: Seq<(Seq<char>, LibraryV)>,
    n: int,
)
    ensures
        follow_plan(names, neighbours, read, n).len() <= MAX_LOCAL_LIBRARIES,
        forall|i: int, j: int|
            0 <= i < j < follow_plan(names, neighbours, read, n).len() ==> (#[trigger] follow_plan(
                names,
                neighbours,
                read,
                n,
            )[i]).0 != (#[trigger] follow_plan(names, neighbours, read, n)[j]).0,
        forall|i: int|
            0 <= i < follow_plan(names, neighbours, read, n).len() ==> match (#[trigger] follow_plan(
                names,
                neighbours,
                read,
                n,
            )[i]).1 {
                Some(f) => read_of(read, follow_plan(names, neighbours, read, n)[i].0) is None
                    && on_disk(neighbours, follow_plan(names, neighbours, read, n)[i].0) == Some(f),
                None => read_of(read, follow_plan(names, neighbours, read, n)[i].0) is Some,
            },
    decreases n,
{
    if n <= 0 || n > names.len() {
    } else {
        lemma_follow_plan_reads_once(names, neighbours, read, n - 1);
        let p = follow_plan(names, neighbours, read, n - 1);
        let lower = lower_seq(names[n - 1]);
        if !(p.len() >= MAX_LOCAL_LIBRARIES || plan_keys(p).contains(lower) || !names_dll(lower)) {
            assert forall|i: int| 0 <= i < p.len() implies p[i].0 != lower by {
                assert(plan_keys(p)[i] == p[i].0);
            }
        }
    }
}

/// Stamping a verdict reads each file it names at most once, and only a
/// file that sits beside the executable and has not been read before.
pub proof fn lemma_stamp_plan_reads_once(
    libs: Seq<Seq<char>>,
    neighbours: Seq<Seq<char>>,
    read: Seq<(Seq<char>, LibraryV)>,
    n: int,
)
    ensures
        forall|i: int, j: int|
            0 <= i < j < stamp_plan(libs, neighbours, read, n).len() ==> (#[trigger] stamp_plan(
                libs,
                neighbours,
                read,
                n,
            )[i]).0 != (#[trigger] stamp_plan(libs, neighbours, read, n)[j]).0,
        forall|i: int|
            0 <= i < stamp_plan(libs, neighbours, read, n).len() ==> read_of(
                read,
                (#[trigger] stamp_plan(libs, neighbours, read, n)[i]).0,
            ) is None && on_disk(neighbours, stamp_plan(libs, neighbours, read, n)[i].0)
                == stamp_plan(libs, neighbours, read, n)[i].1,
    decreases n,
{
    if n <= 0 || n > libs.len() {
    } else {
        lemma_stamp_plan_reads_once(libs, neighbours, read, n - 1);
        let p = stamp_plan(libs, neighbours, read, n - 1);
        let lower = lower_seq(libs[n - 1]);
        if !(plan_keys(p).contains(lower) || read_of(read, lower) is Some) {
            assert forall|i: int| 0 <= i < p.len() implies p[i].0 != lower by {
                assert(plan_keys(p)[i] == p[i].0);
            }
        }
    }
}

} // verus!
