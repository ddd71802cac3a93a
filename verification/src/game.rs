//! Which executable in an install directory is the game: every candidate is
//! ranked, and every place in the ranking is explained by the reasons found.
//!
//! Nothing here opens a file. The walk over the directory hands its facts over
//! as an [`Observed`]; [`assess`] turns them into reasons, and
//! [`Survey::ranked`] orders the candidates and says what qualifies the order.

use vstd::prelude::*;

pub mod weight;

use crate::analysis::{
    findings_view, strength_of, strength_rank, Finding, FindingV, SignalV, Source, Verdict,
};
use crate::file_path::{
    lemma_path_lt_irreflexive, lemma_path_lt_total, lemma_path_lt_transitive, names_in, path_lt, FilePath,
    Part,
};
use crate::order::{
    apart, in_order, insert_sorted, lemma_apart_permuted, lemma_in_order_unique, lemma_insert_at,
    lemma_sort_by_in_order, lemma_sort_by_multiset, strict_order, text_before, text_lt,
};
use crate::text::{
    chars_of, copy_text, decimal, eq_ignore_ascii_case, eq_ignore_case, has_prefix, join,
    push_decimal, push_join, push_signed, same_text, signed_decimal, squash, squashed, starts_with,
    string_of_range, texts, utf8_len, utf8_shorter_than,
};

verus! {

/// How closely a stem and a name match.
#[derive(Debug, Clone, Copy, PartialEq, Eq, Structural)]
pub enum Resemblance {
    /// The same word once punctuation and case are dropped.
    Exact,
    /// One begins with the other.
    Partial,
}

/// Where the name a stem was compared against came from. A supplied name is
/// independent evidence; the directory's own name is not.
#[derive(Debug, Clone, Copy, PartialEq, Eq, Structural)]
pub enum NameFrom {
    /// Supplied by the caller: from a store's manifest, or typed.
    Supplied,
    /// The name of the directory that was surveyed.
    Directory,
}

/// One observed fact that argues this executable is the game. There are no
/// negative reasons.
#[derive(Debug, Clone, PartialEq, Eq)]
pub enum Reason {
    /// The image's own import or delay-import table names a graphics API.
    LinksRenderer {
        /// Every API reached, in the order the verdict reports them.
        apis: Vec<String>,
        /// The strongest way any of them was reached.
        source: Source,
    },
    /// A library beside the image, which the image imports, reaches a graphics
    /// API. Only raised when the image reaches none itself.
    LinksRendererThrough {
        /// The local libraries that reached one, sorted.
        libraries: Vec<String>,
        /// Every API they reach between them.
        apis: Vec<String>,
    },
    /// A subdirectory named after the executable, in Unity's `<stem>_Data`
    /// shape, sits beside it.
    UnityDataDirectory {
        /// The directory as it was spelled on disk.
        directory: String,
    },
    /// The executable sits in `Binaries/Win64` or `Binaries/Win32`, but not
    /// under `Engine`.
    UnrealBinariesDirectory {
        /// The two directory names as they were spelled, joined by a slash.
        directory: String,
    },
    /// The stem ends `-Shipping`.
    ShippingSuffix,
    /// The stem resembles the game's name.
    NameResembles {
        /// The name it was compared against.
        name: String,
        how: Resemblance,
        from: NameFrom,
    },
    /// The executable's own directory ships graphics libraries.
    ShipsGraphicsLibraries {
        /// The library names, as they were spelled in the directory.
        libraries: Vec<String>,
    },
}

/// A reason as plain values.
pub enum ReasonV {
    LinksRenderer { apis: Seq<Seq<char>>, source: Source },
    LinksRendererThrough { libraries: Seq<Seq<char>>, apis: Seq<Seq<char>> },
    UnityDataDirectory { directory: Seq<char> },
    UnrealBinariesDirectory { directory: Seq<char> },
    ShippingSuffix,
    NameResembles { name: Seq<char>, how: Resemblance, from: NameFrom },
    ShipsGraphicsLibraries { libraries: Seq<Seq<char>> },
}

impl View for Reason {
    type V = ReasonV;

    open spec fn view(&self) -> ReasonV {
        match self {
            Reason::LinksRenderer { apis, source } => ReasonV::LinksRenderer {
                apis: texts(apis@),
                source: *source,
            },
            Reason::LinksRendererThrough { libraries, apis } => ReasonV::LinksRendererThrough {
                libraries: texts(libraries@),
                apis: texts(apis@),
            },
            Reason::UnityDataDirectory { directory } => ReasonV::UnityDataDirectory {
                directory: directory@,
            },
            Reason::UnrealBinariesDirectory { directory } => ReasonV::UnrealBinariesDirectory {
                directory: directory@,
            },
            Reason::ShippingSuffix => ReasonV::ShippingSuffix,
            Reason::NameResembles { name, how, from } => ReasonV::NameResembles {
                name: name@,
                how: *how,
                from: *from,
            },
            Reason::ShipsGraphicsLibraries { libraries } => ReasonV::ShipsGraphicsLibraries {
                libraries: texts(libraries@),
            },
        }
    }
}

/// The plain values of each reason.
pub open spec fn reasons_view(v: Seq<Reason>) -> Seq<ReasonV> {
    v.map_values(|r: Reason| r@)
}

/// The stable spelling of a reason's kind.
pub open spec fn spec_kind(r: ReasonV) -> Seq<char> {
    match r {
        ReasonV::LinksRenderer { .. } => "links-renderer"@,
        ReasonV::LinksRendererThrough { .. } => "links-renderer-through"@,
        ReasonV::UnityDataDirectory { .. } => "unity-data-directory"@,
        ReasonV::UnrealBinariesDirectory { .. } => "unreal-binaries-directory"@,
        ReasonV::ShippingSuffix => "shipping-suffix"@,
        ReasonV::NameResembles { .. } => "name-resembles"@,
        ReasonV::ShipsGraphicsLibraries { .. } => "ships-graphics-libraries"@,
    }
}

/// What a reason contributes to the score. A renderer reached only through a
/// neighbouring file earns nothing.
pub open spec fn spec_weight(r: ReasonV) -> int {
    match r {
        ReasonV::LinksRenderer { source, .. } => match source {
            Source::Import => weight::RENDERER_IMPORT as int,
            Source::DelayImport => weight::RENDERER_DELAY_IMPORT as int,
            Source::Linked => weight::RENDERER_INDIRECT as int,
            Source::Neighbour => 0,
        },
        ReasonV::LinksRendererThrough { .. } => weight::RENDERER_INDIRECT as int,
        ReasonV::UnityDataDirectory { .. } => weight::UNITY_DATA as int,
        ReasonV::UnrealBinariesDirectory { .. } => weight::UNREAL_BINARIES as int,
        ReasonV::ShippingSuffix => weight::SHIPPING_SUFFIX as int,
        ReasonV::NameResembles { how, .. } => match how {
            Resemblance::Exact => weight::NAME_EXACT as int,
            Resemblance::Partial => weight::NAME_PARTIAL as int,
        },
        ReasonV::ShipsGraphicsLibraries { .. } => weight::SHIPS_GRAPHICS_LIBRARIES as int,
    }
}

/// `"a"`, `"a or b"`, `"a, b or c"`.
pub open spec fn join_or(parts: Seq<Seq<char>>) -> Seq<char> {
    if parts.len() == 0 {
        Seq::empty()
    } else if parts.len() == 1 {
        parts[0]
    } else {
        join(parts.drop_last(), ", "@) + " or "@ + parts.last()
    }
}

/// The sentence a reader sees under a candidate.
pub open spec fn spec_describe(r: ReasonV) -> Seq<char> {
    match r {
        ReasonV::LinksRenderer { apis, source } => "links "@ + join_or(apis) + " ("@
            + source.spec_as_str() + ")"@,
        ReasonV::LinksRendererThrough { libraries, apis } => "links "@ + join_or(apis)
            + " through "@ + join(libraries, ", "@) + ", in its own directory"@,
        ReasonV::UnityDataDirectory { directory } => "has a matching \""@ + directory
            + "\" beside it, which is Unity's layout"@,
        ReasonV::UnrealBinariesDirectory { directory } => "sits in "@ + directory
            + ", which is how Unreal packages a game"@,
        ReasonV::ShippingSuffix => "its name ends \"-Shipping\", Unreal's name for a release build"@,
        ReasonV::NameResembles { name, how, from } => "its name "@ + match how {
            Resemblance::Exact => "is"@,
            Resemblance::Partial => "resembles"@,
        } + " "@ + match from {
            NameFrom::Supplied => "the game's name"@,
            NameFrom::Directory => "the directory's name"@,
        } + ", \""@ + name + "\""@,
        ReasonV::ShipsGraphicsLibraries { libraries } => "its own directory ships "@ + join(
            libraries,
            ", "@,
        ),
    }
}

/// Appends `parts` joined as [`join_or`] joins them.
fn push_join_or(out: &mut String, parts: &Vec<String>)
    ensures
        final(out)@ == old(out)@ + join_or(texts(parts@)),
{
    let n = parts.len();
    if n == 0 {
        assert(old(out)@ + join_or(texts(parts@)) =~= old(out)@);
    } else if n == 1 {
        out.push_str(parts[0].as_str());
    } else {
        push_join(out, parts, 0, n - 1, ", ");
        out.push_str(" or ");
        out.push_str(parts[n - 1].as_str());
        assert(texts(parts@).subrange(0, n - 1) =~= texts(parts@).drop_last());
    }
}

/// Appends all of `parts`, joined by `sep`.
fn push_all(out: &mut String, parts: &Vec<String>, sep: &str)
    ensures
        final(out)@ == old(out)@ + join(texts(parts@), sep@),
{
    push_join(out, parts, 0, parts.len(), sep);
    assert(texts(parts@).subrange(0, parts@.len() as int) =~= texts(parts@));
}

impl Reason {
    /// The stable spelling used in machine-readable output.
    pub fn kind(&self) -> (k: &'static str)
        ensures
            k@ == spec_kind(self@),
    {
        match self {
            Reason::LinksRenderer { .. } => "links-renderer",
            Reason::LinksRendererThrough { .. } => "links-renderer-through",
            Reason::UnityDataDirectory { .. } => "unity-data-directory",
            Reason::UnrealBinariesDirectory { .. } => "unreal-binaries-directory",
            Reason::ShippingSuffix => "shipping-suffix",
            Reason::NameResembles { .. } => "name-resembles",
            Reason::ShipsGraphicsLibraries { .. } => "ships-graphics-libraries",
        }
    }

    /// What this reason contributes to the score.
    pub fn weight(&self) -> (w: i32)
        ensures
            w == spec_weight(self@),
    {
        match self {
            Reason::LinksRenderer { source, .. } => match source {
                Source::Import => weight::RENDERER_IMPORT,
                Source::DelayImport => weight::RENDERER_DELAY_IMPORT,
                Source::Linked => weight::RENDERER_INDIRECT,
                Source::Neighbour => 0,
            },
            Reason::LinksRendererThrough { .. } => weight::RENDERER_INDIRECT,
            Reason::UnityDataDirectory { .. } => weight::UNITY_DATA,
            Reason::UnrealBinariesDirectory { .. } => weight::UNREAL_BINARIES,
            Reason::ShippingSuffix => weight::SHIPPING_SUFFIX,
            Reason::NameResembles { how, .. } => match how {
                Resemblance::Exact => weight::NAME_EXACT,
                Resemblance::Partial => weight::NAME_PARTIAL,
            },
            Reason::ShipsGraphicsLibraries { .. } => weight::SHIPS_GRAPHICS_LIBRARIES,
        }
    }

    /// The sentence printed under a candidate, for people.
    pub fn describe(&self) -> (s: String)
        ensures
            s@ == spec_describe(self@),
    {
        let mut s = String::new();
        match self {
            Reason::LinksRenderer { apis, source } => {
                s.push_str("links ");
                push_join_or(&mut s, apis);
                s.push_str(" (");
                s.push_str(source.as_str());
                s.push_str(")");
            },
            Reason::LinksRendererThrough { libraries, apis } => {
                s.push_str("links ");
                push_join_or(&mut s, apis);
                s.push_str(" through ");
                push_all(&mut s, libraries, ", ");
                s.push_str(", in its own directory");
            },
            Reason::UnityDataDirectory { directory } => {
                s.push_str("has a matching \"");
                s.push_str(directory.as_str());
                s.push_str("\" beside it, which is Unity's layout");
            },
            Reason::UnrealBinariesDirectory { directory } => {
                s.push_str("sits in ");
                s.push_str(directory.as_str());
                s.push_str(", which is how Unreal packages a game");
            },
            Reason::ShippingSuffix => {
                s.push_str("its name ends \"-Shipping\", Unreal's name for a release build");
            },
            Reason::NameResembles { name, how, from } => {
                s.push_str("its name ");
                s.push_str(
                    match how {
                        Resemblance::Exact => "is",
                        Resemblance::Partial => "resembles",
                    },
                );
                s.push_str(" ");
                s.push_str(
                    match from {
                        NameFrom::Supplied => "the game's name",
                        NameFrom::Directory => "the directory's name",
                    },
                );
                s.push_str(", \"");
                s.push_str(name.as_str());
                s.push_str("\"");
            },
            Reason::ShipsGraphicsLibraries { libraries } => {
                s.push_str("its own directory ships ");
                push_all(&mut s, libraries, ", ");
            },
        }
        proof {
            assert(s@ =~= spec_describe(self@));
        }
        s
    }
}

/// One executable, and why it ranked where it did.
#[derive(Debug, Clone, PartialEq, Eq)]
pub struct Candidate {
    /// The executable, spelled as it will be reported.
    pub path: FilePath,
    /// Every reason found, strongest first. Empty means nothing was observed.
    pub reasons: Vec<Reason>,
}

/// A candidate as plain values.
pub struct CandidateV {
    pub path: Seq<Part>,
    pub reasons: Seq<ReasonV>,
}

impl View for Candidate {
    type V = CandidateV;

    open spec fn view(&self) -> CandidateV {
        CandidateV { path: self.path@, reasons: reasons_view(self.reasons@) }
    }
}

/// The plain values of each candidate.
pub open spec fn candidates_view(v: Seq<Candidate>) -> Seq<CandidateV> {
    v.map_values(|c: Candidate| c@)
}

/// The sum of the weights of `rs`.
pub open spec fn total(rs: Seq<ReasonV>) -> int
    decreases rs.len(),
{
    if rs.len() == 0 {
        0
    } else {
        total(rs.drop_last()) + spec_weight(rs.last())
    }
}

/// True when one of the reasons is an import table naming a graphics API,
/// the image's own or a neighbouring library's.
pub open spec fn reaches(c: CandidateV) -> bool {
    exists|i: int|
        0 <= i < c.reasons.len() && (#[trigger] c.reasons[i] is LinksRenderer
            || c.reasons[i] is LinksRendererThrough)
}

/// True when every reason in `rs` is worth something.
pub open spec fn all_weighted(rs: Seq<ReasonV>) -> bool {
    forall|i: int| 0 <= i < rs.len() ==> spec_weight(#[trigger] rs[i]) > 0
}

/// No reason is worth less than nothing, so no prefix of a list outweighs it.
pub proof fn lemma_total_prefix(rs: Seq<ReasonV>, n: int)
    requires
        0 <= n <= rs.len(),
    ensures
        0 <= total(rs.take(n)) <= total(rs),
    decreases rs.len(),
{
    if rs.len() > 0 {
        if n == rs.len() {
            assert(rs.take(n) =~= rs);
            lemma_total_prefix(rs.drop_last(), n - 1);
            assert(rs.drop_last().take(n - 1) =~= rs.drop_last());
        } else {
            lemma_total_prefix(rs.drop_last(), n);
            assert(rs.drop_last().take(n) =~= rs.take(n));
        }
    }
}

/// A candidate whose every reason is worth something scores zero exactly when
/// it has no reasons: the score and the list of reasons cannot disagree about
/// whether anything was observed.
pub proof fn lemma_score_zero_iff_no_reasons(rs: Seq<ReasonV>)
    requires
        all_weighted(rs),
    ensures
        (total(rs) == 0) <==> (rs.len() == 0),
{
    if rs.len() > 0 {
        lemma_total_prefix(rs, rs.len() - 1);
        assert(rs.take(rs.len() - 1) =~= rs.drop_last());
        assert(spec_weight(rs[rs.len() - 1]) > 0);
    }
}

impl Candidate {
    /// The sum of the reasons' weights.
    pub fn score(&self) -> (s: i32)
        requires
            total(self@.reasons) <= i32::MAX,
        ensures
            s == total(self@.reasons),
    {
        let ghost rs = self@.reasons;
        let mut sum: i32 = 0;
        let mut i: usize = 0;
        while i < self.reasons.len()
            invariant
                i <= self.reasons@.len(),
                rs == reasons_view(self.reasons@),
                total(rs) <= i32::MAX,
                sum == total(rs.take(i as int)),
            decreases self.reasons@.len() - i,
        {
            proof {
                lemma_total_prefix(rs, i + 1);
                assert(rs.take(i + 1).drop_last() =~= rs.take(i as int));
                assert(rs.take(i + 1).last() == self.reasons@[i as int]@);
            }
            sum = sum + self.reasons[i].weight();
            i = i + 1;
        }
        assert(rs.take(i as int) =~= rs);
        sum
    }

    /// True when something was observed about this executable.
    pub fn has_evidence(&self) -> (b: bool)
        ensures
            b == (self@.reasons.len() > 0),
    {
        self.reasons.len() > 0
    }

    /// True when an import table, this image's own or a library's beside it,
    /// named a graphics API.
    pub fn reaches_renderer(&self) -> (b: bool)
        ensures
            b == reaches(self@),
    {
        let mut i: usize = 0;
        while i < self.reasons.len()
            invariant
                i <= self.reasons@.len(),
                forall|j: int|
                    0 <= j < i ==> !(#[trigger] self@.reasons[j] is LinksRenderer
                        || self@.reasons[j] is LinksRendererThrough),
            decreases self.reasons@.len() - i,
        {
            assert(self@.reasons[i as int] == self.reasons@[i as int]@);
            match &self.reasons[i] {
                Reason::LinksRenderer { .. } | Reason::LinksRendererThrough { .. } => {
                    return true;
                },
                _ => {},
            }
            i = i + 1;
        }
        false
    }
}

/// A reason, if there is one, as plain values.
pub open spec fn opt_view(r: Option<Reason>) -> Option<ReasonV> {
    match r {
        Some(x) => Some(x@),
        None => None,
    }
}

/// A text, if there is one, as plain values.
pub open spec fn opt_text(t: Option<String>) -> Option<Seq<char>> {
    match t {
        Some(x) => Some(x@),
        None => None,
    }
}

/// A renderer finding the image reaches through its own tables, not through
/// a neighbouring file or a library beside it.
pub open spec fn direct(f: FindingV) -> bool {
    strength_of(f) == Source::Import || strength_of(f) == Source::DelayImport
}

/// The names of the findings the image reaches itself, in order.
pub open spec fn direct_names(fs: Seq<FindingV>) -> Seq<Seq<char>>
    decreases fs.len(),
{
    if fs.len() == 0 {
        Seq::empty()
    } else if direct(fs.last()) {
        direct_names(fs.drop_last()).push(fs.last().name)
    } else {
        direct_names(fs.drop_last())
    }
}

/// The renderers the image itself reaches, reached at best by import when any
/// one is, else by delay-import.
pub open spec fn spec_links_renderer(fs: Seq<FindingV>) -> Option<ReasonV> {
    let apis = direct_names(fs);
    if apis.len() == 0 {
        None
    } else {
        Some(
            ReasonV::LinksRenderer {
                apis,
                source: if exists|i: int|
                    0 <= i < fs.len() && strength_of(#[trigger] fs[i]) == Source::Import {
                    Source::Import
                } else {
                    Source::DelayImport
                },
            },
        )
    }
}

/// The libraries named by the signals in `sigs` that came from `source`.
pub open spec fn libraries_of(sigs: Seq<SignalV>, source: Source) -> Seq<Seq<char>>
    decreases sigs.len(),
{
    if sigs.len() == 0 {
        Seq::empty()
    } else if sigs.last().source == source {
        libraries_of(sigs.drop_last(), source).push(sigs.last().library)
    } else {
        libraries_of(sigs.drop_last(), source)
    }
}

/// The libraries behind every finding in `fs` that came from `source`.
pub open spec fn libraries_in(fs: Seq<FindingV>, source: Source) -> Seq<Seq<char>>
    decreases fs.len(),
{
    if fs.len() == 0 {
        Seq::empty()
    } else {
        libraries_in(fs.drop_last(), source) + libraries_of(fs.last().signals, source)
    }
}

/// Text order as a relation.
pub open spec fn text_order() -> spec_fn(Seq<char>, Seq<char>) -> bool {
    |a: Seq<char>, b: Seq<char>| text_lt(a, b)
}

/// `x` added to `s` in its sorted place, unless `s` already holds it.
pub open spec fn insert_unique(x: Seq<char>, s: Seq<Seq<char>>) -> Seq<Seq<char>> {
    if s.contains(x) {
        s
    } else {
        insert_sorted(x, s, text_order())
    }
}

/// The distinct texts of `s`, each added in turn in its sorted place: `s`
/// sorted with repeats removed.
pub open spec fn sorted_unique(s: Seq<Seq<char>>) -> Seq<Seq<char>>
    decreases s.len(),
{
    if s.len() == 0 {
        Seq::empty()
    } else {
        insert_unique(s.last(), sorted_unique(s.drop_last()))
    }
}

/// True when one of the finding's signals came from `source`.
pub open spec fn from_source(f: FindingV, source: Source) -> bool {
    exists|k: int| 0 <= k < f.signals.len() && (#[trigger] f.signals[k]).source == source
}

/// The names of the findings reached through a library beside the image,
/// each once, in the order first met.
pub open spec fn through_apis(fs: Seq<FindingV>) -> Seq<Seq<char>>
    decreases fs.len(),
{
    if fs.len() == 0 {
        Seq::empty()
    } else {
        let before = through_apis(fs.drop_last());
        if from_source(fs.last(), Source::Linked) && !before.contains(fs.last().name) {
            before.push(fs.last().name)
        } else {
            before
        }
    }
}

/// The renderers reached one link away, merged into one reason.
pub open spec fn spec_links_renderer_through(fs: Seq<FindingV>) -> Option<ReasonV> {
    let libraries = sorted_unique(libraries_in(fs, Source::Linked));
    if libraries.len() == 0 {
        None
    } else {
        Some(ReasonV::LinksRendererThrough { libraries, apis: through_apis(fs) })
    }
}

/// The first of `names` equal to `wanted` once ASCII case is ignored.
pub open spec fn find_ignoring_case(names: Seq<Seq<char>>, wanted: Seq<char>) -> Option<
    Seq<char>,
>
    decreases names.len(),
{
    if names.len() == 0 {
        None
    } else if eq_ignore_case(names[0], wanted) {
        Some(names[0])
    } else {
        find_ignoring_case(names.drop_first(), wanted)
    }
}

/// The sibling directory named `<stem>_Data`, in any case, as it was spelled.
pub open spec fn spec_unity_data(stem: Seq<char>, siblings: Seq<Seq<char>>) -> Option<Seq<char>> {
    if stem.len() == 0 {
        None
    } else {
        find_ignoring_case(siblings, stem + "_Data"@)
    }
}

/// The last two directory names above the file, joined by a slash, when they
/// are `Binaries` and `Win64` or `Win32`, in any case, and the directory above
/// them is not `Engine`.
pub open spec fn spec_unreal(relative: Seq<Part>) -> Option<Seq<char>> {
    if relative.len() == 0 {
        None
    } else {
        let names = names_in(relative.drop_last());
        let n = names.len();
        if n < 2 {
            None
        } else if !eq_ignore_case(names[n - 2], "Binaries"@) {
            None
        } else if !(eq_ignore_case(names[n - 1], "Win64"@) || eq_ignore_case(
            names[n - 1],
            "Win32"@,
        )) {
            None
        } else if n >= 3 && eq_ignore_case(names[n - 3], "Engine"@) {
            None
        } else {
            Some(names[n - 2] + "/"@ + names[n - 1])
        }
    }
}

/// The stem ends `-Shipping`, in any case.
pub open spec fn spec_shipping(stem: Seq<char>) -> bool {
    stem.len() >= 9 && eq_ignore_case(stem.skip(stem.len() - 9), "-Shipping"@)
}

/// How closely a stem and a name match once both are squashed: only from the
/// beginning, and only when each keeps at least three bytes.
pub open spec fn spec_resembles(stem: Seq<char>, name: Seq<char>) -> Option<Resemblance> {
    let a = squash(stem);
    let b = squash(name);
    if utf8_len(a) < 3 || utf8_len(b) < 3 {
        None
    } else if a == b {
        Some(Resemblance::Exact)
    } else if starts_with(a, b) || starts_with(b, a) {
        Some(Resemblance::Partial)
    } else {
        None
    }
}

/// The reason one name gives, if it resembles the stem.
pub open spec fn spec_name_reason(stem: Seq<char>, name: Option<Seq<char>>, from: NameFrom) -> Option<
    ReasonV,
> {
    match name {
        None => None,
        Some(n) => match spec_resembles(stem, n) {
            None => None,
            Some(how) => Some(ReasonV::NameResembles { name: n, how, from }),
        },
    }
}

/// The better of the two name matches; the supplied name wins a tie.
pub open spec fn spec_name_resemblance(
    stem: Seq<char>,
    supplied: Option<Seq<char>>,
    directory: Option<Seq<char>>,
) -> Option<ReasonV> {
    let a = spec_name_reason(stem, supplied, NameFrom::Supplied);
    let b = spec_name_reason(stem, directory, NameFrom::Directory);
    match (a, b) {
        (Some(x), Some(y)) => if spec_weight(x) < spec_weight(y) {
            b
        } else {
            a
        },
        (Some(_), None) => a,
        _ => b,
    }
}

/// The graphics libraries the directory ships: every library behind a
/// renderer or feature finding that was a file there, sorted, each once.
pub open spec fn spec_ships(v: crate::analysis::VerdictV) -> Option<ReasonV> {
    let libraries = sorted_unique(
        libraries_in(v.renderers, Source::Neighbour) + libraries_in(v.features, Source::Neighbour),
    );
    if libraries.len() == 0 {
        None
    } else {
        Some(ReasonV::ShipsGraphicsLibraries { libraries })
    }
}

/// Whether `v` holds `x`.
fn contains_text(v: &Vec<String>, x: &str) -> (b: bool)
    ensures
        b == texts(v@).contains(x@),
{
    let mut i: usize = 0;
    while i < v.len()
        invariant
            i <= v@.len(),
            forall|j: int| 0 <= j < i ==> texts(v@)[j] != x@,
        decreases v@.len() - i,
    {
        if same_text(v[i].as_str(), x) {
            assert(texts(v@)[i as int] == x@);
            return true;
        }
        i = i + 1;
    }
    false
}

/// Adds `x` in its sorted place, unless it is there already.
fn add_unique(v: &mut Vec<String>, x: &str)
    ensures
        texts(final(v)@) == insert_unique(x@, texts(old(v)@)),
{
    if contains_text(v, x) {
        return;
    }
    let ghost s = texts(v@);
    let mut k: usize = 0;
    while k < v.len() && !text_before(x, v[k].as_str())
        invariant
            k <= v@.len(),
            s == texts(v@),
            forall|j: int| 0 <= j < k ==> !text_lt(x@, #[trigger] s[j]),
        decreases v@.len() - k,
    {
        k = k + 1;
    }
    proof {
        assert(forall|j: int| 0 <= j < k ==> !(text_order())(x@, #[trigger] s[j]));
        lemma_insert_at(x@, s, text_order(), k as int);
    }
    v.insert(k, copy_text(x));
    assert(texts(v@) =~= s.take(k as int) + seq![x@] + s.skip(k as int));
}

/// Whether any of the finding's signals came from `source`.
fn has_source(f: &Finding, source: Source) -> (b: bool)
    ensures
        b == from_source(f@, source),
{
    let mut k: usize = 0;
    while k < f.signals.len()
        invariant
            k <= f.signals@.len(),
            forall|j: int| 0 <= j < k ==> (#[trigger] f@.signals[j]).source != source,
        decreases f.signals@.len() - k,
    {
        assert(f@.signals[k as int] == f.signals@[k as int]@);
        if f.signals[k].source == source {
            return true;
        }
        k = k + 1;
    }
    false
}

/// Adds the libraries behind the findings of `fs` that came from `source`,
/// each in its sorted place, each once.
fn add_libraries(
    libs: &mut Vec<String>,
    fs: &Vec<Finding>,
    source: Source,
    Ghost(before): Ghost<Seq<Seq<char>>>,
)
    requires
        texts(old(libs)@) == sorted_unique(before),
    ensures
        texts(final(libs)@) == sorted_unique(before + libraries_in(findings_view(fs@), source)),
{
    let ghost all = findings_view(fs@);
    let mut j: usize = 0;
    assert(before + libraries_in(all.take(0), source) =~= before);
    while j < fs.len()
        invariant
            j <= fs@.len(),
            all == findings_view(fs@),
            texts(libs@) == sorted_unique(before + libraries_in(all.take(j as int), source)),
        decreases fs@.len() - j,
    {
        let f = &fs[j];
        assert(all[j as int] == f@);
        let ghost done = before + libraries_in(all.take(j as int), source);
        let ghost sigs = f@.signals;
        let mut k: usize = 0;
        assert(done + libraries_of(sigs.take(0), source) =~= done);
        while k < f.signals.len()
            invariant
                k <= f.signals@.len(),
                sigs == f@.signals,
                texts(libs@) == sorted_unique(done + libraries_of(sigs.take(k as int), source)),
            decreases f.signals@.len() - k,
        {
            assert(sigs.take(k + 1).drop_last() =~= sigs.take(k as int));
            assert(sigs.take(k + 1).last() == f.signals@[k as int]@);
            let ghost prior = done + libraries_of(sigs.take(k as int), source);
            if f.signals[k].source == source {
                add_unique(libs, f.signals[k].library.as_str());
                assert((done + libraries_of(sigs.take(k + 1), source)).drop_last() =~= prior);
            } else {
                assert(done + libraries_of(sigs.take(k + 1), source) =~= prior);
            }
            k = k + 1;
        }
        assert(sigs.take(k as int) =~= sigs);
        assert(all.take(j + 1).drop_last() =~= all.take(j as int));
        assert(before + libraries_in(all.take(j + 1), source) =~= done + libraries_of(
            sigs,
            source,
        ));
        j = j + 1;
    }
    assert(all.take(j as int) =~= all);
}

/// The renderers the image itself reaches, if any. Findings reached only
/// through a neighbouring file or a library beside the image are left out.
fn links_renderer(own: &Verdict) -> (r: Option<Reason>)
    ensures
        opt_view(r) == spec_links_renderer(own@.renderers),
{
    let ghost fs = own@.renderers;
    let mut apis: Vec<String> = Vec::new();
    let mut any_import = false;
    let mut i: usize = 0;
    while i < own.renderers.len()
        invariant
            i <= own.renderers@.len(),
            fs == own@.renderers,
            texts(apis@) == direct_names(fs.take(i as int)),
            any_import == exists|j: int|
                0 <= j < i && strength_of(#[trigger] fs[j]) == Source::Import,
            any_import ==> apis@.len() > 0,
        decreases own.renderers@.len() - i,
    {
        assert(fs.take(i + 1).drop_last() =~= fs.take(i as int));
        assert(fs.take(i + 1).last() == own.renderers@[i as int]@);
        let f = &own.renderers[i];
        let source = f.strength();
        if source == Source::Import || source == Source::DelayImport {
            apis.push(copy_text(f.name.as_str()));
            if source == Source::Import {
                any_import = true;
            }
        }
        assert(texts(apis@) =~= direct_names(fs.take(i + 1)));
        i = i + 1;
    }
    assert(fs.take(i as int) =~= fs);
    if apis.len() == 0 {
        None
    } else {
        let source = if any_import {
            Source::Import
        } else {
            Source::DelayImport
        };
        Some(Reason::LinksRenderer { apis, source })
    }
}

/// The renderers reached one link away, merged into one reason: several local
/// libraries reaching Direct3D 11 are one capability.
fn links_renderer_through(own: &Verdict) -> (r: Option<Reason>)
    ensures
        opt_view(r) == spec_links_renderer_through(own@.renderers),
{
    let mut libraries: Vec<String> = Vec::new();
    assert(texts(libraries@) =~= Seq::<Seq<char>>::empty());
    add_libraries(&mut libraries, &own.renderers, Source::Linked, Ghost(Seq::empty()));
    assert(Seq::<Seq<char>>::empty() + libraries_in(own@.renderers, Source::Linked)
        =~= libraries_in(own@.renderers, Source::Linked));
    if libraries.len() == 0 {
        return None;
    }
    let ghost fs = own@.renderers;
    let mut apis: Vec<String> = Vec::new();
    let mut i: usize = 0;
    while i < own.renderers.len()
        invariant
            i <= own.renderers@.len(),
            fs == own@.renderers,
            texts(apis@) == through_apis(fs.take(i as int)),
        decreases own.renderers@.len() - i,
    {
        assert(fs.take(i + 1).drop_last() =~= fs.take(i as int));
        assert(fs.take(i + 1).last() == own.renderers@[i as int]@);
        let f = &own.renderers[i];
        if has_source(f, Source::Linked) && !contains_text(&apis, f.name.as_str()) {
            apis.push(copy_text(f.name.as_str()));
        }
        assert(texts(apis@) =~= through_apis(fs.take(i + 1)));
        i = i + 1;
    }
    assert(fs.take(i as int) =~= fs);
    Some(Reason::LinksRendererThrough { libraries, apis })
}

/// Unity names the data directory after the executable: `MyGame.exe` ships
/// with `MyGame_Data`. Matched without regard to ASCII case.
fn unity_data_directory(stem: &str, siblings: &Vec<String>) -> (r: Option<String>)
    ensures
        opt_text(r) == spec_unity_data(stem@, texts(siblings@)),
{
    if stem.is_empty() {
        return None;
    }
    let mut wanted = copy_text(stem);
    wanted.push_str("_Data");
    let ghost names = texts(siblings@);
    let mut i: usize = 0;
    assert(names.skip(0) =~= names);
    while i < siblings.len()
        invariant
            i <= siblings@.len(),
            names == texts(siblings@),
            wanted@ == stem@ + "_Data"@,
            stem@.len() > 0,
            find_ignoring_case(names, wanted@) == find_ignoring_case(names.skip(i as int), wanted@),
        decreases siblings@.len() - i,
    {
        assert(names.skip(i as int)[0] == names[i as int]);
        assert(names[i as int] == siblings@[i as int]@);
        if eq_ignore_ascii_case(siblings[i].as_str(), wanted.as_str()) {
            return Some(copy_text(siblings[i].as_str()));
        }
        assert(names.skip(i as int).drop_first() =~= names.skip(i + 1));
        i = i + 1;
    }
    None
}

/// The last two directory names, when they are Unreal's packaging shape.
/// `Engine/Binaries/Win64` holds the engine's own tools and is left out.
fn unreal_binaries_directory(relative: &FilePath) -> (r: Option<String>)
    ensures
        opt_text(r) == spec_unreal(relative@),
{
    let names = match relative.parent_names() {
        Some(names) => names,
        None => return None,
    };
    let n = names.len();
    if n < 2 {
        return None;
    }
    let binaries = names[n - 2].as_str();
    let platform = names[n - 1].as_str();
    if !eq_ignore_ascii_case(binaries, "Binaries") {
        return None;
    }
    if !eq_ignore_ascii_case(platform, "Win64") && !eq_ignore_ascii_case(platform, "Win32") {
        return None;
    }
    if n >= 3 && eq_ignore_ascii_case(names[n - 3].as_str(), "Engine") {
        return None;
    }
    let mut out = copy_text(binaries);
    out.push_str("/");
    out.push_str(platform);
    Some(out)
}

/// The suffix Unreal gives a release build.
fn has_shipping_suffix(stem: &str) -> (b: bool)
    ensures
        b == spec_shipping(stem@),
{
    let chars = chars_of(stem);
    let n = chars.len();
    if n < 9 {
        return false;
    }
    let tail = string_of_range(chars.as_slice(), n - 9, n);
    assert(chars@.subrange(n - 9, n as int) =~= stem@.skip(stem@.len() - 9));
    eq_ignore_ascii_case(tail.as_str(), "-Shipping")
}

/// The shortest run of letters, in bytes, worth calling a match.
const MIN_NAME_OVERLAP: u64 = 3;

/// How closely a file stem and a title match, once punctuation is dropped.
fn resembles(stem: &str, name: &str) -> (r: Option<Resemblance>)
    ensures
        r == spec_resembles(stem@, name@),
{
    let a = squashed(stem);
    let b = squashed(name);
    if utf8_shorter_than(a.as_str(), MIN_NAME_OVERLAP) || utf8_shorter_than(
        b.as_str(),
        MIN_NAME_OVERLAP,
    ) {
        return None;
    }
    if same_text(a.as_str(), b.as_str()) {
        return Some(Resemblance::Exact);
    }
    let x = chars_of(a.as_str());
    let y = chars_of(b.as_str());
    if has_prefix(&x, &y) || has_prefix(&y, &x) {
        Some(Resemblance::Partial)
    } else {
        None
    }
}

/// The reason one name gives, if it resembles the stem.
fn name_reason(stem: &str, name: Option<&str>, from: NameFrom) -> (r: Option<Reason>)
    ensures
        opt_view(r) == spec_name_reason(
            stem@,
            match name {
                Some(n) => Some(n@),
                None => None,
            },
            from,
        ),
{
    match name {
        None => None,
        Some(n) => match resembles(stem, n) {
            None => None,
            Some(how) => Some(Reason::NameResembles { name: copy_text(n), how, from }),
        },
    }
}

/// The better of the two name matches, or none. The supplied name wins a tie,
/// being evidence from outside the install.
fn name_resemblance(stem: &str, supplied: Option<&str>, directory: Option<&str>) -> (r: Option<
    Reason,
>)
    ensures
        opt_view(r) == spec_name_resemblance(
            stem@,
            match supplied {
                Some(n) => Some(n@),
                None => None,
            },
            match directory {
                Some(n) => Some(n@),
                None => None,
            },
        ),
{
    let a = name_reason(stem, supplied, NameFrom::Supplied);
    let b = name_reason(stem, directory, NameFrom::Directory);
    match (a, b) {
        (Some(x), Some(y)) => if x.weight() < y.weight() {
            Some(y)
        } else {
            Some(x)
        },
        (Some(x), None) => Some(x),
        (None, y) => y,
    }
}

/// The graphics libraries the executable's own directory ships. Local
/// overrides are left out: a `dxgi.dll` does not say which executable it
/// serves.
fn ships_graphics_libraries(directory: &Verdict) -> (r: Option<Reason>)
    ensures
        opt_view(r) == spec_ships(directory@),
{
    let mut libraries: Vec<String> = Vec::new();
    assert(texts(libraries@) =~= Seq::<Seq<char>>::empty());
    add_libraries(&mut libraries, &directory.renderers, Source::Neighbour, Ghost(Seq::empty()));
    add_libraries(
        &mut libraries,
        &directory.features,
        Source::Neighbour,
        Ghost(Seq::empty() + libraries_in(directory@.renderers, Source::Neighbour)),
    );
    assert(Seq::<Seq<char>>::empty() + libraries_in(directory@.renderers, Source::Neighbour)
        =~= libraries_in(directory@.renderers, Source::Neighbour));
    if libraries.len() == 0 {
        None
    } else {
        Some(Reason::ShipsGraphicsLibraries { libraries })
    }
}

/// Everything the walk saw about one executable, as plain facts; the
/// judgement is in [`assess`].
#[derive(Debug, Default, Clone)]
pub struct Observed {
    /// The executable, spelled as it should be reported.
    pub path: FilePath,
    /// The same file relative to the surveyed directory, which is what the
    /// layout rules read.
    pub relative: FilePath,
    /// Names of the subdirectories sitting beside the executable.
    pub sibling_directories: Vec<String>,
    /// The verdict on the image's own import tables, with no neighbours fed
    /// in.
    pub own: Verdict,
    /// The verdict on the files in the executable's own directory.
    pub directory: Verdict,
}

/// What was observed, as plain values.
pub struct ObservedV {
    pub path: Seq<Part>,
    pub relative: Seq<Part>,
    pub sibling_directories: Seq<Seq<char>>,
    pub own: crate::analysis::VerdictV,
    pub directory: crate::analysis::VerdictV,
}

impl View for Observed {
    type V = ObservedV;

    open spec fn view(&self) -> ObservedV {
        ObservedV {
            path: self.path@,
            relative: self.relative@,
            sibling_directories: texts(self.sibling_directories@),
            own: self.own@,
            directory: self.directory@,
        }
    }
}

/// A reason, if there is one, as a list of none or one.
pub open spec fn listed(r: Option<ReasonV>) -> Seq<ReasonV> {
    match r {
        Some(x) => seq![x],
        None => Seq::empty(),
    }
}

/// A text, if there is one, as plain values.
pub open spec fn opt_str(t: Option<&str>) -> Option<Seq<char>> {
    match t {
        Some(x) => Some(x@),
        None => None,
    }
}

/// Every reason found, in the order the rules run: the renderer the image
/// reaches (or, only when it reaches none, the one a library beside it
/// reaches), Unity's layout, Unreal's layout, the shipping suffix, the name,
/// and the libraries in the directory.
pub open spec fn found_reasons(
    o: ObservedV,
    supplied: Option<Seq<char>>,
    directory: Option<Seq<char>>,
) -> Seq<ReasonV> {
    let stem = crate::file_path::stem(o.relative);
    let renderer = match spec_links_renderer(o.own.renderers) {
        Some(r) => Some(r),
        None => spec_links_renderer_through(o.own.renderers),
    };
    let unity = match spec_unity_data(stem, o.sibling_directories) {
        Some(d) => Some(ReasonV::UnityDataDirectory { directory: d }),
        None => None,
    };
    let unreal = match spec_unreal(o.relative) {
        Some(d) => Some(ReasonV::UnrealBinariesDirectory { directory: d }),
        None => None,
    };
    let shipping = if spec_shipping(stem) {
        Some(ReasonV::ShippingSuffix)
    } else {
        None
    };
    listed(renderer) + listed(unity) + listed(unreal) + listed(shipping) + listed(
        spec_name_resemblance(stem, supplied, directory),
    ) + listed(spec_ships(o.directory))
}

/// Heavier first.
pub open spec fn reason_order() -> spec_fn(ReasonV, ReasonV) -> bool {
    |a: ReasonV, b: ReasonV| spec_weight(a) > spec_weight(b)
}

/// The candidate [`assess`] makes of what was observed: its reasons sorted
/// heaviest first, equal weights in the order found.
pub open spec fn spec_assess(
    o: ObservedV,
    supplied: Option<Seq<char>>,
    directory: Option<Seq<char>>,
) -> CandidateV {
    CandidateV {
        path: o.path,
        reasons: crate::order::sort_by(found_reasons(o, supplied, directory), reason_order()),
    }
}

/// True when no reason in `rs` outweighs one before it.
pub open spec fn strongest_first(rs: Seq<ReasonV>) -> bool {
    forall|i: int, j: int|
        0 <= i < j < rs.len() ==> spec_weight(#[trigger] rs[i]) >= spec_weight(#[trigger] rs[j])
}

/// Inserting by weight keeps a list strongest first, and adds only `x`.
proof fn lemma_insert_strongest_first(x: ReasonV, s: Seq<ReasonV>)
    requires
        strongest_first(s),
    ensures
        strongest_first(insert_sorted(x, s, reason_order())),
        insert_sorted(x, s, reason_order()).len() == s.len() + 1,
        forall|i: int|
            0 <= i < s.len() + 1 ==> {
                let e = #[trigger] insert_sorted(x, s, reason_order())[i];
                e == x || s.contains(e)
            },
    decreases s.len(),
{
    let r = insert_sorted(x, s, reason_order());
    if s.len() == 0 {
    } else if (reason_order())(x, s[0]) {
        assert(r == seq![x] + s);
        assert forall|i: int| 0 <= i < s.len() + 1 implies {
            let e = #[trigger] r[i];
            e == x || s.contains(e)
        } by {
            if i > 0 {
                assert(r[i] == s[i - 1]);
            }
        }
    } else {
        let t = s.drop_first();
        assert(strongest_first(t)) by {
            assert forall|i: int, j: int| 0 <= i < j < t.len() implies spec_weight(#[trigger] t[i])
                >= spec_weight(#[trigger] t[j]) by {
                assert(t[i] == s[i + 1] && t[j] == s[j + 1]);
            }
        }
        lemma_insert_strongest_first(x, t);
        let rest = insert_sorted(x, t, reason_order());
        assert(r == seq![s[0]] + rest);
        assert forall|i: int| 0 <= i < s.len() + 1 implies {
            let e = #[trigger] r[i];
            e == x || s.contains(e)
        } by {
            if i > 0 {
                assert(r[i] == rest[i - 1]);
                let e = rest[i - 1];
                if e != x {
                    let k = choose|k: int| 0 <= k < t.len() && t[k] == e;
                    assert(s[k + 1] == e);
                }
            } else {
                assert(s[0] == r[0]);
            }
        }
        assert forall|i: int, j: int| 0 <= i < j < r.len() implies spec_weight(#[trigger] r[i])
            >= spec_weight(#[trigger] r[j]) by {
            if i == 0 {
                let e = rest[j - 1];
                assert(r[j] == e);
                if e != x {
                    let k = choose|k: int| 0 <= k < t.len() && t[k] == e;
                    assert(s[k + 1] == e);
                }
            } else {
                assert(r[i] == rest[i - 1] && r[j] == rest[j - 1]);
            }
        }
    }
}

/// Sorting by weight puts the strongest reasons first.
pub proof fn lemma_sorted_strongest_first(s: Seq<ReasonV>)
    ensures
        strongest_first(crate::order::sort_by(s, reason_order())),
    decreases s.len(),
{
    if s.len() > 0 {
        lemma_sorted_strongest_first(s.drop_last());
        lemma_insert_strongest_first(
            s.last(),
            crate::order::sort_by(s.drop_last(), reason_order()),
        );
    }
}

/// `v` stably sorted heaviest first.
fn sort_reasons(v: Vec<Reason>) -> (out: Vec<Reason>)
    ensures
        reasons_view(out@) == crate::order::sort_by(reasons_view(v@), reason_order()),
{
    let ghost orig = reasons_view(v@);
    let total = v.len();
    let mut rest = v;
    let mut out: Vec<Reason> = Vec::new();
    let mut i: usize = 0;
    assert(orig.skip(0) =~= orig);
    assert(orig.take(0) =~= Seq::<ReasonV>::empty());
    assert(reasons_view(out@) =~= Seq::<ReasonV>::empty());
    while rest.len() > 0
        invariant
            i + rest@.len() == orig.len(),
            orig.len() == total,
            reasons_view(rest@) == orig.skip(i as int),
            reasons_view(out@) == crate::order::sort_by(orig.take(i as int), reason_order()),
        decreases rest@.len(),
    {
        let ghost before = rest@;
        let x = rest.remove(0);
        assert(reasons_view(before)[0] == x@);
        assert(orig.skip(i as int)[0] == orig[i as int]);
        assert(reasons_view(rest@) =~= reasons_view(before).drop_first());
        assert(orig.skip(i as int).drop_first() =~= orig.skip(i + 1));
        let ghost sorted = reasons_view(out@);
        let w = x.weight();
        let mut k: usize = 0;
        while k < out.len() && !(w > out[k].weight())
            invariant
                k <= out@.len(),
                sorted == reasons_view(out@),
                w == spec_weight(x@),
                forall|j: int| 0 <= j < k ==> !(reason_order())(x@, #[trigger] sorted[j]),
            decreases out@.len() - k,
        {
            assert(sorted[k as int] == out@[k as int]@);
            k = k + 1;
        }
        proof {
            if k < out@.len() {
                assert(sorted[k as int] == out@[k as int]@);
            }
            lemma_insert_at(x@, sorted, reason_order(), k as int);
            assert(orig.take(i + 1).drop_last() =~= orig.take(i as int));
        }
        out.insert(k, x);
        i = i + 1;
        assert(reasons_view(out@) =~= sorted.take(k as int) + seq![x@] + sorted.skip(k as int));
    }
    assert(orig.take(i as int) =~= orig);
    out
}

/// Reads what was observed and lists every reason it is the game, strongest
/// first. The better of the two name matches is used, once.
pub fn assess(observed: &Observed, supplied_name: Option<&str>, directory_name: Option<&str>) -> (c:
    Candidate)
    ensures
        c@ == spec_assess(observed@, opt_str(supplied_name), opt_str(directory_name)),
        strongest_first(c@.reasons),
        all_weighted(c@.reasons),
{
    let stem = observed.relative.stem();
    let renderer = match links_renderer(&observed.own) {
        Some(r) => Some(r),
        None => links_renderer_through(&observed.own),
    };
    let unity = match unity_data_directory(stem.as_str(), &observed.sibling_directories) {
        Some(directory) => Some(Reason::UnityDataDirectory { directory }),
        None => None,
    };
    let unreal = match unreal_binaries_directory(&observed.relative) {
        Some(directory) => Some(Reason::UnrealBinariesDirectory { directory }),
        None => None,
    };
    let shipping = if has_shipping_suffix(stem.as_str()) {
        Some(Reason::ShippingSuffix)
    } else {
        None
    };
    let name = name_resemblance(stem.as_str(), supplied_name, directory_name);
    let ships = ships_graphics_libraries(&observed.directory);
    let ghost pieces = seq![
        opt_view(renderer),
        opt_view(unity),
        opt_view(unreal),
        opt_view(shipping),
        opt_view(name),
        opt_view(ships),
    ];
    let mut reasons: Vec<Reason> = Vec::new();
    push_some(&mut reasons, renderer);
    push_some(&mut reasons, unity);
    push_some(&mut reasons, unreal);
    push_some(&mut reasons, shipping);
    push_some(&mut reasons, name);
    push_some(&mut reasons, ships);
    proof {
        let found = found_reasons(observed@, opt_str(supplied_name), opt_str(directory_name));
        assert(found == listed(pieces[0]) + listed(pieces[1]) + listed(pieces[2]) + listed(
            pieces[3],
        ) + listed(pieces[4]) + listed(pieces[5]));
        lemma_assess_laws(observed@, opt_str(supplied_name), opt_str(directory_name));
    }
    let sorted = sort_reasons(reasons);
    Candidate { path: observed.path.copy(), reasons: sorted }
}

/// Appends the reason, if there is one.
fn push_some(v: &mut Vec<Reason>, r: Option<Reason>)
    ensures
        reasons_view(final(v)@) == reasons_view(old(v)@) + listed(opt_view(r)),
{
    match r {
        Some(x) => {
            v.push(x);
            assert(reasons_view(v@) =~= reasons_view(old(v)@) + listed(opt_view(Some(x))));
        },
        None => {
            assert(reasons_view(v@) =~= reasons_view(old(v)@) + listed(opt_view(r)));
        },
    }
}

/// Every reason [`assess`] lists is worth something, and they come strongest
/// first.
pub proof fn lemma_assess_laws(o: ObservedV, supplied: Option<Seq<char>>, directory: Option<Seq<char>>)
    ensures
        strongest_first(spec_assess(o, supplied, directory).reasons),
        all_weighted(spec_assess(o, supplied, directory).reasons),
{
    let found = found_reasons(o, supplied, directory);
    assert(all_weighted(found)) by {
        let stem = crate::file_path::stem(o.relative);
        let first = match spec_links_renderer(o.own.renderers) {
            Some(r) => Some(r),
            None => spec_links_renderer_through(o.own.renderers),
        };
        assert(all_weighted(listed(first)));
        assert(all_weighted(listed(spec_name_resemblance(stem, supplied, directory))));
    }
    lemma_sort_keeps(found);
    let sorted = crate::order::sort_by(found, reason_order());
    assert forall|i: int| 0 <= i < sorted.len() implies spec_weight(#[trigger] sorted[i]) > 0 by {
        assert(found.contains(sorted[i]));
    }
}

/// Where a reason stands among those [`assess`] looks for: the renderer,
/// however it is reached, then Unity's layout, Unreal's, the suffix, the
/// name, and the libraries beside the executable.
pub open spec fn reason_slot(r: ReasonV) -> int {
    match r {
        ReasonV::LinksRenderer { .. } => 0,
        ReasonV::LinksRendererThrough { .. } => 0,
        ReasonV::UnityDataDirectory { .. } => 1,
        ReasonV::UnrealBinariesDirectory { .. } => 2,
        ReasonV::ShippingSuffix => 3,
        ReasonV::NameResembles { .. } => 4,
        ReasonV::ShipsGraphicsLibraries { .. } => 5,
    }
}

/// Two reasons of one slot.
pub open spec fn same_slot() -> spec_fn(ReasonV, ReasonV) -> bool {
    |a: ReasonV, b: ReasonV| reason_slot(a) == reason_slot(b)
}

/// Slots rise along `s`, all below `below`.
spec fn slots_rising(s: Seq<ReasonV>, below: int) -> bool {
    &&& forall|i: int, j: int| 0 <= i < j < s.len() ==> reason_slot(#[trigger] s[i]) < reason_slot(#[trigger] s[j])
    &&& forall|i: int| 0 <= i < s.len() ==> reason_slot(#[trigger] s[i]) < below
}

proof fn lemma_slot_step(s: Seq<ReasonV>, x: Option<ReasonV>, k: int)
    requires
        slots_rising(s, k),
        x matches Some(r) ==> reason_slot(r) == k,
    ensures
        slots_rising(s + listed(x), k + 1),
{
    let t = s + listed(x);
    assert forall|i: int, j: int| 0 <= i < j < t.len() implies reason_slot(#[trigger] t[i]) < reason_slot(
        #[trigger] t[j],
    ) by {
        if j < s.len() {
            assert(t[i] == s[i] && t[j] == s[j]);
        } else {
            assert(t[i] == s[i]);
        }
    }
    assert forall|i: int| 0 <= i < t.len() implies reason_slot(#[trigger] t[i]) < k + 1 by {
        if i < s.len() {
            assert(t[i] == s[i]);
        }
    }
}

/// Every slot along `s` is at least `lo` and below `hi`.
spec fn slots_within(s: Seq<ReasonV>, lo: int, hi: int) -> bool {
    forall|i: int| 0 <= i < s.len() ==> lo <= reason_slot(#[trigger] s[i]) < hi
}

proof fn lemma_slot_within_step(s: Seq<ReasonV>, x: Option<ReasonV>, lo: int, k: int)
    requires
        slots_within(s, lo, k),
        lo <= k,
        x matches Some(r) ==> reason_slot(r) == k,
    ensures
        slots_within(s + listed(x), lo, k + 1),
{
    let t = s + listed(x);
    assert forall|i: int| 0 <= i < t.len() implies lo <= reason_slot(#[trigger] t[i]) < k + 1 by {
        if i < s.len() {
            assert(t[i] == s[i]);
        }
    }
}

/// The reasons [`assess`] finds besides the renderer, in the order found.
pub open spec fn other_reasons(o: ObservedV, supplied: Option<Seq<char>>, directory: Option<Seq<char>>) -> Seq<
    ReasonV,
> {
    let stem = crate::file_path::stem(o.relative);
    listed(
        match spec_unity_data(stem, o.sibling_directories) {
            Some(d) => Some(ReasonV::UnityDataDirectory { directory: d }),
            None => None,
        },
    ) + listed(
        match spec_unreal(o.relative) {
            Some(d) => Some(ReasonV::UnrealBinariesDirectory { directory: d }),
            None => None,
        },
    ) + listed(
        if spec_shipping(stem) {
            Some(ReasonV::ShippingSuffix)
        } else {
            None
        },
    ) + listed(spec_name_resemblance(stem, supplied, directory)) + listed(spec_ships(o.directory))
}

proof fn lemma_found_split(o: ObservedV, supplied: Option<Seq<char>>, directory: Option<Seq<char>>)
    ensures
        found_reasons(o, supplied, directory) == listed(renderer_reason(o.own.renderers)) + other_reasons(
            o,
            supplied,
            directory,
        ),
        slots_within(other_reasons(o, supplied, directory), 1, 6),
{
    let stem = crate::file_path::stem(o.relative);
    let unity = match spec_unity_data(stem, o.sibling_directories) {
        Some(d) => Some(ReasonV::UnityDataDirectory { directory: d }),
        None => None,
    };
    let unreal = match spec_unreal(o.relative) {
        Some(d) => Some(ReasonV::UnrealBinariesDirectory { directory: d }),
        None => None,
    };
    let shipping = if spec_shipping(stem) {
        Some(ReasonV::ShippingSuffix)
    } else {
        None
    };
    let name = spec_name_resemblance(stem, supplied, directory);
    let ships = spec_ships(o.directory);
    let empty = Seq::<ReasonV>::empty();
    lemma_slot_within_step(empty, unity, 1, 1);
    lemma_slot_within_step(empty + listed(unity), unreal, 1, 2);
    lemma_slot_within_step(empty + listed(unity) + listed(unreal), shipping, 1, 3);
    lemma_slot_within_step(empty + listed(unity) + listed(unreal) + listed(shipping), name, 1, 4);
    lemma_slot_within_step(
        empty + listed(unity) + listed(unreal) + listed(shipping) + listed(name),
        ships,
        1,
        5,
    );
    assert(empty + listed(unity) =~= listed(unity));
    assert(found_reasons(o, supplied, directory) =~= listed(renderer_reason(o.own.renderers))
        + other_reasons(o, supplied, directory));
}

/// [`assess`] lists each kind of reason at most once and never both ways
/// of reaching a renderer; and it reads the layout from the path relative
/// to the install alone, so the same observation at another path gets the
/// same reasons.
pub proof fn lemma_assess_kinds(
    o: ObservedV,
    supplied: Option<Seq<char>>,
    directory: Option<Seq<char>>,
    elsewhere: Seq<Part>,
)
    ensures
        apart(spec_assess(o, supplied, directory).reasons, same_slot()),
        spec_assess(
            ObservedV {
                path: elsewhere,
                relative: o.relative,
                sibling_directories: o.sibling_directories,
                own: o.own,
                directory: o.directory,
            },
            supplied,
            directory,
        ).reasons == spec_assess(o, supplied, directory).reasons,
{
    let stem = crate::file_path::stem(o.relative);
    let renderer = match spec_links_renderer(o.own.renderers) {
        Some(r) => Some(r),
        None => spec_links_renderer_through(o.own.renderers),
    };
    let unity = match spec_unity_data(stem, o.sibling_directories) {
        Some(d) => Some(ReasonV::UnityDataDirectory { directory: d }),
        None => None,
    };
    let unreal = match spec_unreal(o.relative) {
        Some(d) => Some(ReasonV::UnrealBinariesDirectory { directory: d }),
        None => None,
    };
    let shipping = if spec_shipping(stem) {
        Some(ReasonV::ShippingSuffix)
    } else {
        None
    };
    let name = spec_name_resemblance(stem, supplied, directory);
    let ships = spec_ships(o.directory);
    let empty = Seq::<ReasonV>::empty();
    lemma_slot_step(empty, renderer, 0);
    lemma_slot_step(empty + listed(renderer), unity, 1);
    lemma_slot_step(empty + listed(renderer) + listed(unity), unreal, 2);
    lemma_slot_step(empty + listed(renderer) + listed(unity) + listed(unreal), shipping, 3);
    lemma_slot_step(empty + listed(renderer) + listed(unity) + listed(unreal) + listed(shipping), name, 4);
    lemma_slot_step(
        empty + listed(renderer) + listed(unity) + listed(unreal) + listed(shipping) + listed(name),
        ships,
        5,
    );
    let found = found_reasons(o, supplied, directory);
    assert(empty + listed(renderer) =~= listed(renderer));
    assert(found =~= empty + listed(renderer) + listed(unity) + listed(unreal) + listed(shipping) + listed(
        name,
    ) + listed(ships));
    assert(apart(found, same_slot()));
    lemma_sort_by_multiset(found, reason_order());
    lemma_apart_permuted(found, crate::order::sort_by(found, reason_order()), same_slot());
}

/// True when the image's own tables reach a renderer: some renderer
/// finding has a signal that is not a file lying beside the image.
pub open spec fn renderer_reached(fs: Seq<FindingV>) -> bool {
    exists|i: int, k: int|
        0 <= i < fs.len() && 0 <= k < fs[i].signals.len() && (#[trigger] fs[i].signals[k]).source
            != Source::Neighbour
}

proof fn lemma_direct_names_any(fs: Seq<FindingV>)
    ensures
        direct_names(fs).len() > 0 <==> exists|i: int| 0 <= i < fs.len() && direct(#[trigger] fs[i]),
    decreases fs.len(),
{
    if fs.len() > 0 {
        lemma_direct_names_any(fs.drop_last());
        if exists|i: int| 0 <= i < fs.drop_last().len() && direct(#[trigger] fs.drop_last()[i]) {
            let i = choose|i: int| 0 <= i < fs.drop_last().len() && direct(#[trigger] fs.drop_last()[i]);
            assert(fs[i] == fs.drop_last()[i]);
        }
        if exists|i: int| 0 <= i < fs.len() && direct(#[trigger] fs[i]) {
            let i = choose|i: int| 0 <= i < fs.len() && direct(#[trigger] fs[i]);
            if i < fs.len() - 1 {
                assert(fs.drop_last()[i] == fs[i]);
            }
        }
    }
}

proof fn lemma_libraries_of_any(sigs: Seq<SignalV>, source: Source)
    ensures
        libraries_of(sigs, source).len() > 0 <==> exists|k: int| 0 <= k < sigs.len() && (#[trigger] sigs[k]).source == source,
    decreases sigs.len(),
{
    if sigs.len() > 0 {
        lemma_libraries_of_any(sigs.drop_last(), source);
        if exists|k: int| 0 <= k < sigs.drop_last().len() && (#[trigger] sigs.drop_last()[k]).source == source {
            let k = choose|k: int| 0 <= k < sigs.drop_last().len() && (#[trigger] sigs.drop_last()[k]).source == source;
            assert(sigs[k] == sigs.drop_last()[k]);
        }
        if exists|k: int| 0 <= k < sigs.len() && (#[trigger] sigs[k]).source == source {
            let k = choose|k: int| 0 <= k < sigs.len() && (#[trigger] sigs[k]).source == source;
            if k < sigs.len() - 1 {
                assert(sigs.drop_last()[k] == sigs[k]);
            }
        }
    }
}

proof fn lemma_libraries_in_any(fs: Seq<FindingV>, source: Source)
    ensures
        libraries_in(fs, source).len() > 0 <==> exists|i: int, k: int|
            0 <= i < fs.len() && 0 <= k < fs[i].signals.len() && (#[trigger] fs[i].signals[k]).source == source,
    decreases fs.len(),
{
    if fs.len() > 0 {
        let d = fs.drop_last();
        lemma_libraries_in_any(d, source);
        lemma_libraries_of_any(fs.last().signals, source);
        if exists|i: int, k: int| 0 <= i < d.len() && 0 <= k < d[i].signals.len() && (#[trigger] d[i].signals[k]).source == source {
            let (i, k) = choose|i: int, k: int| 0 <= i < d.len() && 0 <= k < d[i].signals.len() && (#[trigger] d[i].signals[k]).source == source;
            assert(fs[i] == d[i]);
        }
        if exists|k: int| 0 <= k < fs.last().signals.len() && (#[trigger] fs.last().signals[k]).source == source {
            let k = choose|k: int| 0 <= k < fs.last().signals.len() && (#[trigger] fs.last().signals[k]).source == source;
            assert(fs[fs.len() - 1] == fs.last());
            assert(fs[fs.len() - 1].signals[k].source == source);
        }
        if exists|i: int, k: int| 0 <= i < fs.len() && 0 <= k < fs[i].signals.len() && (#[trigger] fs[i].signals[k]).source == source {
            let (i, k) = choose|i: int, k: int| 0 <= i < fs.len() && 0 <= k < fs[i].signals.len() && (#[trigger] fs[i].signals[k]).source == source;
            if i < fs.len() - 1 {
                assert(d[i] == fs[i]);
                assert(d[i].signals[k].source == source);
            } else {
                assert(fs.last().signals[k].source == source);
            }
        }
    }
}

proof fn lemma_sorted_unique_any(s: Seq<Seq<char>>)
    ensures
        sorted_unique(s).len() > 0 <==> s.len() > 0,
    decreases s.len(),
{
    if s.len() > 0 {
        lemma_sorted_unique_any(s.drop_last());
        let before = sorted_unique(s.drop_last());
        if !before.contains(s.last()) {
            lemma_insert_len(s.last(), before);
        }
    }
}

proof fn lemma_insert_len(x: Seq<char>, s: Seq<Seq<char>>)
    ensures
        insert_sorted(x, s, text_order()).len() == s.len() + 1,
    decreases s.len(),
{
    if s.len() > 0 && !(text_order())(x, s[0]) {
        lemma_insert_len(x, s.drop_first());
    }
}

/// The renderer reason an analysis earns, reached directly or through a
/// library beside the image.
pub open spec fn renderer_reason(fs: Seq<FindingV>) -> Option<ReasonV> {
    match spec_links_renderer(fs) {
        Some(r) => Some(r),
        None => spec_links_renderer_through(fs),
    }
}

proof fn lemma_renderer_reason_iff(fs: Seq<FindingV>)
    requires
        crate::analysis::reported(fs),
    ensures
        renderer_reason(fs) is Some <==> renderer_reached(fs),
{
    lemma_direct_names_any(fs);
    lemma_libraries_in_any(fs, Source::Linked);
    lemma_sorted_unique_any(libraries_in(fs, Source::Linked));
    if renderer_reached(fs) {
        let (i, k) = choose|i: int, k: int|
            0 <= i < fs.len() && 0 <= k < fs[i].signals.len() && (#[trigger] fs[i].signals[k]).source
                != Source::Neighbour;
        assert(strength_rank(strength_of(fs[i])) <= strength_rank(fs[i].signals[k].source));
        if fs[i].signals[k].source != Source::Linked {
            assert(direct(fs[i]));
        }
    }
    if direct_names(fs).len() > 0 {
        let i = choose|i: int| 0 <= i < fs.len() && direct(#[trigger] fs[i]);
        assert(crate::analysis::sound_finding(fs[i]));
        assert(fs[i].signals[0].source != Source::Neighbour);
    }
}

proof fn lemma_reaches_iff_reason(o: ObservedV, supplied: Option<Seq<char>>, directory: Option<Seq<char>>)
    ensures
        reaches(spec_assess(o, supplied, directory)) <==> renderer_reason(o.own.renderers) is Some,
{
    let renderer = renderer_reason(o.own.renderers);
    let found = found_reasons(o, supplied, directory);
    let rest = other_reasons(o, supplied, directory);
    let sorted = crate::order::sort_by(found, reason_order());
    lemma_found_split(o, supplied, directory);
    lemma_sort_by_multiset(found, reason_order());
    if renderer is Some {
        let r = renderer->0;
        assert(found[0] == r);
        crate::order::lemma_permuted_contains(sorted, found, 0);
        let i = choose|i: int| 0 <= i < sorted.len() && sorted[i] == r;
        assert(sorted[i] is LinksRenderer || sorted[i] is LinksRendererThrough);
    }
    if reaches(spec_assess(o, supplied, directory)) {
        let i = choose|i: int|
            0 <= i < sorted.len() && (#[trigger] sorted[i] is LinksRenderer || sorted[i] is LinksRendererThrough);
        crate::order::lemma_permuted_contains(found, sorted, i);
        let j = choose|j: int| 0 <= j < found.len() && found[j] == sorted[i];
        if j >= listed(renderer).len() {
            assert(found[j] == rest[j - listed(renderer).len()]);
        }
    }
}

/// [`assess`] says an executable reaches a renderer exactly when its own
/// tables do: some renderer its analysis found came from an import, a
/// delay-import or a library beside it that it loads, not only from a file
/// lying beside it.
pub proof fn lemma_reaches_renderer(
    o: ObservedV,
    e: crate::analysis::EvidenceV,
    supplied: Option<Seq<char>>,
    directory: Option<Seq<char>>,
)
    requires
        o.own == crate::analysis::spec_analyse(e),
    ensures
        reaches(spec_assess(o, supplied, directory)) == renderer_reached(o.own.renderers),
{
    crate::analysis::lemma_analyse_reported(e);
    lemma_renderer_reason_iff(o.own.renderers);
    lemma_reaches_iff_reason(o, supplied, directory);
}

/// An assessed candidate's score is never negative, and it is zero exactly
/// when the candidate has no reasons, that is when it has no evidence.
pub proof fn lemma_assessed_evidence(o: ObservedV, supplied: Option<Seq<char>>, directory: Option<Seq<char>>)
    ensures
        total(spec_assess(o, supplied, directory).reasons) >= 0,
        (total(spec_assess(o, supplied, directory).reasons) == 0) <==> (spec_assess(
            o,
            supplied,
            directory,
        ).reasons.len() == 0),
{
    let rs = spec_assess(o, supplied, directory).reasons;
    lemma_assess_laws(o, supplied, directory);
    lemma_score_zero_iff_no_reasons(rs);
    lemma_total_prefix(rs, rs.len() as int);
}

/// The best of a ranking is its first candidate, there is one exactly when
/// there were candidates, and it scores at least as much as every candidate
/// it was ranked from.
pub proof fn lemma_best_scores_most(candidates: Seq<CandidateV>)
    ensures
        crate::order::sort_by(candidates, candidate_order()).len() == candidates.len(),
        forall|j: int|
            0 <= j < candidates.len() ==> total(
                crate::order::sort_by(candidates, candidate_order())[0].reasons,
            ) >= total((#[trigger] candidates[j]).reasons),
{
    let sorted = crate::order::sort_by(candidates, candidate_order());
    lemma_ranked_best_first(candidates);
    if candidates.len() > 0 {
        crate::order::lemma_permuted_contains(sorted, candidates, 0int);
    }
    assert forall|j: int| 0 <= j < candidates.len() implies total(sorted[0].reasons) >= total(
        (#[trigger] candidates[j]).reasons,
    ) by {
        crate::order::lemma_permuted_contains(sorted, candidates, j);
        let k = choose|k: int| 0 <= k < sorted.len() && sorted[k] == candidates[j];
        if k > 0 {
            assert(total(sorted[0].reasons) >= total(sorted[k].reasons));
        }
    }
}

/// An executable directly inside `Binaries/Win64` or `Binaries/Win32`, in
/// any ASCII case, where the directory above is not `Engine`, sits in an
/// Unreal build's binaries directory, the 32-bit platform exactly like the
/// 64-bit one: assessing it gives that reason, naming the two directories
/// as they are spelled, and the reason is worth 55.
pub proof fn lemma_unreal_platforms(
    o: ObservedV,
    supplied: Option<Seq<char>>,
    directory: Option<Seq<char>>,
    above: Seq<Part>,
    binaries: Seq<char>,
    platform: Seq<char>,
    file: Part,
)
    requires
        o.relative == above.push(Part::Normal(binaries)).push(Part::Normal(platform)).push(file),
        eq_ignore_case(binaries, "Binaries"@),
        eq_ignore_case(platform, "Win64"@) || eq_ignore_case(platform, "Win32"@),
        names_in(above).len() == 0 || !eq_ignore_case(names_in(above).last(), "Engine"@),
    ensures
        spec_unreal(o.relative) == Some(binaries + "/"@ + platform),
        spec_assess(o, supplied, directory).reasons.contains(
            ReasonV::UnrealBinariesDirectory { directory: binaries + "/"@ + platform },
        ),
        spec_weight(ReasonV::UnrealBinariesDirectory { directory: binaries + "/"@ + platform }) == 55,
{
    let dirs = above.push(Part::Normal(binaries)).push(Part::Normal(platform));
    assert(o.relative.drop_last() =~= dirs);
    assert(dirs.drop_last() =~= above.push(Part::Normal(binaries)));
    assert(above.push(Part::Normal(binaries)).drop_last() =~= above);
    let names = names_in(dirs);
    let mid = above.push(Part::Normal(binaries));
    assert(mid.last() == Part::Normal(binaries));
    assert(names_in(mid) == names_in(above).push(binaries));
    assert(dirs.last() == Part::Normal(platform));
    assert(names_in(dirs) == names_in(mid).push(platform));
    assert(names == names_in(above).push(binaries).push(platform));
    let n = names.len();
    assert(names[n - 2] == binaries && names[n - 1] == platform);
    if n >= 3 {
        assert(names[n - 3] == names_in(above).last());
    }
    let r = ReasonV::UnrealBinariesDirectory { directory: binaries + "/"@ + platform };
    lemma_found_split(o, supplied, directory);
    let found = found_reasons(o, supplied, directory);
    let stem = crate::file_path::stem(o.relative);
    let unity = listed(
        match spec_unity_data(stem, o.sibling_directories) {
            Some(d) => Some(ReasonV::UnityDataDirectory { directory: d }),
            None => None,
        },
    );
    let k = listed(renderer_reason(o.own.renderers)).len() + unity.len();
    assert(found[k as int] == r);
    lemma_sort_by_multiset(found, reason_order());
    crate::order::lemma_permuted_contains(crate::order::sort_by(found, reason_order()), found, k as int);
}

/// Only that shape is an Unreal binaries directory: when one is found, the
/// executable sits directly in two directories that are `Binaries` and then
/// `Win64` or `Win32`, in any ASCII case, the one above them (if any) is not
/// `Engine`, and the directory found is those two names as spelled.
pub proof fn lemma_unreal_only(relative: Seq<Part>)
    ensures
        spec_unreal(relative) matches Some(d) ==> ({
            let names = names_in(relative.drop_last());
            let n = names.len();
            &&& n >= 2
            &&& eq_ignore_case(names[n - 2], "Binaries"@)
            &&& eq_ignore_case(names[n - 1], "Win64"@) || eq_ignore_case(names[n - 1], "Win32"@)
            &&& n < 3 || !eq_ignore_case(names[n - 3], "Engine"@)
            &&& d == names[n - 2] + "/"@ + names[n - 1]
        }),
{
}

/// Sorting keeps every element it was given and adds none.
proof fn lemma_sort_keeps(s: Seq<ReasonV>)
    ensures
        forall|i: int|
            0 <= i < crate::order::sort_by(s, reason_order()).len() ==> s.contains(
                #[trigger] crate::order::sort_by(s, reason_order())[i],
            ),
        crate::order::sort_by(s, reason_order()).len() == s.len(),
        strongest_first(crate::order::sort_by(s, reason_order())),
    decreases s.len(),
{
    lemma_sorted_strongest_first(s);
    if s.len() > 0 {
        let p = s.drop_last();
        lemma_sort_keeps(p);
        let sp = crate::order::sort_by(p, reason_order());
        lemma_insert_strongest_first(s.last(), sp);
        let r = crate::order::sort_by(s, reason_order());
        assert forall|i: int| 0 <= i < r.len() implies s.contains(#[trigger] r[i]) by {
            let e = r[i];
            if e == s.last() {
                assert(s[s.len() - 1] == e);
            } else {
                assert(sp.contains(e));
                let k = choose|k: int| 0 <= k < sp.len() && sp[k] == e;
                assert(p.contains(sp[k]));
                let m = choose|m: int| 0 <= m < p.len() && p[m] == e;
                assert(s[m] == e);
            }
        }
    }
}

/// No reason is worth more than the heaviest weight.
proof fn lemma_total_at_most(rs: Seq<ReasonV>)
    ensures
        total(rs) <= 100 * rs.len(),
    decreases rs.len(),
{
    if rs.len() > 0 {
        lemma_total_at_most(rs.drop_last());
    }
}

/// An assessed executable's score is at most six reasons at the heaviest
/// weight, so every score fits in an `i32`.
pub proof fn lemma_assess_fits(o: ObservedV, supplied: Option<Seq<char>>, directory: Option<Seq<char>>)
    ensures
        total(spec_assess(o, supplied, directory).reasons) <= 600,
{
    let f = found_reasons(o, supplied, directory);
    lemma_sort_keeps(f);
    lemma_total_at_most(crate::order::sort_by(f, reason_order()));
}

/// Something true about a survey that makes it worth less than it looks.
/// Every limit the walk hit is carried back with the answer.
#[derive(Debug)]
pub enum Note {
    /// Directories below the walk's depth limit were not descended into.
    DepthLimited {
        limit: usize,
        /// How many directories were left unvisited.
        skipped: usize,
    },
    /// The walk stopped after its limit on directories.
    DirectoryLimited { limit: usize },
    /// The walk stopped after its limit on executables.
    ExecutableLimited { limit: usize },
    /// A directory below the root could not be listed.
    Unreadable {
        path: FilePath,
        /// What the system said.
        source: String,
    },
    /// An executable could not be read or parsed. It stays in the list, ranked
    /// on its path alone.
    Unparsed {
        path: FilePath,
        /// What the system or the parser said.
        source: String,
    },
    /// No executable reaches a graphics API through its import tables.
    NoRendererImported {
        /// How many executables were read and found to import none.
        executables: usize,
    },
    /// Two or more executables share the highest score above zero.
    TiedAtTheTop {
        /// How many candidates share the top score. Always at least two.
        count: usize,
        /// The score they share.
        score: i32,
    },
}

/// A note as plain values.
pub enum NoteV {
    DepthLimited { limit: usize, skipped: usize },
    DirectoryLimited { limit: usize },
    ExecutableLimited { limit: usize },
    Unreadable { path: Seq<Part>, source: Seq<char> },
    Unparsed { path: Seq<Part>, source: Seq<char> },
    NoRendererImported { executables: usize },
    TiedAtTheTop { count: usize, score: i32 },
}

impl View for Note {
    type V = NoteV;

    open spec fn view(&self) -> NoteV {
        match self {
            Note::DepthLimited { limit, skipped } => NoteV::DepthLimited {
                limit: *limit,
                skipped: *skipped,
            },
            Note::DirectoryLimited { limit } => NoteV::DirectoryLimited { limit: *limit },
            Note::ExecutableLimited { limit } => NoteV::ExecutableLimited { limit: *limit },
            Note::Unreadable { path, source } => NoteV::Unreadable {
                path: path@,
                source: source@,
            },
            Note::Unparsed { path, source } => NoteV::Unparsed { path: path@, source: source@ },
            Note::NoRendererImported { executables } => NoteV::NoRendererImported {
                executables: *executables,
            },
            Note::TiedAtTheTop { count, score } => NoteV::TiedAtTheTop {
                count: *count,
                score: *score,
            },
        }
    }
}

/// The plain values of each note.
pub open spec fn notes_view(v: Seq<Note>) -> Seq<NoteV> {
    v.map_values(|n: Note| n@)
}

/// True when something was not read, rather than read and found to say
/// little.
pub open spec fn incomplete(n: NoteV) -> bool {
    match n {
        NoteV::NoRendererImported { .. } | NoteV::TiedAtTheTop { .. } => false,
        _ => true,
    }
}

/// The notes of `ns` that say something was not read, in order.
pub open spec fn incomplete_only(ns: Seq<NoteV>) -> Seq<NoteV>
    decreases ns.len(),
{
    if ns.len() == 0 {
        Seq::empty()
    } else if incomplete(ns.last()) {
        incomplete_only(ns.drop_last()).push(ns.last())
    } else {
        incomplete_only(ns.drop_last())
    }
}

/// The plain values of the notes `v` refers to.
pub open spec fn note_refs_view(v: Seq<&Note>) -> Seq<NoteV> {
    v.map_values(|n: &Note| n@)
}

/// The sentence a note is printed as.
pub open spec fn spec_note_describe(n: NoteV) -> Seq<char> {
    match n {
        NoteV::DepthLimited { limit, skipped } => "stopped at "@ + decimal(limit as nat)
            + " directories deep; "@ + decimal(skipped as nat) + " "@ + (if skipped == 1 {
            "directory was"@
        } else {
            "directories were"@
        }) + " not searched, so a binary below that is missing from this list entirely"@,
        NoteV::DirectoryLimited { limit } => "stopped after "@ + decimal(limit as nat)
            + " directories; the rest of the tree was not searched, so a binary in it is missing from this list entirely"@,
        NoteV::ExecutableLimited { limit } => "stopped after "@ + decimal(limit as nat)
            + " executables; any found later was not ranked, so the best one may not be in this list at all"@,
        NoteV::Unreadable { path, source } => crate::file_path::display(path) + ": not searched: "@
            + source,
        NoteV::Unparsed { path, source } => crate::file_path::display(path)
            + ": ranked on its path alone: "@ + source,
        NoteV::NoRendererImported { executables } => (if executables == 1 {
            "the only executable here reaches no graphics API through its import tables"@
        } else {
            "none of the "@ + decimal(executables as nat)
                + " executables here reaches a graphics API through its import tables"@
        }) + ", so this ranking rests on directory structure alone and is weaker than one backed by an import table. That is also a finding: a Java, Electron or .NET game loads its renderer at run time, where no import table can show it."@,
        NoteV::TiedAtTheTop { count, score } => decimal(count as nat)
            + " executables share the top score of "@ + signed_decimal(score as int)
            + ", so the evidence does not choose between them. Whichever is listed first was put there by path depth and then alphabetical order, which is presentation and not a finding \u{2014} read all "@
            + decimal(count as nat) + " before believing any of them."@,
    }
}

impl Note {
    /// True when something was not read, rather than read and found to say
    /// little.
    pub fn is_incomplete(&self) -> (b: bool)
        ensures
            b == incomplete(self@),
    {
        match self {
            Note::NoRendererImported { .. } | Note::TiedAtTheTop { .. } => false,
            _ => true,
        }
    }

    /// The sentence this note is printed as.
    pub fn describe(&self) -> (s: String)
        ensures
            s@ == spec_note_describe(self@),
    {
        let mut s = String::new();
        match self {
            Note::DepthLimited { limit, skipped } => {
                s.push_str("stopped at ");
                push_decimal(&mut s, *limit as u64);
                s.push_str(" directories deep; ");
                push_decimal(&mut s, *skipped as u64);
                s.push_str(" ");
                s.push_str(
                    if *skipped == 1 {
                        "directory was"
                    } else {
                        "directories were"
                    },
                );
                s.push_str(" not searched, so a binary below that is missing from this list entirely");
            },
            Note::DirectoryLimited { limit } => {
                s.push_str("stopped after ");
                push_decimal(&mut s, *limit as u64);
                s.push_str(
                    " directories; the rest of the tree was not searched, so a binary in it is missing from this list entirely",
                );
            },
            Note::ExecutableLimited { limit } => {
                s.push_str("stopped after ");
                push_decimal(&mut s, *limit as u64);
                s.push_str(
                    " executables; any found later was not ranked, so the best one may not be in this list at all",
                );
            },
            Note::Unreadable { path, source } => {
                let shown = path.display();
                s.push_str(shown.as_str());
                s.push_str(": not searched: ");
                s.push_str(source.as_str());
            },
            Note::Unparsed { path, source } => {
                let shown = path.display();
                s.push_str(shown.as_str());
                s.push_str(": ranked on its path alone: ");
                s.push_str(source.as_str());
            },
            Note::NoRendererImported { executables } => {
                if *executables == 1 {
                    s.push_str(
                        "the only executable here reaches no graphics API through its import tables",
                    );
                } else {
                    s.push_str("none of the ");
                    push_decimal(&mut s, *executables as u64);
                    s.push_str(" executables here reaches a graphics API through its import tables");
                }
                s.push_str(
                    ", so this ranking rests on directory structure alone and is weaker than one backed by an import table. That is also a finding: a Java, Electron or .NET game loads its renderer at run time, where no import table can show it.",
                );
            },
            Note::TiedAtTheTop { count, score } => {
                push_decimal(&mut s, *count as u64);
                s.push_str(" executables share the top score of ");
                push_signed(&mut s, *score);
                s.push_str(
                    ", so the evidence does not choose between them. Whichever is listed first was put there by path depth and then alphabetical order, which is presentation and not a finding \u{2014} read all ",
                );
                push_decimal(&mut s, *count as u64);
                s.push_str(" before believing any of them.");
            },
        }
        proof {
            assert(s@ =~= spec_note_describe(self@));
        }
        s
    }
}

/// Best first: higher score, then fewer path components, then the path that
/// sorts first. Depth only orders what the evidence could not separate.
pub open spec fn candidate_lt(a: CandidateV, b: CandidateV) -> bool {
    total(a.reasons) > total(b.reasons) || (total(a.reasons) == total(b.reasons) && (
    a.path.len() < b.path.len() || (a.path.len() == b.path.len() && path_lt(a.path, b.path))))
}

/// [`candidate_lt`] as a relation.
pub open spec fn candidate_order() -> spec_fn(CandidateV, CandidateV) -> bool {
    |a: CandidateV, b: CandidateV| candidate_lt(a, b)
}

/// True when every candidate's score fits the score's type.
pub open spec fn scores_fit(cs: Seq<CandidateV>) -> bool {
    forall|i: int| 0 <= i < cs.len() ==> total((#[trigger] cs[i]).reasons) <= i32::MAX
}

/// How many candidates at the front of `cs` score `score`.
pub open spec fn leading(cs: Seq<CandidateV>, score: int) -> nat
    decreases cs.len(),
{
    if cs.len() == 0 || total(cs[0].reasons) != score {
        0
    } else {
        1 + leading(cs.drop_first(), score)
    }
}

/// The tie note for a ranking already in order, when two or more share a top
/// score above zero.
pub open spec fn spec_tie(sorted: Seq<CandidateV>) -> Option<NoteV> {
    if sorted.len() == 0 {
        None
    } else {
        let score = total(sorted[0].reasons);
        let count = leading(sorted, score);
        if score <= 0 || count < 2 {
            None
        } else {
            Some(NoteV::TiedAtTheTop { count: count as usize, score: score as i32 })
        }
    }
}

/// The notes a ranking carries: the ones it was given, then the caveat that
/// no import table reached a renderer when none did, then the tie.
pub open spec fn ranked_notes(sorted: Seq<CandidateV>, notes: Seq<NoteV>) -> Seq<NoteV> {
    let caveat = if sorted.len() > 0 && !(exists|i: int|
        0 <= i < sorted.len() && reaches(#[trigger] sorted[i])) {
        seq![NoteV::NoRendererImported { executables: sorted.len() as usize }]
    } else {
        Seq::empty()
    };
    let tie = match spec_tie(sorted) {
        Some(n) => seq![n],
        None => Seq::empty(),
    };
    notes + caveat + tie
}

/// Candidate order is a strict order.
proof fn lemma_candidate_order_strict()
    ensures
        strict_order(candidate_order()),
{
    assert forall|a: CandidateV| !#[trigger] (candidate_order())(a, a) by {
        lemma_path_lt_irreflexive(a.path);
    }
    assert forall|a: CandidateV, b: CandidateV, c: CandidateV|
        #[trigger] (candidate_order())(a, b) && #[trigger] (candidate_order())(b, c) implies (
        candidate_order())(a, c) by {
        if path_lt(a.path, b.path) && path_lt(b.path, c.path) {
            lemma_path_lt_transitive(a.path, b.path, c.path);
        }
    }
}

/// A ranking is best first and holds exactly what it was given: no
/// candidate ranks strictly before one above it, so none scores more than
/// one above it, and each candidate comes out as often as it went in.
pub proof fn lemma_ranked_best_first(candidates: Seq<CandidateV>)
    ensures
        in_order(crate::order::sort_by(candidates, candidate_order()), candidate_order()),
        forall|i: int, j: int|
            0 <= i < j < candidates.len() ==> total(
                (#[trigger] crate::order::sort_by(candidates, candidate_order())[i]).reasons,
            ) >= total((#[trigger] crate::order::sort_by(candidates, candidate_order())[j]).reasons),
        crate::order::sort_by(candidates, candidate_order()).to_multiset()
            == candidates.to_multiset(),
{
    broadcast use vstd::seq_lib::group_to_multiset_ensures;

    let sorted = crate::order::sort_by(candidates, candidate_order());
    lemma_candidate_order_strict();
    lemma_sort_by_in_order(candidates, candidate_order());
    lemma_sort_by_multiset(candidates, candidate_order());
    assert(sorted.len() == sorted.to_multiset().len());
    assert forall|i: int, j: int| 0 <= i < j < candidates.len() implies total(
        (#[trigger] sorted[i]).reasons,
    ) >= total((#[trigger] sorted[j]).reasons) by {
        assert(!(candidate_order())(sorted[j], sorted[i]));
    }
}

/// The ranking does not depend on the order the executables were found in:
/// two lists that hold the same candidates, no two of them at one path,
/// rank the same.
pub proof fn lemma_ranking_ignores_discovery_order(a: Seq<CandidateV>, b: Seq<CandidateV>)
    requires
        a.to_multiset() == b.to_multiset(),
        forall|i: int, j: int| 0 <= i < j < a.len() ==> (#[trigger] a[i]).path != (#[trigger] a[j]).path,
    ensures
        crate::order::sort_by(a, candidate_order()) == crate::order::sort_by(b, candidate_order()),
{
    broadcast use vstd::seq_lib::group_to_multiset_ensures;

    let sa = crate::order::sort_by(a, candidate_order());
    let sb = crate::order::sort_by(b, candidate_order());
    lemma_candidate_order_strict();
    lemma_sort_by_in_order(a, candidate_order());
    lemma_sort_by_in_order(b, candidate_order());
    lemma_sort_by_multiset(a, candidate_order());
    lemma_sort_by_multiset(b, candidate_order());
    assert forall|x: CandidateV, y: CandidateV|
        sa.contains(x) && sa.contains(y) && x != y implies #[trigger] (candidate_order())(x, y)
        || #[trigger] (candidate_order())(y, x) by {
        assert(sa.to_multiset().count(x) > 0 && sa.to_multiset().count(y) > 0);
        assert(a.contains(x) && a.contains(y));
        let i = choose|i: int| 0 <= i < a.len() && a[i] == x;
        let j = choose|j: int| 0 <= j < a.len() && a[j] == y;
        if i < j {
            assert(a[i].path != a[j].path);
        } else {
            assert(a[j].path != a[i].path);
        }
        lemma_path_lt_total(x.path, y.path);
    }
    lemma_in_order_unique(sa, sb, candidate_order());
}

/// The ranked executables in one directory, and what qualifies the ranking.
#[derive(Debug, Default)]
pub struct Survey {
    /// Best first. Ties broken by depth and then by path, so two runs over one
    /// install produce the same list in the same order.
    pub candidates: Vec<Candidate>,
    pub notes: Vec<Note>,
}

/// A survey as plain values.
pub struct SurveyV {
    pub candidates: Seq<CandidateV>,
    pub notes: Seq<NoteV>,
}

impl View for Survey {
    type V = SurveyV;

    open spec fn view(&self) -> SurveyV {
        SurveyV { candidates: candidates_view(self.candidates@), notes: notes_view(self.notes@) }
    }
}

/// Whether `a` ranks strictly before `b`.
fn candidate_before(a: &Candidate, b: &Candidate) -> (r: bool)
    requires
        total(a@.reasons) <= i32::MAX,
        total(b@.reasons) <= i32::MAX,
    ensures
        r == candidate_lt(a@, b@),
{
    let x = a.score();
    let y = b.score();
    if x != y {
        return x > y;
    }
    let da = a.path.depth();
    let db = b.path.depth();
    if da != db {
        return da < db;
    }
    a.path.before(&b.path)
}

/// `v` stably sorted best first.
fn sort_candidates(v: Vec<Candidate>) -> (out: Vec<Candidate>)
    requires
        scores_fit(candidates_view(v@)),
    ensures
        candidates_view(out@) == crate::order::sort_by(candidates_view(v@), candidate_order()),
        scores_fit(candidates_view(out@)),
{
    let ghost orig = candidates_view(v@);
    let count = v.len();
    let mut rest = v;
    let mut out: Vec<Candidate> = Vec::new();
    let mut i: usize = 0;
    assert(orig.skip(0) =~= orig);
    assert(orig.take(0) =~= Seq::<CandidateV>::empty());
    assert(candidates_view(out@) =~= Seq::<CandidateV>::empty());
    while rest.len() > 0
        invariant
            i + rest@.len() == orig.len(),
            orig.len() == count,
            scores_fit(orig),
            candidates_view(rest@) == orig.skip(i as int),
            candidates_view(out@) == crate::order::sort_by(orig.take(i as int), candidate_order()),
            scores_fit(candidates_view(out@)),
        decreases rest@.len(),
    {
        let ghost before = rest@;
        let x = rest.remove(0);
        assert(candidates_view(before)[0] == x@);
        assert(orig.skip(i as int)[0] == orig[i as int]);
        assert(candidates_view(rest@) =~= candidates_view(before).drop_first());
        assert(orig.skip(i as int).drop_first() =~= orig.skip(i + 1));
        let ghost sorted = candidates_view(out@);
        assert forall|j: int| 0 <= j < out@.len() implies total(
            (#[trigger] out@[j])@.reasons,
        ) <= i32::MAX by {
            assert(sorted[j] == out@[j]@);
        }
        let mut k: usize = 0;
        while k < out.len() && !candidate_before(&x, &out[k])
            invariant
                k <= out@.len(),
                forall|j: int| 0 <= j < out@.len() ==> total((#[trigger] out@[j])@.reasons) <= i32::MAX,
                sorted == candidates_view(out@),
                scores_fit(sorted),
                total(x@.reasons) <= i32::MAX,
                forall|j: int| 0 <= j < k ==> !(candidate_order())(x@, #[trigger] sorted[j]),
            decreases out@.len() - k,
        {
            assert(sorted[k as int] == out@[k as int]@);
            k = k + 1;
        }
        proof {
            if k < out@.len() {
                assert(sorted[k as int] == out@[k as int]@);
            }
            lemma_insert_at(x@, sorted, candidate_order(), k as int);
            assert(orig.take(i + 1).drop_last() =~= orig.take(i as int));
        }
        out.insert(k, x);
        i = i + 1;
        assert(candidates_view(out@) =~= sorted.take(k as int) + seq![x@] + sorted.skip(
            k as int,
        ));
        assert(scores_fit(candidates_view(out@))) by {
            let now = candidates_view(out@);
            assert forall|j: int| 0 <= j < now.len() implies total(
                (#[trigger] now[j]).reasons,
            ) <= i32::MAX by {
                if j < k {
                    assert(now[j] == sorted[j]);
                } else if j > k {
                    assert(now[j] == sorted[j - 1]);
                }
            }
        }
    }
    assert(orig.take(i as int) =~= orig);
    out
}

/// The tie note, if the highest score above zero is shared. `candidates` is
/// already in order.
fn tie_at_the_top(candidates: &Vec<Candidate>) -> (r: Option<Note>)
    requires
        scores_fit(candidates_view(candidates@)),
    ensures
        match r {
            Some(n) => spec_tie(candidates_view(candidates@)) == Some(n@),
            None => spec_tie(candidates_view(candidates@)) is None,
        },
{
    let ghost cs = candidates_view(candidates@);
    if candidates.len() == 0 {
        return None;
    }
    assert(cs[0] == candidates@[0]@);
    let score = candidates[0].score();
    if score <= 0 {
        return None;
    }
    let mut count: usize = 0;
    assert(cs.skip(0) =~= cs);
    while count < candidates.len() && candidates[count].score() == score
        invariant
            count <= candidates@.len(),
            cs == candidates_view(candidates@),
            scores_fit(cs),
            leading(cs, score as int) == count + leading(cs.skip(count as int), score as int),
        decreases candidates@.len() - count,
    {
        assert(cs[count as int] == candidates@[count as int]@);
        assert(cs.skip(count as int)[0] == cs[count as int]);
        assert(cs.skip(count as int).drop_first() =~= cs.skip(count + 1));
        count = count + 1;
    }
    proof {
        if count < candidates@.len() {
            assert(cs[count as int] == candidates@[count as int]@);
            assert(cs.skip(count as int)[0] == cs[count as int]);
        }
    }
    if count < 2 {
        return None;
    }
    Some(Note::TiedAtTheTop { count, score })
}

impl Survey {
    /// Sorts `candidates` best first and raises the notes that apply, so no
    /// caller can forget either.
    pub fn ranked(candidates: Vec<Candidate>, notes: Vec<Note>) -> (s: Survey)
        requires
            scores_fit(candidates_view(candidates@)),
        ensures
            s@.candidates == crate::order::sort_by(
                candidates_view(candidates@),
                candidate_order(),
            ),
            s@.notes == ranked_notes(s@.candidates, notes_view(notes@)),
    {
        let candidates = sort_candidates(candidates);
        let ghost sorted = candidates_view(candidates@);
        let mut notes = notes;
        let ghost given = notes_view(notes@);
        let mut any = false;
        let mut i: usize = 0;
        while i < candidates.len()
            invariant
                i <= candidates@.len(),
                sorted == candidates_view(candidates@),
                any == exists|j: int| 0 <= j < i && reaches(#[trigger] sorted[j]),
            decreases candidates@.len() - i,
        {
            assert(sorted[i as int] == candidates@[i as int]@);
            if candidates[i].reaches_renderer() {
                any = true;
            }
            i = i + 1;
        }
        if candidates.len() > 0 && !any {
            notes.push(Note::NoRendererImported { executables: candidates.len() });
        }
        let ghost with_caveat = notes_view(notes@);
        match tie_at_the_top(&candidates) {
            Some(tie) => notes.push(tie),
            None => {},
        }
        proof {
            let caveat = if sorted.len() > 0 && !(exists|j: int|
                0 <= j < sorted.len() && reaches(#[trigger] sorted[j])) {
                seq![NoteV::NoRendererImported { executables: sorted.len() as usize }]
            } else {
                Seq::empty()
            };
            assert(with_caveat =~= given + caveat);
            assert(notes_view(notes@) =~= ranked_notes(sorted, given));
        }
        Survey { candidates, notes }
    }

    /// The highest-ranked executable, even when it carries no evidence.
    pub fn best(&self) -> (c: Option<&Candidate>)
        ensures
            match c {
                Some(x) => self@.candidates.len() > 0 && x@ == self@.candidates[0],
                None => self@.candidates.len() == 0,
            },
    {
        if self.candidates.len() == 0 {
            None
        } else {
            Some(&self.candidates[0])
        }
    }

    /// True when at least one executable had something to say for itself.
    pub fn has_evidence(&self) -> (b: bool)
        ensures
            b == exists|i: int|
                0 <= i < self@.candidates.len() && (#[trigger] self@.candidates[i]).reasons.len()
                    > 0,
    {
        let mut i: usize = 0;
        while i < self.candidates.len()
            invariant
                i <= self.candidates@.len(),
                forall|j: int|
                    0 <= j < i ==> (#[trigger] self@.candidates[j]).reasons.len() == 0,
            decreases self.candidates@.len() - i,
        {
            assert(self@.candidates[i as int] == self.candidates@[i as int]@);
            if self.candidates[i].has_evidence() {
                return true;
            }
            i = i + 1;
        }
        false
    }

    /// The notes saying part of this directory was never looked at, in order.
    pub fn incomplete_notes(&self) -> (v: Vec<&Note>)
        ensures
            note_refs_view(v@) == incomplete_only(notes_view(self.notes@)),
    {
        let ghost all = notes_view(self.notes@);
        let mut v: Vec<&Note> = Vec::new();
        let mut i: usize = 0;
        while i < self.notes.len()
            invariant
                i <= self.notes@.len(),
                all == notes_view(self.notes@),
                note_refs_view(v@) == incomplete_only(all.take(i as int)),
            decreases self.notes@.len() - i,
        {
            let n = &self.notes[i];
            assert(all.take(i + 1).drop_last() =~= all.take(i as int));
            assert(all.take(i + 1).last() == n@);
            let ghost before = v@;
            if n.is_incomplete() {
                v.push(n);
                assert(note_refs_view(v@) =~= note_refs_view(before).push(n@));
            }
            i = i + 1;
        }
        assert(all.take(i as int) =~= all);
        v
    }

    /// True when part of this directory was never looked at. Not narrowed by
    /// evidence: a truncated walk may have missed the very executable that
    /// carried it.
    pub fn is_incomplete(&self) -> (b: bool)
        ensures
            b == exists|i: int|
                0 <= i < self@.notes.len() && incomplete(#[trigger] self@.notes[i]),
    {
        let mut i: usize = 0;
        while i < self.notes.len()
            invariant
                i <= self.notes@.len(),
                forall|j: int| 0 <= j < i ==> !incomplete(#[trigger] self@.notes[j]),
            decreases self.notes@.len() - i,
        {
            assert(self@.notes[i as int] == self.notes@[i as int]@);
            if self.notes[i].is_incomplete() {
                return true;
            }
            i = i + 1;
        }
        false
    }
}

} // verus!
