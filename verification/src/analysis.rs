//! From observed library names to a verdict. Pure: no paths, no filesystem.
//!
//! A verdict is a set: games link both `d3d11.dll` and `d3d12.dll` and pick at
//! run time, so the order is presentation, not prediction. `dxgi.dll` is
//! infrastructure, not a renderer. Where a signal came from travels with it.

use vstd::prelude::*;

use crate::order::{
    apart, in_order, insert_sorted, lemma_apart_permuted, lemma_insert_at, lemma_permuted_contains,
    lemma_sort_by_in_order, lemma_sort_by_multiset, lemma_text_lt_irreflexive,
    lemma_text_lt_transitive, sort_by, strict_order, text_before, text_lt,
};
use crate::pe::version::VersionInfo;
use crate::text::{
    chars_of, copy_text, eq_ignore_ascii_case, eq_ignore_case, has_prefix, join, lower_seq,
    same_text, starts_with, texts, to_lower,
};

verus! {

/// What was observed about one binary, with nothing interpreted yet.
#[derive(Debug, Default, Clone)]
pub struct Evidence {
    /// Names from the import table.
    pub imports: Vec<String>,
    /// Names from the delay-load table.
    pub delay_imports: Vec<String>,
    /// File names sitting in the same directory as the executable.
    pub neighbours: Vec<String>,
    /// Libraries in the same directory which this image imports, with what
    /// they import in turn. One link only.
    pub linked: Vec<Linked>,
}

/// One library reached by following an image's imports a single step.
#[derive(Debug, Default, Clone, PartialEq, Eq)]
pub struct Linked {
    /// The library, spelled as the importing image spelled it.
    pub library: String,
    /// Names from that library's own import table.
    pub imports: Vec<String>,
    /// Names from that library's own delay-load table.
    pub delay_imports: Vec<String>,
}

/// Where a finding was observed, ordered strongest first.
#[derive(Debug, Clone, Copy, PartialEq, Eq, Structural, PartialOrd, Ord)]
pub enum Source {
    /// In the import table.
    Import,
    /// In the delay-load table.
    DelayImport,
    /// Through a library beside the executable that it imports.
    Linked,
    /// A file in the executable's directory.
    Neighbour,
}

/// The position of a source in the strongest-first order.
pub open spec fn strength_rank(s: Source) -> int {
    match s {
        Source::Import => 0,
        Source::DelayImport => 1,
        Source::Linked => 2,
        Source::Neighbour => 3,
    }
}

impl Source {
    /// The stable spelling used in output.
    pub open spec fn spec_as_str(self) -> Seq<char> {
        match self {
            Source::Import => "import"@,
            Source::DelayImport => "delay-import"@,
            Source::Linked => "linked"@,
            Source::Neighbour => "neighbour"@,
        }
    }

    /// The stable spelling used in output.
    pub fn as_str(self) -> (s: &'static str)
        ensures
            s@ == self.spec_as_str(),
    {
        match self {
            Source::Import => "import",
            Source::DelayImport => "delay-import",
            Source::Linked => "linked",
            Source::Neighbour => "neighbour",
        }
    }

    /// Whether `self` is strictly stronger than `other`.
    pub fn stronger_than(self, other: Source) -> (r: bool)
        ensures
            r == (strength_rank(self) < strength_rank(other)),
    {
        rank_of(self) < rank_of(other)
    }
}

fn rank_of(s: Source) -> (r: u8)
    ensures
        r == strength_rank(s),
{
    match s {
        Source::Import => 0,
        Source::DelayImport => 1,
        Source::Linked => 2,
        Source::Neighbour => 3,
    }
}

/// What reading a version out of the file a signal names produced.
#[derive(Debug, Default, Clone, Copy, PartialEq, Eq, Structural)]
pub enum FileVersion {
    /// Nobody has looked.
    #[default]
    Unread,
    /// Looked, and no file of that name sits beside the executable.
    Elsewhere,
    /// The file is there and carries no version resource.
    Unstamped,
    /// The file is there and could not be read as a PE image.
    Unreadable,
    /// The file is there and its version resource says this.
    Stamped(VersionInfo),
}

impl FileVersion {
    /// The stable spelling of the state.
    pub open spec fn spec_state(self) -> Seq<char> {
        match self {
            FileVersion::Unread => "unread"@,
            FileVersion::Elsewhere => "elsewhere"@,
            FileVersion::Unstamped => "unstamped"@,
            FileVersion::Unreadable => "unreadable"@,
            FileVersion::Stamped(_) => "stamped"@,
        }
    }

    /// The stable spelling of the state.
    pub fn state(self) -> (s: &'static str)
        ensures
            s@ == self.spec_state(),
    {
        match self {
            FileVersion::Unread => "unread",
            FileVersion::Elsewhere => "elsewhere",
            FileVersion::Unstamped => "unstamped",
            FileVersion::Unreadable => "unreadable",
            FileVersion::Stamped(_) => "stamped",
        }
    }

    /// What a report puts after the source: nothing only when nobody looked.
    pub open spec fn spec_label(self) -> Option<Seq<char>> {
        match self {
            FileVersion::Unread => None,
            FileVersion::Elsewhere => Some("no local copy"@),
            FileVersion::Unstamped => Some("no version"@),
            FileVersion::Unreadable => Some("version unreadable"@),
            FileVersion::Stamped(info) => Some(info.file.spec_describe()),
        }
    }

    /// What a report puts after the source.
    pub fn label(self) -> (s: Option<String>)
        ensures
            match s {
                Some(t) => self.spec_label() == Some(t@),
                None => self.spec_label() is None,
            },
    {
        match self {
            FileVersion::Unread => None,
            FileVersion::Elsewhere => Some(copy_text("no local copy")),
            FileVersion::Unstamped => Some(copy_text("no version")),
            FileVersion::Unreadable => Some(copy_text("version unreadable")),
            FileVersion::Stamped(info) => Some(info.file.describe()),
        }
    }

    /// The two versions, when there are any.
    pub fn info(self) -> (i: Option<VersionInfo>)
        ensures
            i == match self {
                FileVersion::Stamped(info) => Some(info),
                _ => None::<VersionInfo>,
            },
    {
        match self {
            FileVersion::Stamped(info) => Some(info),
            _ => None,
        }
    }
}

/// One observation: a library name, how it was observed, and its version.
#[derive(Debug, Clone, PartialEq, Eq)]
pub struct Signal {
    /// The name as it was spelled in the file or directory.
    pub library: String,
    pub source: Source,
    /// The version of the file this signal names.
    pub version: FileVersion,
}

/// A signal as plain values.
pub struct SignalV {
    pub library: Seq<char>,
    pub source: Source,
    pub version: FileVersion,
}

impl View for Signal {
    type V = SignalV;

    open spec fn view(&self) -> SignalV {
        SignalV { library: self.library@, source: self.source, version: self.version }
    }
}

impl Signal {
    /// `library (source)`, or `library (source, version)` when the version
    /// has something to say.
    pub open spec fn spec_describe(s: SignalV) -> Seq<char> {
        match s.version.spec_label() {
            Some(version) => s.library + " ("@ + s.source.spec_as_str() + ", "@ + version + ")"@,
            None => s.library + " ("@ + s.source.spec_as_str() + ")"@,
        }
    }

    /// The one rendering of a signal: `nvngx_dlss.dll (neighbour, 310.2.1.0)`.
    pub fn describe(&self) -> (s: String)
        ensures
            s@ == Signal::spec_describe(self@),
    {
        let mut s = copy_text(self.library.as_str());
        s.push_str(" (");
        s.push_str(self.source.as_str());
        match self.version.label() {
            Some(version) => {
                s.push_str(", ");
                s.push_str(version.as_str());
                s.push_str(")");
            },
            None => {
                s.push_str(")");
            },
        }
        s
    }
}

/// One thing concluded, and every observation that supports it.
#[derive(Debug, Clone, PartialEq, Eq)]
pub struct Finding {
    /// What was concluded: `"Direct3D 12"`, or for a local override the
    /// name given to every override.
    pub name: String,
    /// Every observation behind it, strongest source first.
    pub signals: Vec<Signal>,
    /// Tie-break position within its own list: how the list is ordered, not
    /// a fact about the binary.
    pub rank: u8,
}

/// A finding as plain values.
pub struct FindingV {
    pub name: Seq<char>,
    pub signals: Seq<SignalV>,
    pub rank: u8,
}

/// The plain values of each signal.
pub open spec fn signals_view(v: Seq<Signal>) -> Seq<SignalV> {
    v.map_values(|s: Signal| s@)
}

/// The plain values of each finding.
pub open spec fn findings_view(v: Seq<Finding>) -> Seq<FindingV> {
    v.map_values(|f: Finding| f@)
}

impl View for Finding {
    type V = FindingV;

    open spec fn view(&self) -> FindingV {
        FindingV { name: self.name@, signals: signals_view(self.signals@), rank: self.rank }
    }
}

/// The strongest source behind a finding: its first signal's, or the weakest
/// source when it has none.
pub open spec fn strength_of(f: FindingV) -> Source {
    if f.signals.len() > 0 {
        f.signals[0].source
    } else {
        Source::Neighbour
    }
}

impl Finding {
    /// The strongest source behind this finding.
    pub fn strength(&self) -> (s: Source)
        ensures
            s == strength_of(self@),
    {
        if self.signals.len() > 0 {
            self.signals[0].source
        } else {
            Source::Neighbour
        }
    }
}

/// Everything concluded about one binary, in four lists for four questions.
#[derive(Debug, Default, Clone, PartialEq, Eq)]
pub struct Verdict {
    /// Graphics APIs the image can reach.
    pub renderers: Vec<Finding>,
    /// Shared plumbing that constrains the answer without giving it.
    pub infrastructure: Vec<Finding>,
    /// Upscalers, frame generation and vendor SDKs.
    pub features: Vec<Finding>,
    /// System DLL names found as files in the executable's directory.
    pub local_overrides: Vec<Finding>,
}

/// A verdict as plain values.
pub struct VerdictV {
    pub renderers: Seq<FindingV>,
    pub infrastructure: Seq<FindingV>,
    pub features: Seq<FindingV>,
    pub local_overrides: Seq<FindingV>,
}

impl View for Verdict {
    type V = VerdictV;

    open spec fn view(&self) -> VerdictV {
        VerdictV {
            renderers: findings_view(self.renderers@),
            infrastructure: findings_view(self.infrastructure@),
            features: findings_view(self.features@),
            local_overrides: findings_view(self.local_overrides@),
        }
    }
}

/// The names of each finding.
pub open spec fn names_of(fs: Seq<FindingV>) -> Seq<Seq<char>> {
    fs.map_values(|f: FindingV| f.name)
}

/// The one-line answer.
pub open spec fn spec_headline(v: VerdictV) -> Seq<char> {
    if v.renderers.len() == 0 {
        if v.infrastructure.len() == 0 {
            "no graphics API determined"@
        } else {
            join(names_of(v.infrastructure), " and "@) + " present, specific API not determined"@
        }
    } else {
        let hedge = if forall|i: int|
            0 <= i < v.renderers.len() ==> strength_of(#[trigger] v.renderers[i])
                == Source::Neighbour {
            " (from files in the directory only)"@
        } else {
            ""@
        };
        if v.renderers.len() == 1 {
            v.renderers[0].name + hedge
        } else {
            join(names_of(v.renderers), " or "@) + " (all linked; selected at run time)"@ + hedge
        }
    }
}

/// Appends the names of `fs`, joined by `sep`.
fn push_joined(out: &mut String, fs: &Vec<Finding>, sep: &str)
    ensures
        final(out)@ == old(out)@ + join(names_of(findings_view(fs@)), sep@),
{
    let ghost start = out@;
    let mut i: usize = 0;
    while i < fs.len()
        invariant
            i <= fs@.len(),
            out@ == start + join(names_of(findings_view(fs@)).take(i as int), sep@),
        decreases fs@.len() - i,
    {
        let ghost names = names_of(findings_view(fs@));
        assert(names.take(i + 1).drop_last() =~= names.take(i as int));
        assert(names.take(i + 1).last() == fs@[i as int].name@);
        if i > 0 {
            out.push_str(sep);
        }
        out.push_str(fs[i].name.as_str());
        i = i + 1;
        proof {
            if i == 1 {
                assert(names.take(1)[0] == names.take(1).last());
            }
            assert(out@ =~= start + join(names.take(i as int), sep@));
        }
    }
    assert(names_of(findings_view(fs@)).take(i as int) =~= names_of(findings_view(fs@)));
}

impl Verdict {
    /// True when nothing at all was recognised.
    pub fn is_empty(&self) -> (b: bool)
        ensures
            b == (self@.renderers.len() == 0 && self@.infrastructure.len() == 0
                && self@.features.len() == 0 && self@.local_overrides.len() == 0),
    {
        self.renderers.len() == 0 && self.infrastructure.len() == 0 && self.features.len() == 0
            && self.local_overrides.len() == 0
    }

    /// The one-line answer, worded so it cannot be read as more certain than
    /// it is.
    pub fn headline(&self) -> (s: String)
        ensures
            s@ == spec_headline(self@),
    {
        let mut s = String::new();
        if self.renderers.len() == 0 {
            if self.infrastructure.len() == 0 {
                return copy_text("no graphics API determined");
            }
            push_joined(&mut s, &self.infrastructure, " and ");
            s.push_str(" present, specific API not determined");
            return s;
        }
        let mut all_neighbour = true;
        let mut i: usize = 0;
        while i < self.renderers.len()
            invariant
                i <= self@.renderers.len(),
                all_neighbour == (forall|j: int|
                    0 <= j < i ==> strength_of(#[trigger] self@.renderers[j])
                        == Source::Neighbour),
            decreases self@.renderers.len() - i,
        {
            assert(self@.renderers[i as int] == self.renderers@[i as int]@);
            if self.renderers[i].strength() != Source::Neighbour {
                all_neighbour = false;
            }
            i = i + 1;
        }
        let hedge = if all_neighbour {
            " (from files in the directory only)"
        } else {
            ""
        };
        if self.renderers.len() == 1 {
            s.push_str(self.renderers[0].name.as_str());
            s.push_str(hedge);
            return s;
        }
        push_joined(&mut s, &self.renderers, " or ");
        s.push_str(" (all linked; selected at run time)");
        s.push_str(hedge);
        s
    }
}


/// The name given to a system DLL found as a file next to the executable.
pub const LOCAL_OVERRIDE: &'static str = "local copy of a system DLL";

/// The Direct3D 12 Agility SDK runtime: beside a game, a Direct3D 12 signal.
pub const D3D12_CORE: &'static str = "d3d12core.dll";

/// A recognised name's finding and its tie-break position, as plain values.
pub open spec fn hit_view(h: Option<(&'static str, u8)>) -> Option<(Seq<char>, u8)> {
    match h {
        Some((label, rank)) => Some((label@, rank)),
        None => None,
    }
}

/// Shared plumbing, if `l` (lowercase) is one of its entry points.
pub open spec fn spec_shared(l: Seq<char>) -> Option<(Seq<char>, u8)> {
    if l == "dxgi.dll"@ {
        Some(("DXGI"@, 1u8))
    } else if l == "dxcore.dll"@ {
        Some(("DXCore"@, 2u8))
    } else {
        None
    }
}

/// A graphics API, if `l` (lowercase) is one of its entry points, with its
/// tie-break position: newest first.
pub open spec fn spec_renderer(l: Seq<char>) -> Option<(Seq<char>, u8)> {
    if l == "d3d12.dll"@ || l == "d3d12core.dll"@ {
        Some(("Direct3D 12"@, 1u8))
    } else if l == "vulkan-1.dll"@ {
        Some(("Vulkan"@, 2u8))
    } else if l == "d3d11.dll"@ || l == "d3d11_1.dll"@ || l == "d3d11_2.dll"@ || l
        == "d3d11_3.dll"@ || l == "d3d11_4.dll"@ || l == "d3d11on12.dll"@ {
        Some(("Direct3D 11"@, 3u8))
    } else if l == "d3d10.dll"@ || l == "d3d10_1.dll"@ || l == "d3d10core.dll"@ || l
        == "d3d10_1core.dll"@ {
        Some(("Direct3D 10"@, 4u8))
    } else if l == "opengl32.dll"@ {
        Some(("OpenGL"@, 5u8))
    } else if l == "d3d9.dll"@ {
        Some(("Direct3D 9"@, 6u8))
    } else if l == "d3d8.dll"@ {
        Some(("Direct3D 8"@, 7u8))
    } else if l == "ddraw.dll"@ {
        Some(("DirectDraw"@, 8u8))
    } else {
        None
    }
}

/// True when `s` ends with `suffix`.
pub open spec fn ends_with(s: Seq<char>, suffix: Seq<char>) -> bool {
    suffix.len() <= s.len() && s.skip(s.len() - suffix.len()) == suffix
}

/// A vendor feature, if `l` (lowercase) is one of its libraries. Ranked by
/// specificity.
pub open spec fn spec_feature(l: Seq<char>) -> Option<(Seq<char>, u8)> {
    if l == "nvngx_dlssnr.dll"@ {
        Some(("DLSS Neural Rendering"@, 1u8))
    } else if l == "nvngx_dlssg.dll"@ {
        Some(("DLSS Frame Generation"@, 2u8))
    } else if l == "nvngx_dlssd.dll"@ {
        Some(("DLSS Ray Reconstruction"@, 3u8))
    } else if l == "nvngx_dlss.dll"@ {
        Some(("DLSS Super Resolution"@, 4u8))
    } else if l == "libxess.dll"@ || l == "libxess_dx11.dll"@ {
        Some(("XeSS"@, 6u8))
    } else if l == "nvngx.dll"@ || l == "_nvngx.dll"@ {
        Some(("NGX loader"@, 8u8))
    } else if l == "nvapi64.dll"@ || l == "nvapi.dll"@ {
        Some(("NVAPI"@, 9u8))
    } else if starts_with(l, "ffx_fsr"@) || starts_with(l, "amd_fidelityfx"@) {
        Some(("FSR"@, 5u8))
    } else if starts_with(l, "sl."@) && ends_with(l, ".dll"@) {
        Some(("NVIDIA Streamline"@, 7u8))
    } else {
        None
    }
}

/// The vendor libraries recognised by their exact (lowercased) name, each
/// with the feature it names and that feature's rank.
pub open spec fn named_features() -> Seq<(Seq<char>, Seq<char>, u8)> {
    seq![
        ("nvngx_dlssnr.dll"@, "DLSS Neural Rendering"@, 1u8),
        ("nvngx_dlssg.dll"@, "DLSS Frame Generation"@, 2u8),
        ("nvngx_dlssd.dll"@, "DLSS Ray Reconstruction"@, 3u8),
        ("nvngx_dlss.dll"@, "DLSS Super Resolution"@, 4u8),
        ("libxess.dll"@, "XeSS"@, 6u8),
        ("libxess_dx11.dll"@, "XeSS"@, 6u8),
        ("nvngx.dll"@, "NGX loader"@, 8u8),
        ("_nvngx.dll"@, "NGX loader"@, 8u8),
        ("nvapi64.dll"@, "NVAPI"@, 9u8),
        ("nvapi.dll"@, "NVAPI"@, 9u8),
    ]
}

/// The feature table: each library of [`named_features`] names its feature
/// at its rank, XeSS's DirectX 11 runtime exactly like its main one; any
/// name beginning `ffx_fsr` or `amd_fidelityfx` is FSR at rank 5; any `.dll`
/// beginning `sl.` is NVIDIA Streamline at rank 7.
pub proof fn lemma_feature_table()
    ensures
        forall|i: int|
            0 <= i < named_features().len() ==> spec_feature(#[trigger] named_features()[i].0) == Some(
                (named_features()[i].1, named_features()[i].2),
            ),
        forall|l: Seq<char>|
            starts_with(l, "ffx_fsr"@) || starts_with(l, "amd_fidelityfx"@) ==> #[trigger] spec_feature(l)
                == Some(("FSR"@, 5u8)),
        forall|l: Seq<char>|
            starts_with(l, "sl."@) && ends_with(l, ".dll"@) ==> #[trigger] spec_feature(l) == Some(
                ("NVIDIA Streamline"@, 7u8),
            ),
{
    reveal_strlit("nvngx_dlssnr.dll");
    reveal_strlit("nvngx_dlssg.dll");
    reveal_strlit("nvngx_dlssd.dll");
    reveal_strlit("nvngx_dlss.dll");
    reveal_strlit("libxess.dll");
    reveal_strlit("libxess_dx11.dll");
    reveal_strlit("nvngx.dll");
    reveal_strlit("_nvngx.dll");
    reveal_strlit("nvapi64.dll");
    reveal_strlit("nvapi.dll");
    reveal_strlit("ffx_fsr");
    reveal_strlit("amd_fidelityfx");
    reveal_strlit("sl.");
    let t = named_features();
    assert forall|i: int| 0 <= i < t.len() implies spec_feature(#[trigger] t[i].0) == Some((t[i].1, t[i].2)) by {
        if i == 0 {
            let l = "nvngx_dlssnr.dll"@;
            assert(t[0].0 == l);
        } else if i == 1 {
            let l = "nvngx_dlssg.dll"@;
            assert(t[1].0 == l);
            assert(l.len() != "nvngx_dlssnr.dll"@.len());
        } else if i == 2 {
            let l = "nvngx_dlssd.dll"@;
            assert(t[2].0 == l);
            assert(l.len() != "nvngx_dlssnr.dll"@.len());
            assert(l[10] != "nvngx_dlssg.dll"@[10]);
        } else if i == 3 {
            let l = "nvngx_dlss.dll"@;
            assert(t[3].0 == l);
            assert(l.len() != "nvngx_dlssnr.dll"@.len());
            assert(l.len() != "nvngx_dlssg.dll"@.len());
            assert(l.len() != "nvngx_dlssd.dll"@.len());
        } else if i == 4 {
            let l = "libxess.dll"@;
            assert(t[4].0 == l);
            assert(l.len() != "nvngx_dlssnr.dll"@.len());
            assert(l.len() != "nvngx_dlssg.dll"@.len());
            assert(l.len() != "nvngx_dlssd.dll"@.len());
            assert(l.len() != "nvngx_dlss.dll"@.len());
        } else if i == 5 {
            let l = "libxess_dx11.dll"@;
            assert(t[5].0 == l);
            assert(l[0] != "nvngx_dlssnr.dll"@[0]);
            assert(l.len() != "nvngx_dlssg.dll"@.len());
            assert(l.len() != "nvngx_dlssd.dll"@.len());
            assert(l.len() != "nvngx_dlss.dll"@.len());
        } else if i == 6 {
            let l = "nvngx.dll"@;
            assert(t[6].0 == l);
            assert(l.len() != "nvngx_dlssnr.dll"@.len());
            assert(l.len() != "nvngx_dlssg.dll"@.len());
            assert(l.len() != "nvngx_dlssd.dll"@.len());
            assert(l.len() != "nvngx_dlss.dll"@.len());
            assert(l.len() != "libxess.dll"@.len());
            assert(l.len() != "libxess_dx11.dll"@.len());
        } else if i == 7 {
            let l = "_nvngx.dll"@;
            assert(t[7].0 == l);
            assert(l.len() != "nvngx_dlssnr.dll"@.len());
            assert(l.len() != "nvngx_dlssg.dll"@.len());
            assert(l.len() != "nvngx_dlssd.dll"@.len());
            assert(l.len() != "nvngx_dlss.dll"@.len());
            assert(l.len() != "libxess.dll"@.len());
            assert(l.len() != "libxess_dx11.dll"@.len());
        } else if i == 8 {
            let l = "nvapi64.dll"@;
            assert(t[8].0 == l);
            assert(l.len() != "nvngx_dlssnr.dll"@.len());
            assert(l.len() != "nvngx_dlssg.dll"@.len());
            assert(l.len() != "nvngx_dlssd.dll"@.len());
            assert(l.len() != "nvngx_dlss.dll"@.len());
            assert(l[0] != "libxess.dll"@[0]);
            assert(l.len() != "libxess_dx11.dll"@.len());
            assert(l.len() != "nvngx.dll"@.len());
            assert(l.len() != "_nvngx.dll"@.len());
        } else if i == 9 {
            let l = "nvapi.dll"@;
            assert(t[9].0 == l);
            assert(l.len() != "nvngx_dlssnr.dll"@.len());
            assert(l.len() != "nvngx_dlssg.dll"@.len());
            assert(l.len() != "nvngx_dlssd.dll"@.len());
            assert(l.len() != "nvngx_dlss.dll"@.len());
            assert(l.len() != "libxess.dll"@.len());
            assert(l.len() != "libxess_dx11.dll"@.len());
            assert(l[2] != "nvngx.dll"@[2]);
            assert(l.len() != "_nvngx.dll"@.len());
        }
    }
    assert forall|l: Seq<char>| starts_with(l, "ffx_fsr"@) || starts_with(l, "amd_fidelityfx"@) implies #[trigger] spec_feature(l)
        == Some(("FSR"@, 5u8)) by {
        assert(l.take(1)[0] == l[0]);
        assert(l[0] == 'f' || l[0] == 'a');
        assert forall|i: int| 0 <= i < t.len() implies l != #[trigger] t[i].0 by {
            if l == t[i].0 {
                assert(t[i].0[0] != 'f' && t[i].0[0] != 'a');
            }
        }
        assert(l != t[0].0 && l != t[1].0 && l != t[2].0 && l != t[3].0 && l != t[4].0);
        assert(l != t[5].0 && l != t[6].0 && l != t[7].0 && l != t[8].0 && l != t[9].0);
    }
    assert forall|l: Seq<char>| starts_with(l, "sl."@) && ends_with(l, ".dll"@) implies #[trigger] spec_feature(l)
        == Some(("NVIDIA Streamline"@, 7u8)) by {
        assert(l.take(3)[0] == l[0]);
        assert(l[0] == 's');
        assert forall|i: int| 0 <= i < t.len() implies l != #[trigger] t[i].0 by {
            if l == t[i].0 {
                assert(t[i].0[0] != 's');
            }
        }
        assert(l != t[0].0 && l != t[1].0 && l != t[2].0 && l != t[3].0 && l != t[4].0);
        assert(l != t[5].0 && l != t[6].0 && l != t[7].0 && l != t[8].0 && l != t[9].0);
        assert(!starts_with(l, "ffx_fsr"@) && !starts_with(l, "amd_fidelityfx"@)) by {
            if starts_with(l, "ffx_fsr"@) { assert(l.take(7)[0] == l[0]); }
            if starts_with(l, "amd_fidelityfx"@) { assert(l.take(14)[0] == l[0]); }
        }
    }
}

/// Nothing else is a feature: a name the table recognises is one of
/// [`named_features`], with that entry's feature and rank, or begins
/// `ffx_fsr` or `amd_fidelityfx` (FSR, rank 5), or is a `.dll` beginning
/// `sl.` (NVIDIA Streamline, rank 7).
pub proof fn lemma_feature_only(l: Seq<char>)
    ensures
        spec_feature(l) matches Some(hit) ==> (exists|i: int|
            0 <= i < named_features().len() && #[trigger] named_features()[i].0 == l && hit == (
                named_features()[i].1,
                named_features()[i].2,
            )) || ((starts_with(l, "ffx_fsr"@) || starts_with(l, "amd_fidelityfx"@)) && hit == (
            "FSR"@,
            5u8,
        )) || (starts_with(l, "sl."@) && ends_with(l, ".dll"@) && hit == ("NVIDIA Streamline"@, 7u8)),
{
    let t = named_features();
    if spec_feature(l) is Some {
        if l == t[0].0 {
            assert(t[0].0 == l);
        } else if l == t[1].0 {
            assert(t[1].0 == l);
        } else if l == t[2].0 {
            assert(t[2].0 == l);
        } else if l == t[3].0 {
            assert(t[3].0 == l);
        } else if l == t[4].0 {
            assert(t[4].0 == l);
        } else if l == t[5].0 {
            assert(t[5].0 == l);
        } else if l == t[6].0 {
            assert(t[6].0 == l);
        } else if l == t[7].0 {
            assert(t[7].0 == l);
        } else if l == t[8].0 {
            assert(t[8].0 == l);
        } else if l == t[9].0 {
            assert(t[9].0 == l);
        }
    }
}

/// Position of `l` among the system DLL names a local file can shadow, or
/// the last position for a name not among them.
pub open spec fn spec_proxy_rank(l: Seq<char>) -> u8 {
    if l == "dxgi.dll"@ {
        0
    } else if l == "d3d12.dll"@ {
        1
    } else if l == "d3d11.dll"@ {
        2
    } else if l == "d3d10.dll"@ {
        3
    } else if l == "d3d9.dll"@ {
        4
    } else if l == "d3d8.dll"@ {
        5
    } else if l == "ddraw.dll"@ {
        6
    } else if l == "opengl32.dll"@ {
        7
    } else if l == "vulkan-1.dll"@ {
        8
    } else if l == "dinput8.dll"@ {
        9
    } else if l == "dinput.dll"@ {
        10
    } else if l == "dsound.dll"@ {
        11
    } else if l == "winmm.dll"@ {
        12
    } else if l == "version.dll"@ {
        13
    } else if l == "winhttp.dll"@ {
        14
    } else if l == "xinput1_3.dll"@ {
        15
    } else if l == "xinput1_4.dll"@ {
        16
    } else {
        255
    }
}

/// True when a file named `l` beside an executable shadows a system DLL.
pub open spec fn spec_shadowable(l: Seq<char>) -> bool {
    spec_proxy_rank(l) != 255 || spec_renderer(l) is Some
}

/// Core Windows DLLs, never copied into a game directory.
pub open spec fn is_os_core(l: Seq<char>) -> bool {
    l == "advapi32.dll"@ || l == "gdi32.dll"@ || l == "kernel32.dll"@ || l == "kernelbase.dll"@
        || l == "ntdll.dll"@ || l == "ole32.dll"@ || l == "shell32.dll"@ || l == "user32.dll"@
        || l == "win32u.dll"@
}

/// How many of `names` are core Windows DLLs.
pub open spec fn os_core_count(names: Seq<Seq<char>>) -> nat
    decreases names.len(),
{
    if names.len() == 0 {
        0
    } else {
        os_core_count(names.drop_last()) + if is_os_core(lower_seq(names.last())) {
            1nat
        } else {
            0nat
        }
    }
}

/// True when the neighbours look like `System32`: three core DLLs or more.
pub open spec fn spec_system_directory(names: Seq<Seq<char>>) -> bool {
    os_core_count(names) >= 3
}

/// Leading substrings of DLL names worth pulling out of the crowd.
pub open spec fn has_graphics_prefix(l: Seq<char>) -> bool {
    starts_with(l, "amd_ags"@) || starts_with(l, "amdxc"@) || starts_with(l, "d3d"@)
        || starts_with(l, "ddraw"@) || starts_with(l, "dstorage"@) || starts_with(l, "dxcore"@)
        || starts_with(l, "dxgi"@) || starts_with(l, "dxil"@) || starts_with(l, "ffx_"@)
        || starts_with(l, "gfsdk"@) || starts_with(l, "glide"@) || starts_with(l, "igdext"@)
        || starts_with(l, "libxess"@) || starts_with(l, "nvapi"@) || starts_with(l, "nvngx"@)
        || starts_with(l, "nvofapi"@) || starts_with(l, "openvr"@) || starts_with(l, "openxr"@)
        || starts_with(l, "opengl"@) || starts_with(l, "sl."@) || starts_with(l, "vulkan"@)
        || starts_with(l, "xess"@)
}

/// True when `name` is a library worth separating from the api-set stubs in
/// a printed import list.
pub open spec fn spec_is_graphics_related(name: Seq<char>) -> bool {
    let l = lower_seq(name);
    spec_renderer(l) is Some || spec_shared(l) is Some || spec_feature(l) is Some
        || has_graphics_prefix(l)
}

/// Which table an observation is read against, and for which list.
#[derive(Clone, Copy)]
pub enum Table {
    /// An import or a linked import naming a graphics API.
    Renderer,
    /// An import naming shared plumbing and no API.
    Shared,
    /// An import naming a vendor feature and nothing above.
    Feature,
    /// A neighbouring file that is the Agility runtime.
    NeighbourRenderer,
    /// A neighbouring file that shadows a system DLL.
    NeighbourOverride,
    /// A neighbouring file that is a vendor feature and nothing above.
    NeighbourFeature,
}

/// What `l` (lowercase) contributes under `t`.
pub open spec fn pick(t: Table, l: Seq<char>) -> Option<(Seq<char>, u8)> {
    match t {
        Table::Renderer => spec_renderer(l),
        Table::Shared => if spec_renderer(l) is Some {
            None
        } else {
            spec_shared(l)
        },
        Table::Feature => if spec_renderer(l) is Some || spec_shared(l) is Some {
            None
        } else {
            spec_feature(l)
        },
        Table::NeighbourRenderer => if l == "d3d12core.dll"@ {
            spec_renderer(l)
        } else {
            None
        },
        Table::NeighbourOverride => if l != "d3d12core.dll"@ && spec_shadowable(l) {
            Some(("local copy of a system DLL"@, spec_proxy_rank(l)))
        } else {
            None
        },
        Table::NeighbourFeature => if l != "d3d12core.dll"@ && !spec_shadowable(l) {
            spec_feature(l)
        } else {
            None
        },
    }
}

/// A fresh signal nobody has looked up a version for.
pub open spec fn unread(library: Seq<char>, source: Source) -> SignalV {
    SignalV { library, source, version: FileVersion::Unread }
}

/// The index of the first finding named `name` at or after `from`, or the
/// length when there is none.
pub open spec fn find_named(fs: Seq<FindingV>, name: Seq<char>, from: int) -> int
    decreases fs.len() - from,
{
    if from >= fs.len() {
        fs.len() as int
    } else if fs[from].name == name {
        from
    } else {
        find_named(fs, name, from + 1)
    }
}

/// True when `sigs` already quote `library` (ignoring ASCII case) from
/// `source`.
pub open spec fn has_signal(sigs: Seq<SignalV>, source: Source, library: Seq<char>) -> bool {
    exists|j: int|
        0 <= j < sigs.len() && #[trigger] sigs[j].source == source && eq_ignore_case(
            sigs[j].library,
            library,
        )
}

/// One observation merged into the findings it supports: a new signal for an
/// existing finding of that name unless it already quotes the library from
/// that source, or a new finding.
pub open spec fn merge(
    fs: Seq<FindingV>,
    name: Seq<char>,
    rank: u8,
    library: Seq<char>,
    source: Source,
) -> Seq<FindingV> {
    let k = find_named(fs, name, 0);
    if k < fs.len() {
        if has_signal(fs[k].signals, source, library) {
            fs
        } else {
            fs.update(
                k,
                FindingV {
                    name: fs[k].name,
                    signals: fs[k].signals.push(unread(library, source)),
                    rank: fs[k].rank,
                },
            )
        }
    } else {
        fs.push(FindingV { name, signals: seq![unread(library, source)], rank })
    }
}

/// Every name in `names`, read against `t`, merged into `fs` in order. The
/// signal quotes `library` when there is one, else the name itself.
pub open spec fn gather(
    fs: Seq<FindingV>,
    names: Seq<Seq<char>>,
    library: Option<Seq<char>>,
    source: Source,
    t: Table,
) -> Seq<FindingV>
    decreases names.len(),
{
    if names.len() == 0 {
        fs
    } else {
        let before = gather(fs, names.drop_last(), library, source, t);
        match pick(t, lower_seq(names.last())) {
            Some((label, rank)) => merge(
                before,
                label,
                rank,
                match library {
                    Some(l) => l,
                    None => names.last(),
                },
                source,
            ),
            None => before,
        }
    }
}

/// A linked library as plain values.
pub struct LinkedV {
    pub library: Seq<char>,
    pub imports: Seq<Seq<char>>,
    pub delay_imports: Seq<Seq<char>>,
}

impl View for Linked {
    type V = LinkedV;

    open spec fn view(&self) -> LinkedV {
        LinkedV {
            library: self.library@,
            imports: texts(self.imports@),
            delay_imports: texts(self.delay_imports@),
        }
    }
}

/// Evidence as plain values.
pub struct EvidenceV {
    pub imports: Seq<Seq<char>>,
    pub delay_imports: Seq<Seq<char>>,
    pub neighbours: Seq<Seq<char>>,
    pub linked: Seq<LinkedV>,
}

impl View for Evidence {
    type V = EvidenceV;

    open spec fn view(&self) -> EvidenceV {
        EvidenceV {
            imports: texts(self.imports@),
            delay_imports: texts(self.delay_imports@),
            neighbours: texts(self.neighbours@),
            linked: self.linked@.map_values(|l: Linked| l@),
        }
    }
}

/// The imports of each linked library, attributed to that library.
pub open spec fn gather_links(fs: Seq<FindingV>, links: Seq<LinkedV>, t: Table) -> Seq<FindingV>
    decreases links.len(),
{
    if links.len() == 0 {
        fs
    } else {
        let l = links.last();
        gather(
            gather(gather_links(fs, links.drop_last(), t), l.imports, Some(l.library), Source::Linked, t),
            l.delay_imports,
            Some(l.library),
            Source::Linked,
            t,
        )
    }
}

/// Strongest source first, then the library's spelling.
pub open spec fn signal_lt(a: SignalV, b: SignalV) -> bool {
    strength_rank(a.source) < strength_rank(b.source) || (a.source == b.source && text_lt(
        a.library,
        b.library,
    ))
}

/// Strongest finding first, then the table position.
pub open spec fn finding_lt(a: FindingV, b: FindingV) -> bool {
    strength_rank(strength_of(a)) < strength_rank(strength_of(b)) || (strength_of(a)
        == strength_of(b) && a.rank < b.rank)
}

pub open spec fn signal_order() -> spec_fn(SignalV, SignalV) -> bool {
    |a: SignalV, b: SignalV| signal_lt(a, b)
}

pub open spec fn finding_order() -> spec_fn(FindingV, FindingV) -> bool {
    |a: FindingV, b: FindingV| finding_lt(a, b)
}

/// A finding with its signals in order.
pub open spec fn sorted_signals(f: FindingV) -> FindingV {
    FindingV { name: f.name, signals: sort_by(f.signals, signal_order()), rank: f.rank }
}

/// A collected list as reported: each finding's signals stably sorted, then
/// the findings stably sorted by strength and table position.
pub open spec fn finish(fs: Seq<FindingV>) -> Seq<FindingV> {
    sort_by(fs.map_values(|f: FindingV| sorted_signals(f)), finding_order())
}

/// What [`analyse`] concludes from `e`: imports, then delay imports, then
/// linked libraries (renderers and infrastructure only), then the directory
/// unless it is Windows' own, each list merged and ordered.
pub open spec fn spec_analyse(e: EvidenceV) -> VerdictV {
    let system = spec_system_directory(e.neighbours);
    let r0 = gather(
        gather(Seq::empty(), e.imports, None, Source::Import, Table::Renderer),
        e.delay_imports,
        None,
        Source::DelayImport,
        Table::Renderer,
    );
    let r1 = gather_links(r0, e.linked, Table::Renderer);
    let r2 = if system {
        r1
    } else {
        gather(r1, e.neighbours, None, Source::Neighbour, Table::NeighbourRenderer)
    };
    let i0 = gather(
        gather(Seq::empty(), e.imports, None, Source::Import, Table::Shared),
        e.delay_imports,
        None,
        Source::DelayImport,
        Table::Shared,
    );
    let i1 = gather_links(i0, e.linked, Table::Shared);
    let f0 = gather(
        gather(Seq::empty(), e.imports, None, Source::Import, Table::Feature),
        e.delay_imports,
        None,
        Source::DelayImport,
        Table::Feature,
    );
    let f1 = if system {
        f0
    } else {
        gather(f0, e.neighbours, None, Source::Neighbour, Table::NeighbourFeature)
    };
    let o1 = if system {
        Seq::empty()
    } else {
        gather(Seq::empty(), e.neighbours, None, Source::Neighbour, Table::NeighbourOverride)
    };
    VerdictV {
        renderers: finish(r2),
        infrastructure: finish(i1),
        features: finish(f1),
        local_overrides: finish(o1),
    }
}

/// Shared plumbing, if `l` is one of its entry points.
fn shared(l: &str) -> (h: Option<(&'static str, u8)>)
    ensures
        hit_view(h) == spec_shared(l@),
{
    if same_text(l, "dxgi.dll") {
        Some(("DXGI", 1))
    } else if same_text(l, "dxcore.dll") {
        Some(("DXCore", 2))
    } else {
        None
    }
}

/// A graphics API, if `l` is one of its entry points.
fn renderer(l: &str) -> (h: Option<(&'static str, u8)>)
    ensures
        hit_view(h) == spec_renderer(l@),
{
    if same_text(l, "d3d12.dll") || same_text(l, "d3d12core.dll") {
        Some(("Direct3D 12", 1))
    } else if same_text(l, "vulkan-1.dll") {
        Some(("Vulkan", 2))
    } else if same_text(l, "d3d11.dll") || same_text(l, "d3d11_1.dll") || same_text(
        l,
        "d3d11_2.dll",
    ) || same_text(l, "d3d11_3.dll") || same_text(l, "d3d11_4.dll") || same_text(
        l,
        "d3d11on12.dll",
    ) {
        Some(("Direct3D 11", 3))
    } else if same_text(l, "d3d10.dll") || same_text(l, "d3d10_1.dll") || same_text(
        l,
        "d3d10core.dll",
    ) || same_text(l, "d3d10_1core.dll") {
        Some(("Direct3D 10", 4))
    } else if same_text(l, "opengl32.dll") {
        Some(("OpenGL", 5))
    } else if same_text(l, "d3d9.dll") {
        Some(("Direct3D 9", 6))
    } else if same_text(l, "d3d8.dll") {
        Some(("Direct3D 8", 7))
    } else if same_text(l, "ddraw.dll") {
        Some(("DirectDraw", 8))
    } else {
        None
    }
}

/// Whether `l` begins with `prefix`.
fn begins(l: &str, prefix: &str) -> (r: bool)
    ensures
        r == starts_with(l@, prefix@),
{
    let x = chars_of(l);
    let p = chars_of(prefix);
    has_prefix(&x, &p)
}

/// Whether `l` ends with `suffix`.
fn finishes(l: &str, suffix: &str) -> (r: bool)
    ensures
        r == ends_with(l@, suffix@),
{
    let x = chars_of(l);
    let p = chars_of(suffix);
    if p.len() > x.len() {
        return false;
    }
    let xl = x.len();
    let start = xl - p.len();
    let mut i: usize = 0;
    while i < p.len()
        invariant
            i <= p@.len(),
            x@ == l@,
            p@ == suffix@,
            x@.len() == xl,
            start + p@.len() == xl,
            forall|j: int| 0 <= j < i ==> x@[start + j] == p@[j],
        decreases p@.len() - i,
    {
        if x[start + i] != p[i] {
            assert(x@.skip(start as int)[i as int] != p@[i as int]);
            return false;
        }
        i = i + 1;
    }
    assert(x@.skip(start as int) =~= p@);
    true
}

/// A vendor feature, if `l` is one of its libraries.
fn feature(l: &str) -> (h: Option<(&'static str, u8)>)
    ensures
        hit_view(h) == spec_feature(l@),
{
    if same_text(l, "nvngx_dlssnr.dll") {
        Some(("DLSS Neural Rendering", 1))
    } else if same_text(l, "nvngx_dlssg.dll") {
        Some(("DLSS Frame Generation", 2))
    } else if same_text(l, "nvngx_dlssd.dll") {
        Some(("DLSS Ray Reconstruction", 3))
    } else if same_text(l, "nvngx_dlss.dll") {
        Some(("DLSS Super Resolution", 4))
    } else if same_text(l, "libxess.dll") || same_text(l, "libxess_dx11.dll") {
        Some(("XeSS", 6))
    } else if same_text(l, "nvngx.dll") || same_text(l, "_nvngx.dll") {
        Some(("NGX loader", 8))
    } else if same_text(l, "nvapi64.dll") || same_text(l, "nvapi.dll") {
        Some(("NVAPI", 9))
    } else if begins(l, "ffx_fsr") || begins(l, "amd_fidelityfx") {
        Some(("FSR", 5))
    } else if begins(l, "sl.") && finishes(l, ".dll") {
        Some(("NVIDIA Streamline", 7))
    } else {
        None
    }
}

/// Position of `l` among the shadowable system DLL names.
fn proxy_rank(l: &str) -> (r: u8)
    ensures
        r == spec_proxy_rank(l@),
{
    if same_text(l, "dxgi.dll") {
        0
    } else if same_text(l, "d3d12.dll") {
        1
    } else if same_text(l, "d3d11.dll") {
        2
    } else if same_text(l, "d3d10.dll") {
        3
    } else if same_text(l, "d3d9.dll") {
        4
    } else if same_text(l, "d3d8.dll") {
        5
    } else if same_text(l, "ddraw.dll") {
        6
    } else if same_text(l, "opengl32.dll") {
        7
    } else if same_text(l, "vulkan-1.dll") {
        8
    } else if same_text(l, "dinput8.dll") {
        9
    } else if same_text(l, "dinput.dll") {
        10
    } else if same_text(l, "dsound.dll") {
        11
    } else if same_text(l, "winmm.dll") {
        12
    } else if same_text(l, "version.dll") {
        13
    } else if same_text(l, "winhttp.dll") {
        14
    } else if same_text(l, "xinput1_3.dll") {
        15
    } else if same_text(l, "xinput1_4.dll") {
        16
    } else {
        255
    }
}

/// Whether a file named `l` beside an executable shadows a system DLL.
pub fn is_shadowable(l: &str) -> (r: bool)
    ensures
        r == spec_shadowable(l@),
{
    proxy_rank(l) != 255 || renderer(l).is_some()
}

/// Whether `l` is a core Windows DLL.
fn os_core(l: &str) -> (r: bool)
    ensures
        r == is_os_core(l@),
{
    same_text(l, "advapi32.dll") || same_text(l, "gdi32.dll") || same_text(l, "kernel32.dll")
        || same_text(l, "kernelbase.dll") || same_text(l, "ntdll.dll") || same_text(
        l,
        "ole32.dll",
    ) || same_text(l, "shell32.dll") || same_text(l, "user32.dll") || same_text(
        l,
        "win32u.dll",
    )
}

/// True when the neighbours look like `System32` or `SysWOW64`, where every
/// system DLL would otherwise read as an injector.
fn looks_like_system_directory(neighbours: &Vec<String>) -> (r: bool)
    ensures
        r == spec_system_directory(texts(neighbours@)),
{
    let ghost names = texts(neighbours@);
    let mut seen: usize = 0;
    let mut i: usize = 0;
    while i < neighbours.len()
        invariant
            i <= neighbours@.len(),
            names == texts(neighbours@),
            seen == os_core_count(names.take(i as int)),
            seen < 3,
        decreases neighbours@.len() - i,
    {
        assert(names.take(i + 1).drop_last() =~= names.take(i as int));
        let lower = to_lower(neighbours[i].as_str());
        if os_core(lower.as_str()) {
            seen = seen + 1;
            if seen >= 3 {
                proof {
                    lemma_os_core_count_grows(names, i + 1);
                }
                return true;
            }
        }
        i = i + 1;
    }
    assert(names.take(i as int) =~= names);
    false
}

/// A longer list of names holds at least as many core DLLs.
proof fn lemma_os_core_count_grows(names: Seq<Seq<char>>, k: int)
    requires
        0 <= k <= names.len(),
    ensures
        os_core_count(names.take(k)) <= os_core_count(names),
    decreases names.len() - k,
{
    if k < names.len() {
        assert(names.take(k + 1).drop_last() =~= names.take(k));
        lemma_os_core_count_grows(names, k + 1);
    } else {
        assert(names.take(k) =~= names);
    }
}

/// True when `name` is a library worth separating from the api-set stubs in a
/// printed import list.
pub fn is_graphics_related(name: &str) -> (r: bool)
    ensures
        r == spec_is_graphics_related(name@),
{
    let lower = to_lower(name);
    let l = lower.as_str();
    renderer(l).is_some() || shared(l).is_some() || feature(l).is_some() || begins(l, "amd_ags")
        || begins(l, "amdxc") || begins(l, "d3d") || begins(l, "ddraw") || begins(l, "dstorage")
        || begins(l, "dxcore") || begins(l, "dxgi") || begins(l, "dxil") || begins(l, "ffx_")
        || begins(l, "gfsdk") || begins(l, "glide") || begins(l, "igdext") || begins(
        l,
        "libxess",
    ) || begins(l, "nvapi") || begins(l, "nvngx") || begins(l, "nvofapi") || begins(l, "openvr")
        || begins(l, "openxr") || begins(l, "opengl") || begins(l, "sl.") || begins(l, "vulkan")
        || begins(l, "xess")
}

/// What `l` contributes under `t`.
fn classify(t: Table, l: &str) -> (h: Option<(&'static str, u8)>)
    ensures
        hit_view(h) == pick(t, l@),
{
    match t {
        Table::Renderer => renderer(l),
        Table::Shared => if renderer(l).is_some() {
            None
        } else {
            shared(l)
        },
        Table::Feature => if renderer(l).is_some() || shared(l).is_some() {
            None
        } else {
            feature(l)
        },
        Table::NeighbourRenderer => if same_text(l, D3D12_CORE) {
            renderer(l)
        } else {
            None
        },
        Table::NeighbourOverride => if !same_text(l, D3D12_CORE) && is_shadowable(l) {
            Some((LOCAL_OVERRIDE, proxy_rank(l)))
        } else {
            None
        },
        Table::NeighbourFeature => if !same_text(l, D3D12_CORE) && !is_shadowable(l) {
            feature(l)
        } else {
            None
        },
    }
}

/// Accumulates findings, merging repeat observations into the one they
/// support.
pub struct Collector {
    pub findings: Vec<Finding>,
}

impl Collector {
    pub fn new() -> (c: Collector)
        ensures
            findings_view(c.findings@) == Seq::<FindingV>::empty(),
    {
        let c = Collector { findings: Vec::new() };
        assert(findings_view(c.findings@) =~= Seq::<FindingV>::empty());
        c
    }

    /// Merges one observation: see [`merge`].
    pub fn add(&mut self, name: &str, rank: u8, library: &str, source: Source)
        ensures
            findings_view(final(self).findings@) == merge(
                findings_view(old(self).findings@),
                name@,
                rank,
                library@,
                source,
            ),
    {
        let ghost fs = findings_view(self.findings@);
        let mut k: usize = 0;
        while k < self.findings.len() && !same_text(self.findings[k].name.as_str(), name)
            invariant
                k <= self.findings@.len(),
                fs == findings_view(self.findings@),
                find_named(fs, name@, 0) == find_named(fs, name@, k as int),
            decreases self.findings@.len() - k,
        {
            k = k + 1;
        }
        let signal = Signal {
            library: copy_text(library),
            source,
            version: FileVersion::Unread,
        };
        if k < self.findings.len() {
            let mut dup = false;
            let mut j: usize = 0;
            let ghost sigs = fs[k as int].signals;
            let existing = &self.findings[k].signals;
            assert(sigs == signals_view(existing@));
            while j < existing.len()
                invariant
                    sigs == signals_view(existing@),
                    j <= sigs.len(),
                    dup == (exists|m: int|
                        0 <= m < j && #[trigger] sigs[m].source == source && eq_ignore_case(
                            sigs[m].library,
                            library@,
                        )),
                decreases sigs.len() - j,
            {
                let candidate = &existing[j];
                assert(sigs[j as int] == candidate@);
                let same_source = candidate.source == source;
                let same_library = eq_ignore_ascii_case(candidate.library.as_str(), library);
                assert(same_source == (sigs[j as int].source == source));
                assert(same_library == eq_ignore_case(sigs[j as int].library, library@));
                if same_source && same_library {
                    dup = true;
                }
                j = j + 1;
            }
            if !dup {
                let mut f = self.findings.remove(k);
                f.signals.push(signal);
                self.findings.insert(k, f);
                proof {
                    assert(signals_view(f.signals@) =~= sigs.push(unread(library@, source)));
                    assert(findings_view(self.findings@) =~= fs.update(k as int, f@));
                }
            }
        } else {
            let f = Finding { name: copy_text(name), signals: vec![signal], rank };
            self.findings.push(f);
            proof {
                assert(signals_view(f.signals@) =~= seq![unread(library@, source)]);
                assert(findings_view(self.findings@) =~= fs.push(f@));
            }
        }
    }

    /// Every name of `names` read against `t`, merged in order.
    pub fn gather(&mut self, names: &Vec<String>, library: Option<&str>, source: Source, t: Table)
        ensures
            findings_view(final(self).findings@) == gather(
                findings_view(old(self).findings@),
                texts(names@),
                match library {
                    Some(l) => Some(l@),
                    None => None,
                },
                source,
                t,
            ),
    {
        let ghost start = findings_view(self.findings@);
        let ghost all = texts(names@);
        let ghost lib = match library {
            Some(l) => Some(l@),
            None => None::<Seq<char>>,
        };
        let mut i: usize = 0;
        while i < names.len()
            invariant
                i <= names@.len(),
                all == texts(names@),
                lib == match library {
                    Some(l) => Some(l@),
                    None => None::<Seq<char>>,
                },
                findings_view(self.findings@) == gather(start, all.take(i as int), lib, source, t),
            decreases names@.len() - i,
        {
            assert(all.take(i + 1).drop_last() =~= all.take(i as int));
            assert(all.take(i + 1).last() == names@[i as int]@);
            let lower = to_lower(names[i].as_str());
            match classify(t, lower.as_str()) {
                Some((label, rank)) => {
                    let quoted = match library {
                        Some(l) => l,
                        None => names[i].as_str(),
                    };
                    self.add(label, rank, quoted, source);
                },
                None => {},
            }
            i = i + 1;
        }
        assert(all.take(i as int) =~= all);
    }
}

/// Whether signal `a` sorts strictly before `b`.
fn signal_before(a: &Signal, b: &Signal) -> (r: bool)
    ensures
        r == signal_lt(a@, b@),
{
    a.source.stronger_than(b.source) || (a.source == b.source && text_before(
        a.library.as_str(),
        b.library.as_str(),
    ))
}

/// Whether finding `a` sorts strictly before `b`.
fn finding_before(a: &Finding, b: &Finding) -> (r: bool)
    ensures
        r == finding_lt(a@, b@),
{
    let sa = a.strength();
    let sb = b.strength();
    sa.stronger_than(sb) || (sa == sb && a.rank < b.rank)
}

/// `v` stably sorted: strongest source first, then by spelling.
fn sort_signals(v: Vec<Signal>) -> (out: Vec<Signal>)
    ensures
        signals_view(out@) == sort_by(signals_view(v@), signal_order()),
{
    let ghost orig = signals_view(v@);
    let total = v.len();
    let mut rest = v;
    let mut out: Vec<Signal> = Vec::new();
    let mut i: usize = 0;
    assert(orig.skip(0) =~= orig);
    assert(orig.take(0) =~= Seq::<SignalV>::empty());
    assert(signals_view(out@) =~= Seq::<SignalV>::empty());
    while rest.len() > 0
        invariant
            i + rest@.len() == orig.len(),
            orig.len() == total,
            signals_view(rest@) == orig.skip(i as int),
            signals_view(out@) == sort_by(orig.take(i as int), signal_order()),
        decreases rest@.len(),
    {
        let ghost before = rest@;
        let x = rest.remove(0);
        assert(signals_view(before)[0] == x@);
        assert(orig.skip(i as int)[0] == orig[i as int]);
        assert(signals_view(rest@) =~= signals_view(before).drop_first());
        assert(orig.skip(i as int).drop_first() =~= orig.skip(i + 1));
        let ghost sorted = signals_view(out@);
        let mut k: usize = 0;
        while k < out.len() && !signal_before(&x, &out[k])
            invariant
                k <= out@.len(),
                sorted == signals_view(out@),
                forall|j: int| 0 <= j < k ==> !signal_lt(x@, #[trigger] sorted[j]),
            decreases out@.len() - k,
        {
            k = k + 1;
        }
        proof {
            assert(forall|j: int| 0 <= j < k ==> !(signal_order())(x@, #[trigger] sorted[j]));
            lemma_insert_at(x@, sorted, signal_order(), k as int);
            assert(orig.take(i + 1).drop_last() =~= orig.take(i as int));
        }
        out.insert(k, x);
        i = i + 1;
        assert(signals_view(out@) =~= sorted.take(k as int) + seq![x@] + sorted.skip(k as int));
    }
    assert(orig.take(i as int) =~= orig);
    out
}

/// `v` stably sorted: strongest first, then by table position.
fn sort_findings(v: Vec<Finding>) -> (out: Vec<Finding>)
    ensures
        findings_view(out@) == sort_by(findings_view(v@), finding_order()),
{
    let ghost orig = findings_view(v@);
    let total = v.len();
    let mut rest = v;
    let mut out: Vec<Finding> = Vec::new();
    let mut i: usize = 0;
    assert(orig.skip(0) =~= orig);
    assert(orig.take(0) =~= Seq::<FindingV>::empty());
    assert(findings_view(out@) =~= Seq::<FindingV>::empty());
    while rest.len() > 0
        invariant
            i + rest@.len() == orig.len(),
            orig.len() == total,
            findings_view(rest@) == orig.skip(i as int),
            findings_view(out@) == sort_by(orig.take(i as int), finding_order()),
        decreases rest@.len(),
    {
        let ghost before = rest@;
        let x = rest.remove(0);
        assert(findings_view(before)[0] == x@);
        assert(orig.skip(i as int)[0] == orig[i as int]);
        assert(findings_view(rest@) =~= findings_view(before).drop_first());
        assert(orig.skip(i as int).drop_first() =~= orig.skip(i + 1));
        let ghost sorted = findings_view(out@);
        let mut k: usize = 0;
        while k < out.len() && !finding_before(&x, &out[k])
            invariant
                k <= out@.len(),
                sorted == findings_view(out@),
                forall|j: int| 0 <= j < k ==> !finding_lt(x@, #[trigger] sorted[j]),
            decreases out@.len() - k,
        {
            k = k + 1;
        }
        proof {
            assert(forall|j: int| 0 <= j < k ==> !(finding_order())(x@, #[trigger] sorted[j]));
            lemma_insert_at(x@, sorted, finding_order(), k as int);
            assert(orig.take(i + 1).drop_last() =~= orig.take(i as int));
        }
        out.insert(k, x);
        i = i + 1;
        assert(findings_view(out@) =~= sorted.take(k as int) + seq![x@] + sorted.skip(k as int));
    }
    assert(orig.take(i as int) =~= orig);
    out
}

impl Collector {
    /// The findings as reported: see [`finish`].
    pub fn finish(self) -> (out: Vec<Finding>)
        ensures
            findings_view(out@) == finish(findings_view(self.findings@)),
    {
        let ghost orig = findings_view(self.findings@);
        let total = self.findings.len();
        let mut rest = self.findings;
        let mut done: Vec<Finding> = Vec::new();
        let mut i: usize = 0;
        assert(orig.skip(0) =~= orig);
        while rest.len() > 0
            invariant
                i + rest@.len() == orig.len(),
                orig.len() == total,
                findings_view(rest@) == orig.skip(i as int),
                findings_view(done@) == orig.take(i as int).map_values(
                    |f: FindingV| sorted_signals(f),
                ),
            decreases rest@.len(),
        {
            let ghost before = rest@;
            let f = rest.remove(0);
            assert(findings_view(before)[0] == f@);
            assert(orig.skip(i as int)[0] == orig[i as int]);
            assert(findings_view(rest@) =~= findings_view(before).drop_first());
            assert(orig.skip(i as int).drop_first() =~= orig.skip(i + 1));
            let ghost done_before = findings_view(done@);
            let Finding { name, signals, rank } = f;
            let sorted = Finding { name, signals: sort_signals(signals), rank };
            done.push(sorted);
            assert(sorted@ == sorted_signals(orig[i as int]));
            assert(findings_view(done@) =~= done_before.push(sorted@));
            assert(orig.take(i + 1) =~= orig.take(i as int).push(orig[i as int]));
            i = i + 1;
            assert(findings_view(done@) =~= orig.take(i as int).map_values(
                |f: FindingV| sorted_signals(f),
            ));
        }
        assert(orig.take(i as int) =~= orig);
        sort_findings(done)
    }
}

/// Two findings of one name.
pub open spec fn same_name() -> spec_fn(FindingV, FindingV) -> bool {
    |x: FindingV, y: FindingV| x.name == y.name
}

/// Two signals that quote one library, ignoring ASCII case, from one source.
pub open spec fn clash() -> spec_fn(SignalV, SignalV) -> bool {
    |x: SignalV, y: SignalV| x.source == y.source && eq_ignore_case(x.library, y.library)
}

/// A finding as analysis makes it: at least one signal, no two quoting one
/// library from one source, and no version read yet.
pub open spec fn sound_finding(f: FindingV) -> bool {
    &&& f.signals.len() > 0
    &&& apart(f.signals, clash())
    &&& forall|k: int| 0 <= k < f.signals.len() ==> (#[trigger] f.signals[k]).version == FileVersion::Unread
}

/// Findings as collected: each sound, no two of one name.
pub open spec fn collected(fs: Seq<FindingV>) -> bool {
    &&& apart(fs, same_name())
    &&& forall|i: int| 0 <= i < fs.len() ==> sound_finding(#[trigger] fs[i])
}

/// A list as analysis reports it: collected, strongest first and then by
/// table position, each finding's signals strongest first and then by
/// library, so a finding's strength is that of its strongest signal.
pub open spec fn reported(fs: Seq<FindingV>) -> bool {
    &&& collected(fs)
    &&& in_order(fs, finding_order())
    &&& forall|i: int| 0 <= i < fs.len() ==> in_order((#[trigger] fs[i]).signals, signal_order())
    &&& forall|i: int, k: int|
        0 <= i < fs.len() && 0 <= k < fs[i].signals.len() ==> strength_rank(strength_of(#[trigger] fs[i]))
            <= strength_rank((#[trigger] fs[i].signals[k]).source)
}

proof fn lemma_find_named(fs: Seq<FindingV>, name: Seq<char>, from: int)
    requires
        0 <= from <= fs.len(),
    ensures
        from <= find_named(fs, name, from) <= fs.len(),
        find_named(fs, name, from) < fs.len() ==> fs[find_named(fs, name, from)].name == name,
        find_named(fs, name, from) == fs.len() ==> forall|i: int| from <= i < fs.len() ==> (#[trigger] fs[i]).name != name,
    decreases fs.len() - from,
{
    if from < fs.len() && fs[from].name != name {
        lemma_find_named(fs, name, from + 1);
    }
}

proof fn lemma_merge_collected(fs: Seq<FindingV>, name: Seq<char>, rank: u8, library: Seq<char>, source: Source)
    requires
        collected(fs),
    ensures
        collected(merge(fs, name, rank, library, source)),
{
    lemma_find_named(fs, name, 0);
    let k = find_named(fs, name, 0);
    let out = merge(fs, name, rank, library, source);
    if k < fs.len() {
        if !has_signal(fs[k].signals, source, library) {
            let old_sigs = fs[k].signals;
            let sigs = old_sigs.push(unread(library, source));
            assert(sound_finding(fs[k]));
            assert forall|i: int, j: int|
                0 <= i < sigs.len() && 0 <= j < sigs.len() && i != j implies !(clash())(
                #[trigger] sigs[i],
                #[trigger] sigs[j],
            ) by {
                if i < old_sigs.len() && j < old_sigs.len() {
                    assert(sigs[i] == old_sigs[i] && sigs[j] == old_sigs[j]);
                } else if i < old_sigs.len() {
                    assert(sigs[i] == old_sigs[i]);
                    if (clash())(sigs[i], sigs[j]) {
                        assert(old_sigs[i].source == source && eq_ignore_case(old_sigs[i].library, library));
                    }
                } else {
                    assert(sigs[j] == old_sigs[j]);
                    if (clash())(sigs[i], sigs[j]) {
                        assert(old_sigs[j].source == source && eq_ignore_case(old_sigs[j].library, library));
                    }
                }
            }
            assert forall|m: int| 0 <= m < sigs.len() implies (#[trigger] sigs[m]).version == FileVersion::Unread by {
                if m < old_sigs.len() {
                    assert(sigs[m] == old_sigs[m]);
                }
            }
            assert(sound_finding(out[k]));
            assert forall|i: int| 0 <= i < out.len() implies sound_finding(#[trigger] out[i]) by {
                if i != k {
                    assert(out[i] == fs[i]);
                }
            }
            assert forall|i: int, j: int|
                0 <= i < out.len() && 0 <= j < out.len() && i != j implies !(same_name())(
                #[trigger] out[i],
                #[trigger] out[j],
            ) by {
                assert(out[i].name == fs[i].name && out[j].name == fs[j].name);
            }
        }
    } else {
        let f = FindingV { name, signals: seq![unread(library, source)], rank };
        assert(sound_finding(f));
        assert forall|i: int| 0 <= i < out.len() implies sound_finding(#[trigger] out[i]) by {
            if i < fs.len() {
                assert(out[i] == fs[i]);
            }
        }
        assert forall|i: int, j: int|
            0 <= i < out.len() && 0 <= j < out.len() && i != j implies !(same_name())(
            #[trigger] out[i],
            #[trigger] out[j],
        ) by {
            if i < fs.len() && j < fs.len() {
                assert(out[i] == fs[i] && out[j] == fs[j]);
            } else if i < fs.len() {
                assert(out[i] == fs[i]);
            } else {
                assert(out[j] == fs[j]);
            }
        }
    }
}

proof fn lemma_gather_collected(
    fs: Seq<FindingV>,
    names: Seq<Seq<char>>,
    library: Option<Seq<char>>,
    source: Source,
    t: Table,
)
    requires
        collected(fs),
    ensures
        collected(gather(fs, names, library, source, t)),
    decreases names.len(),
{
    if names.len() > 0 {
        lemma_gather_collected(fs, names.drop_last(), library, source, t);
        let before = gather(fs, names.drop_last(), library, source, t);
        match pick(t, lower_seq(names.last())) {
            Some((label, rank)) => {
                lemma_merge_collected(
                    before,
                    label,
                    rank,
                    match library {
                        Some(l) => l,
                        None => names.last(),
                    },
                    source,
                );
            },
            None => {},
        }
    }
}

proof fn lemma_gather_links_collected(fs: Seq<FindingV>, links: Seq<LinkedV>, t: Table)
    requires
        collected(fs),
    ensures
        collected(gather_links(fs, links, t)),
    decreases links.len(),
{
    if links.len() > 0 {
        let l = links.last();
        lemma_gather_links_collected(fs, links.drop_last(), t);
        let a = gather_links(fs, links.drop_last(), t);
        lemma_gather_collected(a, l.imports, Some(l.library), Source::Linked, t);
        lemma_gather_collected(
            gather(a, l.imports, Some(l.library), Source::Linked, t),
            l.delay_imports,
            Some(l.library),
            Source::Linked,
            t,
        );
    }
}

proof fn lemma_orders_strict()
    ensures
        strict_order(signal_order()),
        strict_order(finding_order()),
{
    assert forall|a: SignalV| !#[trigger] (signal_order())(a, a) by {
        lemma_text_lt_irreflexive(a.library);
    }
    assert forall|a: SignalV, b: SignalV, c: SignalV|
        #[trigger] (signal_order())(a, b) && #[trigger] (signal_order())(b, c) implies (signal_order())(
        a,
        c,
    ) by {
        if a.source == b.source && b.source == c.source && text_lt(a.library, b.library) && text_lt(
            b.library,
            c.library,
        ) {
            lemma_text_lt_transitive(a.library, b.library, c.library);
        }
    }
}

/// Finishing a collected list reports it.
proof fn lemma_finish_reported(fs: Seq<FindingV>)
    requires
        collected(fs),
    ensures
        reported(finish(fs)),
{
    lemma_orders_strict();
    let mapped = fs.map_values(|f: FindingV| sorted_signals(f));
    assert forall|i: int| 0 <= i < mapped.len() implies sound_finding(#[trigger] mapped[i]) && in_order(
        mapped[i].signals,
        signal_order(),
    ) by {
        let f = fs[i];
        assert(sound_finding(f));
        assert(mapped[i] == sorted_signals(f));
        let sorted = sort_by(f.signals, signal_order());
        lemma_sort_by_multiset(f.signals, signal_order());
        lemma_sort_by_in_order(f.signals, signal_order());
        lemma_apart_permuted(f.signals, sorted, clash());
        lemma_permuted_contains(f.signals, sorted, 0);
        assert forall|k: int| 0 <= k < sorted.len() implies (#[trigger] sorted[k]).version == FileVersion::Unread by {
            lemma_permuted_contains(f.signals, sorted, k);
            let m = choose|m: int| 0 <= m < f.signals.len() && f.signals[m] == sorted[k];
        }
    }
    assert forall|i: int, j: int|
        0 <= i < mapped.len() && 0 <= j < mapped.len() && i != j implies !(same_name())(
        #[trigger] mapped[i],
        #[trigger] mapped[j],
    ) by {
        assert(mapped[i].name == fs[i].name && mapped[j].name == fs[j].name);
    }
    let out = sort_by(mapped, finding_order());
    lemma_sort_by_multiset(mapped, finding_order());
    lemma_sort_by_in_order(mapped, finding_order());
    lemma_apart_permuted(mapped, out, same_name());
    assert forall|i: int| 0 <= i < out.len() implies sound_finding(#[trigger] out[i]) && in_order(
        out[i].signals,
        signal_order(),
    ) by {
        lemma_permuted_contains(mapped, out, i);
        let m = choose|m: int| 0 <= m < mapped.len() && mapped[m] == out[i];
    }
    assert forall|i: int, k: int|
        0 <= i < out.len() && 0 <= k < out[i].signals.len() implies strength_rank(
        strength_of(#[trigger] out[i]),
    ) <= strength_rank((#[trigger] out[i].signals[k]).source) by {
        lemma_permuted_contains(mapped, out, i);
        let m = choose|m: int| 0 <= m < mapped.len() && mapped[m] == out[i];
        if k > 0 {
            assert(!(signal_order())(out[i].signals[k], out[i].signals[0]));
        }
    }
}

/// Every list analysis reports is collected and in order: no two findings
/// share a name, each has at least one signal and none quotes one library
/// from one source twice, no version is read yet; the findings come
/// strongest first and then by table position, each finding's signals
/// strongest first and then by library; a finding's strength is that of
/// its strongest signal.
pub proof fn lemma_analyse_reported(e: EvidenceV)
    ensures
        reported(spec_analyse(e).renderers),
        reported(spec_analyse(e).infrastructure),
        reported(spec_analyse(e).features),
        reported(spec_analyse(e).local_overrides),
{
    let system = spec_system_directory(e.neighbours);
    let empty = Seq::<FindingV>::empty();
    assert(collected(empty));
    let r0a = gather(empty, e.imports, None, Source::Import, Table::Renderer);
    lemma_gather_collected(empty, e.imports, None, Source::Import, Table::Renderer);
    lemma_gather_collected(r0a, e.delay_imports, None, Source::DelayImport, Table::Renderer);
    let r0 = gather(r0a, e.delay_imports, None, Source::DelayImport, Table::Renderer);
    lemma_gather_links_collected(r0, e.linked, Table::Renderer);
    let r1 = gather_links(r0, e.linked, Table::Renderer);
    lemma_gather_collected(r1, e.neighbours, None, Source::Neighbour, Table::NeighbourRenderer);
    let r2 = if system {
        r1
    } else {
        gather(r1, e.neighbours, None, Source::Neighbour, Table::NeighbourRenderer)
    };
    lemma_finish_reported(r2);
    let i0a = gather(empty, e.imports, None, Source::Import, Table::Shared);
    lemma_gather_collected(empty, e.imports, None, Source::Import, Table::Shared);
    lemma_gather_collected(i0a, e.delay_imports, None, Source::DelayImport, Table::Shared);
    let i0 = gather(i0a, e.delay_imports, None, Source::DelayImport, Table::Shared);
    lemma_gather_links_collected(i0, e.linked, Table::Shared);
    lemma_finish_reported(gather_links(i0, e.linked, Table::Shared));
    let f0a = gather(empty, e.imports, None, Source::Import, Table::Feature);
    lemma_gather_collected(empty, e.imports, None, Source::Import, Table::Feature);
    lemma_gather_collected(f0a, e.delay_imports, None, Source::DelayImport, Table::Feature);
    let f0 = gather(f0a, e.delay_imports, None, Source::DelayImport, Table::Feature);
    lemma_gather_collected(f0, e.neighbours, None, Source::Neighbour, Table::NeighbourFeature);
    let f1 = if system {
        f0
    } else {
        gather(f0, e.neighbours, None, Source::Neighbour, Table::NeighbourFeature)
    };
    lemma_finish_reported(f1);
    lemma_gather_collected(empty, e.neighbours, None, Source::Neighbour, Table::NeighbourOverride);
    let o1 = if system {
        empty
    } else {
        gather(empty, e.neighbours, None, Source::Neighbour, Table::NeighbourOverride)
    };
    lemma_finish_reported(o1);
}

/// Reads `evidence` and concludes what it supports. Every list is ordered by
/// evidence strength, then by a fixed table position: presentation, not a
/// prediction of the API in use.
pub fn analyse(evidence: &Evidence) -> (v: Verdict)
    ensures
        v@ == spec_analyse(evidence@),
{
    let mut renderers = Collector::new();
    let mut infrastructure = Collector::new();
    let mut features = Collector::new();
    let mut local_overrides = Collector::new();

    renderers.gather(&evidence.imports, None, Source::Import, Table::Renderer);
    renderers.gather(&evidence.delay_imports, None, Source::DelayImport, Table::Renderer);
    infrastructure.gather(&evidence.imports, None, Source::Import, Table::Shared);
    infrastructure.gather(&evidence.delay_imports, None, Source::DelayImport, Table::Shared);
    features.gather(&evidence.imports, None, Source::Import, Table::Feature);
    features.gather(&evidence.delay_imports, None, Source::DelayImport, Table::Feature);

    // One link on: renderers and infrastructure only, since a feature DLL is
    // loaded by name and appears in no import table.
    let ghost links = evidence@.linked;
    let ghost r0 = findings_view(renderers.findings@);
    let ghost i0 = findings_view(infrastructure.findings@);
    let mut n: usize = 0;
    while n < evidence.linked.len()
        invariant
            n <= evidence.linked@.len(),
            links == evidence@.linked,
            findings_view(renderers.findings@) == gather_links(
                r0,
                links.take(n as int),
                Table::Renderer,
            ),
            findings_view(infrastructure.findings@) == gather_links(
                i0,
                links.take(n as int),
                Table::Shared,
            ),
        decreases evidence.linked@.len() - n,
    {
        let link = &evidence.linked[n];
        assert(links.take(n + 1).drop_last() =~= links.take(n as int));
        assert(links.take(n + 1).last() == link@);
        let library = link.library.as_str();
        renderers.gather(&link.imports, Some(library), Source::Linked, Table::Renderer);
        renderers.gather(&link.delay_imports, Some(library), Source::Linked, Table::Renderer);
        infrastructure.gather(&link.imports, Some(library), Source::Linked, Table::Shared);
        infrastructure.gather(&link.delay_imports, Some(library), Source::Linked, Table::Shared);
        n = n + 1;
    }
    assert(links.take(n as int) =~= links);

    // A directory that is itself part of Windows says nothing about the binary.
    if !looks_like_system_directory(&evidence.neighbours) {
        renderers.gather(&evidence.neighbours, None, Source::Neighbour, Table::NeighbourRenderer);
        local_overrides.gather(
            &evidence.neighbours,
            None,
            Source::Neighbour,
            Table::NeighbourOverride,
        );
        features.gather(&evidence.neighbours, None, Source::Neighbour, Table::NeighbourFeature);
    }
    Verdict {
        renderers: renderers.finish(),
        infrastructure: infrastructure.finish(),
        features: features.finish(),
        local_overrides: local_overrides.finish(),
    }
}

} // verus!
