//! Finding the `proton` script a game last ran under, read off what its
//! prefix recorded, and the answer a game's NVAPI question comes to.
//!
//! Proton writes `config_info` at the top of a game's prefix
//! (`<library>/steamapps/compatdata/<appid>`), and its lines name the build's
//! directories. Cutting one at `/files/` (`/dist/` before 9.0) gives the
//! root; a candidate counts only if a `proton` script is really there.

use vstd::prelude::*;

use crate::file_path::{display, parse_path, plain_name, FilePath, Part};
use crate::launcher::{Game, Origin};
use crate::nvapi::environment::{
    applied_view, applied_words, resolve, spec_resolve, AppliedV, Environment, Resolution,
    ResolutionV,
};
use crate::nvapi::quoting::{physical_lines, physical_lines_of, trim_range, trimmed};
use crate::nvapi::sentences::{all_source, decision_sentence};
use crate::nvapi::{all_appids, decide, spec_available, spec_decide, Decision, DecisionV, Reading};
use crate::text::{
    chars_of, copy_text, decimal, join, push_decimal, push_join, same_text, string_of_range, texts,
};

verus! {

/// The file name of the launcher script inside a Proton install.
pub const SCRIPT: &'static str = "proton";

/// The plain values of each path.
pub open spec fn paths_view(v: Seq<FilePath>) -> Seq<Seq<Part>> {
    v.map_values(|p: FilePath| p@)
}

/// Paths as a list is printed: each as it is written, separated by commas.
pub open spec fn listed(ps: Seq<Seq<Part>>) -> Seq<char> {
    join(ps.map_values(|p: Seq<Part>| display(p)), ", "@)
}

/// What can go wrong while looking for the script.
#[derive(Debug)]
pub enum Error {
    /// A file is there and could not be read; `source` says why.
    Io { path: FilePath, source: String },
    /// A directory was handed over as a Proton install and holds no `proton`.
    NoScript { root: FilePath },
    /// The game has no compatibility prefix: the ordinary state of a game
    /// never launched under Proton, not a fault.
    NoPrefix { path: FilePath },
    /// `config_info` was read and no line in it names a Proton directory.
    NoProtonNamed { path: FilePath },
    /// It names directories and none holds a `proton` script: an uninstalled
    /// or renamed build.
    ProtonGone { path: FilePath, named: Vec<FilePath> },
    /// It names more than one Proton. Refused rather than picking one.
    Ambiguous { path: FilePath, named: Vec<FilePath> },
}

/// An error as plain values.
pub enum ErrorV {
    Io { path: Seq<Part>, source: Seq<char> },
    NoScript { root: Seq<Part> },
    NoPrefix { path: Seq<Part> },
    NoProtonNamed { path: Seq<Part> },
    ProtonGone { path: Seq<Part>, named: Seq<Seq<Part>> },
    Ambiguous { path: Seq<Part>, named: Seq<Seq<Part>> },
}

impl View for Error {
    type V = ErrorV;

    open spec fn view(&self) -> ErrorV {
        match self {
            Error::Io { path, source } => ErrorV::Io { path: path@, source: source@ },
            Error::NoScript { root } => ErrorV::NoScript { root: root@ },
            Error::NoPrefix { path } => ErrorV::NoPrefix { path: path@ },
            Error::NoProtonNamed { path } => ErrorV::NoProtonNamed { path: path@ },
            Error::ProtonGone { path, named } => ErrorV::ProtonGone {
                path: path@,
                named: paths_view(named@),
            },
            Error::Ambiguous { path, named } => ErrorV::Ambiguous {
                path: path@,
                named: paths_view(named@),
            },
        }
    }
}

/// The file or directory an error is about.
pub open spec fn error_path(e: ErrorV) -> Seq<Part> {
    match e {
        ErrorV::Io { path, .. } => path,
        ErrorV::NoScript { root } => root,
        ErrorV::NoPrefix { path } => path,
        ErrorV::NoProtonNamed { path } => path,
        ErrorV::ProtonGone { path, .. } => path,
        ErrorV::Ambiguous { path, .. } => path,
    }
}

/// The sentence an error is printed as.
pub open spec fn error_words(e: ErrorV) -> Seq<char> {
    display(error_path(e)) + match e {
        ErrorV::Io { source, .. } => ": "@ + source,
        ErrorV::NoScript { .. } => ": no proton script here, so this is not a Proton install"@,
        ErrorV::NoPrefix { .. } => ": no compatibility prefix, so this game has not been run under Proton and there is no build to read a policy out of"@,
        ErrorV::NoProtonNamed { .. } => ": no line in it names a Proton directory, so the build this prefix used cannot be identified"@,
        ErrorV::ProtonGone { named, .. } => ": the Proton it names is not there any more ("@
            + listed(named) + ")"@,
        ErrorV::Ambiguous { named, .. } => ": it names more than one Proton ("@ + listed(named)
            + "), and reading the wrong one would report a policy this game never ran under"@,
    }
}

/// Appends each path as it is written, separated by commas.
fn push_paths(out: &mut String, paths: &Vec<FilePath>)
    ensures
        final(out)@ == old(out)@ + listed(paths_view(paths@)),
{
    let mut shown: Vec<String> = Vec::new();
    let mut i: usize = 0;
    while i < paths.len()
        invariant
            i <= paths@.len(),
            texts(shown@) == paths_view(paths@).take(i as int).map_values(
                |p: Seq<Part>| display(p),
            ),
        decreases paths@.len() - i,
    {
        let d = paths[i].display();
        let ghost before = texts(shown@);
        shown.push(d);
        assert(texts(shown@) =~= before.push(d@));
        i = i + 1;
        assert(paths_view(paths@).take(i as int).map_values(|p: Seq<Part>| display(p))
            =~= before.push(d@));
    }
    assert(paths_view(paths@).take(i as int) =~= paths_view(paths@));
    push_join(out, &shown, 0, shown.len(), ", ");
    assert(texts(shown@).subrange(0, shown@.len() as int) =~= texts(shown@));
}

impl Error {
    /// The file or directory the failure is about.
    pub fn path(&self) -> (p: &FilePath)
        ensures
            p@ == error_path(self@),
    {
        match self {
            Error::Io { path, .. } => path,
            Error::NoScript { root } => root,
            Error::NoPrefix { path } => path,
            Error::NoProtonNamed { path } => path,
            Error::ProtonGone { path, .. } => path,
            Error::Ambiguous { path, .. } => path,
        }
    }

    /// Whether this is a game that has never been run, rather than something
    /// that went wrong.
    pub fn is_absent(&self) -> (b: bool)
        ensures
            b == (self@ is NoPrefix),
    {
        match self {
            Error::NoPrefix { .. } => true,
            _ => false,
        }
    }

    /// The sentence this error is printed as.
    pub fn describe(&self) -> (s: String)
        ensures
            s@ == error_words(self@),
    {
        let mut s = self.path().display();
        match self {
            Error::Io { source, .. } => {
                s.push_str(": ");
                s.push_str(source.as_str());
            },
            Error::NoScript { .. } => {
                s.push_str(": no proton script here, so this is not a Proton install");
            },
            Error::NoPrefix { .. } => {
                s.push_str(
                    ": no compatibility prefix, so this game has not been run under Proton and there is no build to read a policy out of",
                );
            },
            Error::NoProtonNamed { .. } => {
                s.push_str(
                    ": no line in it names a Proton directory, so the build this prefix used cannot be identified",
                );
            },
            Error::ProtonGone { named, .. } => {
                s.push_str(": the Proton it names is not there any more (");
                push_paths(&mut s, named);
                s.push_str(")");
            },
            Error::Ambiguous { named, .. } => {
                s.push_str(": it names more than one Proton (");
                push_paths(&mut s, named);
                s.push_str(
                    "), and reading the wrong one would report a policy this game never ran under",
                );
            },
        }
        assert(s@ =~= error_words(self@));
        s
    }
}

/// The roots a line names at `marker`, looking from position `p`: the text
/// before each occurrence that does not start the line, each root once.
pub open spec fn cuts_from(l: Seq<char>, marker: Seq<char>, p: int, acc: Seq<Seq<Part>>) -> Seq<
    Seq<Part>,
>
    decreases l.len() + 1 - p,
{
    if p < 0 || p + marker.len() > l.len() {
        acc
    } else {
        let root = parse_path(l.take(p));
        let next = if l.subrange(p, p + marker.len()) == marker && p > 0 && !acc.contains(root) {
            acc.push(root)
        } else {
            acc
        };
        cuts_from(l, marker, p + 1, next)
    }
}

/// The roots one line names, `/files/` first and then `/dist/`, after `acc`.
pub open spec fn line_roots(l: Seq<char>, acc: Seq<Seq<Part>>) -> Seq<Seq<Part>> {
    cuts_from(l, "/dist/"@, 0, cuts_from(l, "/files/"@, 0, acc))
}

/// The roots the lines name, each once, in order.
pub open spec fn roots_from(lines: Seq<Seq<char>>) -> Seq<Seq<Part>>
    decreases lines.len(),
{
    if lines.len() == 0 {
        Seq::empty()
    } else {
        line_roots(trimmed(lines.last()), roots_from(lines.drop_last()))
    }
}

/// Every Proton root a `config_info` could be naming: every cut of every
/// trimmed line at `/files/` or `/dist/`, settled later by looking for the
/// script.
pub open spec fn spec_roots_named(text: Seq<char>) -> Seq<Seq<Part>> {
    roots_from(physical_lines(text))
}

impl FilePath {
    /// Whether two paths have the same components.
    pub fn same_as(&self, other: &FilePath) -> (b: bool)
        ensures
            b == (self@ == other@),
    {
        if self.components.len() != other.components.len() {
            return false;
        }
        let mut i: usize = 0;
        while i < self.components.len()
            invariant
                i <= self@.len(),
                self@.len() == other@.len(),
                forall|j: int| 0 <= j < i ==> self@[j] == other@[j],
            decreases self@.len() - i,
        {
            if !self.components[i].same(&other.components[i]) {
                assert(self@[i as int] != other@[i as int]);
                return false;
            }
            i = i + 1;
        }
        assert(self@ =~= other@);
        true
    }
}

/// Whether `v` holds a path with the components of `p`.
fn holds_path(v: &Vec<FilePath>, p: &FilePath) -> (b: bool)
    ensures
        b == paths_view(v@).contains(p@),
{
    let mut i: usize = 0;
    while i < v.len()
        invariant
            i <= v@.len(),
            forall|j: int| 0 <= j < i ==> paths_view(v@)[j] != p@,
        decreases v@.len() - i,
    {
        if v[i].same_as(p) {
            assert(paths_view(v@)[i as int] == p@);
            return true;
        }
        i = i + 1;
    }
    false
}

/// Whether `chars[at..]` starts with `marker`.
fn marker_at(chars: &Vec<char>, at: usize, marker: &Vec<char>) -> (b: bool)
    requires
        at + marker@.len() <= chars@.len(),
    ensures
        b == (chars@.subrange(at as int, at + marker@.len()) == marker@),
{
    let n = chars.len();
    let mut k: usize = 0;
    while k < marker.len()
        invariant
            n == chars@.len(),
            k <= marker@.len(),
            at + marker@.len() <= chars@.len(),
            forall|j: int| 0 <= j < k ==> chars@[at + j] == marker@[j],
        decreases marker@.len() - k,
    {
        if chars[at + k] != marker[k] {
            assert(chars@.subrange(at as int, at + marker@.len())[k as int] != marker@[k as int]);
            return false;
        }
        k = k + 1;
    }
    assert(chars@.subrange(at as int, at + marker@.len()) =~= marker@);
    true
}

/// Adds the roots `chars[lo..hi]` names at `marker`.
fn cuts_in(chars: &Vec<char>, lo: usize, hi: usize, marker: &Vec<char>, out: &mut Vec<FilePath>)
    requires
        lo <= hi <= chars@.len(),
        marker@.len() > 0,
    ensures
        paths_view(final(out)@) == cuts_from(
            chars@.subrange(lo as int, hi as int),
            marker@,
            0,
            paths_view(old(out)@),
        ),
{
    let ghost l = chars@.subrange(lo as int, hi as int);
    let n = hi - lo;
    let m = marker.len();
    let mut p: usize = 0;
    while m <= n && p <= n - m
        invariant
            m > 0,
            lo <= hi <= chars@.len(),
            n == hi - lo,
            m == marker@.len(),
            l == chars@.subrange(lo as int, hi as int),
            cuts_from(l, marker@, 0, paths_view(old(out)@)) == cuts_from(
                l,
                marker@,
                p as int,
                paths_view(out@),
            ),
        decreases n + 1 - p,
    {
        let at = lo + p;
        let hit = marker_at(chars, at, marker);
        assert(chars@.subrange(at as int, at + m) =~= l.subrange(p as int, p + m));
        if hit && p > 0 {
            let text = string_of_range(chars.as_slice(), lo, at);
            assert(text@ =~= l.take(p as int));
            let root = FilePath::parse(text.as_str());
            if !holds_path(out, &root) {
                let ghost before = paths_view(out@);
                out.push(root);
                assert(paths_view(out@) =~= before.push(root@));
            }
        }
        p = p + 1;
    }
}

/// Every Proton root a `config_info` could be naming: every cut of every
/// line, each root once, in order.
pub fn roots_named(text: &str) -> (r: Vec<FilePath>)
    ensures
        paths_view(r@) == spec_roots_named(text@),
{
    let lines = physical_lines_of(text);
    let ghost ls = texts(lines@);
    let files = chars_of("/files/");
    let dist = chars_of("/dist/");
    proof {
        reveal_strlit("/files/");
        reveal_strlit("/dist/");
    }
    assert(files@.len() > 0 && dist@.len() > 0);
    let mut out: Vec<FilePath> = Vec::new();
    let mut i: usize = 0;
    assert(ls.take(0) =~= Seq::<Seq<char>>::empty());
    assert(paths_view(out@) =~= Seq::<Seq<Part>>::empty());
    while i < lines.len()
        invariant
            i <= lines@.len(),
            ls == texts(lines@),
            ls == physical_lines(text@),
            files@ == "/files/"@,
            dist@ == "/dist/"@,
            files@.len() > 0 && dist@.len() > 0,
            paths_view(out@) == roots_from(ls.take(i as int)),
        decreases lines@.len() - i,
    {
        let chars = chars_of(lines[i].as_str());
        assert(ls.take(i + 1).drop_last() =~= ls.take(i as int));
        assert(ls.take(i + 1).last() == chars@);
        let (lo, hi) = trim_range(&chars);
        cuts_in(&chars, lo, hi, &files, &mut out);
        cuts_in(&chars, lo, hi, &dist, &mut out);
        i = i + 1;
    }
    assert(ls.take(i as int) =~= ls);
    out
}

/// Takes either a Proton install directory or the script itself: a
/// directory stands for the script inside it, and is refused when it holds
/// none.
pub fn resolve_from(target: FilePath, is_dir: bool, has_script: bool) -> (r: Result<
    FilePath,
    Error,
>)
    ensures
        match r {
            Ok(p) => if is_dir {
                has_script && p@ == target@.push(Part::Normal("proton"@))
            } else {
                p@ == target@
            },
            Err(e) => is_dir && !has_script && e@ == (ErrorV::NoScript { root: target@ }),
        },
{
    proof {
        lemma_script_plain();
    }
    if is_dir {
        if has_script {
            Ok(target.with_name(SCRIPT))
        } else {
            Err(Error::NoScript { root: target })
        }
    } else {
        Ok(target)
    }
}

/// What a prefix's named roots come to, once the roots holding a `proton`
/// script are known (each directory once): the script of the one build, or
/// why there is none to read.
pub open spec fn spec_settle(path: Seq<Part>, named: Seq<Seq<Part>>, found: Seq<Seq<Part>>) -> Result<
    Seq<Part>,
    ErrorV,
> {
    if named.len() == 0 {
        Err(ErrorV::NoProtonNamed { path })
    } else if found.len() == 0 {
        Err(ErrorV::ProtonGone { path, named })
    } else if found.len() == 1 {
        Ok(found[0].push(Part::Normal("proton"@)))
    } else {
        Err(ErrorV::Ambiguous { path, named: found })
    }
}

/// `proton` is a plain file name.
proof fn lemma_script_plain()
    ensures
        plain_name(SCRIPT@),
        SCRIPT@ == "proton"@,
{
    reveal_strlit("proton");
    assert(SCRIPT@ =~= seq!['p', 'r', 'o', 't', 'o', 'n']);
}

/// The script of the one build a prefix names, or why there is none: no root
/// named at all, none of them holding a `proton` script, or more than one.
/// `found` holds the named roots where the script is there, each directory
/// once.
pub fn settle(path: FilePath, named: Vec<FilePath>, found: Vec<FilePath>) -> (r: Result<
    FilePath,
    Error,
>)
    ensures
        match r {
            Ok(s) => spec_settle(path@, paths_view(named@), paths_view(found@)) == Ok::<
                Seq<Part>,
                ErrorV,
            >(s@),
            Err(e) => spec_settle(path@, paths_view(named@), paths_view(found@)) == Err::<
                Seq<Part>,
                ErrorV,
            >(e@),
        },
{
    proof {
        lemma_script_plain();
    }
    if named.len() == 0 {
        Err(Error::NoProtonNamed { path })
    } else if found.len() == 0 {
        Err(Error::ProtonGone { path, named })
    } else if found.len() == 1 {
        assert(paths_view(found@)[0] == found@[0]@);
        Ok(found[0].with_name(SCRIPT))
    } else {
        Err(Error::Ambiguous { path, named: found })
    }
}

/// A decimal numeral is a plain file name.
proof fn lemma_decimal_plain(n: nat)
    ensures
        plain_name(decimal(n)),
        forall|i: int| 0 <= i < decimal(n).len() ==> '0' <= #[trigger] decimal(n)[i] <= '9',
    decreases n,
{
    if n >= 10 {
        lemma_decimal_plain(n / 10);
        let d = decimal(n / 10);
        assert forall|i: int| 0 <= i < decimal(n).len() implies '0' <= #[trigger] decimal(n)[i]
            <= '9' by {
            if i < d.len() {
                assert(decimal(n)[i] == d[i]);
            }
        }
    }
    assert(decimal(n)[0] != '.');
}

/// The compatibility prefix Steam would give `appid` inside `library`, built
/// rather than searched for and not checked for existence.
pub fn compatdata(library: &FilePath, appid: u32) -> (p: FilePath)
    ensures
        p@ == library@.push(Part::Normal("steamapps"@)).push(Part::Normal("compatdata"@)).push(
            Part::Normal(decimal(appid as nat)),
        ),
{
    proof {
        reveal_strlit("steamapps");
        reveal_strlit("compatdata");
        assert("steamapps"@ =~= seq!['s', 't', 'e', 'a', 'm', 'a', 'p', 'p', 's']);
        assert("compatdata"@ =~= seq!['c', 'o', 'm', 'p', 'a', 't', 'd', 'a', 't', 'a']);
        lemma_decimal_plain(appid as nat);
    }
    let mut id = String::new();
    push_decimal(&mut id, appid as u64);
    assert(id@ =~= decimal(appid as nat));
    library.with_name("steamapps").with_name("compatdata").with_name(id.as_str())
}

/// What one game's NVAPI question came to.
#[derive(Debug, Clone)]
pub struct Answer {
    /// The launcher script the answer was drawn from, shown beside the
    /// sentence so it can be checked.
    pub script: Option<FilePath>,
    /// The sentence, ready to print.
    pub verdict: String,
    /// Whether Proton offers this game NVAPI; `None` when that is not
    /// settled.
    pub available: Option<bool>,
    /// The condition the flag is set under, quoted verbatim for the reader
    /// to apply.
    pub condition: Vec<String>,
}

/// An answer as plain values.
pub struct AnswerV {
    pub script: Option<Seq<Part>>,
    pub verdict: Seq<char>,
    pub available: Option<bool>,
    pub condition: Seq<Seq<char>>,
}

impl View for Answer {
    type V = AnswerV;

    open spec fn view(&self) -> AnswerV {
        AnswerV {
            script: match self.script {
                Some(p) => Some(p@),
                None => None,
            },
            verdict: self.verdict@,
            available: self.available,
            condition: texts(self.condition@),
        }
    }
}

/// The refusal for a game from a launcher with no Steam AppID.
pub open spec fn not_applicable_words(label: Seq<char>) -> Seq<char> {
    "not applicable: a "@ + label
        + " game has no Steam AppID, and without one there is no compatibility prefix to read a Proton policy out of"@
}

/// The condition a decision is under, quoted: every guard's text.
pub open spec fn decision_condition(d: DecisionV) -> Seq<Seq<char>> {
    match d {
        DecisionV::Conditional { condition, .. } => all_source(condition),
        _ => Seq::empty(),
    }
}

/// The sentence, the availability and the condition the default policy and
/// the launch environment give between them.
pub open spec fn resolved(d: DecisionV, r: ResolutionV) -> (Seq<char>, Option<bool>, Seq<Seq<char>>) {
    let ds = decision_sentence(d);
    match r {
        ResolutionV::Default => (ds, spec_available(d), decision_condition(d)),
        ResolutionV::Computed { use_nvapi, applied } => (
            "NVAPI is "@ + (if use_nvapi {
                "offered"@
            } else {
                "withheld"@
            }) + ": "@ + join(applied.map_values(|a: AppliedV| applied_words(a)), ", "@)
                + "; the script alone says: "@ + ds,
            Some(use_nvapi),
            Seq::empty(),
        ),
        ResolutionV::Undetermined(why) => (
            "not determined: "@ + why + "; the script alone says: "@ + ds,
            None,
            decision_condition(d),
        ),
    }
}

/// The answer the default policy, the launch environment and the last
/// launch give between them: a recorded value that contradicts the
/// prediction is said, and leaves the answer unsettled.
pub open spec fn spec_compose(
    script: Seq<Part>,
    d: DecisionV,
    r: ResolutionV,
    recorded: Option<bool>,
) -> AnswerV {
    let (v, a, c) = resolved(d, r);
    match recorded {
        None => AnswerV { script: Some(script), verdict: v, available: a, condition: c },
        Some(rec) => {
            let v1 = v + "; the last launch recorded use_nvapi="@ + (if rec {
                "True"@
            } else {
                "False"@
            });
            if a is Some && a.unwrap() != rec {
                AnswerV {
                    script: Some(script),
                    verdict: v1
                        + ", which disagrees: the options changed since, or something this reader does not see sets it"@,
                    available: None,
                    condition: c,
                }
            } else {
                AnswerV { script: Some(script), verdict: v1, available: a, condition: c }
            }
        },
    }
}

/// The `use_nvapi` value a `config_info` records at 1-based `line`.
pub open spec fn spec_recorded(text: Seq<char>, line: usize) -> Option<bool> {
    let ls = physical_lines(text);
    if line == 0 || line - 1 >= ls.len() {
        None
    } else {
        let t = trimmed(ls[line - 1]);
        if t == "True"@ {
            Some(true)
        } else if t == "False"@ {
            Some(false)
        } else {
            None
        }
    }
}

impl Answer {
    /// A game that is not a Steam application, so Steam's Proton policy does
    /// not apply. The sentence names the launcher.
    pub fn not_applicable(origin: Origin) -> (a: Answer)
        ensures
            a@ == (AnswerV {
                script: None,
                verdict: not_applicable_words(origin@.label),
                available: None,
                condition: Seq::empty(),
            }),
    {
        let mut verdict = String::new();
        verdict.push_str("not applicable: a ");
        verdict.push_str(origin.label());
        verdict.push_str(
            " game has no Steam AppID, and without one there is no compatibility prefix to read a Proton policy out of",
        );
        let condition: Vec<String> = Vec::new();
        assert(texts(condition@) =~= Seq::<Seq<char>>::empty());
        Answer { script: None, verdict, available: None, condition }
    }

    /// A game whose Proton could not be found or read at all.
    pub fn undetermined(reason: &str) -> (a: Answer)
        ensures
            a@ == (AnswerV {
                script: None,
                verdict: "not determined: "@ + reason@,
                available: None,
                condition: Seq::empty(),
            }),
    {
        let mut verdict = String::new();
        verdict.push_str("not determined: ");
        verdict.push_str(reason);
        let condition: Vec<String> = Vec::new();
        assert(texts(condition@) =~= Seq::<Seq<char>>::empty());
        Answer { script: None, verdict, available: None, condition }
    }

    /// A game whose Proton was found and whose script was not understood.
    pub fn not_understood(script: FilePath, error: &str) -> (a: Answer)
        ensures
            a@ == (AnswerV {
                script: Some(script@),
                verdict: "not determined: this script was not understood: "@ + error@,
                available: None,
                condition: Seq::empty(),
            }),
    {
        let mut verdict = String::new();
        verdict.push_str("not determined: this script was not understood: ");
        verdict.push_str(error);
        let condition: Vec<String> = Vec::new();
        assert(texts(condition@) =~= Seq::<Seq<char>>::empty());
        Answer { script: Some(script), verdict, available: None, condition }
    }
}

impl Answer {
    /// The answer for a game whose launcher gave it no Steam AppID: the
    /// refusal, naming the launcher. `None` for a Steam application, whose
    /// prefix has to be read.
    pub fn without_prefix(game: &Game) -> (a: Option<Answer>)
        ensures
            match a {
                Some(x) => game.identity@ is Native && x@ == (AnswerV {
                    script: None,
                    verdict: not_applicable_words(game.origin@.label),
                    available: None,
                    condition: Seq::empty(),
                }),
                None => game.identity@ is SteamApp,
            },
    {
        match game.identity.steam_appid() {
            Some(_) => None,
            None => Some(Answer::not_applicable(game.origin)),
        }
    }
}

/// The quoted condition of a decision, or nothing.
fn condition_of(decision: &Decision) -> (c: Vec<String>)
    ensures
        texts(c@) == decision_condition(decision@),
{
    match decision.condition() {
        Some(condition) => condition.source(),
        None => {
            let c: Vec<String> = Vec::new();
            assert(texts(c@) =~= Seq::<Seq<char>>::empty());
            c
        },
    }
}

/// The answer the default policy, the launch environment and the last
/// launch give between them.
pub fn compose(
    script: FilePath,
    decision: &Decision,
    resolution: &Resolution,
    recorded: Option<bool>,
) -> (a: Answer)
    ensures
        a@ == spec_compose(script@, decision@, resolution@, recorded),
{
    let said = decision.describe();
    let (mut verdict, mut available, condition) = match resolution {
        Resolution::Default => (said, decision.available(), condition_of(decision)),
        Resolution::Computed { use_nvapi, applied } => {
            let mut how: Vec<String> = Vec::new();
            let mut i: usize = 0;
            while i < applied.len()
                invariant
                    i <= applied@.len(),
                    texts(how@) == applied_view(applied@).take(i as int).map_values(
                        |a: AppliedV| applied_words(a),
                    ),
                decreases applied@.len() - i,
            {
                let d = applied[i].describe();
                let ghost before = texts(how@);
                how.push(d);
                assert(texts(how@) =~= before.push(d@));
                i = i + 1;
                assert(applied_view(applied@).take(i as int).map_values(
                    |a: AppliedV| applied_words(a),
                ) =~= before.push(d@));
            }
            assert(applied_view(applied@).take(i as int) =~= applied_view(applied@));
            let mut v = String::new();
            v.push_str("NVAPI is ");
            v.push_str(
                if *use_nvapi {
                    "offered"
                } else {
                    "withheld"
                },
            );
            v.push_str(": ");
            push_join(&mut v, &how, 0, how.len(), ", ");
            assert(texts(how@).subrange(0, how@.len() as int) =~= texts(how@));
            v.push_str("; the script alone says: ");
            v.push_str(said.as_str());
            let none: Vec<String> = Vec::new();
            assert(texts(none@) =~= Seq::<Seq<char>>::empty());
            (v, Some(*use_nvapi), none)
        },
        Resolution::Undetermined(why) => {
            let mut v = String::new();
            v.push_str("not determined: ");
            v.push_str(why.as_str());
            v.push_str("; the script alone says: ");
            v.push_str(said.as_str());
            (v, None, condition_of(decision))
        },
    };
    let ghost (v0, a0, c0) = resolved(decision@, resolution@);
    assert(verdict@ =~= v0 && available == a0 && texts(condition@) == c0);
    if let Some(rec) = recorded {
        verdict.push_str("; the last launch recorded use_nvapi=");
        verdict.push_str(
            if rec {
                "True"
            } else {
                "False"
            },
        );
        let disagrees = match available {
            Some(expected) => expected != rec,
            None => false,
        };
        if disagrees {
            verdict.push_str(
                ", which disagrees: the options changed since, or something this reader does not see sets it",
            );
            available = None;
        }
    }
    let a = Answer { script: Some(script), verdict, available, condition };
    assert(a@.verdict =~= spec_compose(script@, decision@, resolution@, recorded).verdict);
    a
}

/// The `use_nvapi` value a `config_info`'s text records at 1-based `line`:
/// `True` or `False` once trimmed, and nothing else.
pub fn recorded_in(text: &str, line: usize) -> (r: Option<bool>)
    ensures
        r == spec_recorded(text@, line),
{
    let lines = physical_lines_of(text);
    if line == 0 || line - 1 >= lines.len() {
        return None;
    }
    let chars = chars_of(lines[line - 1].as_str());
    let (lo, hi) = trim_range(&chars);
    let t = string_of_range(chars.as_slice(), lo, hi);
    if same_text(t.as_str(), "True") {
        Some(true)
    } else if same_text(t.as_str(), "False") {
        Some(false)
    } else {
        None
    }
}

/// What the Proton at `script` does to the NVAPI of the game with `appid`:
/// its reading decided for the game, resolved with the launch
/// `environment`, and checked against the value the last launch recorded in
/// the prefix's `config_info`, when that text is at hand.
pub fn answer_from(
    script: FilePath,
    reading: &Reading,
    environment: &Environment,
    appid: u32,
    config_info: Option<&str>,
    x86_64_host: bool,
) -> (a: Answer)
    requires
        all_appids(reading@.sites) <= usize::MAX,
    ensures
        a@ == spec_compose(
            script@,
            spec_decide(reading@, decimal(appid as nat)),
            spec_resolve(reading@, decimal(appid as nat), environment@, x86_64_host),
            match (reading@.recorded_line, config_info) {
                (Some(line), Some(text)) => spec_recorded(text@, line),
                _ => None,
            },
        ),
{
    let mut id = String::new();
    push_decimal(&mut id, appid as u64);
    assert(id@ =~= decimal(appid as nat));
    let decision = decide(reading, id.as_str());
    let resolution = resolve(reading, id.as_str(), environment, x86_64_host);
    let recorded = match (reading.recorded_line, config_info) {
        (Some(line), Some(text)) => recorded_in(text, line),
        _ => None,
    };
    compose(script, &decision, &resolution, recorded)
}

} // verus!
