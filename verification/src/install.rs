//! Walking a game's install directory to find the executables in it: the
//! order directories are visited in, and every budget the walk keeps. The
//! walk is breadth-first and bounded, and every bound that bites becomes a
//! [`Note`]. Listing directories and reading images is the caller's; this
//! module says what to list and read next and what each answer means.

use vstd::prelude::*;

use crate::order::{sort_by, sort_texts, text_order_by};

use crate::analysis::{analyse, spec_analyse, Evidence, EvidenceV, Verdict};
use crate::file_path::{file_name, parse_path, Component, FilePath, Part};
use crate::game::{
    assess, candidates_view, lemma_assess_fits, notes_view, opt_str, ranked_notes, scores_fit,
    spec_assess, total, Candidate, CandidateV, Note, NoteV, Observed, ObservedV, Survey,
};
use crate::steam::library::extension;
use crate::text::{chars_of, copy_text, copy_texts, eq_ignore_ascii_case, eq_ignore_case, texts};

pub use crate::evidence::MAX_LOCAL_LIBRARIES;

verus! {

/// How far below the surveyed directory the walk goes; the root is depth
/// zero. The work is bounded by [`MAX_DIRECTORIES`] whatever the depth.
pub const MAX_DEPTH: usize = 32;

/// How many directories the walk will list before giving up.
pub const MAX_DIRECTORIES: usize = 4096;

/// How many executables will be read and ranked. Far past anything real, so
/// hitting it says something is wrong with the directory.
pub const MAX_EXECUTABLES: usize = 512;

/// The names in one directory, split by kind and sorted, read once and
/// shared.
#[derive(Debug, Clone)]
pub struct Listing {
    pub path: FilePath,
    pub files: Vec<String>,
    pub directories: Vec<String>,
}

impl Listing {
    /// The listing of `path` holding `files` and `directories`, each sorted.
    pub fn new(path: FilePath, files: Vec<String>, directories: Vec<String>) -> (l: Listing)
        ensures
            l.path == path,
            texts(l.files@) == sort_by(texts(files@), text_order_by()),
            texts(l.directories@) == sort_by(texts(directories@), text_order_by()),
    {
        Listing { path, files: sort_texts(files), directories: sort_texts(directories) }
    }
}

/// True for a file named like a program: the extension `exe`, without
/// regard to ASCII case. A game shipped as a DLL behind a stub launcher is
/// found as the stub.
pub open spec fn executable_name(name: Seq<char>) -> bool {
    match file_name(parse_path(name)) {
        Some(f) => match extension(f) {
            Some(e) => eq_ignore_case(e, "exe"@),
            None => false,
        },
        None => false,
    }
}

/// Whether a file name names a program.
pub fn is_executable(name: &str) -> (b: bool)
    ensures
        b == executable_name(name@),
{
    let path = FilePath::parse(name);
    match path.file_name() {
        None => false,
        Some(f) => {
            let chars = chars_of(f.as_str());
            let mut i = chars.len();
            assert(chars@.take(i as int) =~= chars@);
            while i > 0 && chars[i - 1] != '.'
                invariant
                    i <= chars@.len(),
                    crate::file_path::last_dot(chars@) == crate::file_path::last_dot(
                        chars@.take(i as int),
                    ),
                decreases i,
            {
                assert(chars@.take(i as int).drop_last() =~= chars@.take(i - 1));
                i = i - 1;
            }
            proof {
                if i > 0 {
                    assert(chars@.take(i as int).last() == '.');
                } else {
                    assert(chars@.take(0) =~= Seq::<char>::empty());
                }
            }
            if i <= 1 {
                return false;
            }
            let e = crate::text::string_of_range(chars.as_slice(), i, chars.len());
            assert(e@ =~= f@.skip(i as int));
            eq_ignore_ascii_case(e.as_str(), "exe")
        },
    }
}

/// The executables among a directory's files, in listing order.
pub fn executables(listing: &Listing) -> (v: Vec<String>)
    ensures
        texts(v@) == texts(listing.files@).filter(|n: Seq<char>| executable_name(n)),
{
    let ghost all = texts(listing.files@);
    let ghost keep = |n: Seq<char>| executable_name(n);
    let mut out: Vec<String> = Vec::new();
    let mut i: usize = 0;
    proof {
        reveal(Seq::filter);
    }
    assert(all.take(0).filter(keep) =~= Seq::<Seq<char>>::empty());
    while i < listing.files.len()
        invariant
            i <= listing.files@.len(),
            all == texts(listing.files@),
            keep == (|n: Seq<char>| executable_name(n)),
            texts(out@) == all.take(i as int).filter(keep),
        decreases listing.files@.len() - i,
    {
        let ghost before = texts(out@);
        assert(all.take(i + 1).drop_last() =~= all.take(i as int));
        assert(all.take(i + 1).last() == listing.files@[i as int]@);
        proof {
            reveal(Seq::filter);
        }
        if is_executable(listing.files[i].as_str()) {
            out.push(copy_text(listing.files[i].as_str()));
            assert(texts(out@) =~= before.push(listing.files@[i as int]@));
        }
        i = i + 1;
    }
    assert(all.take(i as int) =~= all);
    out
}

/// The evidence of a directory's names alone.
pub open spec fn directory_evidence(files: Seq<Seq<char>>) -> EvidenceV {
    EvidenceV {
        imports: Seq::empty(),
        delay_imports: Seq::empty(),
        neighbours: files,
        linked: Seq::empty(),
    }
}

/// One verdict for a directory, shared by every executable in it: what its
/// file names alone say.
pub fn directory_verdict(listing: &Listing) -> (v: Verdict)
    ensures
        v@ == spec_analyse(directory_evidence(texts(listing.files@))),
{
    let evidence = Evidence {
        imports: Vec::new(),
        delay_imports: Vec::new(),
        neighbours: copy_texts(&listing.files),
        linked: Vec::new(),
    };
    assert(evidence@.imports =~= Seq::<Seq<char>>::empty());
    assert(evidence@.delay_imports =~= Seq::<Seq<char>>::empty());
    assert(evidence@.linked =~= Seq::<crate::analysis::LinkedV>::empty());
    analyse(&evidence)
}

/// `path` below `root`: the components after `root`'s, or `path` itself
/// when `root` is not a prefix of it.
pub open spec fn relative_to(path: Seq<Part>, root: Seq<Part>) -> Seq<Part> {
    if root.len() <= path.len() && path.take(root.len() as int) == root {
        path.skip(root.len() as int)
    } else {
        path
    }
}

/// `path` below `root`, as `Path::strip_prefix` cuts it.
pub fn relative(path: &FilePath, root: &FilePath) -> (r: FilePath)
    ensures
        r@ == relative_to(path@, root@),
{
    let n = root.components.len();
    if n > path.components.len() {
        return path.copy();
    }
    let mut i: usize = 0;
    while i < n
        invariant
            i <= n <= path@.len(),
            n == root@.len(),
            path.components@.len() == path@.len(),
            root.components@.len() == root@.len(),
            forall|j: int| 0 <= j < i ==> path@[j] == root@[j],
        decreases n - i,
    {
        assert(path@[i as int] == path.components@[i as int]@);
        assert(root@[i as int] == root.components@[i as int]@);
        if !path.components[i].same(&root.components[i]) {
            assert(path@.take(n as int)[i as int] != root@[i as int]);
            return path.copy();
        }
        i = i + 1;
    }
    assert(path@.take(n as int) =~= root@);
    let mut components: Vec<Component> = Vec::new();
    let mut k: usize = n;
    while k < path.components.len()
        invariant
            n <= k <= path@.len(),
            path.components@.len() == path@.len(),
            components@.map_values(|c: Component| c@) == path@.subrange(n as int, k as int),
        decreases path@.len() - k,
    {
        let c = path.components[k].copy();
        let ghost before = components@.map_values(|c: Component| c@);
        components.push(c);
        assert(path@[k as int] == path.components@[k as int]@);
        assert(components@.map_values(|c: Component| c@) =~= before.push(c@));
        assert(path@.subrange(n as int, k + 1) =~= path@.subrange(n as int, k as int).push(
            path@[k as int],
        ));
        k = k + 1;
    }
    let r = FilePath { components };
    assert(r@ =~= path@.skip(n as int));
    r
}

/// Everything known about one executable at `path` found in `listing`
/// during a walk of `root`: where it sits, the directories beside it, its
/// own verdict (empty when it could not be read) and its directory's.
pub open spec fn spec_observe(
    root: Seq<Part>,
    path: Seq<Part>,
    siblings: Seq<Seq<char>>,
    own: crate::analysis::VerdictV,
    directory: crate::analysis::VerdictV,
) -> ObservedV {
    ObservedV {
        path,
        relative: relative_to(path, root),
        sibling_directories: siblings,
        own,
        directory,
    }
}

/// Gathers what is known about one executable.
pub fn observe(root: &FilePath, path: &FilePath, listing: &Listing, own: Verdict, directory: Verdict) -> (o:
    Observed)
    ensures
        o@ == spec_observe(root@, path@, texts(listing.directories@), own@, directory@),
{
    Observed {
        path: path.copy(),
        relative: relative(path, root),
        sibling_directories: copy_texts(&listing.directories),
        own,
        directory,
    }
}

/// The state of one walk as plain values.
pub struct WalkV {
    pub root: Seq<Part>,
    /// Directories waiting to be listed, with their depth, front first.
    pub queue: Seq<(Seq<Part>, usize)>,
    pub candidates: Seq<CandidateV>,
    pub notes: Seq<NoteV>,
    /// How many directories have been listed.
    pub listed: usize,
    /// How many directories were left unvisited below the depth limit.
    pub skipped: usize,
    /// Whether the executable budget ran out.
    pub stopped: bool,
}

/// The state of one walk: the queue, the budgets and what has been found.
#[derive(Debug)]
pub struct Walk {
    root: FilePath,
    queue: Vec<(FilePath, usize)>,
    candidates: Vec<Candidate>,
    notes: Vec<Note>,
    listed: usize,
    skipped_for_depth: usize,
    stopped: bool,
}

/// The plain values of a queue.
pub open spec fn queue_view(q: Seq<(FilePath, usize)>) -> Seq<(Seq<Part>, usize)> {
    q.map_values(|e: (FilePath, usize)| (e.0@, e.1))
}

/// The directories a listing queues: each subdirectory, one deeper, in
/// listing order; none at the depth limit.
pub open spec fn queued(path: Seq<Part>, directories: Seq<Seq<char>>, depth: usize) -> Seq<(Seq<Part>, usize)> {
    if depth >= MAX_DEPTH {
        Seq::empty()
    } else {
        directories.map_values(|d: Seq<char>| (path.push(Part::Normal(d)), (depth + 1) as usize))
    }
}

impl View for Walk {
    type V = WalkV;

    closed spec fn view(&self) -> WalkV {
        WalkV {
            root: self.root@,
            queue: queue_view(self.queue@),
            candidates: candidates_view(self.candidates@),
            notes: notes_view(self.notes@),
            listed: self.listed,
            skipped: self.skipped_for_depth,
            stopped: self.stopped,
        }
    }
}

impl Walk {
    /// What every walk keeps: the scores fit, the executable budget is
    /// never exceeded, and nothing deeper than [`MAX_DEPTH`] is ever queued.
    pub open spec fn wf(&self) -> bool {
        &&& scores_fit(self@.candidates)
        &&& self@.candidates.len() <= MAX_EXECUTABLES
        &&& forall|i: int| 0 <= i < self@.queue.len() ==> (#[trigger] self@.queue[i]).1 <= MAX_DEPTH
    }

    /// A walk of `root` that has listed nothing.
    pub fn new(root: FilePath) -> (w: Walk)
        ensures
            w.wf(),
            w@ == (WalkV {
                root: root@,
                queue: Seq::empty(),
                candidates: Seq::empty(),
                notes: Seq::empty(),
                listed: 0,
                skipped: 0,
                stopped: false,
            }),
    {
        let w = Walk {
            root,
            queue: Vec::new(),
            candidates: Vec::new(),
            notes: Vec::new(),
            listed: 0,
            skipped_for_depth: 0,
            stopped: false,
        };
        assert(queue_view(w.queue@) =~= Seq::<(Seq<Part>, usize)>::empty());
        assert(candidates_view(w.candidates@) =~= Seq::<CandidateV>::empty());
        assert(notes_view(w.notes@) =~= Seq::<NoteV>::empty());
        w
    }

    /// How many directories have been listed.
    pub fn listed(&self) -> (n: usize)
        ensures
            n == self@.listed,
    {
        self.listed
    }

    /// How many directories were skipped for depth so far.
    pub fn skipped(&self) -> (n: usize)
        ensures
            n == self@.skipped,
    {
        self.skipped_for_depth
    }

    /// Whether the executable budget ran out, which ends the walk.
    pub fn is_stopped(&self) -> (b: bool)
        ensures
            b == self@.stopped,
    {
        self.stopped
    }

    /// Counts one more directory listed and queues its subdirectories one
    /// deeper, or, at the depth limit, counts them as skipped.
    pub fn begin(&mut self, listing: &Listing, depth: usize)
        requires
            old(self).wf(),
            old(self)@.listed < usize::MAX,
            old(self)@.skipped + listing.directories@.len() <= usize::MAX,
        ensures
            final(self).wf(),
            final(self)@ == (WalkV {
                listed: (old(self)@.listed + 1) as usize,
                skipped: if depth >= MAX_DEPTH {
                    (old(self)@.skipped + listing.directories@.len()) as usize
                } else {
                    old(self)@.skipped
                },
                queue: old(self)@.queue + queued(listing.path@, texts(listing.directories@), depth),
                ..old(self)@
            }),
    {
        self.listed = self.listed + 1;
        if depth >= MAX_DEPTH {
            self.skipped_for_depth = self.skipped_for_depth + listing.directories.len();
            assert(queued(listing.path@, texts(listing.directories@), depth) =~= Seq::<
                (Seq<Part>, usize),
            >::empty());
            assert(queue_view(self.queue@) =~= queue_view(self.queue@) + Seq::<
                (Seq<Part>, usize),
            >::empty());
            return ;
        }
        let ghost start = queue_view(self.queue@);
        let ghost all = queued(listing.path@, texts(listing.directories@), depth);
        let mut i: usize = 0;
        while i < listing.directories.len()
            invariant
                i <= listing.directories@.len(),
                depth < MAX_DEPTH,
                self.root == old(self).root,
                self.candidates == old(self).candidates,
                self.notes == old(self).notes,
                self.listed == old(self).listed + 1,
                self.skipped_for_depth == old(self).skipped_for_depth,
                self.stopped == old(self).stopped,
                all == queued(listing.path@, texts(listing.directories@), depth),
                queue_view(self.queue@) == start + all.take(i as int),
            decreases listing.directories@.len() - i,
        {
            let mut child = listing.path.copy();
            child.components.push(Component::Normal(copy_text(listing.directories[i].as_str())));
            assert(child@ =~= listing.path@.push(Part::Normal(listing.directories@[i as int]@)));
            let ghost before = queue_view(self.queue@);
            self.queue.push((child, depth + 1));
            assert(queue_view(self.queue@) =~= before.push((child@, (depth + 1) as usize)));
            assert(all.take(i + 1) =~= all.take(i as int).push(all[i as int]));
            i = i + 1;
        }
        assert(all.take(i as int) =~= all);
    }

    /// Whether one more executable may be ranked. When the budget is spent
    /// this says so in a note and stops the walk.
    pub fn room_for_one(&mut self) -> (ok: bool)
        requires
            old(self).wf(),
        ensures
            final(self).wf(),
            ok == (old(self)@.candidates.len() < MAX_EXECUTABLES),
            ok ==> final(self)@ == old(self)@,
            !ok ==> final(self)@ == (WalkV {
                notes: old(self)@.notes.push(NoteV::ExecutableLimited { limit: MAX_EXECUTABLES }),
                stopped: true,
                ..old(self)@
            }),
    {
        if self.candidates.len() >= MAX_EXECUTABLES {
            let ghost before = notes_view(self.notes@);
            self.notes.push(Note::ExecutableLimited { limit: MAX_EXECUTABLES });
            assert(notes_view(self.notes@) =~= before.push(
                NoteV::ExecutableLimited { limit: MAX_EXECUTABLES },
            ));
            self.stopped = true;
            false
        } else {
            true
        }
    }

    /// Ranks one executable: `unparsed` says why its image could not be
    /// read, which becomes a note beside it; it is ranked either way.
    pub fn record(
        &mut self,
        observed: &Observed,
        unparsed: Option<String>,
        game_name: Option<&str>,
        directory_name: Option<&str>,
    )
        requires
            old(self).wf(),
            old(self)@.candidates.len() < MAX_EXECUTABLES,
        ensures
            final(self).wf(),
            final(self)@ == (WalkV {
                candidates: old(self)@.candidates.push(
                    spec_assess(observed@, opt_str(game_name), opt_str(directory_name)),
                ),
                notes: match unparsed {
                    Some(source) => old(self)@.notes.push(
                        NoteV::Unparsed { path: observed@.path, source: source@ },
                    ),
                    None => old(self)@.notes,
                },
                ..old(self)@
            }),
    {
        match unparsed {
            Some(source) => {
                let ghost before = notes_view(self.notes@);
                let ghost note = NoteV::Unparsed { path: observed@.path, source: source@ };
                self.notes.push(Note::Unparsed { path: observed.path.copy(), source });
                assert(notes_view(self.notes@) =~= before.push(note));
            },
            None => {},
        }
        let c = assess(observed, game_name, directory_name);
        proof {
            lemma_assess_fits(observed@, opt_str(game_name), opt_str(directory_name));
        }
        let ghost before = candidates_view(self.candidates@);
        self.candidates.push(c);
        assert(candidates_view(self.candidates@) =~= before.push(c@));
    }

    /// The next directory to list, front of the queue first; `None` when
    /// the queue is empty, or when the directory budget is spent, which
    /// empties the queue and says so in a note.
    pub fn next_directory(&mut self) -> (next: Option<(FilePath, usize)>)
        requires
            old(self).wf(),
        ensures
            final(self).wf(),
            old(self)@.queue.len() == 0 ==> next is None && final(self)@ == old(self)@,
            old(self)@.queue.len() > 0 && old(self)@.listed >= MAX_DIRECTORIES ==> next is None
                && final(self)@ == (WalkV {
                queue: Seq::empty(),
                notes: old(self)@.notes.push(NoteV::DirectoryLimited { limit: MAX_DIRECTORIES }),
                ..old(self)@
            }),
            old(self)@.queue.len() > 0 && old(self)@.listed < MAX_DIRECTORIES ==> match next {
                Some((p, d)) => (p@, d) == old(self)@.queue[0] && d <= MAX_DEPTH && final(self)@ == (WalkV {
                    queue: old(self)@.queue.drop_first(),
                    ..old(self)@
                }),
                None => false,
            },
    {
        if self.queue.len() == 0 {
            return None;
        }
        let ghost q = queue_view(self.queue@);
        assert(q[0].1 <= MAX_DEPTH);
        let front = self.queue.remove(0);
        assert(queue_view(self.queue@) =~= q.drop_first());
        if self.listed >= MAX_DIRECTORIES {
            let ghost before = notes_view(self.notes@);
            self.notes.push(Note::DirectoryLimited { limit: MAX_DIRECTORIES });
            assert(notes_view(self.notes@) =~= before.push(
                NoteV::DirectoryLimited { limit: MAX_DIRECTORIES },
            ));
            self.queue = Vec::new();
            assert(queue_view(self.queue@) =~= Seq::<(Seq<Part>, usize)>::empty());
            return None;
        }
        Some(front)
    }

    /// Records a queued directory that could not be listed.
    pub fn unreadable(&mut self, path: FilePath, source: String)
        requires
            old(self).wf(),
        ensures
            final(self).wf(),
            final(self)@ == (WalkV {
                notes: old(self)@.notes.push(NoteV::Unreadable { path: path@, source: source@ }),
                ..old(self)@
            }),
    {
        let ghost before = notes_view(self.notes@);
        let ghost note = NoteV::Unreadable { path: path@, source: source@ };
        self.notes.push(Note::Unreadable { path, source });
        assert(notes_view(self.notes@) =~= before.push(note));
    }

    /// Ends the walk: directories skipped for depth become one note.
    pub fn wrap_up(&mut self)
        requires
            old(self).wf(),
        ensures
            final(self).wf(),
            final(self)@ == (WalkV {
                notes: if old(self)@.skipped > 0 {
                    old(self)@.notes.push(
                        NoteV::DepthLimited { limit: MAX_DEPTH, skipped: old(self)@.skipped },
                    )
                } else {
                    old(self)@.notes
                },
                ..old(self)@
            }),
    {
        if self.skipped_for_depth > 0 {
            let ghost before = notes_view(self.notes@);
            let ghost note = NoteV::DepthLimited { limit: MAX_DEPTH, skipped: self.skipped_for_depth };
            self.notes.push(Note::DepthLimited { limit: MAX_DEPTH, skipped: self.skipped_for_depth });
            assert(notes_view(self.notes@) =~= before.push(note));
        }
    }

    /// The survey the walk produced: its executables ranked best first, and
    /// the notes that qualify the ranking.
    pub fn finish(self) -> (s: Survey)
        requires
            self.wf(),
        ensures
            s@.candidates == crate::order::sort_by(self@.candidates, crate::game::candidate_order()),
            s@.notes == ranked_notes(s@.candidates, self@.notes),
    {
        Survey::ranked(self.candidates, self.notes)
    }
}

} // verus!
