//! The one concept Steam and Heroic share: a launcher that knows where games
//! are, and what may therefore be asked about them.
//!
//! Only a Steam [`Identity`] opens a Proton prefix, so a Heroic game is told
//! in words that the NVAPI question does not apply.

use vstd::prelude::*;

use crate::file_path::{FilePath, Part};
use crate::text::{copy_text, decimal, push_decimal, same_text, texts};

verus! {

/// Which launcher, and which of its backends, supplied a game: `key` for
/// machines, never changing, and `label` for people.
#[derive(Debug, Clone, Copy, PartialEq, Eq, Hash)]
pub struct Origin {
    key: &'static str,
    label: &'static str,
}

/// An origin as plain values.
pub struct OriginV {
    pub key: Seq<char>,
    pub label: Seq<char>,
}

impl View for Origin {
    type V = OriginV;

    closed spec fn view(&self) -> OriginV {
        OriginV { key: self.key@, label: self.label@ }
    }
}

impl Origin {
    /// `key` identifies the launcher to a machine, `label` names it to a
    /// person.
    pub fn new(key: &'static str, label: &'static str) -> (o: Origin)
        ensures
            o@ == (OriginV { key: key@, label: label@ }),
    {
        Origin { key, label }
    }

    /// The stable machine-readable name, such as `"steam"` or `"heroic"`,
    /// shared by every backend of one launcher.
    pub fn key(self) -> (k: &'static str)
        ensures
            k@ == self@.key,
    {
        self.key
    }

    /// The name to print, such as `"Steam"` or `"Heroic / GOG"`.
    pub fn label(self) -> (l: &'static str)
        ensures
            l@ == self@.label,
    {
        self.label
    }

    /// How the origin is printed: its label.
    pub fn describe(self) -> (s: String)
        ensures
            s@ == self@.label,
    {
        copy_text(self.label)
    }
}

/// What a launcher calls a game, and so what can be asked about it.
#[derive(Debug, Clone, PartialEq, Eq, PartialOrd, Ord, Hash)]
pub enum Identity {
    /// A Steam application id: the number in `appmanifest_<id>.acf`, and the
    /// key to the game's Proton prefix.
    SteamApp(u32),
    /// A launcher's own identifier, opaque here on purpose.
    Native(String),
}

/// An identity as plain values.
pub enum IdentityV {
    SteamApp(u32),
    Native(Seq<char>),
}

impl View for Identity {
    type V = IdentityV;

    open spec fn view(&self) -> IdentityV {
        match self {
            Identity::SteamApp(a) => IdentityV::SteamApp(*a),
            Identity::Native(s) => IdentityV::Native(s@),
        }
    }
}

/// How an identity is printed: the appid in decimal, or the launcher's id
/// verbatim.
pub open spec fn identity_text(i: IdentityV) -> Seq<char> {
    match i {
        IdentityV::SteamApp(a) => decimal(a as nat),
        IdentityV::Native(s) => s,
    }
}

impl Identity {
    /// The Steam application id, when there is one. `None` means the game is
    /// not a Steam application; zero is a real appid.
    pub fn steam_appid(&self) -> (a: Option<u32>)
        ensures
            a == match self@ {
                IdentityV::SteamApp(x) => Some(x),
                IdentityV::Native(_) => None::<u32>,
            },
    {
        match self {
            Identity::SteamApp(appid) => Some(*appid),
            Identity::Native(_) => None,
        }
    }

    /// Whether two identities are the same.
    pub fn same(&self, other: &Identity) -> (b: bool)
        ensures
            b == (self@ == other@),
    {
        match (self, other) {
            (Identity::SteamApp(a), Identity::SteamApp(b)) => *a == *b,
            (Identity::Native(a), Identity::Native(b)) => crate::text::same_text(
                a.as_str(),
                b.as_str(),
            ),
            _ => false,
        }
    }

    /// A copy of this identity.
    pub fn copy(&self) -> (c: Identity)
        ensures
            c@ == self@,
    {
        match self {
            Identity::SteamApp(a) => Identity::SteamApp(*a),
            Identity::Native(s) => Identity::Native(copy_text(s.as_str())),
        }
    }

    /// What the launcher calls the game, as it is printed.
    pub fn describe(&self) -> (s: String)
        ensures
            s@ == identity_text(self@),
    {
        match self {
            Identity::SteamApp(appid) => {
                let mut s = String::new();
                push_decimal(&mut s, *appid as u64);
                assert(s@ =~= decimal(*appid as nat));
                s
            },
            Identity::Native(id) => copy_text(id.as_str()),
        }
    }
}

/// One installed game, whichever launcher found it.
#[derive(Debug, Clone, PartialEq, Eq)]
pub struct Game {
    /// What the launcher calls it, and what may be asked about it.
    pub identity: Identity,
    /// The title as the launcher stores it.
    pub name: String,
    /// Absolute install directory.
    pub install_dir: FilePath,
    /// The launcher, and backend, this came from.
    pub origin: Origin,
}

/// A game as plain values.
pub struct GameV {
    pub identity: IdentityV,
    pub name: Seq<char>,
    pub install_dir: Seq<Part>,
    pub origin: OriginV,
}

impl View for Game {
    type V = GameV;

    open spec fn view(&self) -> GameV {
        GameV {
            identity: self.identity@,
            name: self.name@,
            install_dir: self.install_dir@,
            origin: self.origin@,
        }
    }
}

/// The plain values of each game.
pub open spec fn game_views(v: Seq<Game>) -> Seq<GameV> {
    v.map_values(|g: Game| g@)
}

/// The plain values of each path.
pub open spec fn path_views(v: Seq<FilePath>) -> Seq<Seq<Part>> {
    v.map_values(|p: FilePath| p@)
}

/// The libraries inside one launcher root, with the notes and problems that
/// qualify the list; all three can be true at once.
#[derive(Debug, Default, Clone, PartialEq, Eq)]
pub struct Libraries {
    /// The directories to scan for games.
    pub paths: Vec<FilePath>,
    /// Everything was read, and there may be less of it than the user
    /// expects. Must not move an exit code.
    pub notes: Vec<String>,
    /// Something could not be read. Should move an exit code.
    pub problems: Vec<String>,
}

/// What one library turned out to hold: games beside problems, never one
/// instead of the other.
#[derive(Debug, Default, Clone, PartialEq, Eq)]
pub struct Catalogue {
    pub games: Vec<Game>,
    /// One worded entry per record that could not be read, each naming its
    /// file.
    pub problems: Vec<String>,
    /// One worded entry per record that could not be used and cost nothing,
    /// saying why. Printed, but does not move an exit code.
    pub notes: Vec<String>,
}

/// Whether a walk goes on after a visit, or stops where the visitor asked.
#[derive(Debug, Clone, Copy, PartialEq, Eq, Structural)]
pub enum Flow {
    Continue,
    Break,
}

/// The libraries of a root as plain values.
pub struct LibrariesV {
    pub paths: Seq<Seq<Part>>,
    pub notes: Seq<Seq<char>>,
    pub problems: Seq<Seq<char>>,
}

impl View for Libraries {
    type V = LibrariesV;

    open spec fn view(&self) -> LibrariesV {
        LibrariesV {
            paths: path_views(self.paths@),
            notes: texts(self.notes@),
            problems: texts(self.problems@),
        }
    }
}

/// A place games are installed from, that this tool can enumerate.
///
/// Its methods read the machine. What they answer is named by the spec
/// functions below, one for each method, as a function of the launcher and
/// the argument: a walk takes the machine to hold still while it reads it.
/// Nothing is claimed of what the names are.
pub trait Launcher {
    /// What [`Launcher::origin`] answers.
    open spec fn origin_answer(&self) -> OriginV {
        arbitrary()
    }

    /// What [`Launcher::roots`] answers.
    open spec fn roots_answer(&self) -> Seq<Seq<Part>> {
        arbitrary()
    }

    /// What [`Launcher::libraries`] answers for `root`.
    open spec fn libraries_answer(&self, root: Seq<Part>) -> LibrariesV {
        arbitrary()
    }

    /// What [`Launcher::games`] answers for `library`.
    open spec fn games_answer(&self, library: Seq<Part>) -> CatalogueV {
        arbitrary()
    }

    /// The launcher itself. A game's origin can name a backend too, such as
    /// `"Heroic / GOG"`.
    fn origin(&self) -> (o: Origin)
        ensures
            o@ == self.origin_answer(),
    ;

    /// Every installation found where this code looks. Empty is not proof
    /// there is none.
    fn roots(&self) -> (r: Vec<FilePath>)
        ensures
            path_views(r@) == self.roots_answer(),
    ;

    /// Every path [`Launcher::roots`] considers, existing or not, in order,
    /// so a caller that found nothing can say where it looked.
    fn candidate_roots(&self) -> Vec<FilePath>;

    /// The libraries belonging to one root.
    fn libraries(&self, root: &FilePath) -> (l: Libraries)
        ensures
            l@ == self.libraries_answer(root@),
    ;

    /// The games in one library: everything the launcher declares, tools
    /// included.
    fn games(&self, library: &FilePath) -> (c: Catalogue)
        ensures
            c@ == self.games_answer(library@),
    ;
}

/// What makes two library paths the same directory: the resolved path, or
/// the path as written when it cannot be resolved. Resolving reads the
/// machine, so what it answers is only named, by [`Resolver::key_of`], and
/// taken to hold still during a walk.
pub trait Resolver {
    /// What [`Resolver::identity`] answers for `path`.
    open spec fn key_of(&self, path: Seq<Part>) -> Seq<char> {
        arbitrary()
    }

    fn identity(&self, path: &FilePath) -> (k: String)
        ensures
            k@ == self.key_of(path@),
    ;
}

/// What a catalogue holds, as plain values.
pub struct CatalogueV {
    pub games: Seq<GameV>,
    pub problems: Seq<Seq<char>>,
    pub notes: Seq<Seq<char>>,
}

impl View for Catalogue {
    type V = CatalogueV;

    open spec fn view(&self) -> CatalogueV {
        CatalogueV {
            games: game_views(self.games@),
            problems: texts(self.problems@),
            notes: texts(self.notes@),
        }
    }
}

/// One call of a [`Visitor`], as plain values: what it was handed.
pub enum VisitV {
    Root(OriginV, Seq<Part>),
    Note(OriginV, Seq<char>),
    Problem(OriginV, Seq<char>),
    Library(OriginV, Seq<Part>),
    Catalogue(OriginV, Seq<Part>, CatalogueV),
}

/// What a caller does with each thing [`walk`] finds, as it is found. Every
/// method says whether to go on, so cancellation is the visitor's own
/// business.
///
/// [`Visitor::visits`] is every call made of the visitor, with its answer;
/// [`Visitor::well_formed`] is what the visitor keeps true of itself.
pub trait Visitor {
    /// Every visit so far with the visitor's answer, oldest first.
    open spec fn visits(&self) -> Seq<(VisitV, Flow)> {
        Seq::empty()
    }

    /// What the visitor keeps true of its own state between visits.
    open spec fn well_formed(&self) -> bool {
        true
    }

    /// One installation of a launcher, before anything inside it is read.
    fn root(&mut self, origin: Origin, root: &FilePath) -> (f: Flow)
        requires
            old(self).well_formed(),
        ensures
            final(self).well_formed(),
            final(self).visits() == old(self).visits().push((VisitV::Root(origin@, root@), f)),
    ;

    /// Everything in this root was read, and there may be less of it than
    /// the user expects.
    fn note(&mut self, origin: Origin, note: &str) -> (f: Flow)
        requires
            old(self).well_formed(),
        ensures
            final(self).well_formed(),
            final(self).visits() == old(self).visits().push((VisitV::Note(origin@, note@), f)),
    ;

    /// Something in this root could not be read.
    fn problem(&mut self, origin: Origin, problem: &str) -> (f: Flow)
        requires
            old(self).well_formed(),
        ensures
            final(self).well_formed(),
            final(self).visits() == old(self).visits().push((VisitV::Problem(origin@, problem@), f)),
    ;

    /// One library, announced before its games are read.
    fn library(&mut self, origin: Origin, library: &FilePath) -> (f: Flow)
        requires
            old(self).well_formed(),
        ensures
            final(self).well_formed(),
            final(self).visits() == old(self).visits().push((VisitV::Library(origin@, library@), f)),
    ;

    /// What that library turned out to hold; `origin` is the launcher's.
    fn catalogue(&mut self, origin: Origin, library: &FilePath, catalogue: Catalogue) -> (f: Flow)
        requires
            old(self).well_formed(),
        ensures
            final(self).well_formed(),
            final(self).visits() == old(self).visits().push(
                (VisitV::Catalogue(origin@, library@, catalogue@), f),
            ),
    ;
}

/// What a walk announces after a root, in order.
#[derive(Debug, PartialEq, Eq)]
pub enum Announcement {
    /// Everything in the root was read, and there may be less of it than
    /// expected.
    Note(String),
    /// Something in the root could not be read.
    Problem(String),
    /// A library to announce, then read, then hand over.
    Library(FilePath),
}

/// An announcement as plain values.
pub enum AnnouncementV {
    Note(Seq<char>),
    Problem(Seq<char>),
    Library(Seq<Part>),
}

impl View for Announcement {
    type V = AnnouncementV;

    open spec fn view(&self) -> AnnouncementV {
        match self {
            Announcement::Note(n) => AnnouncementV::Note(n@),
            Announcement::Problem(p) => AnnouncementV::Problem(p@),
            Announcement::Library(l) => AnnouncementV::Library(l@),
        }
    }
}

/// The plain values of each announcement.
pub open spec fn announcements_view(v: Seq<Announcement>) -> Seq<AnnouncementV> {
    v.map_values(|a: Announcement| a@)
}

/// The first `n` libraries of a root that the walk has not listed, given
/// what `listed` held before them, each library compared by its key: the
/// libraries to announce, and what is listed after them.
pub open spec fn fresh_libraries(
    paths: Seq<Seq<Part>>,
    keys: Seq<Seq<char>>,
    listed: Seq<Seq<char>>,
    n: int,
) -> (Seq<Seq<Part>>, Seq<Seq<char>>)
    decreases n,
{
    if n <= 0 {
        (Seq::empty(), listed)
    } else {
        let (kept, seen) = fresh_libraries(paths, keys, listed, n - 1);
        if seen.contains(keys[n - 1]) {
            (kept, seen)
        } else {
            (kept.push(paths[n - 1]), seen.push(keys[n - 1]))
        }
    }
}

/// What a walk announces after a root whose index is `notes`, `problems`
/// and `paths` (keyed by `keys`), having listed `listed` before: every note,
/// then every problem, above the libraries they qualify; then each library
/// not yet listed, once.
pub open spec fn spec_root_plan(
    notes: Seq<Seq<char>>,
    problems: Seq<Seq<char>>,
    paths: Seq<Seq<Part>>,
    keys: Seq<Seq<char>>,
    listed: Seq<Seq<char>>,
) -> Seq<AnnouncementV> {
    notes.map_values(|n: Seq<char>| AnnouncementV::Note(n)) + problems.map_values(
        |p: Seq<char>| AnnouncementV::Problem(p),
    ) + fresh_libraries(paths, keys, listed, paths.len() as int).0.map_values(
        |l: Seq<Part>| AnnouncementV::Library(l),
    )
}

/// Whether `key` is among `listed`.
fn is_listed(listed: &Vec<String>, key: &str) -> (b: bool)
    ensures
        b == texts(listed@).contains(key@),
{
    let ghost all = texts(listed@);
    let mut i: usize = 0;
    while i < listed.len()
        invariant
            i <= listed@.len(),
            all == texts(listed@),
            forall|j: int| 0 <= j < i ==> all[j] != key@,
        decreases listed@.len() - i,
    {
        if same_text(listed[i].as_str(), key) {
            assert(all[i as int] == key@);
            return true;
        }
        i = i + 1;
    }
    false
}

/// Every message as an announcement of one kind, appended.
fn push_messages(out: &mut Vec<Announcement>, messages: &Vec<String>, notes: bool)
    ensures
        announcements_view(final(out)@) == announcements_view(old(out)@) + if notes {
            texts(messages@).map_values(|n: Seq<char>| AnnouncementV::Note(n))
        } else {
            texts(messages@).map_values(|p: Seq<char>| AnnouncementV::Problem(p))
        },
{
    let ghost start = announcements_view(out@);
    let ghost all = if notes {
        texts(messages@).map_values(|n: Seq<char>| AnnouncementV::Note(n))
    } else {
        texts(messages@).map_values(|p: Seq<char>| AnnouncementV::Problem(p))
    };
    let mut i: usize = 0;
    while i < messages.len()
        invariant
            i <= messages@.len(),
            all == if notes {
                texts(messages@).map_values(|n: Seq<char>| AnnouncementV::Note(n))
            } else {
                texts(messages@).map_values(|p: Seq<char>| AnnouncementV::Problem(p))
            },
            announcements_view(out@) == start + all.take(i as int),
        decreases messages@.len() - i,
    {
        let text = copy_text(messages[i].as_str());
        let a = if notes {
            Announcement::Note(text)
        } else {
            Announcement::Problem(text)
        };
        let ghost before = announcements_view(out@);
        out.push(a);
        assert(announcements_view(out@) =~= before.push(all[i as int]));
        assert(all.take(i + 1) =~= all.take(i as int).push(all[i as int]));
        i = i + 1;
    }
    assert(all.take(i as int) =~= all);
}

/// What a walk announces after one root: its notes, its problems, then each
/// of its libraries not listed before, once; `listed` gains the keys of
/// those libraries. `keys[i]` names the directory `index.paths[i]` is.
pub fn root_plan(listed: &mut Vec<String>, index: &Libraries, keys: &Vec<String>) -> (plan: Vec<
    Announcement,
>)
    requires
        keys@.len() == index.paths@.len(),
    ensures
        announcements_view(plan@) == spec_root_plan(
            texts(index.notes@),
            texts(index.problems@),
            path_views(index.paths@),
            texts(keys@),
            texts(old(listed)@),
        ),
        texts(final(listed)@) == fresh_libraries(
            path_views(index.paths@),
            texts(keys@),
            texts(old(listed)@),
            index.paths@.len() as int,
        ).1,
{
    let mut plan: Vec<Announcement> = Vec::new();
    assert(announcements_view(plan@) =~= Seq::<AnnouncementV>::empty());
    push_messages(&mut plan, &index.notes, true);
    push_messages(&mut plan, &index.problems, false);
    let ghost head = announcements_view(plan@);
    let ghost ps = path_views(index.paths@);
    let ghost ks = texts(keys@);
    let ghost l0 = texts(listed@);
    let mut i: usize = 0;
    assert(fresh_libraries(ps, ks, l0, 0).0.map_values(|l: Seq<Part>| AnnouncementV::Library(l))
        =~= Seq::<AnnouncementV>::empty());
    while i < index.paths.len()
        invariant
            i <= index.paths@.len() == keys@.len(),
            ps == path_views(index.paths@),
            ks == texts(keys@),
            texts(listed@) == fresh_libraries(ps, ks, l0, i as int).1,
            announcements_view(plan@) == head + fresh_libraries(ps, ks, l0, i as int).0.map_values(
                |l: Seq<Part>| AnnouncementV::Library(l),
            ),
        decreases index.paths@.len() - i,
    {
        let ghost before = announcements_view(plan@);
        let ghost prev = fresh_libraries(ps, ks, l0, i as int);
        assert(ks[i as int] == keys@[i as int]@);
        assert(ps[i as int] == index.paths@[i as int]@);
        if !is_listed(listed, keys[i].as_str()) {
            let ghost lb = texts(listed@);
            listed.push(copy_text(keys[i].as_str()));
            assert(texts(listed@) =~= lb.push(ks[i as int]));
            let a = Announcement::Library(index.paths[i].copy());
            plan.push(a);
            assert(announcements_view(plan@) =~= before.push(AnnouncementV::Library(ps[i as int])));
            assert(prev.0.push(ps[i as int]).map_values(|l: Seq<Part>| AnnouncementV::Library(l))
                =~= prev.0.map_values(|l: Seq<Part>| AnnouncementV::Library(l)).push(
                AnnouncementV::Library(ps[i as int]),
            ));
        }
        i = i + 1;
    }
    assert(head =~= texts(index.notes@).map_values(|n: Seq<char>| AnnouncementV::Note(n)) + texts(
        index.problems@,
    ).map_values(|p: Seq<char>| AnnouncementV::Problem(p)));
    plan
}

/// A library is announced at most once across a walk: every library a root
/// announces has a key that was not listed before and that no other library
/// of the root announces, and every key listed before stays listed.
pub proof fn lemma_libraries_once(
    paths: Seq<Seq<Part>>,
    keys: Seq<Seq<char>>,
    listed: Seq<Seq<char>>,
    n: int,
)
    requires
        0 <= n <= paths.len() == keys.len(),
    ensures
        ({
            let (kept, seen) = fresh_libraries(paths, keys, listed, n);
            &&& seen.len() == listed.len() + kept.len()
            &&& seen.take(listed.len() as int) == listed
            &&& forall|i: int|
                0 <= i < kept.len() ==> !listed.contains(#[trigger] seen[listed.len() + i])
            &&& forall|i: int, j: int|
                listed.len() <= i < j < seen.len() ==> #[trigger] seen[i] != #[trigger] seen[j]
        }),
    decreases n,
{
    if n > 0 {
        lemma_libraries_once(paths, keys, listed, n - 1);
        let (kept, seen) = fresh_libraries(paths, keys, listed, n - 1);
        if !seen.contains(keys[n - 1]) {
            let s2 = seen.push(keys[n - 1]);
            assert(s2.take(listed.len() as int) =~= seen.take(listed.len() as int));
            assert forall|i: int| 0 <= i < kept.len() + 1 implies !listed.contains(
                #[trigger] s2[listed.len() + i],
            ) by {
                if i == kept.len() {
                    if listed.contains(keys[n - 1]) {
                        let k = choose|k: int| 0 <= k < listed.len() && listed[k] == keys[n - 1];
                        assert(seen[k] == listed[k]);
                    }
                }
            }
            assert forall|i: int, j: int| listed.len() <= i < j < s2.len() implies #[trigger] s2[i]
                != #[trigger] s2[j] by {
                if j == s2.len() - 1 {
                    assert(seen[i] == s2[i]);
                }
            }
        }
    }
}

/// The visits one announcement calls for under `origin`: a note or a
/// problem is one visit; a library is announced, then its catalogue, as the
/// launcher answers it, handed over.
pub open spec fn announcement_visits<L: Launcher>(launcher: L, origin: OriginV, a: AnnouncementV) -> Seq<
    VisitV,
> {
    match a {
        AnnouncementV::Note(n) => seq![VisitV::Note(origin, n)],
        AnnouncementV::Problem(p) => seq![VisitV::Problem(origin, p)],
        AnnouncementV::Library(l) => seq![
            VisitV::Library(origin, l),
            VisitV::Catalogue(origin, l, launcher.games_answer(l)),
        ],
    }
}

/// The visits a root's announcements call for, in order.
pub open spec fn plan_visits<L: Launcher>(launcher: L, origin: OriginV, plan: Seq<AnnouncementV>) -> Seq<
    VisitV,
>
    decreases plan.len(),
{
    if plan.len() == 0 {
        Seq::empty()
    } else {
        announcement_visits(launcher, origin, plan[0]) + plan_visits(launcher, origin, plan.drop_first())
    }
}

/// The key of each path, as `resolver` answers it.
pub open spec fn keys_of<R: Resolver>(resolver: R, paths: Seq<Seq<Part>>) -> Seq<Seq<char>> {
    paths.map_values(|p: Seq<Part>| resolver.key_of(p))
}

/// What a walk announces after `root`, having listed `listed` before.
pub open spec fn root_announcements<L: Launcher, R: Resolver>(
    launcher: L,
    resolver: R,
    root: Seq<Part>,
    listed: Seq<Seq<char>>,
) -> Seq<AnnouncementV> {
    let index = launcher.libraries_answer(root);
    spec_root_plan(index.notes, index.problems, index.paths, keys_of(resolver, index.paths), listed)
}

/// What a walk has listed after `root`, having listed `listed` before.
pub open spec fn listed_after<L: Launcher, R: Resolver>(
    launcher: L,
    resolver: R,
    root: Seq<Part>,
    listed: Seq<Seq<char>>,
) -> Seq<Seq<char>> {
    let index = launcher.libraries_answer(root);
    fresh_libraries(index.paths, keys_of(resolver, index.paths), listed, index.paths.len() as int).1
}

/// The visits a walk makes over `roots` of one launcher, having listed
/// `listed` before, and what it has listed after them: each root, then
/// what it announces.
pub open spec fn roots_visits<L: Launcher, R: Resolver>(
    launcher: L,
    resolver: R,
    origin: OriginV,
    roots: Seq<Seq<Part>>,
    listed: Seq<Seq<char>>,
) -> (Seq<VisitV>, Seq<Seq<char>>)
    decreases roots.len(),
{
    if roots.len() == 0 {
        (Seq::empty(), listed)
    } else {
        let rest = roots_visits(
            launcher,
            resolver,
            origin,
            roots.drop_first(),
            listed_after(launcher, resolver, roots[0], listed),
        );
        (
            seq![VisitV::Root(origin, roots[0])] + plan_visits(
                launcher,
                origin,
                root_announcements(launcher, resolver, roots[0], listed),
            ) + rest.0,
            rest.1,
        )
    }
}

/// The visits a walk makes over `launchers`, having listed `listed` before.
pub open spec fn launchers_visits<L: Launcher, R: Resolver>(
    launchers: Seq<L>,
    resolver: R,
    listed: Seq<Seq<char>>,
) -> Seq<VisitV>
    decreases launchers.len(),
{
    if launchers.len() == 0 {
        Seq::empty()
    } else {
        let l = launchers[0];
        let here = roots_visits(l, resolver, l.origin_answer(), l.roots_answer(), listed);
        here.0 + launchers_visits(launchers.drop_first(), resolver, here.1)
    }
}

/// Every visit a whole walk over `launchers` makes, in order: for each
/// launcher, each of its roots, then that root's notes, its problems, and
/// each of its libraries whose key is new to the walk with its catalogue.
pub open spec fn spec_walk<L: Launcher, R: Resolver>(launchers: Seq<L>, resolver: R) -> Seq<VisitV> {
    launchers_visits(launchers, resolver, Seq::empty())
}

/// The visits alone, without the answers.
pub open spec fn answers(t: Seq<(VisitV, Flow)>) -> Seq<VisitV> {
    t.map_values(|x: (VisitV, Flow)| x.0)
}

/// Whether every visit in `t` was answered [`Flow::Continue`].
pub open spec fn all_continue(t: Seq<(VisitV, Flow)>) -> bool {
    forall|i: int| 0 <= i < t.len() ==> (#[trigger] t[i]).1 == Flow::Continue
}

/// Whether `t`, a walk's visits with the visitor's answers, is the walk
/// `all` as far as it went, returning `r`: the visits are those of `all` in
/// order; every one but the last was answered [`Flow::Continue`]; the walk
/// stops at the first [`Flow::Break`] and returns it, and otherwise makes
/// every visit of `all` and returns `Continue`.
pub open spec fn walked(t: Seq<(VisitV, Flow)>, all: Seq<VisitV>, r: Flow) -> bool {
    &&& forall|i: int| 0 <= i < t.len() - 1 ==> (#[trigger] t[i]).1 == Flow::Continue
    &&& (r == Flow::Break <==> (t.len() > 0 && t.last().1 == Flow::Break))
    &&& t.len() <= all.len()
    &&& answers(t) == if r == Flow::Continue {
        all
    } else {
        all.take(t.len() as int)
    }
}

/// One more visit, the next one due: the rest due shrinks by it, a stop
/// ends the walk, and an answer to go on keeps every answer so far `Continue`.
proof fn lemma_visit(t: Seq<(VisitV, Flow)>, x: VisitV, f: Flow, rest: Seq<VisitV>, all: Seq<VisitV>)
    requires
        all_continue(t),
        answers(t) + rest == all,
        rest.len() > 0,
        rest[0] == x,
    ensures
        answers(t.push((x, f))) + rest.drop_first() == all,
        f == Flow::Break ==> walked(t.push((x, f)), all, Flow::Break),
        f == Flow::Continue ==> all_continue(t.push((x, f))),
{
    let u = t.push((x, f));
    assert(answers(u) =~= answers(t).push(x));
    assert(answers(u) + rest.drop_first() =~= answers(t) + rest);
    assert forall|i: int| 0 <= i < u.len() - 1 implies (#[trigger] u[i]).1 == Flow::Continue by {
        assert(u[i] == t[i]);
    }
    if f == Flow::Continue {
        assert forall|i: int| 0 <= i < u.len() implies (#[trigger] u[i]).1 == Flow::Continue by {
            if i < t.len() {
                assert(u[i] == t[i]);
            }
        }
    }
    assert(all.take(u.len() as int) =~= answers(u));
}

/// A walk that made every visit due, each answered `Continue`, went its
/// whole way.
proof fn lemma_walked_whole(t: Seq<(VisitV, Flow)>, all: Seq<VisitV>)
    requires
        all_continue(t),
        answers(t) == all,
    ensures
        walked(t, all, Flow::Continue),
{
    if t.len() > 0 {
        assert(t[t.len() - 1] == t.last());
    }
    assert(answers(t).len() == t.len());
}

/// The visits of a plan, one announcement split off the front.
proof fn lemma_plan_visits_step<L: Launcher>(launcher: L, origin: OriginV, plan: Seq<AnnouncementV>, k: int)
    requires
        0 <= k < plan.len(),
    ensures
        plan_visits(launcher, origin, plan.skip(k)) == announcement_visits(launcher, origin, plan[k])
            + plan_visits(launcher, origin, plan.skip(k + 1)),
{
    assert(plan.skip(k)[0] == plan[k]);
    assert(plan.skip(k).drop_first() =~= plan.skip(k + 1));
}

/// The visits over a launcher's roots from `roots` on, then over `others`.
pub open spec fn after_roots<L: Launcher, R: Resolver>(
    launcher: L,
    resolver: R,
    origin: OriginV,
    roots: Seq<Seq<Part>>,
    listed: Seq<Seq<char>>,
    others: Seq<L>,
) -> Seq<VisitV> {
    let here = roots_visits(launcher, resolver, origin, roots, listed);
    here.0 + launchers_visits(others, resolver, here.1)
}

/// The visits over a launcher's roots, the first root split off the front.
proof fn lemma_after_roots_step<L: Launcher, R: Resolver>(
    launcher: L,
    resolver: R,
    origin: OriginV,
    roots: Seq<Seq<Part>>,
    k: int,
    listed: Seq<Seq<char>>,
    others: Seq<L>,
)
    requires
        0 <= k < roots.len(),
    ensures
        after_roots(launcher, resolver, origin, roots.skip(k), listed, others) == seq![
            VisitV::Root(origin, roots[k]),
        ] + plan_visits(launcher, origin, root_announcements(launcher, resolver, roots[k], listed))
            + after_roots(
            launcher,
            resolver,
            origin,
            roots.skip(k + 1),
            listed_after(launcher, resolver, roots[k], listed),
            others,
        ),
{
    assert(roots.skip(k)[0] == roots[k]);
    assert(roots.skip(k).drop_first() =~= roots.skip(k + 1));
    let a = seq![VisitV::Root(origin, roots[k])];
    let b = plan_visits(launcher, origin, root_announcements(launcher, resolver, roots[k], listed));
    let here = roots_visits(
        launcher,
        resolver,
        origin,
        roots.skip(k + 1),
        listed_after(launcher, resolver, roots[k], listed),
    );
    let c = launchers_visits(others, resolver, here.1);
    assert(a + b + here.0 + c =~= a + b + (here.0 + c));
}

/// Makes the visits one root's announcements call for, in order, after the
/// root's own visit: `t` is what the walk has visited since `v0`, the
/// whole walk is `all`, and `after` is what is due after this root's
/// announcements.
fn visit_plan<L: Launcher, V: Visitor>(
    launcher: &L,
    origin: Origin,
    plan: &Vec<Announcement>,
    visitor: &mut V,
    Ghost(v0): Ghost<Seq<(VisitV, Flow)>>,
    Ghost(t0): Ghost<Seq<(VisitV, Flow)>>,
    Ghost(after): Ghost<Seq<VisitV>>,
    Ghost(all): Ghost<Seq<VisitV>>,
) -> (r: (Flow, Ghost<Seq<(VisitV, Flow)>>))
    requires
        old(visitor).well_formed(),
        old(visitor).visits() == v0 + t0,
        all_continue(t0),
        answers(t0) + plan_visits(*launcher, origin@, announcements_view(plan@)) + after == all,
    ensures
        final(visitor).well_formed(),
        final(visitor).visits() == v0 + r.1@,
        r.0 == Flow::Break ==> walked(r.1@, all, Flow::Break),
        r.0 == Flow::Continue ==> all_continue(r.1@) && answers(r.1@) + after == all,
{
    let ghost pv = announcements_view(plan@);
    let ghost mut t = t0;
    let mut k: usize = 0;
    assert(pv.skip(0) =~= pv);
    while k < plan.len()
        invariant
            visitor.well_formed(),
            visitor.visits() == v0 + t,
            all_continue(t),
            k <= plan@.len(),
            pv == announcements_view(plan@),
            answers(t) + plan_visits(*launcher, origin@, pv.skip(k as int)) + after == all,
        decreases plan@.len() - k,
    {
        assert(pv[k as int] == plan@[k as int]@);
        proof {
            lemma_plan_visits_step(*launcher, origin@, pv, k as int);
        }
        let ghost due = announcement_visits(*launcher, origin@, pv[k as int]);
        let ghost later = plan_visits(*launcher, origin@, pv.skip(k + 1)) + after;
        assert(answers(t) + (due + later) == all) by {
            assert(answers(t) + plan_visits(*launcher, origin@, pv.skip(k as int)) + after
                =~= answers(t) + (due + later));
        }
        let go = match &plan[k] {
            Announcement::Note(n) => {
                let f = visitor.note(origin, n.as_str());
                proof {
                    lemma_visit(t, VisitV::Note(origin@, n@), f, due + later, all);
                    assert((due + later).drop_first() =~= later);
                    t = t.push((VisitV::Note(origin@, n@), f));
                }
                f
            },
            Announcement::Problem(p) => {
                let f = visitor.problem(origin, p.as_str());
                proof {
                    lemma_visit(t, VisitV::Problem(origin@, p@), f, due + later, all);
                    assert((due + later).drop_first() =~= later);
                    t = t.push((VisitV::Problem(origin@, p@), f));
                }
                f
            },
            Announcement::Library(library) => {
                let f = visitor.library(origin, library);
                proof {
                    lemma_visit(t, VisitV::Library(origin@, library@), f, due + later, all);
                    t = t.push((VisitV::Library(origin@, library@), f));
                }
                if f == Flow::Break {
                    Flow::Break
                } else {
                    let catalogue = launcher.games(library);
                    let ghost c = catalogue@;
                    let g = visitor.catalogue(origin, library, catalogue);
                    proof {
                        let rest = (due + later).drop_first();
                        assert(rest[0] == VisitV::Catalogue(origin@, library@, c));
                        lemma_visit(t, VisitV::Catalogue(origin@, library@, c), g, rest, all);
                        assert(rest.drop_first() =~= later);
                        t = t.push((VisitV::Catalogue(origin@, library@, c), g));
                    }
                    g
                }
            },
        };
        if go == Flow::Break {
            return (Flow::Break, Ghost(t));
        }
        k = k + 1;
    }
    proof {
        assert(pv.skip(k as int) =~= Seq::<AnnouncementV>::empty());
        assert(answers(t) + after =~= answers(t) + plan_visits(*launcher, origin@, pv.skip(k as int))
            + after);
    }
    (Flow::Continue, Ghost(t))
}

/// The keys of the libraries among the visits `vs`, in order, as
/// `resolver` answers them.
pub open spec fn library_keys<R: Resolver>(resolver: R, vs: Seq<VisitV>) -> Seq<Seq<char>>
    decreases vs.len(),
{
    if vs.len() == 0 {
        Seq::empty()
    } else {
        let before = library_keys(resolver, vs.drop_last());
        match vs.last() {
            VisitV::Library(_, p) => before.push(resolver.key_of(p)),
            _ => before,
        }
    }
}

/// True when no text occurs twice in `s`.
pub open spec fn no_repeats(s: Seq<Seq<char>>) -> bool {
    forall|i: int, j: int| 0 <= i < j < s.len() ==> #[trigger] s[i] != #[trigger] s[j]
}

/// The keys of the libraries among the announcements `p`, in order.
pub open spec fn announced_keys<R: Resolver>(resolver: R, p: Seq<AnnouncementV>) -> Seq<Seq<char>>
    decreases p.len(),
{
    if p.len() == 0 {
        Seq::empty()
    } else {
        let rest = announced_keys(resolver, p.drop_first());
        match p[0] {
            AnnouncementV::Library(l) => seq![resolver.key_of(l)] + rest,
            _ => rest,
        }
    }
}

proof fn lemma_library_keys_concat<R: Resolver>(resolver: R, a: Seq<VisitV>, b: Seq<VisitV>)
    ensures
        library_keys(resolver, a + b) == library_keys(resolver, a) + library_keys(resolver, b),
    decreases b.len(),
{
    if b.len() == 0 {
        assert(a + b =~= a);
        assert(library_keys(resolver, a) + library_keys(resolver, b) =~= library_keys(resolver, a));
    } else {
        lemma_library_keys_concat(resolver, a, b.drop_last());
        assert((a + b).drop_last() =~= a + b.drop_last());
        assert((a + b).last() == b.last());
        let x = library_keys(resolver, a);
        let y = library_keys(resolver, b.drop_last());
        match b.last() {
            VisitV::Library(_, p) => {
                assert(x + y.push(resolver.key_of(p)) =~= (x + y).push(resolver.key_of(p)));
            },
            _ => {},
        }
    }
}

proof fn lemma_plan_keys<L: Launcher, R: Resolver>(launcher: L, resolver: R, origin: OriginV, p: Seq<AnnouncementV>)
    ensures
        library_keys(resolver, plan_visits(launcher, origin, p)) == announced_keys(resolver, p),
    decreases p.len(),
{
    if p.len() > 0 {
        lemma_plan_keys(launcher, resolver, origin, p.drop_first());
        let head = announcement_visits(launcher, origin, p[0]);
        lemma_library_keys_concat(resolver, head, plan_visits(launcher, origin, p.drop_first()));
        match p[0] {
            AnnouncementV::Library(l) => {
                let one = seq![VisitV::Library(origin, l)];
                assert(head.drop_last() =~= one);
                assert(one.drop_last() =~= Seq::<VisitV>::empty());
                assert(library_keys(resolver, Seq::<VisitV>::empty()) == Seq::<Seq<char>>::empty());
                assert(one.last() == VisitV::Library(origin, l));
                assert(library_keys(resolver, one) == library_keys(resolver, one.drop_last()).push(
                    resolver.key_of(l),
                ));
                assert(head.last() is Catalogue);
                assert(library_keys(resolver, head) == library_keys(resolver, head.drop_last()));
                assert(library_keys(resolver, head) =~= seq![resolver.key_of(l)]);
            },
            _ => {
                assert(head.drop_last() =~= Seq::<VisitV>::empty());
                assert(library_keys(resolver, Seq::<VisitV>::empty()) == Seq::<Seq<char>>::empty());
                assert(!(head.last() is Library));
                assert(library_keys(resolver, head) == library_keys(resolver, head.drop_last()));
                assert(library_keys(resolver, head) =~= Seq::<Seq<char>>::empty());
            },
        }
    }
}

proof fn lemma_announced_concat<R: Resolver>(resolver: R, a: Seq<AnnouncementV>, b: Seq<AnnouncementV>)
    ensures
        announced_keys(resolver, a + b) == announced_keys(resolver, a) + announced_keys(resolver, b),
    decreases a.len(),
{
    if a.len() == 0 {
        assert(a + b =~= b);
    } else {
        lemma_announced_concat(resolver, a.drop_first(), b);
        assert((a + b).drop_first() =~= a.drop_first() + b);
        assert((a + b)[0] == a[0]);
        let x = announced_keys(resolver, a.drop_first());
        let y = announced_keys(resolver, b);
        match a[0] {
            AnnouncementV::Library(l) => {
                assert(seq![resolver.key_of(l)] + (x + y) =~= (seq![resolver.key_of(l)] + x) + y);
            },
            _ => {},
        }
    }
}

proof fn lemma_announced_messages<R: Resolver>(resolver: R, m: Seq<Seq<char>>, notes: bool)
    ensures
        announced_keys(
            resolver,
            if notes {
                m.map_values(|n: Seq<char>| AnnouncementV::Note(n))
            } else {
                m.map_values(|n: Seq<char>| AnnouncementV::Problem(n))
            },
        ) == Seq::<Seq<char>>::empty(),
    decreases m.len(),
{
    if m.len() > 0 {
        lemma_announced_messages(resolver, m.drop_first(), notes);
        if notes {
            assert(m.map_values(|n: Seq<char>| AnnouncementV::Note(n)).drop_first() =~= m.drop_first().map_values(
                |n: Seq<char>| AnnouncementV::Note(n),
            ));
        } else {
            assert(m.map_values(|n: Seq<char>| AnnouncementV::Problem(n)).drop_first()
                =~= m.drop_first().map_values(|n: Seq<char>| AnnouncementV::Problem(n)));
        }
    }
}

proof fn lemma_announced_libraries<R: Resolver>(resolver: R, kept: Seq<Seq<Part>>)
    ensures
        announced_keys(resolver, kept.map_values(|l: Seq<Part>| AnnouncementV::Library(l)))
            == kept.map_values(|p: Seq<Part>| resolver.key_of(p)),
    decreases kept.len(),
{
    if kept.len() > 0 {
        lemma_announced_libraries(resolver, kept.drop_first());
        assert(kept.map_values(|l: Seq<Part>| AnnouncementV::Library(l)).drop_first()
            =~= kept.drop_first().map_values(|l: Seq<Part>| AnnouncementV::Library(l)));
        assert(kept.map_values(|p: Seq<Part>| resolver.key_of(p)) =~= seq![resolver.key_of(kept[0])]
            + kept.drop_first().map_values(|p: Seq<Part>| resolver.key_of(p)));
    }
}

proof fn lemma_fresh_keys<R: Resolver>(resolver: R, paths: Seq<Seq<Part>>, listed: Seq<Seq<char>>, n: int)
    requires
        0 <= n <= paths.len(),
    ensures
        fresh_libraries(paths, keys_of(resolver, paths), listed, n).1 == listed
            + fresh_libraries(paths, keys_of(resolver, paths), listed, n).0.map_values(
            |p: Seq<Part>| resolver.key_of(p),
        ),
    decreases n,
{
    if n == 0 {
        assert(listed + Seq::<Seq<Part>>::empty().map_values(|p: Seq<Part>| resolver.key_of(p)) =~= listed);
    } else {
        lemma_fresh_keys(resolver, paths, listed, n - 1);
        let (kept, seen) = fresh_libraries(paths, keys_of(resolver, paths), listed, n - 1);
        assert(keys_of(resolver, paths)[n - 1] == resolver.key_of(paths[n - 1]));
        assert(kept.push(paths[n - 1]).map_values(|p: Seq<Part>| resolver.key_of(p)) =~= kept.map_values(
            |p: Seq<Part>| resolver.key_of(p),
        ).push(resolver.key_of(paths[n - 1])));
        assert((listed + kept.map_values(|p: Seq<Part>| resolver.key_of(p))).push(resolver.key_of(paths[n - 1]))
            =~= listed + kept.map_values(|p: Seq<Part>| resolver.key_of(p)).push(resolver.key_of(paths[n - 1])));
    }
}

/// What one root adds: the keys of the libraries it announces are those
/// the walk lists after it, and none repeats.
proof fn lemma_root_keys<L: Launcher, R: Resolver>(
    launcher: L,
    resolver: R,
    origin: OriginV,
    root: Seq<Part>,
    listed: Seq<Seq<char>>,
)
    requires
        no_repeats(listed),
    ensures
        listed_after(launcher, resolver, root, listed) == listed + library_keys(
            resolver,
            plan_visits(launcher, origin, root_announcements(launcher, resolver, root, listed)),
        ),
        no_repeats(listed_after(launcher, resolver, root, listed)),
{
    let index = launcher.libraries_answer(root);
    let keys = keys_of(resolver, index.paths);
    let n = index.paths.len() as int;
    let (kept, seen) = fresh_libraries(index.paths, keys, listed, n);
    lemma_fresh_keys(resolver, index.paths, listed, n);
    lemma_libraries_once(index.paths, keys, listed, n);
    let a = index.notes.map_values(|m: Seq<char>| AnnouncementV::Note(m));
    let b = index.problems.map_values(|m: Seq<char>| AnnouncementV::Problem(m));
    let c = kept.map_values(|l: Seq<Part>| AnnouncementV::Library(l));
    lemma_plan_keys(launcher, resolver, origin, a + b + c);
    lemma_announced_concat(resolver, a + b, c);
    lemma_announced_concat(resolver, a, b);
    lemma_announced_messages(resolver, index.notes, true);
    lemma_announced_messages(resolver, index.problems, false);
    lemma_announced_libraries(resolver, kept);
    assert(announced_keys(resolver, a + b + c) =~= kept.map_values(|p: Seq<Part>| resolver.key_of(p)));
    assert forall|i: int, j: int| 0 <= i < j < seen.len() implies #[trigger] seen[i] != #[trigger] seen[j] by {
        if j < listed.len() {
            assert(seen[i] == seen.take(listed.len() as int)[i] && seen[j] == seen.take(listed.len() as int)[j]);
        } else if i < listed.len() {
            assert(seen[i] == seen.take(listed.len() as int)[i]);
            assert(!listed.contains(seen[listed.len() + (j - listed.len())]));
            assert(listed[i] == seen[i]);
        }
    }
}

/// What a launcher's roots add, as [`lemma_root_keys`] says of one root.
proof fn lemma_roots_keys<L: Launcher, R: Resolver>(
    launcher: L,
    resolver: R,
    origin: OriginV,
    roots: Seq<Seq<Part>>,
    listed: Seq<Seq<char>>,
)
    requires
        no_repeats(listed),
    ensures
        roots_visits(launcher, resolver, origin, roots, listed).1 == listed + library_keys(
            resolver,
            roots_visits(launcher, resolver, origin, roots, listed).0,
        ),
        no_repeats(roots_visits(launcher, resolver, origin, roots, listed).1),
    decreases roots.len(),
{
    if roots.len() == 0 {
        assert(listed + Seq::<Seq<char>>::empty() =~= listed);
    } else {
        let next = listed_after(launcher, resolver, roots[0], listed);
        lemma_root_keys(launcher, resolver, origin, roots[0], listed);
        lemma_roots_keys(launcher, resolver, origin, roots.drop_first(), next);
        let rest = roots_visits(launcher, resolver, origin, roots.drop_first(), next);
        let root = seq![VisitV::Root(origin, roots[0])];
        let plan = plan_visits(launcher, origin, root_announcements(launcher, resolver, roots[0], listed));
        lemma_library_keys_concat(resolver, root + plan, rest.0);
        lemma_library_keys_concat(resolver, root, plan);
        assert(root.drop_last() =~= Seq::<VisitV>::empty());
        assert(library_keys(resolver, Seq::<VisitV>::empty()) == Seq::<Seq<char>>::empty());
        assert(root.last() is Root);
        assert(library_keys(resolver, root) == library_keys(resolver, root.drop_last()));
        assert(library_keys(resolver, root) =~= Seq::<Seq<char>>::empty());
        assert(library_keys(resolver, root) + library_keys(resolver, plan) =~= library_keys(resolver, plan));
        assert(listed + library_keys(resolver, plan) + library_keys(resolver, rest.0) =~= listed + (
        library_keys(resolver, plan) + library_keys(resolver, rest.0)));
    }
}

/// What the launchers add, as [`lemma_roots_keys`] says of one launcher.
proof fn lemma_launchers_keys<L: Launcher, R: Resolver>(
    launchers: Seq<L>,
    resolver: R,
    listed: Seq<Seq<char>>,
)
    requires
        no_repeats(listed),
    ensures
        no_repeats(listed + library_keys(resolver, launchers_visits(launchers, resolver, listed))),
    decreases launchers.len(),
{
    if launchers.len() == 0 {
        assert(listed + library_keys(resolver, Seq::<VisitV>::empty()) =~= listed);
    } else {
        let l = launchers[0];
        let here = roots_visits(l, resolver, l.origin_answer(), l.roots_answer(), listed);
        lemma_roots_keys(l, resolver, l.origin_answer(), l.roots_answer(), listed);
        lemma_launchers_keys(launchers.drop_first(), resolver, here.1);
        let rest = launchers_visits(launchers.drop_first(), resolver, here.1);
        lemma_library_keys_concat(resolver, here.0, rest);
        assert(listed + library_keys(resolver, here.0 + rest) =~= here.1 + library_keys(resolver, rest));
    }
}

/// A whole walk announces each library at most once, however many
/// launchers and roots name it: no two libraries it visits have one key.
pub proof fn lemma_walk_libraries_once<L: Launcher, R: Resolver>(launchers: Seq<L>, resolver: R)
    ensures
        no_repeats(library_keys(resolver, spec_walk(launchers, resolver))),
{
    lemma_launchers_keys(launchers, resolver, Seq::empty());
    assert(Seq::<Seq<char>>::empty() + library_keys(resolver, spec_walk(launchers, resolver))
        =~= library_keys(resolver, spec_walk(launchers, resolver)));
}

/// Visits every launcher in `launchers`, every installation of each, and
/// every library in each installation, in that order: a root is announced,
/// then its notes and its problems, then each library before it is read and
/// its catalogue handed over.
///
/// Libraries are walked once across the whole walk, compared by what
/// `resolver` says they are, since separate installs and launchers can name
/// the same one; roots are not deduplicated. Nothing fails the walk:
/// failures arrive as worded items. [`Flow::Break`] means the visitor asked
/// to stop, and nothing after that visit is read.
///
/// Exactly: the visits are those of [`spec_walk`] over what the launchers
/// and `resolver` answer, in order, up to and including the first one the
/// visitor answers [`Flow::Break`], which is then returned.
pub fn walk<L: Launcher, V: Visitor, R: Resolver>(
    launchers: &Vec<L>,
    visitor: &mut V,
    resolver: &R,
) -> (r: Flow)
    requires
        old(visitor).well_formed(),
    ensures
        final(visitor).well_formed(),
        final(visitor).visits().len() >= old(visitor).visits().len(),
        final(visitor).visits().take(old(visitor).visits().len() as int) == old(visitor).visits(),
        walked(
            final(visitor).visits().skip(old(visitor).visits().len() as int),
            spec_walk(launchers@, *resolver),
            r,
        ),
{
    let ghost v0 = visitor.visits();
    let ghost all = spec_walk(launchers@, *resolver);
    let ghost mut t: Seq<(VisitV, Flow)> = Seq::empty();
    let mut listed: Vec<String> = Vec::new();
    let mut li: usize = 0;
    assert(launchers@.skip(0) =~= launchers@);
    assert(texts(listed@) =~= Seq::<Seq<char>>::empty());
    assert(answers(t) =~= Seq::<VisitV>::empty());
    assert(answers(t) + launchers_visits(launchers@.skip(0), *resolver, texts(listed@)) =~= all);
    while li < launchers.len()
        invariant
            visitor.well_formed(),
            visitor.visits() == v0 + t,
            v0 == old(visitor).visits(),
            all == spec_walk(launchers@, *resolver),
            all_continue(t),
            li <= launchers@.len(),
            answers(t) + launchers_visits(launchers@.skip(li as int), *resolver, texts(listed@)) == all,
        decreases launchers@.len() - li,
    {
        let launcher = &launchers[li];
        let origin = launcher.origin();
        let roots = launcher.roots();
        let ghost rv = path_views(roots@);
        let ghost others = launchers@.skip(li + 1);
        proof {
            assert(launchers@.skip(li as int)[0] == launchers@[li as int]);
            assert(launchers@.skip(li as int).drop_first() =~= others);
            assert(rv.skip(0) =~= rv);
        }
        let mut ri: usize = 0;
        while ri < roots.len()
            invariant
                visitor.well_formed(),
                visitor.visits() == v0 + t,
                v0 == old(visitor).visits(),
                all == spec_walk(launchers@, *resolver),
                all_continue(t),
                ri <= roots@.len(),
                rv == path_views(roots@),
                answers(t) + after_roots(*launcher, *resolver, origin@, rv.skip(ri as int), texts(listed@), others) == all,
            decreases roots@.len() - ri,
        {
            let root = &roots[ri];
            let ghost l0 = texts(listed@);
            proof {
                assert(rv[ri as int] == root@);
                lemma_after_roots_step(*launcher, *resolver, origin@, rv, ri as int, l0, others);
            }
            let ghost plan_due = plan_visits(*launcher, origin@, root_announcements(*launcher, *resolver, root@, l0));
            let ghost after = after_roots(
                *launcher,
                *resolver,
                origin@,
                rv.skip(ri + 1),
                listed_after(*launcher, *resolver, root@, l0),
                others,
            );
            let ghost rest = seq![VisitV::Root(origin@, root@)] + plan_due + after;
            let f = visitor.root(origin, root);
            proof {
                lemma_visit(t, VisitV::Root(origin@, root@), f, rest, all);
                assert(rest.drop_first() =~= plan_due + after);
                t = t.push((VisitV::Root(origin@, root@), f));
            }
            if f == Flow::Break {
                proof {
                    assert((v0 + t).take(v0.len() as int) =~= v0);
                    assert((v0 + t).skip(v0.len() as int) =~= t);
                }
                return Flow::Break;
            }
            let index = launcher.libraries(root);
            let mut keys: Vec<String> = Vec::new();
            let mut k: usize = 0;
            while k < index.paths.len()
                invariant
                    k <= index.paths@.len(),
                    keys@.len() == k,
                    forall|j: int| 0 <= j < k ==> (#[trigger] keys@[j])@ == resolver.key_of(index.paths@[j]@),
                    answers(t) + (plan_due + after) == all,
                decreases index.paths@.len() - k,
            {
                keys.push(resolver.identity(&index.paths[k]));
                k = k + 1;
            }
            proof {
                assert(texts(keys@) =~= keys_of(*resolver, path_views(index.paths@)));
                assert(index@ == launcher.libraries_answer(root@));
                assert(index@.paths == path_views(index.paths@));
                assert(index@.notes == texts(index.notes@));
                assert(index@.problems == texts(index.problems@));
            }
            let plan = root_plan(&mut listed, &index, &keys);
            proof {
                assert(announcements_view(plan@) == root_announcements(*launcher, *resolver, root@, l0));
                assert(texts(listed@) == listed_after(*launcher, *resolver, root@, l0));
                assert(answers(t) + plan_visits(*launcher, origin@, announcements_view(plan@)) + after
                    =~= answers(t) + (plan_due + after));
            }
            let (go, Ghost(done)) = visit_plan(
                launcher,
                origin,
                &plan,
                visitor,
                Ghost(v0),
                Ghost(t),
                Ghost(after),
                Ghost(all),
            );
            proof {
                assert(answers(t) + plan_due + after =~= answers(t) + (plan_due + after));
                t = done;
            }
            if go == Flow::Break {
                proof {
                    assert((v0 + t).take(v0.len() as int) =~= v0);
                    assert((v0 + t).skip(v0.len() as int) =~= t);
                }
                return Flow::Break;
            }
            ri = ri + 1;
        }
        proof {
            assert(rv.skip(ri as int) =~= Seq::<Seq<Part>>::empty());
            assert(after_roots(*launcher, *resolver, origin@, rv.skip(ri as int), texts(listed@), others)
                =~= launchers_visits(others, *resolver, texts(listed@)));
        }
        li = li + 1;
    }
    proof {
        assert(launchers@.skip(li as int) =~= Seq::<L>::empty());
        assert(answers(t) =~= all);
        lemma_walked_whole(t, all);
        assert((v0 + t).take(v0.len() as int) =~= v0);
        assert((v0 + t).skip(v0.len() as int) =~= t);
    }
    Flow::Continue
}

/// One game in a completed launcher inventory. `library` is where Steam's
/// Proton prefix lives.
#[derive(Debug, Clone, PartialEq, Eq)]
pub struct InventoryEntry {
    /// The launcher installation that led to this game.
    pub root: Option<FilePath>,
    pub game: Game,
    pub library: FilePath,
}

/// One launcher installation visited by an inventory walk.
#[derive(Debug, Clone, PartialEq, Eq)]
pub struct InventoryRoot {
    pub origin: Origin,
    pub path: FilePath,
}

/// One library visited under a launcher installation.
#[derive(Debug, Clone, PartialEq, Eq)]
pub struct InventoryLibrary {
    pub origin: Origin,
    /// `None` keeps a library announced before any root without inventing
    /// one.
    pub root: Option<FilePath>,
    pub path: FilePath,
}

/// A non-game fact reported during an inventory walk.
#[derive(Debug, Clone, PartialEq, Eq)]
pub struct InventoryDiagnostic {
    pub origin: Origin,
    pub root: Option<FilePath>,
    /// Root-index diagnostics have no library; catalogue diagnostics do.
    pub library: Option<FilePath>,
    pub message: String,
}

/// An optional path as plain values.
pub open spec fn opt_path(p: Option<FilePath>) -> Option<Seq<Part>> {
    match p {
        Some(q) => Some(q@),
        None => None,
    }
}

/// An entry as plain values.
pub struct EntryV {
    pub root: Option<Seq<Part>>,
    pub game: GameV,
    pub library: Seq<Part>,
}

/// A root as plain values.
pub struct RootV {
    pub origin: OriginV,
    pub path: Seq<Part>,
}

/// A library as plain values.
pub struct LibraryV {
    pub origin: OriginV,
    pub root: Option<Seq<Part>>,
    pub path: Seq<Part>,
}

/// A diagnostic as plain values.
pub struct DiagnosticV {
    pub origin: OriginV,
    pub root: Option<Seq<Part>>,
    pub library: Option<Seq<Part>>,
    pub message: Seq<char>,
}

impl View for InventoryEntry {
    type V = EntryV;

    open spec fn view(&self) -> EntryV {
        EntryV { root: opt_path(self.root), game: self.game@, library: self.library@ }
    }
}

impl View for InventoryRoot {
    type V = RootV;

    open spec fn view(&self) -> RootV {
        RootV { origin: self.origin@, path: self.path@ }
    }
}

impl View for InventoryLibrary {
    type V = LibraryV;

    open spec fn view(&self) -> LibraryV {
        LibraryV { origin: self.origin@, root: opt_path(self.root), path: self.path@ }
    }
}

impl View for InventoryDiagnostic {
    type V = DiagnosticV;

    open spec fn view(&self) -> DiagnosticV {
        DiagnosticV {
            origin: self.origin@,
            root: opt_path(self.root),
            library: opt_path(self.library),
            message: self.message@,
        }
    }
}

/// The plain values of each diagnostic.
pub open spec fn diagnostics_view(v: Seq<InventoryDiagnostic>) -> Seq<DiagnosticV> {
    v.map_values(|d: InventoryDiagnostic| d@)
}

/// The plain values of each entry.
pub open spec fn entries_view(v: Seq<InventoryEntry>) -> Seq<EntryV> {
    v.map_values(|e: InventoryEntry| e@)
}

/// The diagnostics a catalogue's messages become, under `root` and
/// `library`.
pub open spec fn located(
    messages: Seq<Seq<char>>,
    origin: OriginV,
    root: Option<Seq<Part>>,
    library: Option<Seq<Part>>,
) -> Seq<DiagnosticV> {
    messages.map_values(
        |m: Seq<char>| DiagnosticV { origin, root, library, message: m },
    )
}

/// A completed inventory, for callers and tests that want every fact of the
/// walk rather than a [`Visitor`].
///
/// `trail` is every visit the inventory was made as a [`Visitor`], which
/// the recorded facts are drawn from.
#[derive(Clone)]
pub struct Inventory {
    pub roots: Vec<InventoryRoot>,
    pub libraries: Vec<InventoryLibrary>,
    pub notes: Vec<InventoryDiagnostic>,
    pub problems: Vec<InventoryDiagnostic>,
    pub entries: Vec<InventoryEntry>,
    /// The root the facts being recorded belong to: the last one announced.
    pub current_root: Option<FilePath>,
    pub trail: Ghost<Seq<(VisitV, Flow)>>,
}

/// An inventory's facts as plain values.
pub struct InventoryV {
    pub roots: Seq<RootV>,
    pub libraries: Seq<LibraryV>,
    pub notes: Seq<DiagnosticV>,
    pub problems: Seq<DiagnosticV>,
    pub entries: Seq<EntryV>,
    pub current: Option<Seq<Part>>,
}

/// The facts of an inventory that has seen nothing.
pub open spec fn no_facts() -> InventoryV {
    InventoryV {
        roots: Seq::empty(),
        libraries: Seq::empty(),
        notes: Seq::empty(),
        problems: Seq::empty(),
        entries: Seq::empty(),
        current: None,
    }
}

/// The facts after one more visit: a root becomes current, notes and
/// problems of an index sit at the current root, a library under it, and a
/// catalogue's messages and games at that library under it.
pub open spec fn after_visit(s: InventoryV, v: VisitV) -> InventoryV {
    match v {
        VisitV::Root(o, r) => InventoryV {
            roots: s.roots.push(RootV { origin: o, path: r }),
            libraries: s.libraries,
            notes: s.notes,
            problems: s.problems,
            entries: s.entries,
            current: Some(r),
        },
        VisitV::Note(o, n) => InventoryV {
            roots: s.roots,
            libraries: s.libraries,
            notes: s.notes.push(DiagnosticV { origin: o, root: s.current, library: None, message: n }),
            problems: s.problems,
            entries: s.entries,
            current: s.current,
        },
        VisitV::Problem(o, p) => InventoryV {
            roots: s.roots,
            libraries: s.libraries,
            notes: s.notes,
            problems: s.problems.push(
                DiagnosticV { origin: o, root: s.current, library: None, message: p },
            ),
            entries: s.entries,
            current: s.current,
        },
        VisitV::Library(o, l) => InventoryV {
            roots: s.roots,
            libraries: s.libraries.push(LibraryV { origin: o, root: s.current, path: l }),
            notes: s.notes,
            problems: s.problems,
            entries: s.entries,
            current: s.current,
        },
        VisitV::Catalogue(o, l, c) => InventoryV {
            roots: s.roots,
            libraries: s.libraries,
            notes: s.notes + located(c.notes, o, s.current, Some(l)),
            problems: s.problems + located(c.problems, o, s.current, Some(l)),
            entries: s.entries + c.games.map_values(
                |g: GameV| EntryV { root: s.current, game: g, library: l },
            ),
            current: s.current,
        },
    }
}

/// The facts an inventory records from the visits `t`, in order.
pub open spec fn recorded(t: Seq<(VisitV, Flow)>) -> InventoryV
    decreases t.len(),
{
    if t.len() == 0 {
        no_facts()
    } else {
        after_visit(recorded(t.drop_last()), t.last().0)
    }
}

/// A copy of an optional path.
fn copy_path(p: &Option<FilePath>) -> (q: Option<FilePath>)
    ensures
        opt_path(q) == opt_path(*p),
{
    match p {
        Some(x) => Some(x.copy()),
        None => None,
    }
}

/// Every message as a diagnostic under `root` and `library`, appended.
fn push_located(
    out: &mut Vec<InventoryDiagnostic>,
    messages: Vec<String>,
    origin: Origin,
    root: &Option<FilePath>,
    library: &FilePath,
)
    ensures
        diagnostics_view(final(out)@) == diagnostics_view(old(out)@) + located(
            texts(messages@),
            origin@,
            opt_path(*root),
            Some(library@),
        ),
{
    let ghost start = diagnostics_view(out@);
    let ghost all = located(texts(messages@), origin@, opt_path(*root), Some(library@));
    let mut i: usize = 0;
    while i < messages.len()
        invariant
            i <= messages@.len(),
            all == located(texts(messages@), origin@, opt_path(*root), Some(library@)),
            diagnostics_view(out@) == start + all.take(i as int),
        decreases messages@.len() - i,
    {
        let d = InventoryDiagnostic {
            origin,
            root: copy_path(root),
            library: Some(library.copy()),
            message: copy_text(messages[i].as_str()),
        };
        let ghost before = diagnostics_view(out@);
        out.push(d);
        assert(all.take(i + 1) =~= all.take(i as int).push(all[i as int]));
        assert(diagnostics_view(out@) =~= before.push(all[i as int]));
        i = i + 1;
    }
    assert(all.take(i as int) =~= all);
}

impl Inventory {
    /// An inventory that has seen nothing.
    pub fn new() -> (inv: Inventory)
        ensures
            inv.facts() == no_facts(),
            inv.trail@ == Seq::<(VisitV, Flow)>::empty(),
            inv.wf(),
    {
        let inv = Inventory {
            roots: Vec::new(),
            libraries: Vec::new(),
            notes: Vec::new(),
            problems: Vec::new(),
            entries: Vec::new(),
            current_root: None,
            trail: Ghost(Seq::empty()),
        };
        assert(inv.roots@.map_values(|r: InventoryRoot| r@) =~= Seq::<RootV>::empty());
        assert(inv.libraries@.map_values(|l: InventoryLibrary| l@) =~= Seq::<LibraryV>::empty());
        assert(diagnostics_view(inv.notes@) =~= Seq::<DiagnosticV>::empty());
        assert(diagnostics_view(inv.problems@) =~= Seq::<DiagnosticV>::empty());
        assert(entries_view(inv.entries@) =~= Seq::<EntryV>::empty());
        inv
    }

    /// The recorded facts as plain values.
    pub open spec fn facts(&self) -> InventoryV {
        InventoryV {
            roots: self.roots@.map_values(|r: InventoryRoot| r@),
            libraries: self.libraries@.map_values(|l: InventoryLibrary| l@),
            notes: diagnostics_view(self.notes@),
            problems: diagnostics_view(self.problems@),
            entries: entries_view(self.entries@),
            current: self.current(),
        }
    }

    /// The facts are those the trail records, and the inventory never asked
    /// a walk to stop.
    pub open spec fn wf(&self) -> bool {
        &&& self.facts() == recorded(self.trail@)
        &&& forall|i: int| 0 <= i < self.trail@.len() ==> (#[trigger] self.trail@[i]).1
            == Flow::Continue
    }

    /// The root the next facts belong to.
    pub open spec fn current(&self) -> Option<Seq<Part>> {
        opt_path(self.current_root)
    }

    /// One more visit, answered [`Flow::Continue`] and recorded, keeps the
    /// facts those of the trail.
    proof fn keep_wf(&self, before: Seq<(VisitV, Flow)>, v: (VisitV, Flow))
        requires
            self.trail@ == before.push(v),
            v.1 == Flow::Continue,
            forall|i: int| 0 <= i < before.len() ==> (#[trigger] before[i]).1 == Flow::Continue,
            self.facts() == after_visit(recorded(before), v.0),
        ensures
            self.wf(),
    {
        assert(self.trail@.drop_last() =~= before);
        assert forall|i: int| 0 <= i < self.trail@.len() implies (#[trigger] self.trail@[i]).1
            == Flow::Continue by {
            if i < before.len() {
                assert(self.trail@[i] == before[i]);
            }
        }
    }

    /// Records a root, which the facts after it belong to.
    pub fn record_root(&mut self, origin: Origin, root: &FilePath)
        ensures
            final(self).roots@.map_values(|r: InventoryRoot| r@) == old(self).roots@.map_values(
                |r: InventoryRoot| r@,
            ).push(RootV { origin: origin@, path: root@ }),
            final(self).current() == Some(root@),
            final(self).libraries == old(self).libraries,
            final(self).notes == old(self).notes,
            final(self).problems == old(self).problems,
            final(self).entries == old(self).entries,
            final(self).trail == old(self).trail,
    {
        let ghost before = self.roots@.map_values(|r: InventoryRoot| r@);
        self.roots.push(InventoryRoot { origin, path: root.copy() });
        assert(self.roots@.map_values(|r: InventoryRoot| r@) =~= before.push(
            RootV { origin: origin@, path: root@ },
        ));
        self.current_root = Some(root.copy());
    }

    /// Records a note about the current root's index.
    pub fn record_note(&mut self, origin: Origin, note: &str)
        ensures
            diagnostics_view(final(self).notes@) == diagnostics_view(old(self).notes@).push(
                DiagnosticV { origin: origin@, root: old(self).current(), library: None, message: note@ },
            ),
            final(self).current() == old(self).current(),
            final(self).roots == old(self).roots,
            final(self).libraries == old(self).libraries,
            final(self).problems == old(self).problems,
            final(self).entries == old(self).entries,
            final(self).trail == old(self).trail,
    {
        let ghost before = diagnostics_view(self.notes@);
        let d = InventoryDiagnostic {
            origin,
            root: copy_path(&self.current_root),
            library: None,
            message: copy_text(note),
        };
        self.notes.push(d);
        assert(diagnostics_view(self.notes@) =~= before.push(
            DiagnosticV { origin: origin@, root: old(self).current(), library: None, message: note@ },
        ));
    }

    /// Records a problem with the current root's index.
    pub fn record_problem(&mut self, origin: Origin, problem: &str)
        ensures
            diagnostics_view(final(self).problems@) == diagnostics_view(old(self).problems@).push(
                DiagnosticV {
                    origin: origin@,
                    root: old(self).current(),
                    library: None,
                    message: problem@,
                },
            ),
            final(self).current() == old(self).current(),
            final(self).roots == old(self).roots,
            final(self).libraries == old(self).libraries,
            final(self).notes == old(self).notes,
            final(self).entries == old(self).entries,
            final(self).trail == old(self).trail,
    {
        let ghost before = diagnostics_view(self.problems@);
        let d = InventoryDiagnostic {
            origin,
            root: copy_path(&self.current_root),
            library: None,
            message: copy_text(problem),
        };
        self.problems.push(d);
        assert(diagnostics_view(self.problems@) =~= before.push(
            DiagnosticV {
                origin: origin@,
                root: old(self).current(),
                library: None,
                message: problem@,
            },
        ));
    }

    /// Records a library under the current root.
    pub fn record_library(&mut self, origin: Origin, library: &FilePath)
        ensures
            final(self).libraries@.map_values(|l: InventoryLibrary| l@) == old(
                self,
            ).libraries@.map_values(|l: InventoryLibrary| l@).push(
                LibraryV { origin: origin@, root: old(self).current(), path: library@ },
            ),
            final(self).current() == old(self).current(),
            final(self).roots == old(self).roots,
            final(self).notes == old(self).notes,
            final(self).problems == old(self).problems,
            final(self).entries == old(self).entries,
            final(self).trail == old(self).trail,
    {
        let ghost before = self.libraries@.map_values(|l: InventoryLibrary| l@);
        let l = InventoryLibrary { origin, root: copy_path(&self.current_root), path: library.copy() };
        self.libraries.push(l);
        assert(self.libraries@.map_values(|l: InventoryLibrary| l@) =~= before.push(
            LibraryV { origin: origin@, root: old(self).current(), path: library@ },
        ));
    }

    /// Records what a library held: its notes and problems placed at the
    /// library under the current root, and each game as an entry there.
    pub fn record_catalogue(&mut self, origin: Origin, library: &FilePath, catalogue: Catalogue)
        ensures
            diagnostics_view(final(self).notes@) == diagnostics_view(old(self).notes@) + located(
                texts(catalogue.notes@),
                origin@,
                old(self).current(),
                Some(library@),
            ),
            diagnostics_view(final(self).problems@) == diagnostics_view(old(self).problems@)
                + located(texts(catalogue.problems@), origin@, old(self).current(), Some(library@)),
            entries_view(final(self).entries@) == entries_view(old(self).entries@)
                + game_views(catalogue.games@).map_values(
                |g: GameV| EntryV { root: old(self).current(), game: g, library: library@ },
            ),
            final(self).current() == old(self).current(),
            final(self).roots == old(self).roots,
            final(self).libraries == old(self).libraries,
            final(self).trail == old(self).trail,
    {
        let Catalogue { games, problems, notes } = catalogue;
        let root = copy_path(&self.current_root);
        push_located(&mut self.notes, notes, origin, &root, library);
        push_located(&mut self.problems, problems, origin, &root, library);
        let ghost start = entries_view(self.entries@);
        let ghost all = game_views(games@).map_values(
            |g: GameV| EntryV { root: old(self).current(), game: g, library: library@ },
        );
        let mut rest = games;
        let ghost orig = rest@;
        let total = rest.len();
        let ghost notes_now = self.notes@;
        let ghost problems_now = self.problems@;
        let mut i: usize = 0;
        while rest.len() > 0
            invariant
                i + rest@.len() == orig.len(),
                orig.len() == total,
                self.notes@ == notes_now,
                self.problems@ == problems_now,
                self.roots == old(self).roots,
                self.libraries == old(self).libraries,
                self.current_root == old(self).current_root,
                self.trail == old(self).trail,
                rest@ == orig.skip(i as int),
                opt_path(root) == old(self).current(),
                all == game_views(orig).map_values(
                    |g: GameV| EntryV { root: old(self).current(), game: g, library: library@ },
                ),
                entries_view(self.entries@) == start + all.take(i as int),
            decreases rest@.len(),
        {
            let game = rest.remove(0);
            assert(game == orig[i as int]);
            assert(rest@ =~= orig.skip(i + 1));
            let ghost before = entries_view(self.entries@);
            self.entries.push(InventoryEntry { root: copy_path(&root), game, library: library.copy() });
            assert(all.take(i + 1) =~= all.take(i as int).push(all[i as int]));
            assert(entries_view(self.entries@) =~= before.push(all[i as int]));
            i = i + 1;
        }
        assert(all.take(i as int) =~= all);
    }

    /// Collects the complete walk over `launchers` without cancellation.
    ///
    /// Its visits are every visit of the whole walk, in order, and its facts
    /// are those the visits record.
    pub fn collect<L: Launcher, R: Resolver>(launchers: &Vec<L>, resolver: &R) -> (inv: Inventory)
        ensures
            inv.wf(),
            answers(inv.trail@) == spec_walk(launchers@, *resolver),
            inv.facts() == recorded(inv.trail@),
    {
        let mut inventory = Inventory::new();
        let r = walk(launchers, &mut inventory, resolver);
        proof {
            let t = inventory.trail@;
            assert(t.skip(0) =~= t);
            if r == Flow::Break {
                assert(t[t.len() - 1] == t.last());
            }
        }
        inventory
    }
}

impl Default for Inventory {
    fn default() -> (inv: Inventory)
        ensures
            inv.facts() == no_facts(),
            inv.trail@ == Seq::<(VisitV, Flow)>::empty(),
            inv.wf(),
    {
        Inventory::new()
    }
}

impl Visitor for Inventory {
    open spec fn visits(&self) -> Seq<(VisitV, Flow)> {
        self.trail@
    }

    open spec fn well_formed(&self) -> bool {
        self.wf()
    }

    fn root(&mut self, origin: Origin, root: &FilePath) -> (f: Flow) {
        self.record_root(origin, root);
        let ghost v = (VisitV::Root(origin@, root@), Flow::Continue);
        self.trail = Ghost(self.trail@.push(v));
        proof { self.keep_wf(old(self).trail@, v); }
        Flow::Continue
    }

    fn note(&mut self, origin: Origin, note: &str) -> (f: Flow) {
        self.record_note(origin, note);
        let ghost v = (VisitV::Note(origin@, note@), Flow::Continue);
        self.trail = Ghost(self.trail@.push(v));
        proof { self.keep_wf(old(self).trail@, v); }
        Flow::Continue
    }

    fn problem(&mut self, origin: Origin, problem: &str) -> (f: Flow) {
        self.record_problem(origin, problem);
        let ghost v = (VisitV::Problem(origin@, problem@), Flow::Continue);
        self.trail = Ghost(self.trail@.push(v));
        proof { self.keep_wf(old(self).trail@, v); }
        Flow::Continue
    }

    fn library(&mut self, origin: Origin, library: &FilePath) -> (f: Flow) {
        self.record_library(origin, library);
        let ghost v = (VisitV::Library(origin@, library@), Flow::Continue);
        self.trail = Ghost(self.trail@.push(v));
        proof { self.keep_wf(old(self).trail@, v); }
        Flow::Continue
    }

    fn catalogue(&mut self, origin: Origin, library: &FilePath, catalogue: Catalogue) -> (f: Flow) {
        let ghost v = (VisitV::Catalogue(origin@, library@, catalogue@), Flow::Continue);
        self.record_catalogue(origin, library, catalogue);
        self.trail = Ghost(self.trail@.push(v));
        proof { self.keep_wf(old(self).trail@, v); }
        Flow::Continue
    }
}

} // verus!
