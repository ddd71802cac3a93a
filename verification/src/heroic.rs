//! Heroic: the launcher whose records come from its local caches, and the
//! backends that supplied them.

pub mod json;
pub mod launch;

use vstd::prelude::*;

use self::json::{
    as_bool, as_text, either, json_get, json_pointer, spec_parse_json, Json, JsonV,
};
use crate::file_path::{display, parse_path, FilePath, Part};
use crate::paths::joined;
use crate::steam::library::under;
use crate::launcher::{
    game_views, path_views, Catalogue, Game, GameV, Identity, IdentityV, Libraries, Origin, OriginV,
};
use crate::nvapi::quoting::{blank, is_blank};
use crate::order::{
    apart, in_order, insert_sorted, lemma_apart_permuted, lemma_insert_at, lemma_sort_by_in_order,
    lemma_sort_by_multiset, lemma_text_lt_irreflexive, lemma_text_lt_transitive, sort_by, strict_order,
    text_before, text_lt,
};
use crate::text::{chars_of, copy_text, debug_quoted, debug_text, same_text, texts};

verus! {

/// The launcher this module reads. Each game names its backend too, such as
/// `"Heroic / GOG"`.
pub fn origin() -> (o: Origin)
    ensures
        o@ == (OriginV { key: "heroic"@, label: "Heroic"@ }),
{
    Origin::new("heroic", "Heroic")
}

/// The Heroic backend that supplied a game record.
#[derive(Debug, Clone, Copy, PartialEq, Eq, Structural, Hash)]
pub enum Store {
    Epic,
    Gog,
    Amazon,
}

/// The label a backend's games carry.
pub open spec fn store_label(s: Store) -> Seq<char> {
    match s {
        Store::Epic => "Heroic / Epic"@,
        Store::Gog => "Heroic / GOG"@,
        Store::Amazon => "Heroic / Amazon"@,
    }
}

impl Store {
    /// The backend's name as it is printed.
    pub fn name(self) -> (n: &'static str)
        ensures
            n@ == store_label(self),
    {
        self.origin().label()
    }

    /// What a game from this backend says it came from. The key is
    /// `"heroic"` for all three, since it names the scanner, not the shop.
    pub fn origin(self) -> (o: Origin)
        ensures
            o@ == (OriginV { key: "heroic"@, label: store_label(self) }),
    {
        match self {
            Store::Epic => Origin::new("heroic", "Heroic / Epic"),
            Store::Gog => Origin::new("heroic", "Heroic / GOG"),
            Store::Amazon => Origin::new("heroic", "Heroic / Amazon"),
        }
    }
}

/// The name Heroic's runner for a backend goes by, which prefixes its
/// records in shared caches.
pub open spec fn store_runner(s: Store) -> Seq<char> {
    match s {
        Store::Epic => "legendary"@,
        Store::Gog => "gog"@,
        Store::Amazon => "nile"@,
    }
}

impl Store {
    /// The name of the runner behind this backend.
    pub fn runner(self) -> (r: &'static str)
        ensures
            r@ == store_runner(self),
    {
        match self {
            Store::Epic => "legendary",
            Store::Gog => "gog",
            Store::Amazon => "nile",
        }
    }
}

/// The origin a backend's games carry, as plain values.
pub open spec fn store_origin(s: Store) -> OriginV {
    OriginV { key: "heroic"@, label: store_label(s) }
}

/// One input that could not be trusted.
#[derive(Debug)]
pub enum Error {
    /// A cache file is there and could not be read; `source` says why.
    Io { path: FilePath, source: String },
    /// A cache file is not JSON this reader can read.
    Json { path: FilePath, source: String },
    /// A record, or the whole file, is not the shape Heroic writes.
    BadRecord { path: FilePath, id: String, reason: &'static str },
    /// A record names an install directory that is not there.
    MissingInstall { path: FilePath, id: String, install_dir: FilePath },
    /// A record that names a game but no directory. A problem only when no
    /// other cache supplies the same backend and id.
    NoInstallPath { path: FilePath, id: String, store: Store, title: String },
}

/// An error as plain values.
pub enum ErrorV {
    Io { path: Seq<Part>, source: Seq<char> },
    Json { path: Seq<Part>, source: Seq<char> },
    BadRecord { path: Seq<Part>, id: Seq<char>, reason: Seq<char> },
    MissingInstall { path: Seq<Part>, id: Seq<char>, install_dir: Seq<Part> },
    NoInstallPath { path: Seq<Part>, id: Seq<char>, store: Store, title: Seq<char> },
}

impl View for Error {
    type V = ErrorV;

    open spec fn view(&self) -> ErrorV {
        match self {
            Error::Io { path, source } => ErrorV::Io { path: path@, source: source@ },
            Error::Json { path, source } => ErrorV::Json { path: path@, source: source@ },
            Error::BadRecord { path, id, reason } => ErrorV::BadRecord {
                path: path@,
                id: id@,
                reason: reason@,
            },
            Error::MissingInstall { path, id, install_dir } => ErrorV::MissingInstall {
                path: path@,
                id: id@,
                install_dir: install_dir@,
            },
            Error::NoInstallPath { path, id, store, title } => ErrorV::NoInstallPath {
                path: path@,
                id: id@,
                store: *store,
                title: title@,
            },
        }
    }
}

/// The sentence an error is printed as.
pub open spec fn error_words(e: ErrorV) -> Seq<char> {
    match e {
        ErrorV::Io { path, source } => display(path) + ": "@ + source,
        ErrorV::Json { path, source } => display(path) + ": "@ + source,
        ErrorV::BadRecord { path, id, reason } => display(path) + ": Heroic record "@
            + debug_quoted(id) + " "@ + reason,
        ErrorV::MissingInstall { path, id, install_dir } => display(path) + ": Heroic record "@
            + debug_quoted(id) + " names missing install "@ + display(install_dir),
        ErrorV::NoInstallPath { path, id, .. } => display(path) + ": Heroic record "@
            + debug_quoted(id) + " has no install_path"@,
    }
}

impl Error {
    /// The sentence this error is printed as.
    pub fn describe(&self) -> (s: String)
        ensures
            s@ == error_words(self@),
    {
        match self {
            Error::Io { path, source } | Error::Json { path, source } => {
                let mut s = path.display();
                s.push_str(": ");
                s.push_str(source.as_str());
                s
            },
            Error::BadRecord { path, id, reason } => {
                let mut s = path.display();
                s.push_str(": Heroic record ");
                s.push_str(debug_text(id.as_str()).as_str());
                s.push_str(" ");
                s.push_str(reason);
                s
            },
            Error::MissingInstall { path, id, install_dir } => {
                let mut s = path.display();
                s.push_str(": Heroic record ");
                s.push_str(debug_text(id.as_str()).as_str());
                s.push_str(" names missing install ");
                s.push_str(install_dir.display().as_str());
                s
            },
            Error::NoInstallPath { path, id, .. } => {
                let mut s = path.display();
                s.push_str(": Heroic record ");
                s.push_str(debug_text(id.as_str()).as_str());
                s.push_str(" has no install_path");
                s
            },
        }
    }
}

/// What one record makes: a game whose title is not blank and whose install
/// directory is absolute and among `existing` (any directory, when that is
/// `None`); or why not.
pub open spec fn spec_record(
    record: JsonV,
    id: Seq<char>,
    store: Store,
    path: Seq<Part>,
    existing: Option<Seq<Seq<Part>>>,
) -> Result<GameV, ErrorV> {
    let title = as_text(
        either(json_pointer(record, seq!["game"@, "title"@]), json_get(record, "title"@)),
    );
    if title is None || blank(title.unwrap()) {
        Err(ErrorV::BadRecord { path, id, reason: "has no game title"@ })
    } else {
        let t = title.unwrap();
        let install = as_text(
            either(
                json_pointer(record, seq!["install"@, "install_path"@]),
                json_get(record, "install_path"@),
            ),
        );
        if install is None || install.unwrap().len() == 0 {
            Err(ErrorV::NoInstallPath { path, id, store, title: t })
        } else {
            let i = install.unwrap();
            if i[0] != '/' {
                Err(ErrorV::BadRecord { path, id, reason: "has a relative install_path"@ })
            } else if existing is Some && !existing.unwrap().contains(parse_path(i)) {
                Err(ErrorV::MissingInstall { path, id, install_dir: parse_path(i) })
            } else {
                Ok(
                    GameV {
                        identity: IdentityV::Native(id),
                        name: t,
                        install_dir: parse_path(i),
                        origin: store_origin(store),
                    },
                )
            }
        }
    }
}

/// Whether `v` holds a path with the components of `p`.
fn holds_path(v: &Vec<FilePath>, p: &FilePath) -> (b: bool)
    ensures
        b == paths_of(v@).contains(p@),
{
    let mut i: usize = 0;
    while i < v.len()
        invariant
            i <= v@.len(),
            forall|j: int| 0 <= j < i ==> paths_of(v@)[j] != p@,
        decreases v@.len() - i,
    {
        if v[i].same_as(p) {
            assert(paths_of(v@)[i as int] == p@);
            return true;
        }
        i = i + 1;
    }
    false
}

/// The plain values of each path.
pub open spec fn paths_of(v: Seq<FilePath>) -> Seq<Seq<Part>> {
    v.map_values(|p: FilePath| p@)
}

/// The directories known to exist, as plain values.
pub open spec fn existing_view(e: Option<&Vec<FilePath>>) -> Option<Seq<Seq<Part>>> {
    match e {
        Some(v) => Some(paths_of(v@)),
        None => None,
    }
}

/// The text found at `keys` in `record`, or else under `key`.
fn text_at<'a>(record: &'a Json, first: &str, second: &str, key: &str) -> (r: Option<&'a str>)
    ensures
        match r {
            Some(t) => as_text(
                either(json_pointer(record@, seq![first@, second@]), json_get(record@, key@)),
            ) == Some(t@),
            None => as_text(
                either(json_pointer(record@, seq![first@, second@]), json_get(record@, key@)),
            ) is None,
        },
{
    let found = match record.get(first) {
        Some(outer) => outer.get(second),
        None => None,
    };
    proof {
        let keys = seq![first@, second@];
        assert(keys.drop_first() =~= seq![second@]);
        assert(seq![second@].drop_first() =~= Seq::<Seq<char>>::empty());
        reveal_with_fuel(json_pointer, 3);
        match json_get(record@, first@) {
            Some(v) => {
                assert(json_pointer(record@, keys) == json_pointer(v, seq![second@]));
                match json_get(v, second@) {
                    Some(w) => {
                        assert(json_pointer(w, Seq::<Seq<char>>::empty()) == Some(w));
                    },
                    None => {},
                }
                assert(json_pointer(v, seq![second@]) == json_get(v, second@));
            },
            None => {},
        }
    }
    let value = match found {
        Some(v) => Some(v),
        None => record.get(key),
    };
    match value {
        Some(v) => v.text(),
        None => None,
    }
}

/// What one record makes, as [`spec_record`] states.
pub fn record_to_game(
    record: &Json,
    id: &str,
    store: Store,
    path: &FilePath,
    existing: Option<&Vec<FilePath>>,
) -> (r: Result<Game, Error>)
    ensures
        match r {
            Ok(g) => spec_record(record@, id@, store, path@, existing_view(existing)) == Ok::<
                GameV,
                ErrorV,
            >(g@),
            Err(e) => spec_record(record@, id@, store, path@, existing_view(existing)) == Err::<
                GameV,
                ErrorV,
            >(e@),
        },
{
    let title = match text_at(record, "game", "title", "title") {
        Some(t) => t,
        None => {
            return Err(
                Error::BadRecord { path: path.copy(), id: copy_text(id), reason: "has no game title" },
            );
        },
    };
    if is_blank(title) {
        return Err(
            Error::BadRecord { path: path.copy(), id: copy_text(id), reason: "has no game title" },
        );
    }
    let install = match text_at(record, "install", "install_path", "install_path") {
        Some(i) => i,
        None => {
            return Err(
                Error::NoInstallPath {
                    path: path.copy(),
                    id: copy_text(id),
                    store,
                    title: copy_text(title),
                },
            );
        },
    };
    let chars = chars_of(install);
    if chars.len() == 0 {
        return Err(
            Error::NoInstallPath {
                path: path.copy(),
                id: copy_text(id),
                store,
                title: copy_text(title),
            },
        );
    }
    if chars[0] != '/' {
        return Err(
            Error::BadRecord {
                path: path.copy(),
                id: copy_text(id),
                reason: "has a relative install_path",
            },
        );
    }
    let install_dir = FilePath::parse(install);
    if let Some(dirs) = existing {
        if !holds_path(dirs, &install_dir) {
            return Err(Error::MissingInstall { path: path.copy(), id: copy_text(id), install_dir });
        }
    }
    Ok(
        Game {
            identity: Identity::Native(copy_text(id)),
            name: copy_text(title),
            install_dir,
            origin: store.origin(),
        },
    )
}

/// Which kind of cache a document is: a map from id to record, or a
/// library list.
#[derive(Debug, Clone, Copy, PartialEq, Eq, Structural)]
pub enum Cache {
    InstallMap,
    Library,
}

/// One cache file as it was found: not a file at all (`None`), a file that
/// could not be read, or its text.
#[derive(Debug)]
pub struct Document {
    pub path: FilePath,
    pub store: Store,
    pub cache: Cache,
    pub text: Option<Result<String, String>>,
}

/// A document as plain values.
pub struct DocumentV {
    pub path: Seq<Part>,
    pub store: Store,
    pub cache: Cache,
    pub text: Option<Result<Seq<char>, Seq<char>>>,
}

impl View for Document {
    type V = DocumentV;

    open spec fn view(&self) -> DocumentV {
        DocumentV {
            path: self.path@,
            store: self.store,
            cache: self.cache,
            text: match &self.text {
                None => None,
                Some(Ok(t)) => Some(Ok(t@)),
                Some(Err(m)) => Some(Err(m@)),
            },
        }
    }
}

/// The plain values of each document.
pub open spec fn documents_view(v: Seq<Document>) -> Seq<DocumentV> {
    v.map_values(|d: Document| d@)
}

/// What the records read so far came to: the games, each backend, id and
/// directory once; the problems; and which games were taken.
pub struct GatheredV {
    pub games: Seq<GameV>,
    pub problems: Seq<ErrorV>,
    pub seen: Seq<(Store, IdentityV, Seq<Part>)>,
}

/// `st` with one more problem.
pub open spec fn with_problem(st: GatheredV, e: ErrorV) -> GatheredV {
    GatheredV { problems: st.problems.push(e), ..st }
}

/// One record added: a DLC is never a game, and a game already taken from
/// this backend with this id and directory is not taken twice.
pub open spec fn add_record(
    st: GatheredV,
    record: JsonV,
    id: Seq<char>,
    store: Store,
    path: Seq<Part>,
    existing: Option<Seq<Seq<Part>>>,
) -> GatheredV {
    if as_bool(json_get(record, "is_dlc"@)) == Some(true) {
        st
    } else {
        match spec_record(record, id, store, path, existing) {
            Ok(g) => {
                let key = (store, g.identity, g.install_dir);
                if st.seen.contains(key) {
                    st
                } else {
                    GatheredV { games: st.games.push(g), seen: st.seen.push(key), ..st }
                }
            },
            Err(e) => with_problem(st, e),
        }
    }
}

/// The first `n` members of an install map read, bookkeeping keys (those
/// starting `__`) skipped.
pub open spec fn install_map_from(
    m: Seq<(Seq<char>, JsonV)>,
    n: int,
    st: GatheredV,
    store: Store,
    path: Seq<Part>,
    existing: Option<Seq<Seq<Part>>>,
) -> GatheredV
    decreases n,
{
    if n <= 0 || n > m.len() {
        st
    } else {
        let before = install_map_from(m, n - 1, st, store, path, existing);
        let (id, record) = m[n - 1];
        if id.len() >= 2 && id[0] == '_' && id[1] == '_' {
            before
        } else {
            add_record(before, record, id, store, path, existing)
        }
    }
}

/// An install map read: an object from id to record.
pub open spec fn install_map(
    v: JsonV,
    st: GatheredV,
    store: Store,
    path: Seq<Part>,
    existing: Option<Seq<Seq<Part>>>,
) -> GatheredV {
    match v {
        JsonV::Object(m) => install_map_from(m, m.len() as int, st, store, path, existing),
        _ => with_problem(
            st,
            ErrorV::BadRecord { path, id: "<root>"@, reason: "is not a JSON object"@ },
        ),
    }
}

/// The first `n` entries of a library list read: only installed ones count,
/// and each must name its `app_name`.
pub open spec fn library_from(
    rs: Seq<JsonV>,
    n: int,
    st: GatheredV,
    store: Store,
    path: Seq<Part>,
    existing: Option<Seq<Seq<Part>>>,
) -> GatheredV
    decreases n,
{
    if n <= 0 || n > rs.len() {
        st
    } else {
        let before = library_from(rs, n - 1, st, store, path, existing);
        let r = rs[n - 1];
        if as_bool(json_get(r, "is_installed"@)) != Some(true) {
            before
        } else {
            let app = as_text(json_get(r, "app_name"@));
            if app is None || app.unwrap().len() == 0 {
                with_problem(
                    before,
                    ErrorV::BadRecord {
                        path,
                        id: "<library entry>"@,
                        reason: "has no app_name"@,
                    },
                )
            } else {
                add_record(before, r, app.unwrap(), store, path, existing)
            }
        }
    }
}

/// A library list read: its `games` array, or else its `library` one. An
/// empty object is a cache that has not synchronised yet.
pub open spec fn library(
    v: JsonV,
    st: GatheredV,
    store: Store,
    path: Seq<Part>,
    existing: Option<Seq<Seq<Part>>>,
) -> GatheredV {
    match either(json_get(v, "games"@), json_get(v, "library"@)) {
        Some(JsonV::Array(rs)) => library_from(rs, rs.len() as int, st, store, path, existing),
        _ => if v == JsonV::Object(Seq::empty()) {
            st
        } else {
            with_problem(
                st,
                ErrorV::BadRecord {
                    path,
                    id: "<root>"@,
                    reason: "has no games or library array"@,
                },
            )
        },
    }
}

/// One document read: skipped when it is not a file, a problem when it
/// cannot be read or parsed, and its records otherwise.
pub open spec fn document_effect(
    st: GatheredV,
    d: DocumentV,
    existing: Option<Seq<Seq<Part>>>,
) -> GatheredV {
    match d.text {
        None => st,
        Some(Err(m)) => with_problem(st, ErrorV::Io { path: d.path, source: m }),
        Some(Ok(t)) => match spec_parse_json(t) {
            Err(m) => with_problem(st, ErrorV::Json { path: d.path, source: m }),
            Ok(v) => match d.cache {
                Cache::InstallMap => install_map(v, st, d.store, d.path, existing),
                Cache::Library => library(v, st, d.store, d.path, existing),
            },
        },
    }
}

/// The first `n` documents read, in order.
pub open spec fn gather(docs: Seq<DocumentV>, n: int, existing: Option<Seq<Seq<Part>>>) -> GatheredV
    decreases n,
{
    if n <= 0 || n > docs.len() {
        GatheredV { games: Seq::empty(), problems: Seq::empty(), seen: Seq::empty() }
    } else {
        document_effect(gather(docs, n - 1, existing), docs[n - 1], existing)
    }
}

/// The plain values of each game.
pub open spec fn games_view(v: Seq<Game>) -> Seq<GameV> {
    v.map_values(|g: Game| g@)
}

/// The plain values of each error.
pub open spec fn errors_view(v: Seq<Error>) -> Seq<ErrorV> {
    v.map_values(|e: Error| e@)
}

/// The plain values of each key taken.
pub open spec fn seen_view(v: Seq<(Store, Identity, FilePath)>) -> Seq<(Store, IdentityV, Seq<Part>)> {
    v.map_values(|k: (Store, Identity, FilePath)| (k.0, k.1@, k.2@))
}

/// The records read so far.
pub struct Gathering {
    games: Vec<Game>,
    problems: Vec<Error>,
    seen: Vec<(Store, Identity, FilePath)>,
}

impl View for Gathering {
    type V = GatheredV;

    closed spec fn view(&self) -> GatheredV {
        GatheredV {
            games: games_view(self.games@),
            problems: errors_view(self.problems@),
            seen: seen_view(self.seen@),
        }
    }
}

impl Gathering {
    fn problem(&mut self, e: Error)
        ensures
            final(self)@ == with_problem(old(self)@, e@),
    {
        let ghost before = errors_view(self.problems@);
        self.problems.push(e);
        assert(errors_view(self.problems@) =~= before.push(e@));
    }

    fn has_seen(&self, store: Store, identity: &Identity, dir: &FilePath) -> (b: bool)
        ensures
            b == self@.seen.contains((store, identity@, dir@)),
    {
        let ghost sv = seen_view(self.seen@);
        let mut i: usize = 0;
        while i < self.seen.len()
            invariant
                i <= self.seen@.len(),
                sv == seen_view(self.seen@),
                sv == self@.seen,
                forall|j: int| 0 <= j < i ==> sv[j] != (store, identity@, dir@),
            decreases self.seen@.len() - i,
        {
            let k = &self.seen[i];
            assert(sv[i as int] == (k.0, k.1@, k.2@));
            if k.0 == store && k.1.same(identity) && k.2.same_as(dir) {
                return true;
            }
            i = i + 1;
        }
        false
    }

    fn add_record(
        &mut self,
        record: &Json,
        id: &str,
        store: Store,
        path: &FilePath,
        existing: Option<&Vec<FilePath>>,
    )
        ensures
            final(self)@ == add_record(old(self)@, record@, id@, store, path@, existing_view(existing)),
    {
        let dlc = match record.get("is_dlc") {
            Some(v) => v.boolean(),
            None => None,
        };
        if let Some(true) = dlc {
            return;
        }
        match record_to_game(record, id, store, path, existing) {
            Ok(game) => {
                if self.has_seen(store, &game.identity, &game.install_dir) {
                    return;
                }
                let key = (store, game.identity.copy(), game.install_dir.copy());
                let ghost games_before = games_view(self.games@);
                let ghost seen_before = seen_view(self.seen@);
                let ghost g = game@;
                self.seen.push(key);
                self.games.push(game);
                assert(games_view(self.games@) =~= games_before.push(g));
                assert(seen_view(self.seen@) =~= seen_before.push((store, g.identity, g.install_dir)));
            },
            Err(e) => self.problem(e),
        }
    }

    fn install_map(&mut self, v: &Json, store: Store, path: &FilePath, existing: Option<&Vec<FilePath>>)
        ensures
            final(self)@ == install_map(v@, old(self)@, store, path@, existing_view(existing)),
    {
        let m = match v.members() {
            Some(m) => m,
            None => {
                self.problem(
                    Error::BadRecord { path: path.copy(), id: copy_text("<root>"), reason: "is not a JSON object" },
                );
                return;
            },
        };
        let ghost mv = json::members_view(m@);
        proof {
            json::lemma_members_index(m@);
        }
        let ghost start = self@;
        let mut k: usize = 0;
        while k < m.len()
            invariant
                k <= m@.len(),
                mv == json::members_view(m@),
                mv.len() == m@.len(),
                forall|i: int| 0 <= i < m@.len() ==> #[trigger] mv[i] == (m@[i].0@, m@[i].1@),
                self@ == install_map_from(mv, k as int, start, store, path@, existing_view(existing)),
            decreases m@.len() - k,
        {
            let (id, record) = (&m[k].0, &m[k].1);
            assert(mv[k as int] == (id@, record@));
            let chars = chars_of(id.as_str());
            let bookkeeping = chars.len() >= 2 && chars[0] == '_' && chars[1] == '_';
            if !bookkeeping {
                self.add_record(record, id.as_str(), store, path, existing);
            }
            k = k + 1;
        }
    }

    fn library(&mut self, v: &Json, store: Store, path: &FilePath, existing: Option<&Vec<FilePath>>)
        ensures
            final(self)@ == library(v@, old(self)@, store, path@, existing_view(existing)),
    {
        let list = match v.get("games") {
            Some(g) => Some(g),
            None => v.get("library"),
        };
        let records = match list {
            Some(l) => l.elements(),
            None => None,
        };
        let rs = match records {
            Some(rs) => rs,
            None => {
                if v.is_empty_object() {
                    return;
                }
                self.problem(
                    Error::BadRecord {
                        path: path.copy(),
                        id: copy_text("<root>"),
                        reason: "has no games or library array",
                    },
                );
                return;
            },
        };
        let ghost rv = json::elements_view(rs@);
        proof {
            json::lemma_elements_index(rs@);
        }
        let ghost start = self@;
        let mut k: usize = 0;
        while k < rs.len()
            invariant
                k <= rs@.len(),
                rv == json::elements_view(rs@),
                rv.len() == rs@.len(),
                forall|i: int| 0 <= i < rs@.len() ==> #[trigger] rv[i] == rs@[i]@,
                self@ == library_from(rv, k as int, start, store, path@, existing_view(existing)),
            decreases rs@.len() - k,
        {
            let r = &rs[k];
            assert(rv[k as int] == r@);
            let installed = match r.get("is_installed") {
                Some(x) => x.boolean(),
                None => None,
            };
            if let Some(true) = installed {
                let app = match r.get("app_name") {
                    Some(a) => a.text(),
                    None => None,
                };
                match app {
                    Some(id) => {
                        if chars_of(id).len() == 0 {
                            self.problem(
                                Error::BadRecord {
                                    path: path.copy(),
                                    id: copy_text("<library entry>"),
                                    reason: "has no app_name",
                                },
                            );
                        } else {
                            self.add_record(r, id, store, path, existing);
                        }
                    },
                    None => {
                        self.problem(
                            Error::BadRecord {
                                path: path.copy(),
                                id: copy_text("<library entry>"),
                                reason: "has no app_name",
                            },
                        );
                    },
                }
            }
            k = k + 1;
        }
    }

    fn document(&mut self, d: &Document, existing: Option<&Vec<FilePath>>)
        requires
            d@.text matches Some(Ok(t)) ==> t.len() < usize::MAX,
        ensures
            final(self)@ == document_effect(old(self)@, d@, existing_view(existing)),
    {
        match &d.text {
            None => {},
            Some(Err(m)) => self.problem(Error::Io { path: d.path.copy(), source: copy_text(m.as_str()) }),
            Some(Ok(t)) => match json::parse(t.as_str()) {
                Err(m) => self.problem(Error::Json { path: d.path.copy(), source: m }),
                Ok(v) => match d.cache {
                    Cache::InstallMap => self.install_map(&v, d.store, &d.path, existing),
                    Cache::Library => self.library(&v, d.store, &d.path, existing),
                },
            },
        }
    }
}

/// Every document read in order.
fn gather_documents(docs: &Vec<Document>, existing: Option<&Vec<FilePath>>) -> (g: Gathering)
    requires
        forall|k: int|
            0 <= k < docs@.len() ==> ((#[trigger] docs@[k])@.text matches Some(Ok(t)) ==> t.len()
                < usize::MAX),
    ensures
        g@ == gather(documents_view(docs@), docs@.len() as int, existing_view(existing)),
{
    let ghost dv = documents_view(docs@);
    let mut g = Gathering { games: Vec::new(), problems: Vec::new(), seen: Vec::new() };
    assert(g@ == gather(dv, 0, existing_view(existing))) by {
        assert(games_view(g.games@) =~= Seq::<GameV>::empty());
        assert(errors_view(g.problems@) =~= Seq::<ErrorV>::empty());
        assert(seen_view(g.seen@) =~= Seq::<(Store, IdentityV, Seq<Part>)>::empty());
    }
    let mut i: usize = 0;
    while i < docs.len()
        invariant
            i <= docs@.len(),
            dv == documents_view(docs@),
            forall|k: int|
                0 <= k < docs@.len() ==> ((#[trigger] docs@[k])@.text matches Some(Ok(t)) ==> t.len()
                    < usize::MAX),
            g@ == gather(dv, i as int, existing_view(existing)),
        decreases docs@.len() - i,
    {
        assert(dv[i as int] == docs@[i as int]@);
        assert(docs@[i as int]@.text matches Some(Ok(t)) ==> t.len() < usize::MAX);
        g.document(&docs[i], existing);
        i = i + 1;
    }
    g
}

/// Identity order, as `derive(Ord)` gives it: Steam applications before
/// launcher ids, each by its value.
pub open spec fn identity_lt(a: IdentityV, b: IdentityV) -> bool {
    match (a, b) {
        (IdentityV::SteamApp(x), IdentityV::SteamApp(y)) => x < y,
        (IdentityV::SteamApp(_), IdentityV::Native(_)) => true,
        (IdentityV::Native(x), IdentityV::Native(y)) => text_lt(x, y),
        _ => false,
    }
}

/// Listing order: by title, then by identity.
pub open spec fn game_lt(a: GameV, b: GameV) -> bool {
    text_lt(a.name, b.name) || (a.name == b.name && identity_lt(a.identity, b.identity))
}

/// [`game_lt`] as a value.
pub open spec fn game_order() -> spec_fn(GameV, GameV) -> bool {
    |a: GameV, b: GameV| game_lt(a, b)
}

/// Whether a game from `origin` with the launcher id `id` was found.
pub open spec fn supplied(games: Seq<GameV>, origin: OriginV, id: Seq<char>) -> bool {
    exists|i: int|
        0 <= i < games.len() && (#[trigger] games[i]).identity == IdentityV::Native(id)
            && games[i].origin == origin
}

/// The note for a record with no directory whose game another cache
/// supplied.
pub open spec fn stale_note(e: ErrorV, title: Seq<char>) -> Seq<char> {
    error_words(e) + "; "@ + debug_quoted(title)
        + " was found from another source, so nothing is missing from this listing"@
}

/// The first `n` problems settled: a record with no directory whose backend
/// and id another cache supplied becomes a note, and every other problem
/// stays.
pub open spec fn settle_from(problems: Seq<ErrorV>, games: Seq<GameV>, n: int) -> (
    Seq<ErrorV>,
    Seq<Seq<char>>,
)
    decreases n,
{
    if n <= 0 || n > problems.len() {
        (Seq::empty(), Seq::empty())
    } else {
        let (kept, notes) = settle_from(problems, games, n - 1);
        let e = problems[n - 1];
        match e {
            ErrorV::NoInstallPath { id, store, title, .. } => if supplied(
                games,
                store_origin(store),
                id,
            ) {
                (kept, notes.push(stale_note(e, title)))
            } else {
                (kept.push(e), notes)
            },
            _ => (kept.push(e), notes),
        }
    }
}

/// A complete partial scan: valid games plus every unusable record.
#[derive(Debug)]
pub struct Scan {
    pub games: Vec<Game>,
    /// Records that could not be used and cost something. Should move an
    /// exit code.
    pub problems: Vec<Error>,
    /// Records that could not be used and cost nothing, worded with the
    /// reason. Must not move an exit code.
    pub notes: Vec<String>,
}

/// A scan as plain values.
pub struct ScanV {
    pub games: Seq<GameV>,
    pub problems: Seq<ErrorV>,
    pub notes: Seq<Seq<char>>,
}

impl View for Scan {
    type V = ScanV;

    open spec fn view(&self) -> ScanV {
        ScanV {
            games: games_view(self.games@),
            problems: errors_view(self.problems@),
            notes: texts(self.notes@),
        }
    }
}

/// What the documents come to, `existing` being the install directories
/// that are there: the games in listing order, the problems, and the notes.
pub open spec fn spec_scan_documents(docs: Seq<DocumentV>, existing: Seq<Seq<Part>>) -> ScanV {
    let g = gather(docs, docs.len() as int, Some(existing));
    let games = sort_by(g.games, game_order());
    let settled = settle_from(g.problems, games, g.problems.len() as int);
    ScanV { games, problems: settled.0, notes: settled.1 }
}

/// Whether `a` comes before `b` in the listing.
fn game_before(a: &Game, b: &Game) -> (r: bool)
    ensures
        r == game_lt(a@, b@),
{
    if text_before(a.name.as_str(), b.name.as_str()) {
        return true;
    }
    if !same_text(a.name.as_str(), b.name.as_str()) {
        return false;
    }
    match (&a.identity, &b.identity) {
        (Identity::SteamApp(x), Identity::SteamApp(y)) => *x < *y,
        (Identity::SteamApp(_), Identity::Native(_)) => true,
        (Identity::Native(x), Identity::Native(y)) => text_before(x.as_str(), y.as_str()),
        _ => false,
    }
}

/// `v` stably sorted into listing order.
fn sort_games(v: Vec<Game>) -> (out: Vec<Game>)
    ensures
        games_view(out@) == sort_by(games_view(v@), game_order()),
{
    let ghost orig = games_view(v@);
    let total = v.len();
    let mut rest = v;
    let mut out: Vec<Game> = Vec::new();
    let mut i: usize = 0;
    assert(orig.skip(0) =~= orig);
    assert(orig.take(0) =~= Seq::<GameV>::empty());
    assert(games_view(out@) =~= Seq::<GameV>::empty());
    while rest.len() > 0
        invariant
            i + rest@.len() == orig.len(),
            orig.len() == total,
            games_view(rest@) == orig.skip(i as int),
            games_view(out@) == sort_by(orig.take(i as int), game_order()),
        decreases rest@.len(),
    {
        let ghost before = rest@;
        let x = rest.remove(0);
        assert(games_view(before)[0] == x@);
        assert(orig.skip(i as int)[0] == orig[i as int]);
        assert(games_view(rest@) =~= games_view(before).drop_first());
        assert(orig.skip(i as int).drop_first() =~= orig.skip(i + 1));
        let ghost sorted = games_view(out@);
        let mut k: usize = 0;
        while k < out.len() && !game_before(&x, &out[k])
            invariant
                k <= out@.len(),
                sorted == games_view(out@),
                forall|j: int| 0 <= j < k ==> !(game_order())(x@, #[trigger] sorted[j]),
            decreases out@.len() - k,
        {
            assert(sorted[k as int] == out@[k as int]@);
            k = k + 1;
        }
        proof {
            if k < out@.len() {
                assert(sorted[k as int] == out@[k as int]@);
            }
            lemma_insert_at(x@, sorted, game_order(), k as int);
            assert(orig.take(i + 1).drop_last() =~= orig.take(i as int));
        }
        out.insert(k, x);
        i = i + 1;
        assert(games_view(out@) =~= sorted.take(k as int) + seq![x@] + sorted.skip(k as int));
    }
    assert(orig.take(i as int) =~= orig);
    out
}

/// Whether a game from `origin` with the launcher id `id` is among `games`.
fn is_supplied(games: &Vec<Game>, origin: Origin, id: &str) -> (b: bool)
    ensures
        b == supplied(games_view(games@), origin@, id@),
{
    let ghost gv = games_view(games@);
    let mut i: usize = 0;
    while i < games.len()
        invariant
            i <= games@.len(),
            gv == games_view(games@),
            forall|j: int|
                0 <= j < i ==> !((#[trigger] gv[j]).identity == IdentityV::Native(id@) && gv[j].origin
                    == origin@),
        decreases games@.len() - i,
    {
        let g = &games[i];
        assert(gv[i as int] == g@);
        let same_id = match &g.identity {
            Identity::Native(x) => same_text(x.as_str(), id),
            Identity::SteamApp(_) => false,
        };
        if same_id && same_text(g.origin.key(), origin.key()) && same_text(
            g.origin.label(),
            origin.label(),
        ) {
            assert(gv[i as int].origin == origin@);
            return true;
        }
        i = i + 1;
    }
    false
}

/// Moves each record with no directory whose game another cache supplied
/// from the problems to the notes.
fn settle(problems: Vec<Error>, games: &Vec<Game>) -> (r: (Vec<Error>, Vec<String>))
    ensures
        (errors_view(r.0@), texts(r.1@)) == settle_from(
            errors_view(problems@),
            games_view(games@),
            problems@.len() as int,
        ),
{
    let ghost orig = errors_view(problems@);
    let ghost gv = games_view(games@);
    let total = problems.len();
    let mut rest = problems;
    let mut kept: Vec<Error> = Vec::new();
    let mut notes: Vec<String> = Vec::new();
    let mut i: usize = 0;
    assert(orig.skip(0) =~= orig);
    assert(errors_view(kept@) =~= Seq::<ErrorV>::empty());
    assert(texts(notes@) =~= Seq::<Seq<char>>::empty());
    while rest.len() > 0
        invariant
            i + rest@.len() == orig.len(),
            orig.len() == total,
            gv == games_view(games@),
            errors_view(rest@) == orig.skip(i as int),
            (errors_view(kept@), texts(notes@)) == settle_from(orig, gv, i as int),
        decreases rest@.len(),
    {
        let ghost before = rest@;
        let e = rest.remove(0);
        assert(errors_view(before)[0] == e@);
        assert(orig.skip(i as int)[0] == orig[i as int]);
        assert(errors_view(rest@) =~= errors_view(before).drop_first());
        assert(orig.skip(i as int).drop_first() =~= orig.skip(i + 1));
        let ghost kept_before = errors_view(kept@);
        let ghost notes_before = texts(notes@);
        let stale = match &e {
            Error::NoInstallPath { id, store, .. } => is_supplied(games, store.origin(), id.as_str()),
            _ => false,
        };
        if stale {
            let mut note = e.describe();
            note.push_str("; ");
            match &e {
                Error::NoInstallPath { title, .. } => {
                    note.push_str(debug_text(title.as_str()).as_str());
                },
                _ => {},
            }
            note.push_str(" was found from another source, so nothing is missing from this listing");
            notes.push(note);
            assert(texts(notes@) =~= notes_before.push(notes@.last()@));
        } else {
            kept.push(e);
            assert(errors_view(kept@) =~= kept_before.push(orig[i as int]));
        }
        i = i + 1;
    }
    (kept, notes)
}

/// Every install directory the records name, taking every directory to be
/// there: the ones whose existence decides a scan.
pub fn install_candidates(docs: &Vec<Document>) -> (r: Vec<FilePath>)
    requires
        forall|k: int|
            0 <= k < docs@.len() ==> ((#[trigger] docs@[k])@.text matches Some(Ok(t)) ==> t.len()
                < usize::MAX),
    ensures
        paths_of(r@) == gather(documents_view(docs@), docs@.len() as int, None).games.map_values(
            |g: GameV| g.install_dir,
        ),
{
    let g = gather_documents(docs, None);
    let games = g.games;
    let ghost gv = games_view(games@);
    let mut out: Vec<FilePath> = Vec::new();
    let mut i: usize = 0;
    while i < games.len()
        invariant
            i <= games@.len(),
            gv == games_view(games@),
            paths_of(out@) == gv.take(i as int).map_values(|g: GameV| g.install_dir),
        decreases games@.len() - i,
    {
        let ghost before = paths_of(out@);
        out.push(games[i].install_dir.copy());
        assert(paths_of(out@) =~= before.push(gv[i as int].install_dir));
        i = i + 1;
        assert(gv.take(i as int).map_values(|g: GameV| g.install_dir) =~= before.push(
            gv[i - 1].install_dir,
        ));
    }
    assert(gv.take(i as int) =~= gv);
    out
}

/// Two games from one backend, with one identity, in one directory.
pub open spec fn same_install() -> spec_fn(GameV, GameV) -> bool {
    |a: GameV, b: GameV| a.origin == b.origin && a.identity == b.identity && a.install_dir == b.install_dir
}

/// Equal values.
pub open spec fn equal_keys() -> spec_fn((Store, IdentityV, Seq<Part>), (Store, IdentityV, Seq<Part>)) -> bool {
    |a: (Store, IdentityV, Seq<Part>), b: (Store, IdentityV, Seq<Part>)| a == b
}

/// What gathering keeps: one key per game taken, that game's backend,
/// identity and directory, no key twice.
pub open spec fn gathered_ok(st: GatheredV) -> bool {
    &&& st.seen.len() == st.games.len()
    &&& forall|i: int|
        0 <= i < st.seen.len() ==> (#[trigger] st.seen[i]).1 == st.games[i].identity && st.seen[i].2
            == st.games[i].install_dir && store_origin(st.seen[i].0) == st.games[i].origin
    &&& apart(st.seen, equal_keys())
}

proof fn lemma_add_record_ok(
    st: GatheredV,
    record: JsonV,
    id: Seq<char>,
    store: Store,
    path: Seq<Part>,
    existing: Option<Seq<Seq<Part>>>,
)
    requires
        gathered_ok(st),
    ensures
        gathered_ok(add_record(st, record, id, store, path, existing)),
{
    if as_bool(json_get(record, "is_dlc"@)) != Some(true) {
        match spec_record(record, id, store, path, existing) {
            Ok(g) => {
                let key = (store, g.identity, g.install_dir);
                if !st.seen.contains(key) {
                    let t = add_record(st, record, id, store, path, existing);
                    assert(t.seen == st.seen.push(key) && t.games == st.games.push(g));
                    assert forall|i: int| 0 <= i < t.seen.len() implies (#[trigger] t.seen[i]).1
                        == t.games[i].identity && t.seen[i].2 == t.games[i].install_dir && store_origin(
                        t.seen[i].0,
                    ) == t.games[i].origin by {
                        if i < st.seen.len() {
                            assert(t.seen[i] == st.seen[i] && t.games[i] == st.games[i]);
                        }
                    }
                    assert forall|i: int, j: int|
                        0 <= i < t.seen.len() && 0 <= j < t.seen.len() && i != j implies !(equal_keys())(
                        #[trigger] t.seen[i],
                        #[trigger] t.seen[j],
                    ) by {
                        if i < st.seen.len() && j < st.seen.len() {
                            assert(t.seen[i] == st.seen[i] && t.seen[j] == st.seen[j]);
                        } else if i < st.seen.len() {
                            assert(t.seen[i] == st.seen[i]);
                            assert(st.seen.contains(st.seen[i]));
                        } else {
                            assert(t.seen[j] == st.seen[j]);
                            assert(st.seen.contains(st.seen[j]));
                        }
                    }
                }
            },
            Err(e) => {},
        }
    }
}

proof fn lemma_install_map_from_ok(
    m: Seq<(Seq<char>, JsonV)>,
    n: int,
    st: GatheredV,
    store: Store,
    path: Seq<Part>,
    existing: Option<Seq<Seq<Part>>>,
)
    requires
        gathered_ok(st),
    ensures
        gathered_ok(install_map_from(m, n, st, store, path, existing)),
    decreases n,
{
    if 0 < n <= m.len() {
        lemma_install_map_from_ok(m, n - 1, st, store, path, existing);
        let before = install_map_from(m, n - 1, st, store, path, existing);
        let (id, record) = m[n - 1];
        lemma_add_record_ok(before, record, id, store, path, existing);
    }
}

proof fn lemma_library_from_ok(
    rs: Seq<JsonV>,
    n: int,
    st: GatheredV,
    store: Store,
    path: Seq<Part>,
    existing: Option<Seq<Seq<Part>>>,
)
    requires
        gathered_ok(st),
    ensures
        gathered_ok(library_from(rs, n, st, store, path, existing)),
    decreases n,
{
    if 0 < n <= rs.len() {
        lemma_library_from_ok(rs, n - 1, st, store, path, existing);
        let before = library_from(rs, n - 1, st, store, path, existing);
        let app = as_text(json_get(rs[n - 1], "app_name"@));
        if app is Some {
            lemma_add_record_ok(before, rs[n - 1], app.unwrap(), store, path, existing);
        }
    }
}

proof fn lemma_gather_ok(docs: Seq<DocumentV>, n: int, existing: Option<Seq<Seq<Part>>>)
    ensures
        gathered_ok(gather(docs, n, existing)),
    decreases n,
{
    if 0 < n <= docs.len() {
        lemma_gather_ok(docs, n - 1, existing);
        let st = gather(docs, n - 1, existing);
        let d = docs[n - 1];
        match d.text {
            Some(Ok(t)) => match spec_parse_json(t) {
                Ok(v) => match d.cache {
                    Cache::InstallMap => match v {
                        JsonV::Object(m) => lemma_install_map_from_ok(m, m.len() as int, st, d.store, d.path, existing),
                        _ => {},
                    },
                    Cache::Library => match either(json_get(v, "games"@), json_get(v, "library"@)) {
                        Some(JsonV::Array(rs)) => lemma_library_from_ok(rs, rs.len() as int, st, d.store, d.path, existing),
                        _ => {},
                    },
                },
                Err(_) => {},
            },
            _ => {},
        }
    } else {
        let g = gather(docs, n, existing);
        assert(g.seen.len() == 0);
    }
}

/// Each backend's games carry their own origin.
proof fn lemma_store_origin_apart(a: Store, b: Store)
    ensures
        store_origin(a) == store_origin(b) ==> a == b,
{
    reveal_strlit("Heroic / Epic");
    reveal_strlit("Heroic / GOG");
    reveal_strlit("Heroic / Amazon");
    if a != b {
        assert(store_label(a)[9] != store_label(b)[9]);
    }
}

proof fn lemma_game_order_strict()
    ensures
        strict_order(game_order()),
{
    assert forall|a: GameV| !#[trigger] (game_order())(a, a) by {
        lemma_text_lt_irreflexive(a.name);
        if let IdentityV::Native(x) = a.identity {
            lemma_text_lt_irreflexive(x);
        }
    }
    assert forall|a: GameV, b: GameV, c: GameV|
        #[trigger] (game_order())(a, b) && #[trigger] (game_order())(b, c) implies (game_order())(a, c) by {
        lemma_text_lt_irreflexive(a.name);
        lemma_text_lt_irreflexive(b.name);
        if text_lt(a.name, b.name) && text_lt(b.name, c.name) {
            lemma_text_lt_transitive(a.name, b.name, c.name);
        }
        if let (IdentityV::Native(x), IdentityV::Native(y), IdentityV::Native(z)) = (a.identity, b.identity, c.identity) {
            if text_lt(x, y) && text_lt(y, z) {
                lemma_text_lt_transitive(x, y, z);
            }
        }
    }
}

/// The problems settled: none left is a record with no directory whose game
/// another cache supplied, each problem is either kept or made a note, and
/// every other problem is kept.
proof fn lemma_settle(problems: Seq<ErrorV>, games: Seq<GameV>, n: int)
    requires
        0 <= n <= problems.len(),
    ensures
        ({
            let (kept, notes) = settle_from(problems, games, n);
            &&& kept.len() + notes.len() == n
            &&& forall|i: int|
                0 <= i < kept.len() ==> !((#[trigger] kept[i]) matches ErrorV::NoInstallPath { id, store, .. }
                    && supplied(games, store_origin(store), id))
            &&& forall|i: int|
                0 <= i < n && !(problems[i] matches ErrorV::NoInstallPath { id, store, .. } && supplied(
                    games,
                    store_origin(store),
                    id,
                )) ==> kept.contains(#[trigger] problems[i])
        }),
    decreases n,
{
    if n > 0 {
        lemma_settle(problems, games, n - 1);
        let (kept, notes) = settle_from(problems, games, n - 1);
        let (k2, n2) = settle_from(problems, games, n);
        assert forall|i: int|
            0 <= i < n && !(problems[i] matches ErrorV::NoInstallPath { id, store, .. } && supplied(
                games,
                store_origin(store),
                id,
            )) implies k2.contains(#[trigger] problems[i]) by {
            if i < n - 1 {
                assert(kept.contains(problems[i]));
                let j = choose|j: int| 0 <= j < kept.len() && kept[j] == problems[i];
                assert(k2 == kept || k2 == kept.push(problems[n - 1]));
                if k2 != kept {
                    assert(k2[j] == kept[j]);
                }
            } else {
                assert(k2 == kept.push(problems[n - 1]));
                assert(k2[kept.len() as int] == problems[i]);
            }
        }
        assert forall|i: int|
            0 <= i < k2.len() implies !((#[trigger] k2[i]) matches ErrorV::NoInstallPath { id, store, .. }
                && supplied(games, store_origin(store), id)) by {
            if i < kept.len() {
                assert(k2[i] == kept[i]);
            }
        }
    }
}

/// What a Heroic scan promises of its games and problems: the games come by
/// title and then identity; no two are one backend's game in one directory
/// under one identity; and a record with no install directory becomes a
/// note, costing nothing, exactly when another cache supplied a game of its
/// backend and id, while every other problem is kept.
pub proof fn lemma_scan_documents_laws(docs: Seq<DocumentV>, existing: Seq<Seq<Part>>)
    ensures
        ({
            let s = spec_scan_documents(docs, existing);
            let g = gather(docs, docs.len() as int, Some(existing));
            &&& in_order(s.games, game_order())
            &&& apart(s.games, same_install())
            &&& s.problems.len() + s.notes.len() == g.problems.len()
            &&& forall|i: int|
                0 <= i < s.problems.len() ==> !((#[trigger] s.problems[i]) matches ErrorV::NoInstallPath {
                    id,
                    store,
                    ..
                } && supplied(s.games, store_origin(store), id))
            &&& forall|i: int|
                0 <= i < g.problems.len() && !(g.problems[i] matches ErrorV::NoInstallPath { id, store, .. }
                    && supplied(s.games, store_origin(store), id)) ==> s.problems.contains(
                    #[trigger] g.problems[i],
                )
        }),
{
    let g = gather(docs, docs.len() as int, Some(existing));
    lemma_gather_ok(docs, docs.len() as int, Some(existing));
    lemma_game_order_strict();
    lemma_sort_by_in_order(g.games, game_order());
    lemma_sort_by_multiset(g.games, game_order());
    assert forall|i: int, j: int|
        0 <= i < g.games.len() && 0 <= j < g.games.len() && i != j implies !(same_install())(
        #[trigger] g.games[i],
        #[trigger] g.games[j],
    ) by {
        lemma_store_origin_apart(g.seen[i].0, g.seen[j].0);
        assert(g.seen[i] != g.seen[j]);
    }
    lemma_apart_permuted(g.games, sort_by(g.games, game_order()), same_install());
    lemma_settle(g.problems, sort_by(g.games, game_order()), g.problems.len() as int);
}

/// What the cache documents hold, in the order they are read, `existing`
/// being the install directories that are there: the games in listing
/// order, every problem, and the records that cost nothing as notes.
pub fn scan_documents(docs: &Vec<Document>, existing: &Vec<FilePath>) -> (s: Scan)
    requires
        forall|k: int|
            0 <= k < docs@.len() ==> ((#[trigger] docs@[k])@.text matches Some(Ok(t)) ==> t.len()
                < usize::MAX),
    ensures
        s@ == spec_scan_documents(documents_view(docs@), paths_of(existing@)),
{
    let g = gather_documents(docs, Some(existing));
    let games = sort_games(g.games);
    let (problems, notes) = settle(g.problems, &games);
    Scan { games, problems, notes }
}

/// The cache files of one Heroic configuration, relative to it, in the
/// order they are read: each backend's install map and then its library
/// list, and last the install list of the Legendary that Heroic bundles,
/// which can hold a path the cache lost.
pub fn cache_files() -> (v: Vec<(&'static str, Store, Cache)>)
    ensures
        v@.map_values(|x: (&'static str, Store, Cache)| (x.0@, x.1, x.2)) == seq![
            ("store_cache/legendary_install_info.json"@, Store::Epic, Cache::InstallMap),
            ("store_cache/legendary_library.json"@, Store::Epic, Cache::Library),
            ("store_cache/gog_install_info.json"@, Store::Gog, Cache::InstallMap),
            ("store_cache/gog_library.json"@, Store::Gog, Cache::Library),
            ("store_cache/nile_install_info.json"@, Store::Amazon, Cache::InstallMap),
            ("store_cache/nile_library.json"@, Store::Amazon, Cache::Library),
            ("legendaryConfig/legendary/installed.json"@, Store::Epic, Cache::InstallMap),
        ],
{
    let mut v: Vec<(&'static str, Store, Cache)> = Vec::new();
    v.push(("store_cache/legendary_install_info.json", Store::Epic, Cache::InstallMap));
    v.push(("store_cache/legendary_library.json", Store::Epic, Cache::Library));
    v.push(("store_cache/gog_install_info.json", Store::Gog, Cache::InstallMap));
    v.push(("store_cache/gog_library.json", Store::Gog, Cache::Library));
    v.push(("store_cache/nile_install_info.json", Store::Amazon, Cache::InstallMap));
    v.push(("store_cache/nile_library.json", Store::Amazon, Cache::Library));
    v.push(("legendaryConfig/legendary/installed.json", Store::Epic, Cache::InstallMap));
    assert(v@.map_values(|x: (&'static str, Store, Cache)| (x.0@, x.1, x.2)) =~= seq![
        ("store_cache/legendary_install_info.json"@, Store::Epic, Cache::InstallMap),
        ("store_cache/legendary_library.json"@, Store::Epic, Cache::Library),
        ("store_cache/gog_install_info.json"@, Store::Gog, Cache::InstallMap),
        ("store_cache/gog_library.json"@, Store::Gog, Cache::Library),
        ("store_cache/nile_install_info.json"@, Store::Amazon, Cache::InstallMap),
        ("store_cache/nile_library.json"@, Store::Amazon, Cache::Library),
        ("legendaryConfig/legendary/installed.json"@, Store::Epic, Cache::InstallMap),
    ]);
    v
}

/// The two places Heroic keeps its configuration under a home: the XDG
/// default and Flatpak's.
pub open spec fn config_dirs(home: Seq<Part>) -> Seq<Seq<Part>> {
    seq![
        under(home, seq![".config"@, "heroic"@]),
        under(home, seq![".var"@, "app"@, "com.heroicgameslauncher.hgl"@, "config"@, "heroic"@]),
    ]
}

/// [`config_dirs`] as paths.
fn config_dirs_of(home: &FilePath) -> (v: Vec<FilePath>)
    ensures
        v@.map_values(|p: FilePath| p@) == config_dirs(home@),
{
    proof {
        reveal_strlit(".config");
        reveal_strlit("heroic");
        reveal_strlit(".var");
        reveal_strlit("app");
        reveal_strlit("com.heroicgameslauncher.hgl");
        reveal_strlit("config");
    }
    let a = joined(&joined(home, ".config"), "heroic");
    let b = joined(
        &joined(&joined(&joined(&joined(home, ".var"), "app"), "com.heroicgameslauncher.hgl"), "config"),
        "heroic",
    );
    assert(a@ =~= under(home@, seq![".config"@, "heroic"@]));
    assert(b@ =~= under(home@, seq![".var"@, "app"@, "com.heroicgameslauncher.hgl"@, "config"@, "heroic"@]));
    let v = vec![a, b];
    assert(v@.map_values(|p: FilePath| p@) =~= config_dirs(home@));
    v
}

/// The candidates this process's environment names, in order: `heroic`
/// under `$XDG_CONFIG_HOME`, the two places under `$HOME`, then the entries
/// of `DXRAY_HEROIC_CONFIG`.
pub open spec fn spec_configured_candidates(
    config_home: Option<Seq<Part>>,
    home: Option<Seq<Part>>,
    configured: Seq<Seq<Part>>,
) -> Seq<Seq<Part>> {
    (match config_home {
        Some(c) => seq![under(c, seq!["heroic"@])],
        None => Seq::empty(),
    }) + (match home {
        Some(h) => config_dirs(h),
        None => Seq::empty(),
    }) + configured
}

/// The candidates with each container home's two places after them: each
/// configuration is its own source of records, so container caches join the
/// host's rather than replacing them.
pub open spec fn spec_candidates_from(candidates: Seq<Seq<Part>>, homes: Seq<Seq<Part>>) -> Seq<Seq<Part>>
    decreases homes.len(),
{
    if homes.len() == 0 {
        candidates
    } else {
        spec_candidates_from(candidates, homes.drop_last()) + config_dirs(homes.last())
    }
}

/// The candidates the environment names, read from the values given: see
/// [`spec_configured_candidates`].
pub fn configured_candidates(
    config_home: Option<FilePath>,
    home: Option<FilePath>,
    configured: Vec<FilePath>,
) -> (v: Vec<FilePath>)
    ensures
        v@.map_values(|p: FilePath| p@) == spec_configured_candidates(
            match config_home {
                Some(c) => Some(c@),
                None => None,
            },
            match home {
                Some(h) => Some(h@),
                None => None,
            },
            configured@.map_values(|p: FilePath| p@),
        ),
{
    let mut v: Vec<FilePath> = Vec::new();
    match &config_home {
        Some(c) => {
            proof { reveal_strlit("heroic"); }
            v.push(joined(c, "heroic"));
        },
        None => {},
    }
    let ghost first = v@.map_values(|p: FilePath| p@);
    assert(first =~= match config_home {
        Some(c) => seq![under(c@, seq!["heroic"@])],
        None => Seq::<Seq<Part>>::empty(),
    });
    match &home {
        Some(h) => {
            let mut dirs = config_dirs_of(h);
            v.append(&mut dirs);
        },
        None => {},
    }
    let ghost second = v@.map_values(|p: FilePath| p@);
    assert(second =~= first + match home {
        Some(h) => config_dirs(h@),
        None => Seq::<Seq<Part>>::empty(),
    });
    let mut rest = configured;
    let ghost others = rest@;
    v.append(&mut rest);
    assert(v@.map_values(|p: FilePath| p@) =~= second + others.map_values(|p: FilePath| p@));
    v
}

/// `candidates` with the places under each of `container_homes` after them:
/// see [`spec_candidates_from`].
pub fn candidates_from(candidates: Vec<FilePath>, container_homes: &Vec<FilePath>) -> (v: Vec<FilePath>)
    ensures
        v@.map_values(|p: FilePath| p@) == spec_candidates_from(
            candidates@.map_values(|p: FilePath| p@),
            container_homes@.map_values(|p: FilePath| p@),
        ),
{
    let ghost c0 = candidates@.map_values(|p: FilePath| p@);
    let ghost hs = container_homes@.map_values(|p: FilePath| p@);
    let mut v = candidates;
    let mut i: usize = 0;
    assert(hs.take(0) =~= Seq::<Seq<Part>>::empty());
    while i < container_homes.len()
        invariant
            i <= container_homes@.len(),
            hs == container_homes@.map_values(|p: FilePath| p@),
            v@.map_values(|p: FilePath| p@) == spec_candidates_from(c0, hs.take(i as int)),
        decreases container_homes@.len() - i,
    {
        let ghost before = v@.map_values(|p: FilePath| p@);
        let mut dirs = config_dirs_of(&container_homes[i]);
        let ghost d = dirs@;
        v.append(&mut dirs);
        assert(hs.take(i + 1).drop_last() =~= hs.take(i as int));
        assert(hs.take(i + 1).last() == container_homes@[i as int]@);
        assert(v@.map_values(|p: FilePath| p@) =~= before + d.map_values(|p: FilePath| p@));
        i = i + 1;
    }
    assert(hs.take(i as int) =~= hs);
    v
}

/// The libraries of one Heroic root: the root itself, the directory its
/// records are read from. Never fails, and needs no note.
pub fn libraries(root: &FilePath) -> (l: Libraries)
    ensures
        path_views(l.paths@) == seq![root@],
        l.notes@.len() == 0,
        l.problems@.len() == 0,
{
    let mut paths: Vec<FilePath> = Vec::new();
    paths.push(root.copy());
    assert(path_views(paths@) =~= seq![root@]);
    Libraries { paths, notes: Vec::new(), problems: Vec::new() }
}

/// The sentence each error is printed as.
pub open spec fn errors_words(v: Seq<ErrorV>) -> Seq<Seq<char>> {
    v.map_values(|e: ErrorV| error_words(e))
}

/// What one Heroic root holds in the form every launcher reports it: the
/// scan's games, its problems worded, and its notes.
pub fn to_catalogue(scan: Scan) -> (c: Catalogue)
    ensures
        game_views(c.games@) == scan@.games,
        texts(c.problems@) == errors_words(scan@.problems),
        texts(c.notes@) == scan@.notes,
{
    let mut problems: Vec<String> = Vec::new();
    let mut i: usize = 0;
    while i < scan.problems.len()
        invariant
            i <= scan.problems@.len(),
            texts(problems@) == errors_words(errors_view(scan.problems@)).take(i as int),
        decreases scan.problems@.len() - i,
    {
        let ghost before = texts(problems@);
        let d = scan.problems[i].describe();
        problems.push(d);
        assert(texts(problems@) =~= before.push(d@));
        assert(errors_view(scan.problems@)[i as int] == scan.problems@[i as int]@);
        assert(texts(problems@) =~= errors_words(errors_view(scan.problems@)).take(i + 1));
        i = i + 1;
    }
    assert(errors_words(errors_view(scan.problems@)).take(i as int) =~= errors_words(
        errors_view(scan.problems@),
    ));
    let Scan { games, notes, .. } = scan;
    Catalogue { games, problems, notes }
}

} // verus!
