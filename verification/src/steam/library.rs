//! `libraryfolders.vdf` and `appmanifest_*.acf`: which directories are Steam
//! libraries, and which games each one holds.
//!
//! The index has had two schemas (a number mapped to a path, and a number
//! mapped to a block with a `"path"`); both are read, and only numbered keys
//! name libraries.

use vstd::prelude::*;

use crate::file_path::{
    display, last_dot, parse_from, parse_path, plain_name, segment_parts, Component, FilePath, Part,
};
use crate::launcher::{
    game_views, keys_of, path_views, Catalogue, Game, GameV, Identity, IdentityV, Libraries, OriginV,
    Resolver,
};
use crate::heroic::games_view;
use crate::nvapi::quoting::{trim_range, trimmed};
use crate::order::{insert_sorted, lemma_insert_at, sort_by};
use crate::text::{
    all_digits, chars_of, copy_text, same_text, debug_quoted, debug_text, eq_ignore_ascii_case,
    eq_ignore_case, parse_u32, parse_u32_text, string_of_range, texts, utf8_len,
};
use crate::vdf::{self, lookup, spec_error_describe, spec_parse, Object, Value, ValueV};

verus! {

/// How many characters of a rejected value are quoted back.
pub const VALUE_EXCERPT: usize = 60;

/// What can go wrong while reading a Steam directory. Every variant names
/// its file.
#[derive(Debug)]
pub enum Error {
    /// The file could not be read; `source` says why.
    Io { path: FilePath, source: String },
    /// The file was read but is not valid `KeyValues`.
    Vdf { path: FilePath, source: vdf::Error },
    /// The file parsed, but a key this code needs is not in it.
    MissingKey { path: FilePath, key: &'static str },
    /// The key is there and its content cannot be used.
    BadValue { path: FilePath, key: &'static str, value: String },
    /// An index file exists and holds nothing: a truncated file, not a
    /// healthy machine with one library.
    NoLibraries { path: FilePath },
}

/// An error as plain values.
pub enum ErrorV {
    Io { path: Seq<Part>, source: Seq<char> },
    Vdf { path: Seq<Part>, source: vdf::Error },
    MissingKey { path: Seq<Part>, key: Seq<char> },
    BadValue { path: Seq<Part>, key: Seq<char>, value: Seq<char> },
    NoLibraries { path: Seq<Part> },
}

impl View for Error {
    type V = ErrorV;

    open spec fn view(&self) -> ErrorV {
        match self {
            Error::Io { path, source } => ErrorV::Io { path: path@, source: source@ },
            Error::Vdf { path, source } => ErrorV::Vdf { path: path@, source: *source },
            Error::MissingKey { path, key } => ErrorV::MissingKey { path: path@, key: key@ },
            Error::BadValue { path, key, value } => ErrorV::BadValue {
                path: path@,
                key: key@,
                value: value@,
            },
            Error::NoLibraries { path } => ErrorV::NoLibraries { path: path@ },
        }
    }
}

/// The file an error is about.
pub open spec fn error_path(e: ErrorV) -> Seq<Part> {
    match e {
        ErrorV::Io { path, .. } => path,
        ErrorV::Vdf { path, .. } => path,
        ErrorV::MissingKey { path, .. } => path,
        ErrorV::BadValue { path, .. } => path,
        ErrorV::NoLibraries { path } => path,
    }
}

/// The part of a rejected value that is quoted back: its first
/// [`VALUE_EXCERPT`] characters.
pub open spec fn excerpt(value: Seq<char>) -> Seq<char> {
    if value.len() > VALUE_EXCERPT {
        value.take(VALUE_EXCERPT as int)
    } else {
        value
    }
}

/// The sentence an error is printed as.
pub open spec fn error_words(e: ErrorV) -> Seq<char> {
    match e {
        ErrorV::Io { path, source } => display(path) + ": "@ + source,
        ErrorV::Vdf { path, source } => display(path) + ": "@ + spec_error_describe(source),
        ErrorV::MissingKey { path, key } => display(path) + ": no \""@ + key + "\" key"@,
        ErrorV::BadValue { path, key, value } => display(path) + ": unusable \""@ + key
            + "\" value "@ + debug_quoted(excerpt(value)) + if value.len() > VALUE_EXCERPT {
            "..."@
        } else {
            ""@
        },
        ErrorV::NoLibraries { path } => display(path)
            + ": the library index is empty, which is what a truncated or overwritten one looks like"@,
    }
}

impl Error {
    /// The file the failure is about.
    pub fn path(&self) -> (p: &FilePath)
        ensures
            p@ == error_path(self@),
    {
        match self {
            Error::Io { path, .. } => path,
            Error::Vdf { path, .. } => path,
            Error::MissingKey { path, .. } => path,
            Error::BadValue { path, .. } => path,
            Error::NoLibraries { path } => path,
        }
    }

    /// The sentence this error is printed as.
    pub fn describe(&self) -> (s: String)
        ensures
            s@ == error_words(self@),
    {
        let mut s = self.path().display();
        match self {
            Error::Io { source, .. } => {
                s.push_str(": ");
                s.push_str(source.as_str());
                assert(s@ =~= error_words(self@));
            },
            Error::Vdf { source, .. } => {
                s.push_str(": ");
                let words = source.describe();
                s.push_str(words.as_str());
                assert(s@ =~= error_words(self@));
            },
            Error::MissingKey { key, .. } => {
                s.push_str(": no \"");
                s.push_str(key);
                s.push_str("\" key");
                assert(s@ =~= error_words(self@));
            },
            Error::BadValue { key, value, .. } => {
                s.push_str(": unusable \"");
                s.push_str(key);
                s.push_str("\" value ");
                let chars = chars_of(value.as_str());
                let long = chars.len() > VALUE_EXCERPT;
                let cut = if long {
                    VALUE_EXCERPT
                } else {
                    chars.len()
                };
                let part = string_of_range(chars.as_slice(), 0, cut);
                assert(part@ =~= excerpt(value@));
                let quoted = debug_text(part.as_str());
                s.push_str(quoted.as_str());
                let ghost head = s@;
                assert(head =~= display(self@->BadValue_path) + ": unusable \""@ + key@ + "\" value "@
                    + debug_quoted(excerpt(value@)));
                if long {
                    s.push_str("...");
                    assert(s@ =~= head + "..."@);
                } else {
                    proof {
                        reveal_strlit("");
                    }
                    assert(head =~= head + ""@);
                }
            },
            Error::NoLibraries { .. } => {
                s.push_str(
                    ": the library index is empty, which is what a truncated or overwritten one looks like",
                );
                assert(s@ =~= error_words(self@));
            },
        }
        s
    }
}

/// Something true about an answer that makes it worth less than it looks. A
/// note means everything was read; a problem ([`Error`]) means something was
/// not.
#[derive(Debug, Clone, PartialEq, Eq)]
pub enum Note {
    /// The index parsed but declared no numbered entries: a healthy old
    /// single-library install, or a truncated new one. Reported, not decided.
    NoLibraryEntries { path: FilePath },
}

/// A note as plain values.
pub enum NoteV {
    NoLibraryEntries { path: Seq<Part> },
}

impl View for Note {
    type V = NoteV;

    open spec fn view(&self) -> NoteV {
        match self {
            Note::NoLibraryEntries { path } => NoteV::NoLibraryEntries { path: path@ },
        }
    }
}

/// The sentence a note is printed as.
pub open spec fn note_words(n: NoteV) -> Seq<char> {
    match n {
        NoteV::NoLibraryEntries { path } => display(path)
            + " declared no library entries; only the Steam root is being scanned. On an old single-library install this is normal; on a newer one it means the index lost its entries."@,
    }
}

impl Note {
    /// The file the note is about.
    pub fn path(&self) -> (p: &FilePath)
        ensures
            p@ == match self@ {
                NoteV::NoLibraryEntries { path } => path,
            },
    {
        match self {
            Note::NoLibraryEntries { path } => path,
        }
    }

    /// The sentence this note is printed as.
    pub fn describe(&self) -> (s: String)
        ensures
            s@ == note_words(self@),
    {
        let mut s = self.path().display();
        s.push_str(
            " declared no library entries; only the Steam root is being scanned. On an old single-library install this is normal; on a newer one it means the index lost its entries.",
        );
        s
    }
}

/// The blocks among `pairs`, in order.
pub open spec fn blocks_in(pairs: Seq<(Seq<char>, ValueV)>) -> Seq<Seq<(Seq<char>, ValueV)>>
    decreases pairs.len(),
{
    if pairs.len() == 0 {
        Seq::empty()
    } else {
        let before = blocks_in(pairs.drop_last());
        match pairs.last().1 {
            ValueV::Object(o) => before.push(o),
            ValueV::String(_) => before,
        }
    }
}

/// The single named block a Steam file wraps everything in: the block under
/// `name`, or else the only block at the top, since the name has changed
/// before.
pub open spec fn spec_inner_block(
    root: Seq<(Seq<char>, ValueV)>,
    name: Seq<char>,
    path: Seq<Part>,
) -> Result<Seq<(Seq<char>, ValueV)>, ErrorV> {
    match lookup(root, name) {
        Some(ValueV::Object(o)) => Ok(o),
        _ => if blocks_in(root).len() == 1 {
            Ok(blocks_in(root)[0])
        } else {
            Err(ErrorV::MissingKey { path, key: name })
        },
    }
}

/// The block a Steam file wraps everything in, found in the already
/// unwrapped top level.
pub fn inner_block_of<'a>(root: &'a Object, name: &'static str, path: &FilePath) -> (r: Result<
    &'a Object,
    Error,
>)
    ensures
        match r {
            Ok(o) => spec_inner_block(root@, name@, path@) == Ok::<_, ErrorV>(o@),
            Err(e) => spec_inner_block(root@, name@, path@) == Err::<Seq<(Seq<char>, ValueV)>, _>(e@),
        },
{
    if let Some(block) = root.get_object(name) {
        return Ok(block);
    }
    let pairs = root.iter();
    let ghost all = root@;
    let mut count: usize = 0;
    let mut first: Option<&Object> = None;
    let mut i: usize = 0;
    while i < pairs.len()
        invariant
            i <= pairs@.len(),
            pairs@.len() == all.len(),
            forall|j: int| 0 <= j < pairs@.len() ==> (#[trigger] pairs@[j].0@, pairs@[j].1@) == all[j],
            count == blocks_in(all.take(i as int)).len(),
            count <= i,
            match first {
                Some(o) => count > 0 && blocks_in(all.take(i as int))[0] == o@,
                None => count == 0,
            },
        decreases pairs@.len() - i,
    {
        let ghost before = blocks_in(all.take(i as int));
        assert(all.take(i + 1).drop_last() =~= all.take(i as int));
        assert(all.take(i + 1).last() == all[i as int]);
        assert((pairs@[i as int].0@, pairs@[i as int].1@) == all[i as int]);
        match pairs[i].1.as_object() {
            Some(o) => {
                if first.is_none() {
                    first = Some(o);
                }
                count = count + 1;
            },
            None => {},
        }
        i = i + 1;
    }
    assert(all.take(i as int) =~= all);
    if count == 1 {
        match first {
            Some(o) => Ok(o),
            None => Err(Error::MissingKey { path: path.copy(), key: name }),
        }
    } else {
        Err(Error::MissingKey { path: path.copy(), key: name })
    }
}

/// [`inner_block_of`] for a whole parsed document; a document that is a
/// bare string has no blocks.
pub open spec fn spec_inner_block_doc(doc: ValueV, name: Seq<char>, path: Seq<Part>) -> Result<
    Seq<(Seq<char>, ValueV)>,
    ErrorV,
> {
    match doc {
        ValueV::Object(root) => spec_inner_block(root, name, path),
        ValueV::String(_) => Err(ErrorV::MissingKey { path, key: name }),
    }
}

/// The block a Steam file wraps everything in.
pub fn inner_block<'a>(parsed: &'a Value, name: &'static str, path: &FilePath) -> (r: Result<
    &'a Object,
    Error,
>)
    ensures
        match r {
            Ok(o) => spec_inner_block_doc(parsed@, name@, path@) == Ok::<_, ErrorV>(o@),
            Err(e) => spec_inner_block_doc(parsed@, name@, path@) == Err::<
                Seq<(Seq<char>, ValueV)>,
                _,
            >(e@),
        },
{
    match parsed.as_object() {
        Some(root) => inner_block_of(root, name, path),
        None => Err(Error::MissingKey { path: path.copy(), key: name }),
    }
}

/// A key of the library index that numbers a library: ASCII digits only.
pub open spec fn numbered(key: Seq<char>) -> bool {
    key.len() > 0 && all_digits(key)
}

/// The path one numbered entry declares: the value itself in the old
/// schema, its `"path"` in the current one; never empty.
pub open spec fn declared_path(v: ValueV, path: Seq<Part>) -> Result<Seq<char>, ErrorV> {
    let d = match v {
        ValueV::String(d) => Some(d),
        ValueV::Object(o) => match lookup(o, "path"@) {
            Some(ValueV::String(d)) => Some(d),
            _ => None,
        },
    };
    match d {
        None => Err(ErrorV::MissingKey { path, key: "path"@ }),
        Some(d) => if d.len() == 0 {
            Err(ErrorV::BadValue { path, key: "path"@, value: Seq::empty() })
        } else {
            Ok(d)
        },
    }
}

/// The library paths the first `n` entries declare, in file order, or the
/// first entry's error.
pub open spec fn paths_upto(pairs: Seq<(Seq<char>, ValueV)>, path: Seq<Part>, n: int) -> Result<
    Seq<Seq<char>>,
    ErrorV,
>
    decreases n,
{
    if n <= 0 || n > pairs.len() {
        Ok(Seq::empty())
    } else {
        match paths_upto(pairs, path, n - 1) {
            Err(e) => Err(e),
            Ok(acc) => if !numbered(pairs[n - 1].0) {
                Ok(acc)
            } else {
                match declared_path(pairs[n - 1].1, path) {
                    Ok(d) => Ok(acc.push(d)),
                    Err(e) => Err(e),
                }
            },
        }
    }
}

/// Once an entry fails, every longer prefix fails with its error.
proof fn lemma_paths_err(pairs: Seq<(Seq<char>, ValueV)>, path: Seq<Part>, k: int, n: int)
    requires
        0 < k <= n <= pairs.len(),
        paths_upto(pairs, path, k) is Err,
    ensures
        paths_upto(pairs, path, n) == paths_upto(pairs, path, k),
    decreases n - k,
{
    if n > k {
        lemma_paths_err(pairs, path, k, n - 1);
    }
}

/// Whether `key` is nothing but ASCII digits, and not empty.
fn is_numbered(key: &str) -> (b: bool)
    ensures
        b == numbered(key@),
{
    let chars = chars_of(key);
    if chars.len() == 0 {
        return false;
    }
    let mut i: usize = 0;
    while i < chars.len()
        invariant
            i <= chars@.len(),
            chars@ == key@,
            forall|j: int| 0 <= j < i ==> '0' <= #[trigger] chars@[j] && chars@[j] <= '9',
        decreases chars@.len() - i,
    {
        if !('0' <= chars[i] && chars[i] <= '9') {
            return false;
        }
        i = i + 1;
    }
    true
}

/// The path one numbered entry declares.
fn entry_path(value: &Value, path: &FilePath) -> (r: Result<String, Error>)
    ensures
        match r {
            Ok(d) => declared_path(value@, path@) == Ok::<_, ErrorV>(d@),
            Err(e) => declared_path(value@, path@) == Err::<Seq<char>, _>(e@),
        },
{
    let declared = match value.as_str() {
        Some(d) => copy_text(d),
        None => match value.as_object() {
            Some(entry) => match entry.get_str("path") {
                Some(d) => copy_text(d),
                None => {
                    return Err(Error::MissingKey { path: path.copy(), key: "path" });
                },
            },
            None => {
                return Err(Error::MissingKey { path: path.copy(), key: "path" });
            },
        },
    };
    if chars_of(declared.as_str()).len() == 0 {
        assert(declared@ =~= Seq::<char>::empty());
        return Err(Error::BadValue { path: path.copy(), key: "path", value: String::new() });
    }
    Ok(declared)
}

/// The library paths a parsed `libraryfolders` block declares, in file
/// order: both schemas, keys that are not numbers skipped, repeated keys
/// all kept.
pub fn library_paths(folders: &Object, path: &FilePath) -> (r: Result<Vec<String>, Error>)
    ensures
        match r {
            Ok(v) => paths_upto(folders@, path@, folders@.len() as int) == Ok::<_, ErrorV>(
                texts(v@),
            ),
            Err(e) => paths_upto(folders@, path@, folders@.len() as int) == Err::<
                Seq<Seq<char>>,
                _,
            >(e@),
        },
{
    let pairs = folders.iter();
    let ghost all = folders@;
    let mut out: Vec<String> = Vec::new();
    let mut i: usize = 0;
    assert(texts(out@) =~= Seq::<Seq<char>>::empty());
    while i < pairs.len()
        invariant
            i <= pairs@.len(),
            pairs@.len() == all.len(),
            forall|j: int| 0 <= j < pairs@.len() ==> (#[trigger] pairs@[j].0@, pairs@[j].1@) == all[j],
            all == folders@,
            paths_upto(all, path@, i as int) == Ok::<_, ErrorV>(texts(out@)),
        decreases pairs@.len() - i,
    {
        assert((pairs@[i as int].0@, pairs@[i as int].1@) == all[i as int]);
        let (key, value) = pairs[i];
        if is_numbered(key) {
            match entry_path(value, path) {
                Ok(d) => {
                    let ghost before = texts(out@);
                    out.push(d);
                    assert(texts(out@) =~= before.push(d@));
                },
                Err(e) => {
                    proof {
                        assert(paths_upto(all, path@, i + 1) == Err::<Seq<Seq<char>>, ErrorV>(e@));
                        lemma_paths_err(all, path@, i + 1, all.len() as int);
                    }
                    return Err(e);
                },
            }
        }
        i = i + 1;
    }
    Ok(out)
}

/// A required leaf value: present, a string, and not empty.
pub open spec fn spec_required(block: Seq<(Seq<char>, ValueV)>, key: Seq<char>, path: Seq<Part>) -> Result<
    Seq<char>,
    ErrorV,
> {
    match lookup(block, key) {
        Some(ValueV::String(v)) => if v.len() == 0 {
            Err(ErrorV::BadValue { path, key, value: Seq::empty() })
        } else {
            Ok(v)
        },
        _ => Err(ErrorV::MissingKey { path, key }),
    }
}

/// A required leaf key, or an error naming it and the file it is missing
/// from. An empty value is damage, not data.
pub fn required<'a>(block: &'a Object, key: &'static str, path: &FilePath) -> (r: Result<&'a str, Error>)
    ensures
        match r {
            Ok(v) => spec_required(block@, key@, path@) == Ok::<_, ErrorV>(v@),
            Err(e) => spec_required(block@, key@, path@) == Err::<Seq<char>, _>(e@),
        },
{
    match block.get_str(key) {
        None => Err(Error::MissingKey { path: path.copy(), key }),
        Some(value) => {
            if chars_of(value).len() == 0 {
                assert(value@ =~= Seq::<char>::empty());
                Err(Error::BadValue { path: path.copy(), key, value: String::new() })
            } else {
                Ok(value)
            }
        },
    }
}

/// The one directory name an `installdir` value is, when it is exactly one:
/// not absolute, not `.` or `..`, not two names.
pub open spec fn single_name(value: Seq<char>) -> Option<Seq<char>> {
    let parts = parse_path(value);
    if parts.len() == 1 {
        match parts[0] {
            Part::Normal(n) => Some(n),
            _ => None,
        }
    } else {
        None
    }
}

/// The directory name an `installdir` value holds, or an error when it is
/// not a single name: an absolute path or `..` would point outside
/// `steamapps/common`.
pub fn check_install_dir(value: &str, path: &FilePath) -> (r: Result<String, Error>)
    ensures
        match r {
            Ok(n) => single_name(value@) == Some(n@),
            Err(e) => single_name(value@) is None && e@ == (ErrorV::BadValue {
                path: path@,
                key: "installdir"@,
                value: value@,
            }),
        },
{
    let parsed = FilePath::parse(value);
    if parsed.components.len() == 1 {
        match &parsed.components[0] {
            Component::Normal(n) => {
                return Ok(copy_text(n.as_str()));
            },
            _ => {},
        }
    }
    Err(Error::BadValue { path: path.copy(), key: "installdir", value: copy_text(value) })
}

/// What an app manifest names: the game, or the first thing wrong with the
/// manifest at `path` found in a library at `library`.
pub open spec fn spec_manifest(path: Seq<Part>, text: Seq<char>, library: Seq<Part>) -> Result<
    GameV,
    ErrorV,
> {
    match spec_parse(text) {
        Err(e) => Err(ErrorV::Vdf { path, source: e }),
        Ok(doc) => match spec_inner_block_doc(doc, "AppState"@, path) {
            Err(e) => Err(e),
            Ok(state) => match spec_required(state, "appid"@, path) {
                Err(e) => Err(e),
                Ok(a) => match parse_u32(trimmed(a)) {
                    None => Err(ErrorV::BadValue { path, key: "appid"@, value: a }),
                    Some(appid) => match spec_required(state, "installdir"@, path) {
                        Err(e) => Err(e),
                        Ok(dir) => match single_name(dir) {
                            None => Err(ErrorV::BadValue { path, key: "installdir"@, value: dir }),
                            Some(n) => match spec_required(state, "name"@, path) {
                                Err(e) => Err(e),
                                Ok(title) => Ok(
                                    GameV {
                                        identity: IdentityV::SteamApp(appid),
                                        name: title,
                                        install_dir: library + seq![
                                            Part::Normal("steamapps"@),
                                            Part::Normal("common"@),
                                            Part::Normal(n),
                                        ],
                                        origin: OriginV { key: "steam"@, label: "Steam"@ },
                                    },
                                ),
                            },
                        },
                    },
                },
            },
        },
    }
}

/// Reads one `.acf`, already in memory as `text`, into a [`Game`]: the
/// `AppState` block's `appid`, `installdir` and `name`, with the install
/// directory joined under `library/steamapps/common` (not checked for
/// existence).
pub fn read_manifest(path: &FilePath, text: &str, library: &FilePath) -> (r: Result<Game, Error>)
    requires
        utf8_len(text@) < usize::MAX,
    ensures
        match r {
            Ok(g) => spec_manifest(path@, text@, library@) == Ok::<_, ErrorV>(g@),
            Err(e) => spec_manifest(path@, text@, library@) == Err::<GameV, _>(e@),
        },
{
    let parsed = match vdf::parse(text) {
        Ok(v) => v,
        Err(source) => {
            return Err(Error::Vdf { path: path.copy(), source });
        },
    };
    let state = match inner_block(&parsed, "AppState", path) {
        Ok(o) => o,
        Err(e) => {
            return Err(e);
        },
    };
    let appid_text = match required(state, "appid", path) {
        Ok(v) => v,
        Err(e) => {
            return Err(e);
        },
    };
    let chars = chars_of(appid_text);
    let (lo, hi) = trim_range(&chars);
    let digits = string_of_range(chars.as_slice(), lo, hi);
    let appid = match parse_u32_text(digits.as_str()) {
        Some(n) => n,
        None => {
            return Err(
                Error::BadValue { path: path.copy(), key: "appid", value: copy_text(appid_text) },
            );
        },
    };
    let dir = match required(state, "installdir", path) {
        Ok(v) => v,
        Err(e) => {
            return Err(e);
        },
    };
    let dir_name = match check_install_dir(dir, path) {
        Ok(n) => n,
        Err(e) => {
            return Err(e);
        },
    };
    let title = match required(state, "name", path) {
        Ok(v) => v,
        Err(e) => {
            return Err(e);
        },
    };
    let mut install_dir = library.copy();
    install_dir.components.push(Component::Normal(copy_text("steamapps")));
    install_dir.components.push(Component::Normal(copy_text("common")));
    install_dir.components.push(Component::Normal(dir_name));
    let game = Game {
        identity: Identity::SteamApp(appid),
        name: copy_text(title),
        install_dir,
        origin: super::origin(),
    };
    assert(game@.install_dir =~= library@ + seq![
        Part::Normal("steamapps"@),
        Part::Normal("common"@),
        Part::Normal(dir_name@),
    ]);
    Ok(game)
}

/// What a `libraryfolders.vdf` declares: the library paths in file order,
/// or the first thing wrong with it. A file that parses to nothing, or whose
/// `libraryfolders` block is empty, is [`Error::NoLibraries`].
pub open spec fn spec_index(path: Seq<Part>, text: Seq<char>) -> Result<Seq<Seq<char>>, ErrorV> {
    match spec_parse(text) {
        Err(e) => Err(ErrorV::Vdf { path, source: e }),
        Ok(ValueV::String(_)) => Err(ErrorV::NoLibraries { path }),
        Ok(ValueV::Object(root)) => if root.len() == 0 {
            Err(ErrorV::NoLibraries { path })
        } else {
            match spec_inner_block(root, "libraryfolders"@, path) {
                Err(e) => Err(e),
                Ok(folders) => if folders.len() == 0 {
                    Err(ErrorV::NoLibraries { path })
                } else {
                    paths_upto(folders, path, folders.len() as int)
                },
            }
        },
    }
}

/// The libraries one index declares, and the notes that qualify the list.
#[derive(Debug)]
pub struct Index {
    /// The declared paths, as the index spells them, in file order.
    pub libraries: Vec<String>,
    /// Reasons this list may be shorter than the machine really has.
    pub notes: Vec<Note>,
}

/// The library paths a `libraryfolders.vdf` at `path`, read as `text`,
/// declares, with a [`Note::NoLibraryEntries`] when it declares none.
/// Paths come back unchecked: a library on an unplugged drive stays in the
/// list and fails later under its own name.
pub fn read_index(path: &FilePath, text: &str) -> (r: Result<Index, Error>)
    requires
        utf8_len(text@) < usize::MAX,
    ensures
        match r {
            Ok(d) => {
                &&& spec_index(path@, text@) == Ok::<_, ErrorV>(texts(d.libraries@))
                &&& d.notes@.len() == (if d.libraries@.len() == 0 {
                    1int
                } else {
                    0int
                })
                &&& d.libraries@.len() == 0 ==> d.notes@[0]@ == (NoteV::NoLibraryEntries {
                    path: path@,
                })
            },
            Err(e) => spec_index(path@, text@) == Err::<Seq<Seq<char>>, _>(e@),
        },
{
    let parsed = match vdf::parse(text) {
        Ok(v) => v,
        Err(source) => {
            return Err(Error::Vdf { path: path.copy(), source });
        },
    };
    let root = match parsed.as_object() {
        Some(o) => o,
        None => {
            return Err(Error::NoLibraries { path: path.copy() });
        },
    };
    if root.is_empty() {
        return Err(Error::NoLibraries { path: path.copy() });
    }
    let folders = match inner_block_of(root, "libraryfolders", path) {
        Ok(o) => o,
        Err(e) => {
            return Err(e);
        },
    };
    if folders.is_empty() {
        return Err(Error::NoLibraries { path: path.copy() });
    }
    let libraries = match library_paths(folders, path) {
        Ok(v) => v,
        Err(e) => {
            return Err(e);
        },
    };
    let mut notes: Vec<Note> = Vec::new();
    if libraries.len() == 0 {
        notes.push(Note::NoLibraryEntries { path: path.copy() });
    }
    Ok(Index { libraries, notes })
}

/// The extension of a file name as `Path::extension` cuts it: after the
/// last `.`, unless that `.` leads the name.
pub open spec fn extension(name: Seq<char>) -> Option<Seq<char>> {
    match last_dot(name) {
        Some(i) => if i > 0 {
            Some(name.skip(i + 1))
        } else {
            None
        },
        None => None,
    }
}

/// Whether a directory entry is an application manifest: `appmanifest_`
/// then anything, with the extension `acf`, both matched without ASCII
/// case.
pub open spec fn manifest_name(name: Seq<char>) -> bool {
    &&& name.len() >= 12
    &&& eq_ignore_case(name.take(12), "appmanifest_"@)
    &&& match extension(name) {
        Some(e) => eq_ignore_case(e, "acf"@),
        None => false,
    }
}

/// Whether a directory entry's name is an application manifest's.
pub fn is_manifest_name(name: &str) -> (b: bool)
    ensures
        b == manifest_name(name@),
{
    let chars = chars_of(name);
    if chars.len() < 12 {
        return false;
    }
    let head = string_of_range(chars.as_slice(), 0, 12);
    assert(head@ =~= name@.take(12));
    if !eq_ignore_ascii_case(head.as_str(), "appmanifest_") {
        return false;
    }
    let mut i = chars.len();
    assert(chars@.take(i as int) =~= chars@);
    while i > 0 && chars[i - 1] != '.'
        invariant
            i <= chars@.len(),
            chars@ == name@,
            last_dot(chars@) == last_dot(chars@.take(i as int)),
        decreases i,
    {
        assert(chars@.take(i as int).drop_last() =~= chars@.take(i - 1));
        i = i - 1;
    }
    proof {
        if i > 0 {
            assert(chars@.take(i as int).last() == '.');
        } else {
            assert(chars@.take(0) =~= Seq::<char>::empty());
        }
    }
    if i <= 1 {
        return false;
    }
    let ext = string_of_range(chars.as_slice(), i, chars.len());
    assert(ext@ =~= name@.skip(i as int));
    eq_ignore_ascii_case(ext.as_str(), "acf")
}

/// What a scan orders games by: the Steam application id, with a game that
/// has none first, as `Option`'s order puts `None`.
pub open spec fn appid_key(g: GameV) -> int {
    match g.identity {
        IdentityV::SteamApp(a) => a as int,
        IdentityV::Native(_) => -1,
    }
}

/// The order of a library's games: by application id.
pub open spec fn appid_order() -> spec_fn(GameV, GameV) -> bool {
    |a: GameV, b: GameV| appid_key(a) < appid_key(b)
}

/// The sort key of one game.
fn key_of(g: &Game) -> (k: i64)
    ensures
        k == appid_key(g@),
{
    match g.identity.steam_appid() {
        Some(a) => a as i64,
        None => -1,
    }
}

/// A library's games ordered by application id, games with equal ids
/// keeping the order they were read in, so two scans can be diffed.
pub fn order_by_appid(v: Vec<Game>) -> (out: Vec<Game>)
    ensures
        games_view(out@) == sort_by(games_view(v@), appid_order()),
{
    let ghost orig = games_view(v@);
    let total = v.len();
    let mut rest = v;
    let mut out: Vec<Game> = Vec::new();
    let mut i: usize = 0;
    assert(orig.skip(0) =~= orig);
    assert(orig.take(0) =~= Seq::<GameV>::empty());
    assert(games_view(out@) =~= Seq::<GameV>::empty());
    while rest.len() > 0
        invariant
            i + rest@.len() == orig.len(),
            orig.len() == total,
            games_view(rest@) == orig.skip(i as int),
            games_view(out@) == sort_by(orig.take(i as int), appid_order()),
        decreases rest@.len(),
    {
        let ghost before = rest@;
        let x = rest.remove(0);
        assert(games_view(before)[0] == x@);
        assert(orig.skip(i as int)[0] == orig[i as int]);
        assert(games_view(rest@) =~= games_view(before).drop_first());
        assert(orig.skip(i as int).drop_first() =~= orig.skip(i + 1));
        let ghost sorted = games_view(out@);
        let kx = key_of(&x);
        let mut k: usize = 0;
        while k < out.len() && !(kx < key_of(&out[k]))
            invariant
                k <= out@.len(),
                sorted == games_view(out@),
                kx == appid_key(x@),
                forall|j: int| 0 <= j < k ==> !(appid_order())(x@, #[trigger] sorted[j]),
            decreases out@.len() - k,
        {
            assert(sorted[k as int] == out@[k as int]@);
            k = k + 1;
        }
        proof {
            if k < out@.len() {
                assert(sorted[k as int] == out@[k as int]@);
            }
            lemma_insert_at(x@, sorted, appid_order(), k as int);
            assert(orig.take(i + 1).drop_last() =~= orig.take(i as int));
        }
        out.insert(k, x);
        i = i + 1;
        assert(games_view(out@) =~= sorted.take(k as int) + seq![x@] + sorted.skip(k as int));
    }
    assert(orig.take(i as int) =~= orig);
    out
}

/// Whether `keys[i]` is the first of its value.
pub open spec fn first_of_key(keys: Seq<Seq<char>>, i: int) -> bool {
    forall|j: int| 0 <= j < i ==> keys[j] != keys[i]
}

/// The first `n` items whose key has not come before: the first spelling of
/// each kept, in order.
pub open spec fn keep_first(items: Seq<Seq<Part>>, keys: Seq<Seq<char>>, n: int) -> Seq<Seq<Part>>
    decreases n,
{
    if n <= 0 {
        Seq::empty()
    } else {
        let before = keep_first(items, keys, n - 1);
        if first_of_key(keys, n - 1) {
            before.push(items[n - 1])
        } else {
            before
        }
    }
}

/// Removes repeats, keeping the first spelling. `keys[i]` names what
/// `paths[i]` resolves to, so a root's symlink and the path an index
/// declares for it are one library.
pub fn dedup_paths(paths: Vec<FilePath>, keys: &Vec<String>) -> (out: Vec<FilePath>)
    requires
        paths@.len() == keys@.len(),
    ensures
        out@.map_values(|p: FilePath| p@) == keep_first(
            paths@.map_values(|p: FilePath| p@),
            texts(keys@),
            paths@.len() as int,
        ),
{
    let ghost items = paths@.map_values(|p: FilePath| p@);
    let ghost ks = texts(keys@);
    let mut out: Vec<FilePath> = Vec::new();
    let mut i: usize = 0;
    assert(out@.map_values(|p: FilePath| p@) =~= Seq::<Seq<Part>>::empty());
    while i < paths.len()
        invariant
            i <= paths@.len() == keys@.len(),
            items == paths@.map_values(|p: FilePath| p@),
            ks == texts(keys@),
            out@.map_values(|p: FilePath| p@) == keep_first(items, ks, i as int),
        decreases paths@.len() - i,
    {
        let mut j: usize = 0;
        let mut fresh = true;
        while j < i
            invariant
                j <= i < keys@.len(),
                ks == texts(keys@),
                fresh == (forall|m: int| 0 <= m < j ==> ks[m] != ks[i as int]),
            decreases i - j,
        {
            assert(ks[j as int] == keys@[j as int]@ && ks[i as int] == keys@[i as int]@);
            if same_text(keys[j].as_str(), keys[i].as_str()) {
                fresh = false;
            }
            j = j + 1;
        }
        let ghost before = out@.map_values(|p: FilePath| p@);
        if fresh {
            out.push(paths[i].copy());
            assert(out@.map_values(|p: FilePath| p@) =~= before.push(items[i as int]));
        }
        i = i + 1;
    }
    out
}

/// `base` with the names `names` after it, each one component.
pub open spec fn under(base: Seq<Part>, names: Seq<Seq<char>>) -> Seq<Part> {
    base + names.map_values(|n: Seq<char>| Part::Normal(n))
}

/// `base` with one more name after it.
fn child(base: &FilePath, name: &str) -> (p: FilePath)
    ensures
        p@ == base@.push(Part::Normal(name@)),
{
    let mut p = base.copy();
    let ghost before = p@;
    p.components.push(Component::Normal(copy_text(name)));
    assert(p@ =~= before.push(Part::Normal(name@)));
    p
}

/// Where a root's library index is looked for, in order: older installs
/// keep it in `steamapps`, current ones in `config`.
pub open spec fn index_paths(root: Seq<Part>) -> Seq<Seq<Part>> {
    seq![
        under(root, seq!["steamapps"@, "libraryfolders.vdf"@]),
        under(root, seq!["config"@, "libraryfolders.vdf"@]),
    ]
}

/// [`index_paths`] as paths.
pub fn index_files(root: &FilePath) -> (v: Vec<FilePath>)
    ensures
        path_views(v@) == index_paths(root@),
{
    proof {
        reveal_strlit("steamapps");
        reveal_strlit("config");
        reveal_strlit("libraryfolders.vdf");
    }
    let old_place = child(&child(root, "steamapps"), "libraryfolders.vdf");
    let new_place = child(&child(root, "config"), "libraryfolders.vdf");
    assert(old_place@ =~= under(root@, seq!["steamapps"@, "libraryfolders.vdf"@]));
    assert(new_place@ =~= under(root@, seq!["config"@, "libraryfolders.vdf"@]));
    let v = vec![old_place, new_place];
    assert(path_views(v@) =~= index_paths(root@));
    v
}

/// A file as it was looked for: absent, its text, or why it could not be
/// read.
pub open spec fn found_view(r: Option<Result<String, String>>) -> Option<Result<Seq<char>, Seq<char>>> {
    match r {
        None => None,
        Some(Ok(t)) => Some(Ok(t@)),
        Some(Err(e)) => Some(Err(e@)),
    }
}

/// Each file as it was looked for.
pub open spec fn founds_view(v: Seq<Option<Result<String, String>>>) -> Seq<
    Option<Result<Seq<char>, Seq<char>>>,
> {
    v.map_values(|r: Option<Result<String, String>>| found_view(r))
}

/// The first of `reads`, from `i` on, that was there.
pub open spec fn first_found(reads: Seq<Option<Result<Seq<char>, Seq<char>>>>, i: int) -> Option<int>
    decreases reads.len() - i,
{
    if i < 0 || i >= reads.len() {
        None
    } else if reads[i] is Some {
        Some(i)
    } else {
        first_found(reads, i + 1)
    }
}

/// The libraries of the Steam root `root`, given whether it holds a
/// `steamapps` directory and what was found at each of [`index_paths`]:
/// the root first when it holds one, then what the first index there
/// declares, in file order, each directory once by its key as `resolver`
/// answers it, the first spelling kept; with the note that the index
/// declares none. No index at all is no error; an unreadable one, or one
/// [`spec_index`] refuses, is.
pub open spec fn spec_libraries<R: Resolver>(
    root: Seq<Part>,
    has_steamapps: bool,
    reads: Seq<Option<Result<Seq<char>, Seq<char>>>>,
    resolver: R,
) -> Result<(Seq<Seq<Part>>, Seq<NoteV>), ErrorV> {
    let head: Seq<Seq<Part>> = if has_steamapps {
        seq![root]
    } else {
        Seq::empty()
    };
    match first_found(reads, 0) {
        None => Ok((head, Seq::empty())),
        Some(i) => match reads[i] {
            Some(Err(source)) => Err(ErrorV::Io { path: index_paths(root)[i], source }),
            Some(Ok(text)) => match spec_index(index_paths(root)[i], text) {
                Err(e) => Err(e),
                Ok(declared) => {
                    let all = head + declared.map_values(|d: Seq<char>| parse_path(d));
                    Ok(
                        (
                            keep_first(all, keys_of(resolver, all), all.len() as int),
                            if declared.len() == 0 {
                                seq![NoteV::NoLibraryEntries { path: index_paths(root)[i] }]
                            } else {
                                Seq::empty()
                            },
                        ),
                    )
                },
            },
            None => Ok((head, Seq::empty())),
        },
    }
}

/// The libraries of the Steam root `root`: see [`spec_libraries`].
/// `reads[i]` is what was found at `index_files(root)[i]`.
pub fn libraries_of<R: Resolver>(
    root: &FilePath,
    has_steamapps: bool,
    reads: &Vec<Option<Result<String, String>>>,
    resolver: &R,
) -> (r: Result<(Vec<FilePath>, Vec<Note>), Error>)
    requires
        reads@.len() == 2,
        forall|i: int| 0 <= i < reads@.len() ==> match #[trigger] reads@[i] {
            Some(Ok(t)) => utf8_len(t@) < usize::MAX,
            _ => true,
        },
    ensures
        match r {
            Ok((paths, notes)) => spec_libraries(root@, has_steamapps, founds_view(reads@), *resolver)
                == Ok::<_, ErrorV>((path_views(paths@), notes@.map_values(|n: Note| n@))),
            Err(e) => spec_libraries(root@, has_steamapps, founds_view(reads@), *resolver) == Err::<
                (Seq<Seq<Part>>, Seq<NoteV>),
                _,
            >(e@),
        },
{
    let ghost fv = founds_view(reads@);
    let files = index_files(root);
    let mut paths: Vec<FilePath> = Vec::new();
    if has_steamapps {
        paths.push(root.copy());
    }
    let ghost head = path_views(paths@);
    assert(head =~= (if has_steamapps { seq![root@] } else { Seq::<Seq<Part>>::empty() }));
    let mut i: usize = 0;
    while i < reads.len() && reads[i].is_none()
        invariant
            i <= reads@.len(),
            fv == founds_view(reads@),
            first_found(fv, 0) == first_found(fv, i as int),
        decreases reads@.len() - i,
    {
        assert(fv[i as int] == found_view(reads@[i as int]));
        i = i + 1;
    }
    if i == reads.len() {
        assert(first_found(fv, i as int) is None);
        let none: Vec<Note> = Vec::new();
        assert(none@.map_values(|n: Note| n@) =~= Seq::<NoteV>::empty());
        return Ok((paths, none));
    }
    assert(fv[i as int] == found_view(reads@[i as int]));
    assert(first_found(fv, i as int) == Some(i as int));
    assert(path_views(files@).len() == files@.len());
    assert(index_paths(root@).len() == 2);
    assert(path_views(files@)[i as int] == files@[i as int]@);
    match &reads[i] {
        None => {
            assert(false);
            Err(Error::NoLibraries { path: root.copy() })
        },
        Some(Err(source)) => Err(Error::Io { path: files[i].copy(), source: copy_text(source.as_str()) }),
        Some(Ok(text)) => {
            let index = match read_index(&files[i], text.as_str()) {
                Ok(d) => d,
                Err(e) => {
                    return Err(e);
                },
            };
            let ghost declared = texts(index.libraries@);
            let mut k: usize = 0;
            while k < index.libraries.len()
                invariant
                    k <= index.libraries@.len(),
                    declared == texts(index.libraries@),
                    path_views(paths@) == head + declared.take(k as int).map_values(
                        |d: Seq<char>| parse_path(d),
                    ),
                decreases index.libraries@.len() - k,
            {
                let ghost before = path_views(paths@);
                paths.push(FilePath::parse(index.libraries[k].as_str()));
                assert(declared.take(k + 1) =~= declared.take(k as int).push(declared[k as int]));
                assert(path_views(paths@) =~= before.push(parse_path(declared[k as int])));
                assert(head + declared.take(k + 1).map_values(|d: Seq<char>| parse_path(d)) =~= (head
                    + declared.take(k as int).map_values(|d: Seq<char>| parse_path(d))).push(
                    parse_path(declared[k as int]),
                ));
                k = k + 1;
            }
            assert(declared.take(k as int) =~= declared);
            let ghost all = path_views(paths@);
            let mut keys: Vec<String> = Vec::new();
            let mut j: usize = 0;
            while j < paths.len()
                invariant
                    j <= paths@.len(),
                    keys@.len() == j,
                    forall|m: int| 0 <= m < j ==> (#[trigger] keys@[m])@ == resolver.key_of(paths@[m]@),
                decreases paths@.len() - j,
            {
                keys.push(resolver.identity(&paths[j]));
                j = j + 1;
            }
            assert(texts(keys@) =~= keys_of(*resolver, all));
            let listed = dedup_paths(paths, &keys);
            assert(listed@.map_values(|p: FilePath| p@) == path_views(listed@));
            let notes = index.notes;
            if index.libraries.len() == 0 {
                assert(notes@.map_values(|n: Note| n@) =~= seq![
                    NoteV::NoLibraryEntries { path: index_paths(root@)[i as int] },
                ]);
            } else {
                assert(notes@.map_values(|n: Note| n@) =~= Seq::<NoteV>::empty());
            }
            Ok((listed, notes))
        },
    }
}

/// The Steam directories that can sit under a Unix home, in priority
/// order, then the one under `$XDG_DATA_HOME` when it is set.
pub open spec fn home_roots(home: Seq<Part>, data_home: Option<Seq<Part>>) -> Seq<Seq<Part>> {
    let fixed = seq![
        under(home, seq![".steam"@, "steam"@]),
        under(home, seq![".steam"@, "root"@]),
        under(home, seq![".local"@, "share"@, "Steam"@]),
        under(home, seq![".var"@, "app"@, "com.valvesoftware.Steam"@, ".local"@, "share"@, "Steam"@]),
        under(home, seq![".var"@, "app"@, "com.valvesoftware.Steam"@, "data"@, "Steam"@]),
        under(home, seq!["snap"@, "steam"@, "common"@, ".local"@, "share"@, "Steam"@]),
    ];
    match data_home {
        Some(d) => fixed.push(under(d, seq!["Steam"@])),
        None => fixed,
    }
}

/// Where a Steam root is looked for, in priority order: the directories
/// under the user's home, then the shared system one, then the roots named
/// by `DXRAY_STEAM_ROOT`, which cannot be inferred from a directory name.
pub open spec fn spec_steam_candidates(home: Seq<Seq<Part>>, extra: Seq<Seq<Part>>) -> Seq<Seq<Part>> {
    home + seq![parse_path("/usr/local/games/Steam"@)] + extra
}

/// [`spec_steam_candidates`] as paths.
pub fn steam_candidates(home: Vec<FilePath>, extra: Vec<FilePath>) -> (v: Vec<FilePath>)
    ensures
        path_views(v@) == spec_steam_candidates(path_views(home@), path_views(extra@)),
{
    let mut v = home;
    let ghost h = path_views(v@);
    v.push(FilePath::parse("/usr/local/games/Steam"));
    let ghost hv = path_views(v@);
    assert(hv =~= h + seq![parse_path("/usr/local/games/Steam"@)]);
    let mut rest = extra;
    let ghost others = rest@;
    v.append(&mut rest);
    assert(path_views(v@) =~= hv + path_views(others));
    v
}

/// What the host's Steam roots settle: the roots found there, each directory
/// once, or, when the host has none, that the container homes are to be
/// scanned; so a native installation stays authoritative.
#[derive(Debug)]
pub enum SteamRoots {
    Found(Vec<FilePath>),
    ScanContainers,
}

/// The host's Steam roots from the candidates that are roots, `keys[i]`
/// naming the directory `present[i]` is.
pub fn host_roots(present: Vec<FilePath>, keys: &Vec<String>) -> (r: SteamRoots)
    requires
        present@.len() == keys@.len(),
    ensures
        r is ScanContainers <==> present@.len() == 0,
        r matches SteamRoots::Found(v) ==> v@.map_values(|p: FilePath| p@) == keep_first(
            present@.map_values(|p: FilePath| p@),
            texts(keys@),
            present@.len() as int,
        ),
{
    if present.len() == 0 {
        SteamRoots::ScanContainers
    } else {
        SteamRoots::Found(dedup_paths(present, keys))
    }
}

/// The Steam directories that can sit under the Unix home `home`: the
/// native client's, Flatpak's whole-home prefix and its data directory, and
/// Snap's; and `Steam` under `data_home`, the value of `$XDG_DATA_HOME`.
pub fn unix_home_roots(home: &FilePath, data_home: Option<&FilePath>) -> (roots: Vec<FilePath>)
    ensures
        roots@.map_values(|p: FilePath| p@) == home_roots(
            home@,
            match data_home {
                Some(d) => Some(d@),
                None => None,
            },
        ),
{
    let dot_steam = child(home, ".steam");
    let a = child(&dot_steam, "steam");
    let b = child(&dot_steam, "root");
    let share = child(&child(home, ".local"), "share");
    let c = child(&share, "Steam");
    let flatpak = child(&child(&child(home, ".var"), "app"), "com.valvesoftware.Steam");
    let d = child(&child(&child(&flatpak, ".local"), "share"), "Steam");
    let e = child(&child(&flatpak, "data"), "Steam");
    let snap = child(&child(&child(home, "snap"), "steam"), "common");
    let f = child(&child(&child(&snap, ".local"), "share"), "Steam");
    assert(a@ =~= under(home@, seq![".steam"@, "steam"@]));
    assert(b@ =~= under(home@, seq![".steam"@, "root"@]));
    assert(c@ =~= under(home@, seq![".local"@, "share"@, "Steam"@]));
    assert(d@ =~= under(home@, seq![".var"@, "app"@, "com.valvesoftware.Steam"@, ".local"@, "share"@, "Steam"@]));
    assert(e@ =~= under(home@, seq![".var"@, "app"@, "com.valvesoftware.Steam"@, "data"@, "Steam"@]));
    assert(f@ =~= under(home@, seq!["snap"@, "steam"@, "common"@, ".local"@, "share"@, "Steam"@]));
    let mut roots = vec![a, b, c, d, e, f];
    let ghost fixed = roots@.map_values(|p: FilePath| p@);
    assert(fixed =~= home_roots(home@, None));
    match data_home {
        Some(dir) => {
            let g = child(dir, "Steam");
            assert(g@ =~= under(dir@, seq!["Steam"@]));
            roots.push(g);
            assert(roots@.map_values(|p: FilePath| p@) =~= fixed.push(under(dir@, seq!["Steam"@])));
        },
        None => {},
    }
    roots
}

/// The plain values of each error.
pub open spec fn errors_view(v: Seq<Error>) -> Seq<ErrorV> {
    v.map_values(|e: Error| e@)
}

/// What one library turned out to hold: the games, and the manifests that
/// could not be read. Two lists, so dropping the failures is never the
/// default.
#[derive(Debug)]
pub struct Scan {
    /// Ordered by application id once [`Scan::finish`] has run.
    pub games: Vec<Game>,
    /// One entry per manifest that could not be read, parsed or understood,
    /// each naming its file.
    pub problems: Vec<Error>,
}

impl Scan {
    /// A scan that has seen nothing yet.
    pub fn new() -> (s: Scan)
        ensures
            s.games@.len() == 0,
            s.problems@.len() == 0,
    {
        Scan { games: Vec::new(), problems: Vec::new() }
    }

    /// Records one manifest at `path` in `library`: its text, or why it
    /// could not be read. A bad manifest becomes a problem and the scan goes
    /// on.
    pub fn add(&mut self, path: &FilePath, read: Result<String, String>, library: &FilePath)
        requires
            match read {
                Ok(t) => utf8_len(t@) < usize::MAX,
                Err(_) => true,
            },
        ensures
            match read {
                Err(m) => {
                    &&& games_view(final(self).games@) == games_view(old(self).games@)
                    &&& errors_view(final(self).problems@) == errors_view(old(self).problems@).push(
                        ErrorV::Io { path: path@, source: m@ },
                    )
                },
                Ok(t) => match spec_manifest(path@, t@, library@) {
                    Ok(g) => {
                        &&& games_view(final(self).games@) == games_view(old(self).games@).push(g)
                        &&& errors_view(final(self).problems@) == errors_view(old(self).problems@)
                    },
                    Err(e) => {
                        &&& games_view(final(self).games@) == games_view(old(self).games@)
                        &&& errors_view(final(self).problems@) == errors_view(
                            old(self).problems@,
                        ).push(e)
                    },
                },
            },
    {
        let ghost games_before = games_view(self.games@);
        let ghost problems_before = errors_view(self.problems@);
        match read {
            Err(source) => {
                self.problems.push(Error::Io { path: path.copy(), source });
                assert(errors_view(self.problems@) =~= problems_before.push(
                    ErrorV::Io { path: path@, source: source@ },
                ));
            },
            Ok(text) => match read_manifest(path, text.as_str(), library) {
                Ok(game) => {
                    let ghost g = game@;
                    self.games.push(game);
                    assert(games_view(self.games@) =~= games_before.push(g));
                },
                Err(e) => {
                    let ghost ev = e@;
                    self.problems.push(e);
                    assert(errors_view(self.problems@) =~= problems_before.push(ev));
                },
            },
        }
    }

    /// The scan with its games ordered by application id.
    pub fn finish(self) -> (s: Scan)
        ensures
            games_view(s.games@) == sort_by(games_view(self.games@), appid_order()),
            errors_view(s.problems@) == errors_view(self.problems@),
    {
        let Scan { games, problems } = self;
        Scan { games: order_by_appid(games), problems }
    }
}

/// The sentence each error is printed as.
pub open spec fn errors_words(v: Seq<ErrorV>) -> Seq<Seq<char>> {
    v.map_values(|e: ErrorV| error_words(e))
}

/// The sentence each note is printed as.
pub open spec fn notes_words(v: Seq<Note>) -> Seq<Seq<char>> {
    v.map_values(|n: Note| note_words(n@))
}

/// Every error, worded.
fn word_errors(v: &Vec<Error>) -> (out: Vec<String>)
    ensures
        texts(out@) == errors_words(errors_view(v@)),
{
    let mut out: Vec<String> = Vec::new();
    let mut i: usize = 0;
    while i < v.len()
        invariant
            i <= v@.len(),
            texts(out@) == errors_words(errors_view(v@)).take(i as int),
        decreases v@.len() - i,
    {
        let ghost before = texts(out@);
        let d = v[i].describe();
        out.push(d);
        assert(texts(out@) =~= before.push(d@));
        assert(errors_view(v@)[i as int] == v@[i as int]@);
        assert(texts(out@) =~= errors_words(errors_view(v@)).take(i + 1));
        i = i + 1;
    }
    assert(errors_words(errors_view(v@)).take(i as int) =~= errors_words(errors_view(v@)));
    out
}

/// The libraries of one Steam root in the form every launcher reports them:
/// the paths and the worded notes when the index could be used, and else
/// no libraries and the one worded problem.
pub fn to_libraries(read: Result<(Vec<FilePath>, Vec<Note>), Error>) -> (l: Libraries)
    ensures
        match read {
            Ok((paths, notes)) => {
                &&& path_views(l.paths@) == path_views(paths@)
                &&& texts(l.notes@) == notes_words(notes@)
                &&& l.problems@.len() == 0
            },
            Err(e) => {
                &&& l.paths@.len() == 0
                &&& l.notes@.len() == 0
                &&& texts(l.problems@) == seq![error_words(e@)]
            },
        },
{
    match read {
        Ok((paths, notes)) => {
            let mut words: Vec<String> = Vec::new();
            let mut i: usize = 0;
            while i < notes.len()
                invariant
                    i <= notes@.len(),
                    texts(words@) == notes_words(notes@).take(i as int),
                decreases notes@.len() - i,
            {
                let ghost before = texts(words@);
                let d = notes[i].describe();
                words.push(d);
                assert(texts(words@) =~= before.push(d@));
                assert(texts(words@) =~= notes_words(notes@).take(i + 1));
                i = i + 1;
            }
            assert(notes_words(notes@).take(i as int) =~= notes_words(notes@));
            Libraries { paths, notes: words, problems: Vec::new() }
        },
        Err(e) => {
            let mut problems: Vec<String> = Vec::new();
            problems.push(e.describe());
            assert(texts(problems@) =~= seq![error_words(e@)]);
            Libraries { paths: Vec::new(), notes: Vec::new(), problems }
        },
    }
}

/// What one library holds in the form every launcher reports it: the games
/// and the worded problems of a scan, or no games and the one worded
/// problem when the library could not be listed at all.
pub fn to_catalogue(scan: Result<Scan, Error>) -> (c: Catalogue)
    ensures
        c.notes@.len() == 0,
        match scan {
            Ok(s) => {
                &&& game_views(c.games@) == games_view(s.games@)
                &&& texts(c.problems@) == errors_words(errors_view(s.problems@))
            },
            Err(e) => {
                &&& c.games@.len() == 0
                &&& texts(c.problems@) == seq![error_words(e@)]
            },
        },
{
    match scan {
        Ok(s) => {
            let problems = word_errors(&s.problems);
            let Scan { games, .. } = s;
            Catalogue { games, problems, notes: Vec::new() }
        },
        Err(e) => {
            let mut problems: Vec<String> = Vec::new();
            problems.push(e.describe());
            assert(texts(problems@) =~= seq![error_words(e@)]);
            Catalogue { games: Vec::new(), problems, notes: Vec::new() }
        },
    }
}

/// Every name among the components of a path is one plain name: no slash
/// in it, and neither `.` nor `..`.
pub open spec fn names_plain(parts: Seq<Part>) -> bool {
    forall|i: int| 0 <= i < parts.len() ==> match #[trigger] parts[i] {
        Part::Normal(n) => plain_name(n),
        _ => true,
    }
}

/// Reading a path component by component only ever yields plain names.
proof fn lemma_parse_from_plain(
    s: Seq<char>,
    start: int,
    i: int,
    k: int,
    absolute: bool,
    acc: Seq<Part>,
)
    requires
        0 <= start <= i <= s.len(),
        forall|j: int| start <= j < i ==> s[j] != '/',
        names_plain(acc),
    ensures
        names_plain(parse_from(s, start, i, k, absolute, acc)),
    decreases s.len() - i,
{
    if i < 0 || i >= s.len() {
        let seg = s.subrange(start, s.len() as int);
        assert forall|j: int| 0 <= j < seg.len() implies seg[j] != '/' by {
            assert(seg[j] == s[start + j]);
        }
        lemma_segment_plain(seg, k, absolute, acc);
    } else if s[i] == '/' {
        let seg = s.subrange(start, i);
        assert forall|j: int| 0 <= j < seg.len() implies seg[j] != '/' by {
            assert(seg[j] == s[start + j]);
        }
        lemma_segment_plain(seg, k, absolute, acc);
        lemma_parse_from_plain(s, i + 1, i + 1, k + 1, absolute, acc + segment_parts(seg, k, absolute));
    } else {
        lemma_parse_from_plain(s, start, i + 1, k, absolute, acc);
    }
}

/// One segment with no slash in it adds only a plain name, if any.
proof fn lemma_segment_plain(seg: Seq<char>, k: int, absolute: bool, acc: Seq<Part>)
    requires
        forall|j: int| 0 <= j < seg.len() ==> seg[j] != '/',
        names_plain(acc),
    ensures
        names_plain(acc + segment_parts(seg, k, absolute)),
{
    let out = acc + segment_parts(seg, k, absolute);
    assert forall|i: int| 0 <= i < out.len() implies match #[trigger] out[i] {
        Part::Normal(n) => plain_name(n),
        _ => true,
    } by {
        if i >= acc.len() {
            assert(out[i] == segment_parts(seg, k, absolute)[i - acc.len()]);
        } else {
            assert(out[i] == acc[i]);
        }
    }
}

/// A game an app manifest names is installed directly inside its library's
/// `steamapps/common`: the manifest's `installdir` cannot climb out of the
/// library, name it, or reach below a second directory.
pub proof fn lemma_install_dir_stays_in_library(path: Seq<Part>, text: Seq<char>, library: Seq<Part>)
    requires
        spec_manifest(path, text, library) is Ok,
    ensures
        ({
            let dir = spec_manifest(path, text, library)->Ok_0.install_dir;
            &&& dir.len() == library.len() + 3
            &&& dir.take(library.len() + 2int) == library + seq![
                Part::Normal("steamapps"@),
                Part::Normal("common"@),
            ]
            &&& dir.last() matches Part::Normal(n) && plain_name(n)
        }),
{
    let g = spec_manifest(path, text, library)->Ok_0;
    let state = match spec_parse(text) {
        Ok(doc) => spec_inner_block_doc(doc, "AppState"@, path)->Ok_0,
        Err(_) => Seq::empty(),
    };
    let dir = spec_required(state, "installdir"@, path)->Ok_0;
    let parts = parse_path(dir);
    let absolute = dir.len() > 0 && dir[0] == '/';
    lemma_parse_from_plain(
        dir,
        0,
        0,
        0,
        absolute,
        if absolute {
            seq![Part::Root]
        } else {
            Seq::empty()
        },
    );
    assert(names_plain(parts));
    assert(parts[0] matches Part::Normal(n) && plain_name(n));
    assert(g.install_dir.take(library.len() + 2int) =~= library + seq![
        Part::Normal("steamapps"@),
        Part::Normal("common"@),
    ]);
}

} // verus!
