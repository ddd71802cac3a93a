//! What Heroic hands Proton for one game: the prefix, the environment and
//! the `SteamAppId` Proton sees. Game settings in `GamesConfig` override the
//! defaults in `config.json`, key by key, as Heroic's own loader does. The
//! settings files are read by the caller and handed over as text.

use vstd::prelude::*;

use super::json::{as_bool, as_text, either, json_get, parse, spec_parse_json, Json, JsonV};
use super::{store_runner, Store};
use crate::file_path::{display, parse_path, Component, FilePath, Part};
use crate::text::{alphanumeric, chars_of, copy_text, same_text, starts_with, string_of_range};

verus! {

/// A settings file as it was read: absent, its text, or why it could not be
/// read.
pub open spec fn read_view(r: Option<Result<String, String>>) -> Option<Result<Seq<char>, Seq<char>>> {
    match r {
        None => None,
        Some(Ok(t)) => Some(Ok(t@)),
        Some(Err(m)) => Some(Err(m@)),
    }
}

/// A settings file's document: none when it is not there, and an error
/// naming the file when it cannot be read or parsed.
pub open spec fn settings_doc(path: Seq<Part>, r: Option<Result<Seq<char>, Seq<char>>>) -> Result<
    Option<JsonV>,
    Seq<char>,
> {
    match r {
        None => Ok(None),
        Some(Err(m)) => Err(display(path) + ": "@ + m),
        Some(Ok(t)) => match spec_parse_json(t) {
            Ok(v) => Ok(Some(v)),
            Err(m) => Err(display(path) + ": "@ + m),
        },
    }
}

/// The member `key` of a document that may be absent.
pub open spec fn member_of(doc: Option<JsonV>, key: Seq<char>) -> Option<JsonV> {
    match doc {
        Some(d) => json_get(d, key),
        None => None,
    }
}

/// A setting: the game's own, or else the default.
pub open spec fn setting(game: Option<JsonV>, defaults: Option<JsonV>, key: Seq<char>) -> Option<
    JsonV,
> {
    either(member_of(game, key), member_of(defaults, key))
}

/// Where the first character that is not `"` is, from `i` on.
pub open spec fn quote_lead(s: Seq<char>, i: int) -> int
    decreases s.len() - i,
{
    if i < 0 || i >= s.len() {
        s.len() as int
    } else if s[i] == '"' {
        quote_lead(s, i + 1)
    } else {
        i
    }
}

/// Where the text of `s.take(n)` ends once trailing `"` are cut.
pub open spec fn quote_trail(s: Seq<char>, n: int) -> int
    decreases n,
{
    if n <= 0 || n > s.len() {
        0
    } else if s[n - 1] == '"' {
        quote_trail(s, n - 1)
    } else {
        n
    }
}

/// `s` with every leading and trailing `"` cut, as `str::trim_matches`
/// cuts them.
pub open spec fn trim_quotes(s: Seq<char>) -> Seq<char> {
    let lo = quote_lead(s, 0);
    let hi = quote_trail(s, s.len() as int);
    if lo < hi {
        s.subrange(lo, hi)
    } else {
        Seq::empty()
    }
}

/// Heroic's `removeQuoteIfNecessary`: a value wrapped in double quotes
/// loses every leading and trailing one.
pub open spec fn unquoted(v: Seq<char>) -> Seq<char> {
    if v.len() >= 2 && v[0] == '"' && v.last() == '"' {
        trim_quotes(v)
    } else {
        v
    }
}

/// The environment options among `items`: each with a text `key` and a
/// text `value`, the value unquoted.
pub open spec fn option_pairs(items: Seq<JsonV>) -> Seq<(Seq<char>, Seq<char>)>
    decreases items.len(),
{
    if items.len() == 0 {
        Seq::empty()
    } else {
        let before = option_pairs(items.drop_last());
        match (as_text(json_get(items.last(), "key"@)), as_text(json_get(items.last(), "value"@))) {
            (Some(k), Some(v)) => before.push((k, unquoted(v))),
            _ => before,
        }
    }
}

/// The switches `autoInstallDxvkNvapi` sets: enabled, unless it is false.
/// Heroic applies them last, so they win over an option with the same name.
pub open spec fn nvapi_switches(setting: Option<JsonV>) -> Seq<(Seq<char>, Seq<char>)> {
    let on = match as_bool(setting) {
        Some(b) => b,
        None => true,
    };
    if on {
        seq![("PROTON_ENABLE_NVAPI"@, "1"@), ("DXVK_NVAPI_ALLOW_OTHER_DRIVERS"@, "1"@)]
    } else {
        seq![("PROTON_DISABLE_NVAPI"@, "1"@)]
    }
}

/// The environment of a launch: the options, then the NVAPI switches.
pub open spec fn spec_environment(game: Option<JsonV>, defaults: Option<JsonV>) -> Seq<
    (Seq<char>, Seq<char>),
> {
    let items = match setting(game, defaults, "enviromentOptions"@) {
        Some(JsonV::Array(items)) => items,
        _ => Seq::empty(),
    };
    option_pairs(items) + nvapi_switches(setting(game, defaults, "autoInstallDxvkNvapi"@))
}

/// Why a game has no known `SteamAppId` in Heroic's umu cache.
pub open spec fn not_looked_up() -> Seq<char> {
    "Heroic has not looked this game up in the umu database yet, and the umu id it finds becomes the SteamAppId Proton reads its lists by"@
}

/// Whether every character is alphanumeric or `_`.
pub open spec fn id_chars(s: Seq<char>) -> bool {
    forall|i: int| 0 <= i < s.len() ==> alphanumeric(#[trigger] s[i]) || s[i] == '_'
}

/// The id umu turns into `SteamAppId`: what follows `umu-` in the game's
/// umu id, and `0` for an id of any other shape or for a game the cache
/// holds no id for (`null`), as Heroic was measured to pass it; an error
/// when the game was never looked up.
pub open spec fn spec_umu_appid(doc: Result<Option<JsonV>, Seq<char>>, key: Seq<char>) -> Result<
    Seq<char>,
    Seq<char>,
> {
    match doc {
        Err(m) => Err(m),
        Ok(d) => match member_of(d, key) {
            Some(JsonV::Text(id)) => Ok(
                if starts_with(id, "umu-"@) && id.len() > 4 && id_chars(id.skip(4)) {
                    id.skip(4)
                } else {
                    "0"@
                },
            ),
            Some(JsonV::Other) => Ok("0"@),
            _ => Err(not_looked_up()),
        },
    }
}

/// The home directory a Heroic configuration at `root` sits in: `root`
/// without `.config/heroic`, or without Flatpak's longer path.
pub open spec fn home_of(root: Seq<Part>) -> Option<Seq<Part>> {
    match strip_names(root, seq![".config"@, "heroic"@]) {
        Some(h) => Some(h),
        None => strip_names(
            root,
            seq![".var"@, "app"@, "com.heroicgameslauncher.hgl"@, "config"@, "heroic"@],
        ),
    }
}

/// `p` without the trailing names `names`, when it ends in them.
pub open spec fn strip_names(p: Seq<Part>, names: Seq<Seq<char>>) -> Option<Seq<Part>> {
    if names.len() <= p.len() && p.skip(p.len() - names.len()) == names.map_values(
        |n: Seq<char>| Part::Normal(n),
    ) {
        Some(p.take(p.len() - names.len()))
    } else {
        None
    }
}

/// Where the first `~` in `s` is.
pub open spec fn first_tilde(s: Seq<char>, i: int) -> Option<int>
    decreases s.len() - i,
{
    if i < 0 || i >= s.len() {
        None
    } else if s[i] == '~' {
        Some(i)
    } else {
        first_tilde(s, i + 1)
    }
}

/// Why a game has no Proton launch to read.
#[derive(Debug, Clone, PartialEq, Eq)]
pub enum NoLaunch {
    /// The runner is not Proton, so no Proton policy applies.
    NotProton(String),
    /// A settings file could not be read, or names no runner or prefix.
    Unknown(String),
}

/// Why there is no launch, as plain values.
pub enum NoLaunchV {
    NotProton(Seq<char>),
    Unknown(Seq<char>),
}

impl View for NoLaunch {
    type V = NoLaunchV;

    open spec fn view(&self) -> NoLaunchV {
        match self {
            NoLaunch::NotProton(r) => NoLaunchV::NotProton(r@),
            NoLaunch::Unknown(w) => NoLaunchV::Unknown(w@),
        }
    }
}

/// The prefix `winePrefix` names: its first `~` replaced by the home the
/// configuration sits in; refused when there is no such home, or when the
/// result is not absolute.
pub open spec fn spec_prefix(root: Seq<Part>, prefix: Seq<char>) -> Result<Seq<Part>, NoLaunchV> {
    let expanded = match first_tilde(prefix, 0) {
        None => Some(prefix),
        Some(i) => match home_of(root) {
            None => None,
            Some(h) => Some(prefix.take(i) + display(h) + prefix.skip(i + 1)),
        },
    };
    match expanded {
        None => Err(
            NoLaunchV::Unknown("the prefix starts at a home this configuration does not name"@),
        ),
        Some(t) => if t.len() > 0 && t[0] == '/' {
            Ok(parse_path(t))
        } else {
            Err(NoLaunchV::Unknown("Heroic's settings name a relative prefix"@))
        },
    }
}

/// One game's Proton launch, as Heroic would make it.
#[derive(Debug, PartialEq, Eq)]
pub struct Launch {
    /// `winePrefix`, which Heroic passes as `STEAM_COMPAT_DATA_PATH`.
    pub prefix: FilePath,
    /// The game's environment options, then the NVAPI switch Heroic sets
    /// over them.
    pub environment: Vec<(String, String)>,
    /// The `SteamAppId` Proton sees, or why it is not known.
    pub appid: Result<String, String>,
}

/// A launch as plain values.
pub struct LaunchV {
    pub prefix: Seq<Part>,
    pub environment: Seq<(Seq<char>, Seq<char>)>,
    pub appid: Result<Seq<char>, Seq<char>>,
}

/// The plain values of each pair.
pub open spec fn pairs_view(v: Seq<(String, String)>) -> Seq<(Seq<char>, Seq<char>)> {
    v.map_values(|p: (String, String)| (p.0@, p.1@))
}

impl View for Launch {
    type V = LaunchV;

    open spec fn view(&self) -> LaunchV {
        LaunchV {
            prefix: self.prefix@,
            environment: pairs_view(self.environment@),
            appid: match self.appid {
                Ok(a) => Ok(a@),
                Err(w) => Err(w@),
            },
        }
    }
}

/// `root/GamesConfig/<app_name>.json`, where a game's own settings live.
pub open spec fn game_settings_path(root: Seq<Part>, app_name: Seq<char>) -> Seq<Part> {
    root + seq![Part::Normal("GamesConfig"@), Part::Normal(app_name + ".json"@)]
}

/// `root/config.json`, where the defaults live.
pub open spec fn defaults_path(root: Seq<Part>) -> Seq<Part> {
    root + seq![Part::Normal("config.json"@)]
}

/// `root/store_cache/umu.json`, Heroic's cache of umu ids.
pub open spec fn umu_path(root: Seq<Part>) -> Seq<Part> {
    root + seq![Part::Normal("store_cache"@), Part::Normal("umu.json"@)]
}

/// What Heroic hands Proton for `app_name`, from `store`, under the
/// configuration `root`, given its game settings, its defaults and its umu
/// cache as read.
pub open spec fn spec_launch(
    root: Seq<Part>,
    store: Store,
    app_name: Seq<char>,
    game_file: Option<Result<Seq<char>, Seq<char>>>,
    defaults_file: Option<Result<Seq<char>, Seq<char>>>,
    umu_file: Option<Result<Seq<char>, Seq<char>>>,
) -> Result<LaunchV, NoLaunchV> {
    match settings_doc(game_settings_path(root, app_name), game_file) {
        Err(m) => Err(NoLaunchV::Unknown(m)),
        Ok(game_doc) => match settings_doc(defaults_path(root), defaults_file) {
            Err(m) => Err(NoLaunchV::Unknown(m)),
            Ok(global_doc) => {
                let game = member_of(game_doc, app_name);
                let defaults = member_of(global_doc, "defaultSettings"@);
                match setting(game, defaults, "wineVersion"@) {
                    None => Err(NoLaunchV::Unknown("Heroic's settings name no runner for this game"@)),
                    Some(runner) => match as_text(json_get(runner, "type"@)) {
                        None => Err(NoLaunchV::Unknown("the runner in Heroic's settings has no type"@)),
                        Some(kind) => if kind != "proton"@ {
                            Err(NoLaunchV::NotProton(kind))
                        } else {
                            match as_text(setting(game, defaults, "winePrefix"@)) {
                                Some(p) if p.len() > 0 => match spec_prefix(root, p) {
                                    Err(e) => Err(e),
                                    Ok(prefix) => Ok(
                                        LaunchV {
                                            prefix,
                                            environment: spec_environment(game, defaults),
                                            appid: if as_bool(setting(game, defaults, "disableUMU"@))
                                                == Some(true) {
                                                Ok("0"@)
                                            } else {
                                                spec_umu_appid(
                                                    settings_doc(umu_path(root), umu_file),
                                                    store_runner(store) + "_"@ + app_name,
                                                )
                                            },
                                        },
                                    ),
                                },
                                _ => Err(NoLaunchV::Unknown("Heroic's settings name no prefix for this game"@)),
                            }
                        },
                    },
                }
            },
        },
    }
}

/// The document a settings file holds, or an error naming the file.
fn settings_file(path: &FilePath, read: Option<Result<String, String>>) -> (r: Result<Option<Json>, String>)
    requires
        match read {
            Some(Ok(t)) => t@.len() < usize::MAX,
            _ => true,
        },
    ensures
        match r {
            Ok(Some(j)) => settings_doc(path@, read_view(read)) == Ok::<_, Seq<char>>(Some(j@)),
            Ok(None) => settings_doc(path@, read_view(read)) == Ok::<Option<JsonV>, Seq<char>>(None),
            Err(m) => settings_doc(path@, read_view(read)) == Err::<Option<JsonV>, _>(m@),
        },
{
    match read {
        None => Ok(None),
        Some(Err(m)) => {
            let mut s = path.display();
            s.push_str(": ");
            s.push_str(m.as_str());
            Err(s)
        },
        Some(Ok(text)) => match parse(text.as_str()) {
            Ok(v) => Ok(Some(v)),
            Err(m) => {
                let mut s = path.display();
                s.push_str(": ");
                s.push_str(m.as_str());
                Err(s)
            },
        },
    }
}

/// The member `key` of a document that may be absent.
fn member<'a>(doc: Option<&'a Json>, key: &str) -> (r: Option<&'a Json>)
    ensures
        match r {
            Some(v) => member_of(
                match doc {
                    Some(d) => Some(d@),
                    None => None,
                },
                key@,
            ) == Some(v@),
            None => member_of(
                match doc {
                    Some(d) => Some(d@),
                    None => None,
                },
                key@,
            ) is None,
        },
{
    match doc {
        Some(d) => d.get(key),
        None => None,
    }
}

/// An optional owned document as plain values.
pub open spec fn opt_doc(doc: Option<Json>) -> Option<JsonV> {
    match doc {
        Some(d) => Some(d@),
        None => None,
    }
}

/// An optional document as plain values.
pub open spec fn doc_view(doc: Option<&Json>) -> Option<JsonV> {
    match doc {
        Some(d) => Some(d@),
        None => None,
    }
}

/// A setting: the game's own, or else the default.
fn lookup<'a>(game: Option<&'a Json>, defaults: Option<&'a Json>, key: &str) -> (r: Option<&'a Json>)
    ensures
        match r {
            Some(v) => setting(doc_view(game), doc_view(defaults), key@) == Some(v@),
            None => setting(doc_view(game), doc_view(defaults), key@) is None,
        },
{
    match member(game, key) {
        Some(v) => Some(v),
        None => member(defaults, key),
    }
}

/// `v` with its quotes removed when it is wrapped in them.
fn unquote(v: &str) -> (u: String)
    ensures
        u@ == unquoted(v@),
{
    let chars = chars_of(v);
    let n = chars.len();
    if !(n >= 2 && chars[0] == '"' && chars[n - 1] == '"') {
        return copy_text(v);
    }
    let mut lo: usize = 0;
    while lo < n && chars[lo] == '"'
        invariant
            lo <= n == chars@.len(),
            chars@ == v@,
            quote_lead(v@, 0) == quote_lead(v@, lo as int),
        decreases n - lo,
    {
        lo = lo + 1;
    }
    let mut hi: usize = n;
    while hi > 0 && chars[hi - 1] == '"'
        invariant
            hi <= n == chars@.len(),
            chars@ == v@,
            quote_trail(v@, n as int) == quote_trail(v@, hi as int),
        decreases hi,
    {
        hi = hi - 1;
    }
    if lo < hi {
        string_of_range(chars.as_slice(), lo, hi)
    } else {
        String::new()
    }
}

/// The environment options among `items`.
fn options(items: &Vec<Json>) -> (v: Vec<(String, String)>)
    ensures
        pairs_view(v@) == option_pairs(items@.map_values(|j: Json| j@)),
{
    let ghost all = items@.map_values(|j: Json| j@);
    let mut out: Vec<(String, String)> = Vec::new();
    let mut i: usize = 0;
    assert(all.take(0) =~= Seq::<JsonV>::empty());
    assert(pairs_view(out@) =~= Seq::<(Seq<char>, Seq<char>)>::empty());
    while i < items.len()
        invariant
            i <= items@.len(),
            all == items@.map_values(|j: Json| j@),
            pairs_view(out@) == option_pairs(all.take(i as int)),
        decreases items@.len() - i,
    {
        let item = &items[i];
        assert(all.take(i + 1).drop_last() =~= all.take(i as int));
        assert(all.take(i + 1).last() == item@);
        let key = match item.get("key") {
            Some(k) => k.text(),
            None => None,
        };
        let value = match item.get("value") {
            Some(k) => k.text(),
            None => None,
        };
        match (key, value) {
            (Some(k), Some(v)) => {
                let ghost before = pairs_view(out@);
                let pair = (copy_text(k), unquote(v));
                out.push(pair);
                assert(pairs_view(out@) =~= before.push((k@, unquoted(v@))));
            },
            _ => {},
        }
        i = i + 1;
    }
    assert(all.take(i as int) =~= all);
    out
}

/// The environment of a launch: the options, then the NVAPI switches.
fn environment(game: Option<&Json>, defaults: Option<&Json>) -> (v: Vec<(String, String)>)
    ensures
        pairs_view(v@) == spec_environment(doc_view(game), doc_view(defaults)),
{
    let mut out = match lookup(game, defaults, "enviromentOptions") {
        Some(j) => match j.elements() {
            Some(items) => {
                proof {
                    super::json::lemma_elements_index(items@);
                }
                let v = options(items);
                assert(items@.map_values(|j: Json| j@) =~= super::json::elements_view(items@));
                v
            },
            None => Vec::new(),
        },
        None => Vec::new(),
    };
    let ghost head = pairs_view(out@);
    assert(head == option_pairs(
        match setting(doc_view(game), doc_view(defaults), "enviromentOptions"@) {
            Some(JsonV::Array(items)) => items,
            _ => Seq::empty(),
        },
    )) by {
        if !(setting(doc_view(game), doc_view(defaults), "enviromentOptions"@) matches Some(
            JsonV::Array(_),
        )) {
            assert(head =~= Seq::<(Seq<char>, Seq<char>)>::empty());
        }
    }
    let on = match lookup(game, defaults, "autoInstallDxvkNvapi") {
        Some(j) => match j.boolean() {
            Some(b) => b,
            None => true,
        },
        None => true,
    };
    if on {
        out.push((copy_text("PROTON_ENABLE_NVAPI"), copy_text("1")));
        out.push((copy_text("DXVK_NVAPI_ALLOW_OTHER_DRIVERS"), copy_text("1")));
    } else {
        out.push((copy_text("PROTON_DISABLE_NVAPI"), copy_text("1")));
    }
    assert(pairs_view(out@) =~= head + nvapi_switches(
        setting(doc_view(game), doc_view(defaults), "autoInstallDxvkNvapi"@),
    ));
    out
}

/// Whether every character of `s` from `from` on is alphanumeric or `_`.
fn all_id_chars(s: &Vec<char>, from: usize) -> (b: bool)
    requires
        from <= s@.len(),
    ensures
        b == id_chars(s@.skip(from as int)),
{
    let mut i = from;
    while i < s.len()
        invariant
            from <= i <= s@.len(),
            forall|k: int| from <= k < i ==> alphanumeric(#[trigger] s@[k]) || s@[k] == '_',
        decreases s@.len() - i,
    {
        if !(crate::text::is_alphanumeric(s[i]) || s[i] == '_') {
            assert(s@.skip(from as int)[i - from] == s@[i as int]);
            return false;
        }
        i = i + 1;
    }
    assert forall|k: int| 0 <= k < s@.skip(from as int).len() implies alphanumeric(
        #[trigger] s@.skip(from as int)[k],
    ) || s@.skip(from as int)[k] == '_' by {
        assert(s@.skip(from as int)[k] == s@[from + k]);
    }
    true
}

/// The id umu turns into `SteamAppId`, from the umu cache's document.
fn umu_appid(doc: Result<Option<Json>, String>, key: &str) -> (r: Result<String, String>)
    ensures
        match r {
            Ok(a) => spec_umu_appid(
                match doc {
                    Ok(d) => Ok(opt_doc(d)),
                    Err(m) => Err(m@),
                },
                key@,
            ) == Ok::<_, Seq<char>>(a@),
            Err(m) => spec_umu_appid(
                match doc {
                    Ok(d) => Ok(opt_doc(d)),
                    Err(m) => Err(m@),
                },
                key@,
            ) == Err::<Seq<char>, _>(m@),
        },
{
    let d = match doc {
        Err(m) => {
            return Err(m);
        },
        Ok(d) => d,
    };
    match member(d.as_ref(), key) {
        Some(j) => {
            match j.text() {
                Some(id) => {
                    let chars = chars_of(id);
                    let prefix = chars_of("umu-");
                    proof {
                        reveal_strlit("umu-");
                    }
                    if crate::text::has_prefix(chars.as_slice(), prefix.as_slice()) && chars.len() > 4
                        && all_id_chars(&chars, 4) {
                        return Ok(string_of_range(chars.as_slice(), 4, chars.len()));
                    }
                    return Ok(copy_text("0"));
                },
                None => {},
            }
            if j.is_other() {
                return Ok(copy_text("0"));
            }
            Err(
                copy_text(
                    "Heroic has not looked this game up in the umu database yet, and the umu id it finds becomes the SteamAppId Proton reads its lists by",
                ),
            )
        },
        None => Err(
            copy_text(
                "Heroic has not looked this game up in the umu database yet, and the umu id it finds becomes the SteamAppId Proton reads its lists by",
            ),
        ),
    }
}

/// `p` without the trailing names `names`, when it ends in them.
fn strip(p: &FilePath, names: &[&str]) -> (r: Option<FilePath>)
    ensures
        match r {
            Some(h) => strip_names(p@, names@.map_values(|n: &str| n@)) == Some(h@),
            None => strip_names(p@, names@.map_values(|n: &str| n@)) is None,
        },
{
    let ghost ns = names@.map_values(|n: &str| n@);
    let ghost want = ns.map_values(|n: Seq<char>| Part::Normal(n));
    let k = names.len();
    let len = p.components.len();
    if k > len {
        return None;
    }
    let base = len - k;
    let mut i: usize = 0;
    while i < k
        invariant
            i <= k == names@.len(),
            len == p@.len() == p.components@.len(),
            base == len - k,
            ns == names@.map_values(|n: &str| n@),
            want == ns.map_values(|n: Seq<char>| Part::Normal(n)),
            forall|j: int| 0 <= j < i ==> p@[base + j] == want[j],
        decreases k - i,
    {
        assert(p@[base + i] == p.components@[base + i]@);
        let matches = match &p.components[base + i] {
            Component::Normal(n) => same_text(n.as_str(), names[i]),
            _ => false,
        };
        if !matches {
            assert(p@.skip(base as int)[i as int] == p@[base + i]);
            assert(p@.skip(base as int)[i as int] != want[i as int]);
            return None;
        }
        i = i + 1;
    }
    assert(p@.skip(base as int) =~= want);
    let mut components: Vec<Component> = Vec::new();
    let mut j: usize = 0;
    while j < base
        invariant
            j <= base <= len == p@.len() == p.components@.len(),
            components@.map_values(|c: Component| c@) == p@.take(j as int),
        decreases base - j,
    {
        let c = p.components[j].copy();
        let ghost before = components@.map_values(|c: Component| c@);
        components.push(c);
        assert(p@[j as int] == p.components@[j as int]@);
        assert(components@.map_values(|c: Component| c@) =~= before.push(c@));
        assert(p@.take(j + 1) =~= p@.take(j as int).push(p@[j as int]));
        j = j + 1;
    }
    let h = FilePath { components };
    assert(h@ =~= p@.take(base as int));
    Some(h)
}

/// The home directory a Heroic configuration at `root` sits in.
fn home(root: &FilePath) -> (h: Option<FilePath>)
    ensures
        match h {
            Some(x) => home_of(root@) == Some(x@),
            None => home_of(root@) is None,
        },
{
    let native = strip(root, &[".config", "heroic"]);
    assert(seq![".config", "heroic"].map_values(|n: &str| n@) =~= seq![".config"@, "heroic"@]);
    match native {
        Some(h) => Some(h),
        None => {
            let flatpak = strip(
                root,
                &[".var", "app", "com.heroicgameslauncher.hgl", "config", "heroic"],
            );
            assert(seq![".var", "app", "com.heroicgameslauncher.hgl", "config", "heroic"].map_values(
                |n: &str| n@,
            ) =~= seq![".var"@, "app"@, "com.heroicgameslauncher.hgl"@, "config"@, "heroic"@]);
            flatpak
        },
    }
}

/// The prefix `winePrefix` names, with its first `~` expanded.
fn expand_home(root: &FilePath, prefix: &str) -> (r: Result<FilePath, NoLaunch>)
    ensures
        match r {
            Ok(p) => spec_prefix(root@, prefix@) == Ok::<_, NoLaunchV>(p@),
            Err(e) => spec_prefix(root@, prefix@) == Err::<Seq<Part>, _>(e@),
        },
{
    let chars = chars_of(prefix);
    let mut i: usize = 0;
    while i < chars.len() && chars[i] != '~'
        invariant
            i <= chars@.len(),
            chars@ == prefix@,
            first_tilde(prefix@, 0) == first_tilde(prefix@, i as int),
        decreases chars@.len() - i,
    {
        i = i + 1;
    }
    let text = if i < chars.len() {
        match home(root) {
            None => {
                return Err(
                    NoLaunch::Unknown(
                        copy_text("the prefix starts at a home this configuration does not name"),
                    ),
                );
            },
            Some(h) => {
                let mut t = string_of_range(chars.as_slice(), 0, i);
                let shown = h.display();
                t.push_str(shown.as_str());
                let rest = string_of_range(chars.as_slice(), i + 1, chars.len());
                t.push_str(rest.as_str());
                assert(t@ =~= prefix@.take(i as int) + display(h@) + prefix@.skip(i + 1));
                t
            },
        }
    } else {
        copy_text(prefix)
    };
    let t = chars_of(text.as_str());
    if t.len() > 0 && t[0] == '/' {
        Ok(FilePath::parse(text.as_str()))
    } else {
        Err(NoLaunch::Unknown(copy_text("Heroic's settings name a relative prefix")))
    }
}

/// `root` with the names `names` after it.
fn under(root: &FilePath, names: &[&str]) -> (p: FilePath)
    ensures
        p@ == root@ + names@.map_values(|n: &str| Part::Normal(n@)),
{
    let mut p = root.copy();
    let mut i: usize = 0;
    while i < names.len()
        invariant
            i <= names@.len(),
            p@ == root@ + names@.take(i as int).map_values(|n: &str| Part::Normal(n@)),
        decreases names@.len() - i,
    {
        let ghost before = p@;
        p.components.push(Component::Normal(copy_text(names[i])));
        assert(p@ =~= before.push(Part::Normal(names@[i as int]@)));
        assert(names@.take(i + 1).map_values(|n: &str| Part::Normal(n@)) =~= names@.take(
            i as int,
        ).map_values(|n: &str| Part::Normal(n@)).push(Part::Normal(names@[i as int]@)));
        i = i + 1;
    }
    assert(names@.take(i as int) =~= names@);
    p
}

/// Where a game's own settings live.
pub fn game_settings_file(root: &FilePath, app_name: &str) -> (p: FilePath)
    ensures
        p@ == game_settings_path(root@, app_name@),
{
    let mut file = copy_text(app_name);
    file.push_str(".json");
    let p = under(root, &["GamesConfig", file.as_str()]);
    assert(p@ =~= game_settings_path(root@, app_name@));
    p
}

/// Where the defaults live.
pub fn defaults_file(root: &FilePath) -> (p: FilePath)
    ensures
        p@ == defaults_path(root@),
{
    let p = under(root, &["config.json"]);
    assert(p@ =~= defaults_path(root@));
    p
}

/// Where Heroic caches umu ids.
pub fn umu_file(root: &FilePath) -> (p: FilePath)
    ensures
        p@ == umu_path(root@),
{
    let p = under(root, &["store_cache", "umu.json"]);
    assert(p@ =~= umu_path(root@));
    p
}

/// What Heroic hands Proton for `app_name`, from `store`, under the
/// configuration `root`. The three files are as read from
/// [`game_settings_file`], [`defaults_file`] and [`umu_file`]: absent, their
/// text, or why they could not be read.
///
/// [`NoLaunch::NotProton`] for another runner; [`NoLaunch::Unknown`] when a
/// settings file cannot be read or parsed, or names no runner or prefix.
pub fn launch(
    root: &FilePath,
    store: Store,
    app_name: &str,
    game_file: Option<Result<String, String>>,
    defaults: Option<Result<String, String>>,
    umu: Option<Result<String, String>>,
) -> (r: Result<Launch, NoLaunch>)
    requires
        match game_file {
            Some(Ok(t)) => t@.len() < usize::MAX,
            _ => true,
        },
        match defaults {
            Some(Ok(t)) => t@.len() < usize::MAX,
            _ => true,
        },
        match umu {
            Some(Ok(t)) => t@.len() < usize::MAX,
            _ => true,
        },
    ensures
        match r {
            Ok(l) => spec_launch(
                root@,
                store,
                app_name@,
                read_view(game_file),
                read_view(defaults),
                read_view(umu),
            ) == Ok::<_, NoLaunchV>(l@),
            Err(e) => spec_launch(
                root@,
                store,
                app_name@,
                read_view(game_file),
                read_view(defaults),
                read_view(umu),
            ) == Err::<LaunchV, _>(e@),
        },
{
    let game_doc = match settings_file(&game_settings_file(root, app_name), game_file) {
        Ok(d) => d,
        Err(m) => {
            return Err(NoLaunch::Unknown(m));
        },
    };
    let global_doc = match settings_file(&defaults_file(root), defaults) {
        Ok(d) => d,
        Err(m) => {
            return Err(NoLaunch::Unknown(m));
        },
    };
    let game = member(game_doc.as_ref(), app_name);
    let fallback = member(global_doc.as_ref(), "defaultSettings");
    let runner = match lookup(game, fallback, "wineVersion") {
        Some(r) => r,
        None => {
            return Err(NoLaunch::Unknown(copy_text("Heroic's settings name no runner for this game")));
        },
    };
    let kind = match runner.get("type") {
        Some(t) => t.text(),
        None => None,
    };
    match kind {
        None => {
            return Err(NoLaunch::Unknown(copy_text("the runner in Heroic's settings has no type")));
        },
        Some(k) => {
            if !same_text(k, "proton") {
                return Err(NoLaunch::NotProton(copy_text(k)));
            }
        },
    }
    let prefix_text = match lookup(game, fallback, "winePrefix") {
        Some(p) => p.text(),
        None => None,
    };
    let prefix = match prefix_text {
        Some(p) => {
            if chars_of(p).len() == 0 {
                return Err(NoLaunch::Unknown(copy_text("Heroic's settings name no prefix for this game")));
            }
            match expand_home(root, p) {
                Ok(x) => x,
                Err(e) => {
                    return Err(e);
                },
            }
        },
        None => {
            return Err(NoLaunch::Unknown(copy_text("Heroic's settings name no prefix for this game")));
        },
    };
    let environment = environment(game, fallback);
    let no_umu = match lookup(game, fallback, "disableUMU") {
        Some(j) => j.boolean(),
        None => None,
    };
    let appid = if no_umu == Some(true) {
        Ok(copy_text("0"))
    } else {
        let mut key = copy_text(store.runner());
        key.push_str("_");
        key.push_str(app_name);
        umu_appid(settings_file(&umu_file(root), umu), key.as_str())
    };
    Ok(Launch { prefix, environment, appid })
}

/// Heroic offers NVAPI unless `autoInstallDxvkNvapi`, from the game's
/// settings or else the defaults, is the boolean `false`: set to `true`, set
/// to anything else or not set, the environment ends with
/// `PROTON_ENABLE_NVAPI=1` and `DXVK_NVAPI_ALLOW_OTHER_DRIVERS=1`; only
/// `false` ends it with `PROTON_DISABLE_NVAPI=1`.
pub proof fn lemma_heroic_nvapi(game: Option<JsonV>, defaults: Option<JsonV>)
    ensures
        ({
            let env = spec_environment(game, defaults);
            let s = setting(game, defaults, "autoInstallDxvkNvapi"@);
            &&& as_bool(s) != Some(false) ==> env.len() >= 2 && env[env.len() - 2] == (
                "PROTON_ENABLE_NVAPI"@,
                "1"@,
            ) && env[env.len() - 1] == ("DXVK_NVAPI_ALLOW_OTHER_DRIVERS"@, "1"@)
            &&& as_bool(s) == Some(false) ==> env.len() >= 1 && env[env.len() - 1] == (
                "PROTON_DISABLE_NVAPI"@,
                "1"@,
            )
        }),
{
    let items = match setting(game, defaults, "enviromentOptions"@) {
        Some(JsonV::Array(items)) => items,
        _ => Seq::empty(),
    };
    let head = option_pairs(items);
    let sw = nvapi_switches(setting(game, defaults, "autoInstallDxvkNvapi"@));
    let env = spec_environment(game, defaults);
    assert(env == head + sw);
    assert(env.len() == head.len() + sw.len());
    if sw.len() == 2 {
        assert(env[env.len() - 2] == sw[0]);
        assert(env[env.len() - 1] == sw[1]);
    } else {
        assert(env[env.len() - 1] == sw[0]);
    }
}

/// The runner each Heroic backend's records are prefixed with in the shared
/// caches: Epic's is `legendary`, GOG's `gog`, Amazon's `nile`.
pub proof fn lemma_runner_names()
    ensures
        store_runner(Store::Epic) == "legendary"@,
        store_runner(Store::Gog) == "gog"@,
        store_runner(Store::Amazon) == "nile"@,
{
}

/// The `SteamAppId` of a Heroic launch is `0` (when the game turns umu
/// off) or what the umu cache holds under the runner's name, `_` and the
/// game's name: `legendary_`, `gog_` or `nile_` before it, by backend.
pub proof fn lemma_umu_key(
    root: Seq<Part>,
    store: Store,
    app_name: Seq<char>,
    game_file: Option<Result<Seq<char>, Seq<char>>>,
    defaults_file: Option<Result<Seq<char>, Seq<char>>>,
    umu_file: Option<Result<Seq<char>, Seq<char>>>,
)
    ensures
        spec_launch(root, store, app_name, game_file, defaults_file, umu_file) matches Ok(l) ==> (l.appid
            == Ok::<Seq<char>, Seq<char>>("0"@) || l.appid == spec_umu_appid(
            settings_doc(umu_path(root), umu_file),
            match store {
                Store::Epic => "legendary_"@,
                Store::Gog => "gog_"@,
                Store::Amazon => "nile_"@,
            } + app_name,
        )),
{
    reveal_strlit("legendary");
    reveal_strlit("gog");
    reveal_strlit("nile");
    reveal_strlit("_");
    reveal_strlit("legendary_");
    reveal_strlit("gog_");
    reveal_strlit("nile_");
    let prefix = match store {
        Store::Epic => "legendary_"@,
        Store::Gog => "gog_"@,
        Store::Amazon => "nile_"@,
    };
    assert(store_runner(store) + "_"@ + app_name =~= prefix + app_name);
}

} // verus!
