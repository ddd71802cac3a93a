//! Launch options from `localconfig.vdf`, as the environment they hand
//! Proton.

use vstd::prelude::*;

use crate::text::{
    chars_of, copy_text, debug_quoted, debug_text, parse_u32, parse_u32_text, same_text,
    string_of_range, texts,
};
use crate::vdf::{lookup, Object, Value, ValueV};

verus! {

/// One word of a launch line: plain text, or syntax a shell would evaluate.
pub enum WordV {
    Plain(Seq<char>),
    Shell,
}

/// The word being built: its text, whether anything started it, and whether
/// it expands something a shell would evaluate.
pub struct CurrentV {
    pub text: Seq<char>,
    pub started: bool,
    pub shell: bool,
}

/// Nothing yet.
pub open spec fn fresh() -> CurrentV {
    CurrentV { text: Seq::empty(), started: false, shell: false }
}

/// `words` with the current word ended: a shell word when it expands
/// something, the text when anything started it, nothing otherwise.
pub open spec fn flush(cur: CurrentV, words: Seq<WordV>) -> Seq<WordV> {
    if cur.shell {
        words.push(WordV::Shell)
    } else if cur.started {
        words.push(WordV::Plain(cur.text))
    } else {
        words
    }
}

/// `cur` with `c` added.
pub open spec fn extend_word(cur: CurrentV, c: char) -> CurrentV {
    CurrentV { text: cur.text.push(c), started: true, shell: cur.shell }
}

/// Where the splitter is: between quotes of no kind, inside single quotes,
/// or inside double quotes.
pub enum Quoting {
    Bare,
    Single,
    Double,
}

/// The words of `s` from index `i`, as a POSIX shell splits them, with what
/// it would evaluate marked rather than evaluated; `None` when a quote is
/// left open.
pub open spec fn split(s: Seq<char>, i: int, q: Quoting, cur: CurrentV, words: Seq<WordV>) -> Option<
    Seq<WordV>,
>
    decreases s.len() - i,
{
    if i < 0 || i >= s.len() {
        match q {
            Quoting::Bare => Some(flush(cur, words)),
            _ => None,
        }
    } else {
        let c = s[i];
        match q {
            Quoting::Single => if c == '\'' {
                split(s, i + 1, Quoting::Bare, cur, words)
            } else {
                split(s, i + 1, Quoting::Single, extend_word(cur, c), words)
            },
            Quoting::Double => if c == '"' {
                split(s, i + 1, Quoting::Bare, cur, words)
            } else if c == '$' || c == '`' {
                split(s, i + 1, Quoting::Double, CurrentV { shell: true, ..cur }, words)
            } else if c == '\\' {
                if i + 1 >= s.len() {
                    None
                } else {
                    let d = s[i + 1];
                    if d == '"' || d == '\\' || d == '$' || d == '`' {
                        split(s, i + 2, Quoting::Double, extend_word(cur, d), words)
                    } else {
                        split(s, i + 2, Quoting::Double, extend_word(extend_word(cur, '\\'), d), words)
                    }
                }
            } else {
                split(s, i + 1, Quoting::Double, extend_word(cur, c), words)
            },
            Quoting::Bare => if c == ' ' || c == '\t' || c == '\n' || c == '\r' {
                split(s, i + 1, Quoting::Bare, fresh(), flush(cur, words))
            } else if c == '\'' {
                split(s, i + 1, Quoting::Single, CurrentV { started: true, ..cur }, words)
            } else if c == '"' {
                split(s, i + 1, Quoting::Double, CurrentV { started: true, ..cur }, words)
            } else if c == '\\' {
                if i + 1 < s.len() {
                    split(s, i + 2, Quoting::Bare, extend_word(cur, s[i + 1]), words)
                } else {
                    split(s, i + 1, Quoting::Bare, CurrentV { started: true, ..cur }, words)
                }
            } else if c == '$' || c == '`' {
                split(s, i + 1, Quoting::Bare, CurrentV { started: true, shell: true, ..cur }, words)
            } else if c == ';' || c == '|' || c == '&' || c == '<' || c == '>' || c == '(' || c
                == ')' {
                split(s, i + 1, Quoting::Bare, fresh(), flush(cur, words).push(WordV::Shell))
            } else {
                split(s, i + 1, Quoting::Bare, extend_word(cur, c), words)
            },
        }
    }
}

/// The words of a launch line, or `None` when it leaves a quote open.
pub open spec fn spec_words(s: Seq<char>) -> Option<Seq<WordV>> {
    split(s, 0, Quoting::Bare, fresh(), Seq::empty())
}

/// An ASCII letter.
pub open spec fn ascii_alpha(c: char) -> bool {
    ('a' <= c && c <= 'z') || ('A' <= c && c <= 'Z')
}

/// An ASCII letter or digit.
pub open spec fn ascii_alnum(c: char) -> bool {
    ascii_alpha(c) || ('0' <= c && c <= '9')
}

/// A shell variable name: a letter or `_`, then letters, digits and `_`.
pub open spec fn variable_name(n: Seq<char>) -> bool {
    n.len() > 0 && (ascii_alpha(n[0]) || n[0] == '_') && forall|k: int|
        1 <= k < n.len() ==> ascii_alnum(#[trigger] n[k]) || n[k] == '_'
}

/// The index of the first `=` in `w`.
pub open spec fn first_equals(w: Seq<char>) -> Option<int>
    decreases w.len(),
{
    if w.len() == 0 {
        None
    } else if w[0] == '=' {
        Some(0)
    } else {
        match first_equals(w.drop_first()) {
            Some(k) => Some(k + 1),
            None => None,
        }
    }
}

/// `NAME=value`, where `NAME` is a shell variable name.
pub open spec fn spec_assignment(w: Seq<char>) -> Option<(Seq<char>, Seq<char>)> {
    match first_equals(w) {
        Some(k) => if variable_name(w.take(k)) {
            Some((w.take(k), w.skip(k + 1)))
        } else {
            None
        },
        None => None,
    }
}

/// The assignments at the front of `words` from `i`, stepping over `env`:
/// anything else is the first command word, and the rest are its arguments.
pub open spec fn leading_assignments(words: Seq<Seq<char>>, i: int) -> Seq<(Seq<char>, Seq<char>)>
    decreases words.len() - i,
{
    if i < 0 || i >= words.len() {
        Seq::empty()
    } else {
        match spec_assignment(words[i]) {
            Some(pair) => seq![pair] + leading_assignments(words, i + 1),
            None => if words[i] == "env"@ {
                leading_assignments(words, i + 1)
            } else {
                Seq::empty()
            },
        }
    }
}

/// The index of the first plain word `%command%`.
pub open spec fn command_at(words: Seq<WordV>) -> Option<int>
    decreases words.len(),
{
    if words.len() == 0 {
        None
    } else if words[0] == WordV::Plain("%command%"@) {
        Some(0)
    } else {
        match command_at(words.drop_first()) {
            Some(k) => Some(k + 1),
            None => None,
        }
    }
}

/// The text of each word before `n`, when none of them is shell syntax.
pub open spec fn plain_words(words: Seq<WordV>, n: int) -> Option<Seq<Seq<char>>>
    decreases n,
{
    if n <= 0 {
        Some(Seq::empty())
    } else {
        match plain_words(words, n - 1) {
            Some(before) => match words[n - 1] {
                WordV::Plain(t) => Some(before.push(t)),
                WordV::Shell => None,
            },
            None => None,
        }
    }
}

/// The variables a launch line sets before `%command%`, even behind `env`;
/// nothing without `%command%`, since then the line is the game's arguments.
/// An error when a quote is left open or the part before `%command%` needs a
/// shell.
pub open spec fn spec_environment(options: Seq<char>) -> Result<Seq<(Seq<char>, Seq<char>)>, Seq<char>> {
    match spec_words(options) {
        None => Err("the launch options "@ + debug_quoted(options) + " leave a quote open"@),
        Some(words) => match command_at(words) {
            None => Ok(Seq::empty()),
            Some(k) => match plain_words(words, k) {
                None => Err(
                    "the launch options "@ + debug_quoted(options)
                        + " need a shell to evaluate before %command%"@,
                ),
                Some(texts) => Ok(leading_assignments(texts, 0)),
            },
        },
    }
}

/// One word of a launch line.
enum Word {
    Plain(String),
    Shell,
}

impl Word {
    spec fn view(&self) -> WordV {
        match self {
            Word::Plain(t) => WordV::Plain(t@),
            Word::Shell => WordV::Shell,
        }
    }
}

/// The plain values of each word.
spec fn words_view(v: Seq<Word>) -> Seq<WordV> {
    v.map_values(|w: Word| w.view())
}

/// Ends the current word, as [`flush`] does, and starts a fresh one.
fn end_word(words: &mut Vec<Word>, text: &mut String, started: &mut bool, shell: &mut bool)
    ensures
        words_view(final(words)@) == flush(
            CurrentV { text: old(text)@, started: *old(started), shell: *old(shell) },
            words_view(old(words)@),
        ),
        final(text)@ == Seq::<char>::empty(),
        *final(started) == false,
        *final(shell) == false,
{
    let ghost before = words@;
    if *shell {
        words.push(Word::Shell);
        assert(words_view(words@) =~= words_view(before).push(WordV::Shell));
    } else if *started {
        let mut t = String::new();
        std::mem::swap(&mut t, text);
        words.push(Word::Plain(t));
        assert(words_view(words@) =~= words_view(before).push(WordV::Plain(t@)));
    }
    *text = String::new();
    *started = false;
    *shell = false;
}

/// The words of a launch line, or `None` when it leaves a quote open.
fn words(options: &str) -> (r: Option<Vec<Word>>)
    ensures
        match r {
            Some(w) => spec_words(options@) == Some(words_view(w@)),
            None => spec_words(options@) is None,
        },
{
    let chars = chars_of(options);
    let ghost s = options@;
    let mut words: Vec<Word> = Vec::new();
    let mut text = String::new();
    let mut started = false;
    let mut shell = false;
    let mut single = false;
    let mut double = false;
    let mut i: usize = 0;
    assert(words_view(words@) =~= Seq::<WordV>::empty());
    assert(CurrentV { text: text@, started, shell } == fresh()) by {
        assert(text@ =~= Seq::<char>::empty());
    }
    while i < chars.len()
        invariant
            i <= chars@.len(),
            chars@ == s,
            s == options@,
            !(single && double),
            spec_words(s) == split(
                s,
                i as int,
                if single {
                    Quoting::Single
                } else if double {
                    Quoting::Double
                } else {
                    Quoting::Bare
                },
                CurrentV { text: text@, started, shell },
                words_view(words@),
            ),
        decreases chars@.len() - i,
    {
        let c = chars[i];
        if single {
            if c == '\'' {
                single = false;
            } else {
                text.push(c);
                started = true;
            }
            i = i + 1;
        } else if double {
            if c == '"' {
                double = false;
                i = i + 1;
            } else if c == '$' || c == '`' {
                shell = true;
                i = i + 1;
            } else if c == '\\' {
                if i + 1 >= chars.len() {
                    return None;
                }
                let d = chars[i + 1];
                if d == '"' || d == '\\' || d == '$' || d == '`' {
                    text.push(d);
                } else {
                    text.push('\\');
                    text.push(d);
                }
                started = true;
                i = i + 2;
            } else {
                text.push(c);
                started = true;
                i = i + 1;
            }
        } else if c == ' ' || c == '\t' || c == '\n' || c == '\r' {
            end_word(&mut words, &mut text, &mut started, &mut shell);
            i = i + 1;
        } else if c == '\'' {
            started = true;
            single = true;
            i = i + 1;
        } else if c == '"' {
            started = true;
            double = true;
            i = i + 1;
        } else if c == '\\' {
            started = true;
            if i + 1 < chars.len() {
                text.push(chars[i + 1]);
                i = i + 2;
            } else {
                i = i + 1;
            }
        } else if c == '$' || c == '`' {
            started = true;
            shell = true;
            i = i + 1;
        } else if c == ';' || c == '|' || c == '&' || c == '<' || c == '>' || c == '(' || c
            == ')' {
            end_word(&mut words, &mut text, &mut started, &mut shell);
            let ghost before = words@;
            words.push(Word::Shell);
            assert(words_view(words@) =~= words_view(before).push(WordV::Shell));
            i = i + 1;
        } else {
            text.push(c);
            started = true;
            i = i + 1;
        }
    }
    if single || double {
        return None;
    }
    end_word(&mut words, &mut text, &mut started, &mut shell);
    Some(words)
}

/// `NAME=value`, where `NAME` is a shell variable name.
fn assignment(word: &str) -> (r: Option<(String, String)>)
    ensures
        match r {
            Some(p) => spec_assignment(word@) == Some((p.0@, p.1@)),
            None => spec_assignment(word@) is None,
        },
{
    let chars = chars_of(word);
    let mut k: usize = 0;
    assert(word@.skip(0) =~= word@);
    while k < chars.len() && chars[k] != '='
        invariant
            k <= chars@.len(),
            chars@ == word@,
            first_equals(word@) == match first_equals(word@.skip(k as int)) {
                Some(j) => Some(j + k),
                None => None,
            },
        decreases chars@.len() - k,
    {
        assert(word@.skip(k as int).drop_first() =~= word@.skip(k + 1));
        k = k + 1;
    }
    if k == chars.len() {
        assert(word@.skip(k as int) =~= Seq::<char>::empty());
        return None;
    }
    assert(word@.skip(k as int)[0] == '=');
    if k == 0 {
        return None;
    }
    let first = chars[0];
    assert(word@.take(k as int)[0] == chars@[0]);
    if !(('a' <= first && first <= 'z') || ('A' <= first && first <= 'Z') || first == '_') {
        return None;
    }
    assert(first_equals(word@) == Some(k as int));
    let mut j: usize = 1;
    while j < k
        invariant
            1 <= j <= k < chars@.len(),
            chars@ == word@,
            first_equals(word@) == Some(k as int),
            forall|m: int| 1 <= m < j ==> ascii_alnum(#[trigger] chars@[m]) || chars@[m] == '_',
        decreases k - j,
    {
        let c = chars[j];
        if !(('a' <= c && c <= 'z') || ('A' <= c && c <= 'Z') || ('0' <= c && c <= '9') || c
            == '_') {
            assert(!variable_name(word@.take(k as int))) by {
                assert(word@.take(k as int)[j as int] == c);
            }
            return None;
        }
        j = j + 1;
    }
    assert(variable_name(word@.take(k as int))) by {
        assert forall|m: int| 1 <= m < k implies ascii_alnum(#[trigger] word@.take(k as int)[m])
            || word@.take(k as int)[m] == '_' by {
            assert(word@.take(k as int)[m] == chars@[m]);
        }
    }
    let name = string_of_range(chars.as_slice(), 0, k);
    let value = string_of_range(chars.as_slice(), k + 1, chars.len());
    assert(chars@.subrange(0, k as int) =~= word@.take(k as int));
    assert(chars@.subrange(k + 1, chars@.len() as int) =~= word@.skip(k + 1));
    Some((name, value))
}

/// The text of each pair.
pub open spec fn env_pairs(v: Seq<(String, String)>) -> Seq<(Seq<char>, Seq<char>)> {
    v.map_values(|p: (String, String)| (p.0@, p.1@))
}

/// The variables `options` sets before `%command%`, even behind `env`.
/// Without `%command%` they are the game's arguments, so nothing is set. An
/// error when that part needs a shell (`$`, a backtick, a pipe or a
/// redirection) or a quote is not closed.
pub fn environment(options: &str) -> (r: Result<Vec<(String, String)>, String>)
    ensures
        match r {
            Ok(v) => spec_environment(options@) == Ok::<_, Seq<char>>(env_pairs(v@)),
            Err(e) => spec_environment(options@) == Err::<Seq<(Seq<char>, Seq<char>)>, _>(e@),
        },
{
    let words = match words(options) {
        Some(w) => w,
        None => {
            let mut e = copy_text("the launch options ");
            let q = debug_text(options);
            e.push_str(q.as_str());
            e.push_str(" leave a quote open");
            return Err(e);
        },
    };
    let ghost ws = words_view(words@);
    let mut command: usize = 0;
    assert(ws.skip(0) =~= ws);
    while command < words.len() && !is_command(&words[command])
        invariant
            command <= words@.len(),
            ws == words_view(words@),
            command_at(ws) == match command_at(ws.skip(command as int)) {
                Some(j) => Some(j + command),
                None => None,
            },
        decreases words@.len() - command,
    {
        assert(ws.skip(command as int)[0] == words@[command as int].view());
        assert(ws.skip(command as int).drop_first() =~= ws.skip(command + 1));
        command = command + 1;
    }
    if command < words.len() {
        assert(ws.skip(command as int)[0] == words@[command as int].view());
    }
    if command == words.len() {
        assert(ws.skip(command as int) =~= Seq::<WordV>::empty());
        let none: Vec<(String, String)> = Vec::new();
        assert(env_pairs(none@) =~= Seq::<(Seq<char>, Seq<char>)>::empty());
        return Ok(none);
    }
    assert(command_at(ws) == Some(command as int));
    let mut plain: Vec<String> = Vec::new();
    let mut k: usize = 0;
    while k < command
        invariant
            k <= command < words@.len(),
            ws == words_view(words@),
            spec_words(options@) == Some(ws),
            command_at(ws) == Some(command as int),
            plain_words(ws, k as int) == Some(texts(plain@)),
        decreases command - k,
    {
        match &words[k] {
            Word::Plain(t) => {
                let ghost before = plain@;
                plain.push(copy_text(t.as_str()));
                assert(texts(plain@) =~= texts(before).push(t@));
            },
            Word::Shell => {
                let mut e = copy_text("the launch options ");
                let q = debug_text(options);
                e.push_str(q.as_str());
                e.push_str(" need a shell to evaluate before %command%");
                proof {
                    lemma_shell_stops(ws, k as int, command as int);
                }
                return Err(e);
            },
        }
        k = k + 1;
    }
    let mut values: Vec<(String, String)> = Vec::new();
    let mut m: usize = 0;
    assert(spec_environment(options@) == Ok::<_, Seq<char>>(leading_assignments(texts(plain@), 0)));
    assert(env_pairs(values@) =~= Seq::<(Seq<char>, Seq<char>)>::empty());
    assert(env_pairs(values@) + leading_assignments(texts(plain@), 0) =~= leading_assignments(texts(plain@), 0));
    while m < plain.len()
        invariant
            m <= plain@.len(),
            spec_environment(options@) == Ok::<_, Seq<char>>(leading_assignments(texts(plain@), 0)),
            leading_assignments(texts(plain@), 0) == env_pairs(values@) + leading_assignments(
                texts(plain@),
                m as int,
            ),
        decreases plain@.len() - m,
    {
        assert(texts(plain@)[m as int] == plain@[m as int]@);
        match assignment(plain[m].as_str()) {
            Some(pair) => {
                let ghost before = values@;
                values.push(pair);
                assert(env_pairs(values@) =~= env_pairs(before).push((pair.0@, pair.1@)));
                assert(env_pairs(values@) + leading_assignments(texts(plain@), m + 1) =~= env_pairs(before) + leading_assignments(texts(plain@), m as int));
            },
            None => {
                if !same_text(plain[m].as_str(), "env") {
                    assert(env_pairs(values@) + Seq::<(Seq<char>, Seq<char>)>::empty() =~= env_pairs(values@));
                    return Ok(values);
                }
            },
        }
        m = m + 1;
    }
    assert(env_pairs(values@) + Seq::<(Seq<char>, Seq<char>)>::empty() =~= env_pairs(values@));
    Ok(values)
}

/// Whether `w` is the plain word `%command%`.
fn is_command(w: &Word) -> (b: bool)
    ensures
        b == (w.view() == WordV::Plain("%command%"@)),
{
    match w {
        Word::Plain(t) => same_text(t.as_str(), "%command%"),
        Word::Shell => false,
    }
}

/// A shell word before `n` leaves no plain list of the words before `n`.
proof fn lemma_shell_stops(words: Seq<WordV>, k: int, n: int)
    requires
        0 <= k < n <= words.len(),
        words[k] is Shell,
    ensures
        plain_words(words, n) is None,
    decreases n - k,
{
    if n > k + 1 {
        lemma_shell_stops(words, k, n - 1);
    }
}

/// The keys from the top of `localconfig.vdf` down to the per-app blocks.
pub open spec fn apps_path() -> Seq<Seq<char>> {
    seq!["UserLocalConfigStore"@, "Software"@, "Valve"@, "Steam"@, "apps"@]
}

/// The object reached by following `keys` down from `pairs`, each a nested
/// block.
pub open spec fn descend(pairs: Seq<(Seq<char>, ValueV)>, keys: Seq<Seq<char>>) -> Option<
    Seq<(Seq<char>, ValueV)>,
>
    decreases keys.len(),
{
    if keys.len() == 0 {
        Some(pairs)
    } else {
        match lookup(pairs, keys[0]) {
            Some(ValueV::Object(inner)) => descend(inner, keys.drop_first()),
            _ => None,
        }
    }
}

/// The launch options one app block gives, when its key is an appid and it
/// holds a `LaunchOptions` string.
pub open spec fn app_entry(key: Seq<char>, value: ValueV) -> Option<(u32, Seq<char>)> {
    match parse_u32(key) {
        Some(appid) => match value {
            ValueV::Object(block) => match lookup(block, "LaunchOptions"@) {
                Some(ValueV::String(options)) => Some((appid, options)),
                _ => None,
            },
            _ => None,
        },
        None => None,
    }
}

/// Every app block's launch options, in file order.
pub open spec fn app_entries(pairs: Seq<(Seq<char>, ValueV)>) -> Seq<(u32, Seq<char>)>
    decreases pairs.len(),
{
    if pairs.len() == 0 {
        Seq::empty()
    } else {
        let before = app_entries(pairs.drop_last());
        match app_entry(pairs.last().0, pairs.last().1) {
            Some(e) => before.push(e),
            None => before,
        }
    }
}

/// One account's launch options, read from its `localconfig.vdf`: nothing
/// when the document is not a block or holds no apps.
pub open spec fn account_of(document: ValueV) -> Seq<(u32, Seq<char>)> {
    match document {
        ValueV::Object(root) => match descend(root, apps_path()) {
            Some(apps) => app_entries(apps),
            None => Seq::empty(),
        },
        ValueV::String(_) => Seq::empty(),
    }
}

/// The options an account gives `appid`: the last entry for it, as a map
/// built from the entries in order keeps, or nothing.
pub open spec fn options_for(account: Seq<(u32, Seq<char>)>, appid: u32) -> Seq<char>
    decreases account.len(),
{
    if account.len() == 0 {
        Seq::empty()
    } else if account.last().0 == appid {
        account.last().1
    } else {
        options_for(account.drop_last(), appid)
    }
}

/// Every account's launch options on one Steam installation, and what could
/// not be read.
#[derive(Debug, Default)]
pub struct Launches {
    accounts: Vec<Vec<(u32, String)>>,
    problems: Vec<String>,
}

/// The launches as plain values.
pub struct LaunchesV {
    pub accounts: Seq<Seq<(u32, Seq<char>)>>,
    pub problems: Seq<Seq<char>>,
}

/// One account's entries as plain values.
pub open spec fn account_view(v: Seq<(u32, String)>) -> Seq<(u32, Seq<char>)> {
    v.map_values(|e: (u32, String)| (e.0, e.1@))
}

impl View for Launches {
    type V = LaunchesV;

    closed spec fn view(&self) -> LaunchesV {
        LaunchesV {
            accounts: self.accounts@.map_values(|a: Vec<(u32, String)>| account_view(a@)),
            problems: texts(self.problems@),
        }
    }
}

/// The variables the launch options set for `appid`: refused when a file
/// could not be read or the accounts disagree, and nothing when there are no
/// accounts.
pub open spec fn spec_launch_environment(l: LaunchesV, appid: u32) -> Result<
    Seq<(Seq<char>, Seq<char>)>,
    Seq<char>,
> {
    if l.problems.len() > 0 {
        Err("launch options could not be read: "@ + l.problems[0])
    } else if l.accounts.len() == 0 {
        Ok(Seq::empty())
    } else {
        let first = options_for(l.accounts[0], appid);
        if exists|i: int|
            1 <= i < l.accounts.len() && options_for(#[trigger] l.accounts[i], appid) != first {
            Err(
                "accounts on this Steam installation set different launch options for this game"@,
            )
        } else {
            spec_environment(first)
        }
    }
}

/// Accounts that agree are no conflict: when every file was read and every
/// account gives `appid` the same options text, the launch environment for
/// `appid` is what that text sets. The refusal about differing accounts
/// comes only when two accounts' options for `appid` do differ.
pub proof fn lemma_agreeing_accounts(l: LaunchesV, appid: u32, options: Seq<char>)
    ensures
        (l.problems.len() == 0 && l.accounts.len() > 0 && forall|i: int|
            0 <= i < l.accounts.len() ==> options_for(#[trigger] l.accounts[i], appid) == options)
            ==> spec_launch_environment(l, appid) == spec_environment(options),
        spec_launch_environment(l, appid) == Err::<Seq<(Seq<char>, Seq<char>)>, Seq<char>>(
            "accounts on this Steam installation set different launch options for this game"@,
        ) && l.problems.len() == 0 ==> exists|i: int, j: int|
            0 <= i < l.accounts.len() && 0 <= j < l.accounts.len() && options_for(#[trigger] l.accounts[i], appid)
                != options_for(#[trigger] l.accounts[j], appid),
{
    if l.problems.len() == 0 && l.accounts.len() > 0 {
        let first = options_for(l.accounts[0], appid);
        if forall|i: int|
            0 <= i < l.accounts.len() ==> options_for(#[trigger] l.accounts[i], appid) == options {
            assert(first == options);
            assert(!exists|i: int|
                1 <= i < l.accounts.len() && options_for(#[trigger] l.accounts[i], appid) != first);
        }
        if exists|i: int|
            1 <= i < l.accounts.len() && options_for(#[trigger] l.accounts[i], appid) != first {
            let i = choose|i: int|
                1 <= i < l.accounts.len() && options_for(#[trigger] l.accounts[i], appid) != first;
            assert(options_for(l.accounts[i], appid) != options_for(l.accounts[0], appid));
        } else {
            reveal_strlit("accounts on this Steam installation set different launch options for this game");
            reveal_strlit("the launch options ");
            match spec_environment(first) {
                Err(m) => {
                    let a = "the launch options "@;
                    assert(m[0] == a[0]);
                    assert(m[0] != "accounts on this Steam installation set different launch options for this game"@[0]);
                },
                Ok(_) => {},
            }
        }
    }
}

/// The apps block of a `localconfig.vdf`.
fn apps_block(root: &Object) -> (r: Option<&Object>)
    ensures
        match r {
            Some(o) => descend(root@, apps_path()) == Some(o@),
            None => descend(root@, apps_path()) is None,
        },
{
    let keys = ["UserLocalConfigStore", "Software", "Valve", "Steam", "apps"];
    let ghost path = apps_path();
    proof {
        reveal_strlit("UserLocalConfigStore");
        reveal_strlit("Software");
        reveal_strlit("Valve");
        reveal_strlit("Steam");
        reveal_strlit("apps");
    }
    let mut here = root;
    let mut i: usize = 0;
    assert(path.skip(0) =~= path);
    while i < 5
        invariant
            i <= 5,
            path == apps_path(),
            forall|k: int| 0 <= k < 5 ==> (#[trigger] keys@[k])@ == path[k],
            descend(root@, path) == descend(here@, path.skip(i as int)),
        decreases 5 - i,
    {
        assert(path.skip(i as int)[0] == path[i as int]);
        assert(path.skip(i as int).drop_first() =~= path.skip(i + 1));
        match here.get_object(keys[i]) {
            Some(next) => {
                here = next;
            },
            None => {
                return None;
            },
        }
        i = i + 1;
    }
    assert(path.skip(5) =~= Seq::<Seq<char>>::empty());
    Some(here)
}

impl Launches {
    /// No accounts read yet.
    pub fn new() -> (l: Launches)
        ensures
            l@.accounts.len() == 0,
            l@.problems.len() == 0,
    {
        Launches { accounts: Vec::new(), problems: Vec::new() }
    }

    /// Adds one account, read from its parsed `localconfig.vdf`.
    pub fn add_account(&mut self, document: &Value)
        ensures
            final(self)@.accounts == old(self)@.accounts.push(account_of(document@)),
            final(self)@.problems == old(self)@.problems,
    {
        let mut entries: Vec<(u32, String)> = Vec::new();
        if let Some(root) = document.as_object() {
            if let Some(apps) = apps_block(root) {
                let pairs = apps.iter();
                let mut i: usize = 0;
                while i < pairs.len()
                    invariant
                        i <= pairs@.len(),
                        pairs@.len() == apps@.len(),
                        forall|j: int|
                            0 <= j < pairs@.len() ==> (#[trigger] pairs@[j].0@, pairs@[j].1@)
                                == apps@[j],
                        account_view(entries@) == app_entries(apps@.take(i as int)),
                    decreases pairs@.len() - i,
                {
                    let (key, value) = pairs[i];
                    assert(apps@.take(i + 1).drop_last() =~= apps@.take(i as int));
                    assert(apps@.take(i + 1).last() == apps@[i as int]);
                    if let Some(appid) = parse_u32_text(key) {
                        if let Some(block) = value.as_object() {
                            if let Some(options) = block.get_str("LaunchOptions") {
                                let ghost before = entries@;
                                entries.push((appid, copy_text(options)));
                                assert(account_view(entries@) =~= account_view(before).push(
                                    (appid, options@),
                                ));
                            }
                        }
                    }
                    i = i + 1;
                }
                assert(apps@.take(i as int) =~= apps@);
            }
        }
        proof {
            if document@ is String || (document@ is Object && descend(document@->Object_0, apps_path()) is None) {
                assert(account_view(entries@) =~= Seq::<(u32, Seq<char>)>::empty());
            }
        }
        let ghost before = self.accounts@;
        self.accounts.push(entries);
        assert(self.accounts@.map_values(|a: Vec<(u32, String)>| account_view(a@)) =~= before.map_values(|a: Vec<(u32, String)>| account_view(a@)).push(account_of(document@)));
    }

    /// Adds one file that could not be read or parsed, worded.
    pub fn add_problem(&mut self, problem: String)
        ensures
            final(self)@.accounts == old(self)@.accounts,
            final(self)@.problems == old(self)@.problems.push(problem@),
    {
        let ghost before = self.problems@;
        self.problems.push(problem);
        assert(texts(self.problems@) =~= texts(before).push(problem@));
    }

    /// The variables the launch options set for `appid`. An error when a
    /// `localconfig.vdf` could not be read, the options need a shell, or
    /// accounts set different options for the game.
    pub fn environment(&self, appid: u32) -> (r: Result<Vec<(String, String)>, String>)
        ensures
            match r {
                Ok(v) => spec_launch_environment(self@, appid) == Ok::<_, Seq<char>>(env_pairs(v@)),
                Err(e) => spec_launch_environment(self@, appid) == Err::<
                    Seq<(Seq<char>, Seq<char>)>,
                    _,
                >(e@),
            },
    {
        if self.problems.len() > 0 {
            let mut e = copy_text("launch options could not be read: ");
            e.push_str(self.problems[0].as_str());
            return Err(e);
        }
        if self.accounts.len() == 0 {
            let none: Vec<(String, String)> = Vec::new();
            assert(env_pairs(none@) =~= Seq::<(Seq<char>, Seq<char>)>::empty());
            return Ok(none);
        }
        let first = options_in(&self.accounts[0], appid);
        assert(self@.accounts[0] == account_view(self.accounts@[0]@));
        let mut i: usize = 1;
        while i < self.accounts.len()
            invariant
                1 <= i <= self.accounts@.len(),
                self@.accounts.len() == self.accounts@.len(),
                self@.problems.len() == 0,
                first@ == options_for(self@.accounts[0], appid),
                forall|k: int|
                    1 <= k < i ==> options_for(#[trigger] self@.accounts[k], appid) == first@,
            decreases self.accounts@.len() - i,
        {
            let other = options_in(&self.accounts[i], appid);
            assert(self@.accounts[i as int] == account_view(self.accounts@[i as int]@));
            if !same_text(other, first) {
                assert(options_for(self@.accounts[i as int], appid) != first@);
                return Err(
                    copy_text(
                        "accounts on this Steam installation set different launch options for this game",
                    ),
                );
            }
            i = i + 1;
        }
        environment(first)
    }
}

/// The options one account gives `appid`, as [`options_for`] reads them.
fn options_in(account: &Vec<(u32, String)>, appid: u32) -> (s: &str)
    ensures
        s@ == options_for(account_view(account@), appid),
{
    let ghost a = account_view(account@);
    let mut i = account.len();
    assert(a.take(i as int) =~= a);
    while i > 0
        invariant
            i <= account@.len(),
            a == account_view(account@),
            options_for(a, appid) == options_for(a.take(i as int), appid),
        decreases i,
    {
        assert(a.take(i as int).last() == (account@[i - 1].0, account@[i - 1].1@));
        if account[i - 1].0 == appid {
            return account[i - 1].1.as_str();
        }
        assert(a.take(i as int).drop_last() =~= a.take(i - 1));
        i = i - 1;
    }
    proof {
        reveal_strlit("");
        assert(a.take(0) =~= Seq::<(u32, Seq<char>)>::empty());
    }
    ""
}

} // verus!
