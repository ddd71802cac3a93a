//! Valve's `KeyValues` text format, read from text already in memory.
//!
//! Objects keep the order their pairs were written in, lookups ignore ASCII
//! case as Valve's own reader does, and a broken document is an error, never
//! a short answer.

use vstd::prelude::*;

use crate::text::{
    chars_of, copy_text, decimal, eq_ignore_ascii_case, eq_ignore_case, lemma_utf8_len_at_least_chars,
    lemma_utf8_len_prefix, push_decimal, string_of_range, utf8_len,
};

verus! {

/// How deep nesting may go: this many blocks parse and one more is an error.
/// The bound keeps a document of open braces from exhausting the stack.
pub const MAX_DEPTH: usize = 64;

/// A parsed value: either a leaf string or a nested object.
#[derive(Debug)]
pub enum Value {
    /// A quoted or bare token.
    String(String),
    /// A brace-delimited block.
    Object(Object),
}

/// An ordered key-to-value map. Duplicate keys are kept; [`Object::get`]
/// answers with the first, as Valve's reader does.
#[derive(Debug)]
pub struct Object {
    entries: Vec<(String, Value)>,
}

/// A value as plain values.
pub enum ValueV {
    String(Seq<char>),
    Object(Seq<(Seq<char>, ValueV)>),
}

/// The plain values of a value.
pub closed spec fn value_view(v: Value) -> ValueV
    decreases v,
{
    match v {
        Value::String(s) => ValueV::String(s@),
        Value::Object(o) => ValueV::Object(entries_view(o.entries@)),
    }
}

/// The plain values of a list of pairs.
pub closed spec fn entries_view(es: Seq<(String, Value)>) -> Seq<(Seq<char>, ValueV)>
    decreases es,
{
    if es.len() == 0 {
        Seq::empty()
    } else {
        entries_view(es.drop_last()).push((es.last().0@, value_view(es.last().1)))
    }
}

impl View for Value {
    type V = ValueV;

    open spec fn view(&self) -> ValueV {
        value_view(*self)
    }
}

impl View for Object {
    type V = Seq<(Seq<char>, ValueV)>;

    closed spec fn view(&self) -> Seq<(Seq<char>, ValueV)> {
        entries_view(self.entries@)
    }
}

/// The shapes a malformed document comes in.
#[derive(Debug, Clone, Copy, PartialEq, Eq, Structural)]
pub enum ErrorKind {
    /// Input ended inside a block: what a truncated file looks like.
    UnclosedObject {
        /// Line of the `{` that was never matched.
        opened_line: usize,
    },
    /// A key was read and then the input ended, or a `}` arrived, before its
    /// value.
    MissingValue,
    /// A quoted string ran to the end of the input without closing.
    UnclosedString,
    /// A raw newline inside a quoted string: almost always a missing closing
    /// quote.
    NewlineInString,
    /// A `}` with no block open.
    UnmatchedCloseBrace,
    /// A `{` where a key was expected: a block with no name.
    ExpectedKey,
    /// Nesting past [`MAX_DEPTH`].
    TooDeep,
    /// A `[$WIN32]`-style platform conditional, refused rather than misread
    /// as the next key.
    PlatformConditional,
    /// A `#base` or `#include` directive, refused since the keys it would
    /// pull in would silently be missing.
    Directive,
}

/// What went wrong, and exactly where.
#[derive(Debug, Clone, PartialEq, Eq, Structural)]
pub struct Error {
    pub kind: ErrorKind,
    /// 1-based line of the offending character.
    pub line: usize,
    /// 1-based column, counted in characters rather than bytes so it lines up
    /// with what an editor shows.
    pub column: usize,
    /// Byte offset into the text that was parsed, including any byte-order
    /// mark.
    pub offset: usize,
}

/// A position in the text: character index, line, and the index where that
/// line starts.
pub type Cursor = (int, int, int);

/// Spaces, tabs, carriage returns, vertical tabs and form feeds.
pub open spec fn is_blank(c: char) -> bool {
    c == ' ' || c == '\t' || c == '\r' || c == '\x0b' || c == '\x0c'
}

/// A `//` comment starts at `p`.
pub open spec fn comment_at(s: Seq<char>, p: int) -> bool {
    0 <= p && p + 1 < s.len() && s[p] == '/' && s[p + 1] == '/'
}

/// The index of the first newline at or after `p`, or the end of the text.
pub open spec fn line_end(s: Seq<char>, p: int) -> int
    decreases s.len() - p,
{
    if p < 0 || p >= s.len() || s[p] == '\n' {
        p
    } else {
        line_end(s, p + 1)
    }
}

/// A comment runs to the end of its line.
pub proof fn lemma_line_end(s: Seq<char>, p: int)
    requires
        0 <= p <= s.len(),
    ensures
        p <= line_end(s, p) <= s.len(),
        line_end(s, p) == s.len() || s[line_end(s, p)] == '\n',
    decreases s.len() - p,
{
    if p < s.len() && s[p] != '\n' {
        lemma_line_end(s, p + 1);
    }
}

/// The cursor moved past whitespace, newlines and `//` comments, counting
/// lines as it goes.
pub open spec fn skip(s: Seq<char>, c: Cursor) -> Cursor
    decreases s.len() - c.0,
{
    let p = c.0;
    if p < 0 || p >= s.len() {
        c
    } else if s[p] == '\n' {
        skip(s, (p + 1, c.1 + 1, p + 1))
    } else if is_blank(s[p]) {
        skip(s, (p + 1, c.1, c.2))
    } else if comment_at(s, p) {
        let e = line_end(s, p);
        if e > p && e <= s.len() {
            skip(s, (e, c.1, c.2))
        } else {
            c
        }
    } else {
        c
    }
}

/// Skipping only moves forward, stays in the text, and stops at the end or
/// at a character that is none of what it skips.
pub proof fn lemma_skip(s: Seq<char>, c: Cursor)
    requires
        0 <= c.0 <= s.len(),
    ensures
        c.0 <= skip(s, c).0 <= s.len(),
        skip(s, c).0 < s.len() ==> {
            let ch = s[skip(s, c).0];
            ch != '\n' && !is_blank(ch) && !comment_at(s, skip(s, c).0)
        },
    decreases s.len() - c.0,
{
    let p = c.0;
    if p < s.len() {
        if s[p] == '\n' {
            lemma_skip(s, (p + 1, c.1 + 1, p + 1));
        } else if is_blank(s[p]) {
            lemma_skip(s, (p + 1, c.1, c.2));
        } else if comment_at(s, p) {
            lemma_line_end(s, p + 1);
            assert(line_end(s, p) == line_end(s, p + 1));
            lemma_skip(s, (line_end(s, p), c.1, c.2));
        }
    }
}

/// What ends an unquoted token.
pub open spec fn ends_bare(s: Seq<char>, p: int) -> bool {
    let ch = s[p];
    is_blank(ch) || ch == '\n' || ch == '{' || ch == '}' || ch == '"' || comment_at(s, p)
}

/// Where an unquoted token starting at `p` ends.
pub open spec fn bare_end(s: Seq<char>, p: int) -> int
    decreases s.len() - p,
{
    if p < 0 || p >= s.len() || ends_bare(s, p) {
        p
    } else {
        bare_end(s, p + 1)
    }
}

/// An unquoted token stays in the text.
pub proof fn lemma_bare_end(s: Seq<char>, p: int)
    requires
        0 <= p <= s.len(),
    ensures
        p <= bare_end(s, p) <= s.len(),
    decreases s.len() - p,
{
    if p < s.len() && !ends_bare(s, p) {
        lemma_bare_end(s, p + 1);
    }
}

/// The error of `kind` at `mark`, with its column counted in characters and
/// its offset in bytes.
pub open spec fn err(s: Seq<char>, kind: ErrorKind, mark: Cursor) -> Error {
    Error {
        kind,
        line: mark.1 as usize,
        column: (mark.0 - mark.2 + 1) as usize,
        offset: utf8_len(s.take(mark.0)) as usize,
    }
}

/// The character an escape names: `\\`, `\"`, `\n`, `\t` and `\r`.
pub open spec fn escape(c: char) -> Option<char> {
    if c == '\\' {
        Some('\\')
    } else if c == '"' {
        Some('"')
    } else if c == 'n' {
        Some('\n')
    } else if c == 't' {
        Some('\t')
    } else if c == 'r' {
        Some('\r')
    } else {
        None
    }
}

/// The rest of a quoted token from `p`, with `acc` read so far: the text and
/// the index just past the closing quote. An escape nobody defined keeps its
/// backslash and leaves the next character to be read as itself.
pub open spec fn quoted(s: Seq<char>, open: Cursor, p: int, acc: Seq<char>) -> Result<
    (Seq<char>, int),
    Error,
>
    decreases s.len() - p,
{
    if p < 0 || p >= s.len() {
        Err(err(s, ErrorKind::UnclosedString, open))
    } else if s[p] == '"' {
        Ok((acc, p + 1))
    } else if s[p] == '\n' {
        Err(err(s, ErrorKind::NewlineInString, open))
    } else if s[p] == '\\' {
        if p + 1 >= s.len() {
            Err(err(s, ErrorKind::UnclosedString, open))
        } else {
            match escape(s[p + 1]) {
                Some(c) => quoted(s, open, p + 2, acc.push(c)),
                None => quoted(s, open, p + 1, acc.push('\\')),
            }
        }
    } else {
        quoted(s, open, p + 1, acc.push(s[p]))
    }
}

/// A quoted token ends past where it was read from, inside the text.
pub proof fn lemma_quoted(s: Seq<char>, open: Cursor, p: int, acc: Seq<char>)
    requires
        0 <= p <= s.len(),
    ensures
        quoted(s, open, p, acc) matches Ok((_, e)) ==> p < e <= s.len(),
    decreases s.len() - p,
{
    if p < s.len() && s[p] != '"' && s[p] != '\n' {
        if s[p] == '\\' {
            if p + 1 < s.len() {
                match escape(s[p + 1]) {
                    Some(c) => lemma_quoted(s, open, p + 2, acc.push(c)),
                    None => lemma_quoted(s, open, p + 1, acc.push('\\')),
                }
            }
        } else {
            lemma_quoted(s, open, p + 1, acc.push(s[p]));
        }
    }
}

/// One token at `at`, quoted or bare: its text and where it ends.
pub open spec fn token(s: Seq<char>, at: Cursor) -> Result<(Seq<char>, int), Error> {
    if 0 <= at.0 < s.len() && s[at.0] == '"' {
        quoted(s, at, at.0 + 1, Seq::empty())
    } else {
        let e = bare_end(s, at.0);
        Ok((s.subrange(at.0, e), e))
    }
}

/// A token read where one can start ends past it, inside the text.
pub proof fn lemma_token(s: Seq<char>, at: Cursor)
    requires
        0 <= at.0 < s.len(),
        !ends_bare(s, at.0) || s[at.0] == '"',
    ensures
        token(s, at) matches Ok((_, e)) ==> at.0 < e <= s.len(),
{
    if s[at.0] == '"' {
        lemma_quoted(s, at, at.0 + 1, Seq::empty());
    } else {
        lemma_bare_end(s, at.0 + 1);
    }
}

/// The pairs of one block from cursor `c`, after the pairs `acc` already
/// read: the whole document at `depth` 0, up to the matching `}` deeper.
/// `opened` is the line of the brace a truncation is reported against. The
/// result is the pairs and the cursor after the block.
pub open spec fn body(
    s: Seq<char>,
    c: Cursor,
    depth: int,
    opened: int,
    acc: Seq<(Seq<char>, ValueV)>,
) -> Result<(Seq<(Seq<char>, ValueV)>, Cursor), Error>
    decreases s.len() - c.0,
{
    if c.0 < 0 || c.0 > s.len() {
        Ok((acc, c))
    } else {
        proof {
            lemma_skip(s, c);
        }
        let c1 = skip(s, c);
        if c1.0 >= s.len() {
            if depth == 0 {
                Ok((acc, c1))
            } else {
                Err(err(s, ErrorKind::UnclosedObject { opened_line: opened as usize }, c1))
            }
        } else if s[c1.0] == '}' {
            if depth == 0 {
                Err(err(s, ErrorKind::UnmatchedCloseBrace, c1))
            } else {
                Ok((acc, (c1.0 + 1, c1.1, c1.2)))
            }
        } else if s[c1.0] == '{' {
            Err(err(s, ErrorKind::ExpectedKey, c1))
        } else if s[c1.0] == '[' {
            Err(err(s, ErrorKind::PlatformConditional, c1))
        } else if s[c1.0] == '#' {
            Err(err(s, ErrorKind::Directive, c1))
        } else {
            proof {
                lemma_token(s, c1);
            }
            match token(s, c1) {
                Err(e) => Err(e),
                Ok((key, key_end)) => {
                    proof {
                        lemma_skip(s, (key_end, c1.1, c1.2));
                    }
                    let c2 = skip(s, (key_end, c1.1, c1.2));
                    if c2.0 >= s.len() || s[c2.0] == '}' {
                        Err(err(s, ErrorKind::MissingValue, c1))
                    } else if s[c2.0] == '[' {
                        Err(err(s, ErrorKind::PlatformConditional, c2))
                    } else if s[c2.0] == '{' {
                        if depth + 1 > MAX_DEPTH {
                            Err(err(s, ErrorKind::TooDeep, c2))
                        } else {
                            match body(s, (c2.0 + 1, c2.1, c2.2), depth + 1, c2.1, Seq::empty()) {
                                Err(e) => Err(e),
                                Ok((inner, c3)) => if c.0 < c3.0 <= s.len() {
                                    body(s, c3, depth, opened, acc.push((key, ValueV::Object(inner))))
                                } else {
                                    Ok((acc, c3))
                                },
                            }
                        }
                    } else {
                        proof {
                            lemma_token(s, c2);
                        }
                        match token(s, c2) {
                            Err(e) => Err(e),
                            Ok((value, value_end)) => body(
                                s,
                                (value_end, c2.1, c2.2),
                                depth,
                                opened,
                                acc.push((key, ValueV::String(value))),
                            ),
                        }
                    }
                },
            }
        }
    }
}

/// Where reading starts: past a byte-order mark, if the text begins with one.
pub open spec fn start(s: Seq<char>) -> int {
    if s.len() > 0 && s[0] == '\u{feff}' {
        1
    } else {
        0
    }
}

/// What [`parse`] makes of the text: the root object, or the first problem.
pub open spec fn spec_parse(s: Seq<char>) -> Result<ValueV, Error> {
    match body(s, (start(s), 1, start(s)), 0, 1, Seq::empty()) {
        Ok((pairs, _)) => Ok(ValueV::Object(pairs)),
        Err(e) => Err(e),
    }
}

/// A position saved so a fault noticed later is reported against the token
/// that caused it.
#[derive(Clone, Copy)]
struct Mark {
    pos: usize,
    line: usize,
    line_start: usize,
}

impl Mark {
    /// The position as a cursor.
    spec fn at(self) -> Cursor {
        (self.pos as int, self.line as int, self.line_start as int)
    }
}

/// A position in `s` the parser can stand at: inside the text, on a line
/// that starts at or before it, with no more lines than characters before it.
spec fn valid_mark(s: Seq<char>, m: Cursor) -> bool {
    0 <= m.2 <= m.0 <= s.len() && 1 <= m.1 <= m.0 + 1
}

/// A cursor over the characters of the text.
struct Parser {
    chars: Vec<char>,
    pos: usize,
    line: usize,
    line_start: usize,
}

impl Parser {
    spec fn at(&self) -> Cursor {
        (self.pos as int, self.line as int, self.line_start as int)
    }

    spec fn wf(&self) -> bool {
        &&& valid_mark(self.chars@, self.at())
        &&& utf8_len(self.chars@) < usize::MAX
        &&& self.chars@.len() <= utf8_len(self.chars@)
    }

    fn mark(&self) -> (m: Mark)
        ensures
            m.at() == self.at(),
    {
        Mark { pos: self.pos, line: self.line, line_start: self.line_start }
    }

    /// The error of `kind` at `mark`.
    fn error_at(&self, kind: ErrorKind, mark: Mark) -> (e: Error)
        requires
            self.wf(),
            valid_mark(self.chars@, mark.at()),
        ensures
            e == err(self.chars@, kind, mark.at()),
    {
        proof {
            lemma_utf8_len_prefix(self.chars@, mark.pos as int);
            lemma_utf8_len_at_least_chars(self.chars@);
        }
        let mut offset: usize = 0;
        let mut i: usize = 0;
        while i < mark.pos
            invariant
                i <= mark.pos <= self.chars@.len(),
                offset == utf8_len(self.chars@.take(i as int)),
                utf8_len(self.chars@.take(mark.pos as int)) <= utf8_len(self.chars@) < usize::MAX,
            decreases mark.pos - i,
        {
            assert(self.chars@.take(i + 1).drop_last() =~= self.chars@.take(i as int));
            assert(self.chars@.take(i + 1).last() == self.chars@[i as int]);
            proof {
                lemma_utf8_len_prefix(self.chars@.take(mark.pos as int), i + 1);
                assert(self.chars@.take(mark.pos as int).take(i + 1) =~= self.chars@.take(i + 1));
            }
            let code = self.chars[i] as u32;
            let width: usize = if code < 0x80 {
                1
            } else if code < 0x800 {
                2
            } else if code < 0x10000 {
                3
            } else {
                4
            };
            offset = offset + width;
            i = i + 1;
        }
        Error { kind, line: mark.line, column: mark.pos - mark.line_start + 1, offset }
    }

    /// The error of `kind` where the cursor stands.
    fn error(&self, kind: ErrorKind) -> (e: Error)
        requires
            self.wf(),
        ensures
            e == err(self.chars@, kind, self.at()),
    {
        let here = self.mark();
        self.error_at(kind, here)
    }

    /// Whether a `//` comment starts where the cursor stands.
    fn at_comment(&self) -> (b: bool)
        requires
            self.wf(),
        ensures
            b == comment_at(self.chars@, self.pos as int),
    {
        self.pos + 1 < self.chars.len() && self.chars[self.pos] == '/' && self.chars[self.pos
            + 1] == '/'
    }

    /// Skips whitespace, newlines and `//` comments until the next real
    /// character.
    fn skip_trivia(&mut self)
        requires
            old(self).wf(),
        ensures
            final(self).wf(),
            final(self).chars@ == old(self).chars@,
            final(self).at() == skip(old(self).chars@, old(self).at()),
    {
        let ghost s = self.chars@;
        let ghost c0 = self.at();
        while self.pos < self.chars.len()
            invariant
                self.wf(),
                self.chars@ == s,
                s == old(self).chars@,
                c0 == old(self).at(),
                skip(s, c0) == skip(s, self.at()),
            decreases s.len() - self.pos,
        {
            let ch = self.chars[self.pos];
            if ch == '\n' {
                self.pos = self.pos + 1;
                self.line = self.line + 1;
                self.line_start = self.pos;
            } else if ch == ' ' || ch == '\t' || ch == '\r' || ch == '\x0b' || ch == '\x0c' {
                self.pos = self.pos + 1;
            } else if self.at_comment() {
                let ghost p0 = self.pos as int;
                while self.pos < self.chars.len() && self.chars[self.pos] != '\n'
                    invariant
                        self.wf(),
                        self.chars@ == s,
                        s == old(self).chars@,
                        c0 == old(self).at(),
                        p0 <= self.pos,
                        p0 < s.len() && s[p0] == '/' && comment_at(s, p0),
                        line_end(s, p0) == line_end(s, self.pos as int),
                        skip(s, c0) == skip(s, (p0, self.line as int, self.line_start as int)),
                    decreases s.len() - self.pos,
                {
                    self.pos = self.pos + 1;
                }
            } else {
                return;
            }
        }
    }

    /// Reads an unquoted token, up to whitespace, a brace, a quote or a
    /// comment. Backslashes are literal here.
    fn read_bare(&mut self) -> (t: String)
        requires
            old(self).wf(),
        ensures
            final(self).wf(),
            final(self).chars@ == old(self).chars@,
            final(self).line == old(self).line,
            final(self).line_start == old(self).line_start,
            final(self).pos == bare_end(old(self).chars@, old(self).pos as int),
            old(self).pos <= final(self).pos,
            t@ == old(self).chars@.subrange(old(self).pos as int, final(self).pos as int),
    {
        let ghost s = self.chars@;
        let begin = self.pos;
        while self.pos < self.chars.len()
            invariant
                self.wf(),
                self.chars@ == s,
                s == old(self).chars@,
                begin == old(self).pos,
                begin <= self.pos,
                self.line == old(self).line,
                self.line_start == old(self).line_start,
                bare_end(s, begin as int) == bare_end(s, self.pos as int),
            decreases s.len() - self.pos,
        {
            let ch = self.chars[self.pos];
            if ch == ' ' || ch == '\t' || ch == '\r' || ch == '\n' || ch == '\x0b' || ch == '\x0c'
                || ch == '{' || ch == '}' || ch == '"' || self.at_comment() {
                return string_of_range(self.chars.as_slice(), begin, self.pos);
            }
            self.pos = self.pos + 1;
        }
        string_of_range(self.chars.as_slice(), begin, self.pos)
    }

    /// Reads a `"`-delimited token, resolving escapes.
    fn read_quoted(&mut self) -> (r: Result<String, Error>)
        requires
            old(self).wf(),
            old(self).pos < old(self).chars@.len(),
        ensures
            final(self).wf(),
            final(self).chars@ == old(self).chars@,
            final(self).line == old(self).line,
            final(self).line_start == old(self).line_start,
            old(self).pos <= final(self).pos,
            match r {
                Ok(t) => quoted(old(self).chars@, old(self).at(), old(self).pos + 1, Seq::empty())
                    == Ok::<(Seq<char>, int), Error>((t@, final(self).pos as int)),
                Err(e) => quoted(old(self).chars@, old(self).at(), old(self).pos + 1, Seq::empty())
                    == Err::<(Seq<char>, int), Error>(e),
            },
    {
        let ghost s = self.chars@;
        let opened = self.mark();
        self.pos = self.pos + 1;
        let mut out = String::new();
        while self.pos < self.chars.len()
            invariant
                self.wf(),
                self.chars@ == s,
                s == old(self).chars@,
                valid_mark(s, opened.at()),
                opened.at() == old(self).at(),
                opened.pos < self.pos,
                self.line == old(self).line,
                self.line_start == old(self).line_start,
                quoted(s, opened.at(), opened.pos + 1, Seq::empty()) == quoted(
                    s,
                    opened.at(),
                    self.pos as int,
                    out@,
                ),
            decreases s.len() - self.pos,
        {
            let ch = self.chars[self.pos];
            if ch == '"' {
                self.pos = self.pos + 1;
                return Ok(out);
            } else if ch == '\n' {
                return Err(self.error_at(ErrorKind::NewlineInString, opened));
            } else if ch == '\\' {
                if self.pos + 1 >= self.chars.len() {
                    return Err(self.error_at(ErrorKind::UnclosedString, opened));
                }
                let next = self.chars[self.pos + 1];
                let resolved = if next == '\\' {
                    Some('\\')
                } else if next == '"' {
                    Some('"')
                } else if next == 'n' {
                    Some('\n')
                } else if next == 't' {
                    Some('\t')
                } else if next == 'r' {
                    Some('\r')
                } else {
                    None
                };
                match resolved {
                    Some(c) => {
                        out.push(c);
                        self.pos = self.pos + 2;
                    },
                    None => {
                        out.push('\\');
                        self.pos = self.pos + 1;
                    },
                }
            } else {
                out.push(ch);
                self.pos = self.pos + 1;
            }
        }
        Err(self.error_at(ErrorKind::UnclosedString, opened))
    }

    /// Reads one token, quoted or bare.
    fn read_token(&mut self) -> (r: Result<String, Error>)
        requires
            old(self).wf(),
        ensures
            final(self).wf(),
            final(self).chars@ == old(self).chars@,
            final(self).line == old(self).line,
            final(self).line_start == old(self).line_start,
            old(self).pos <= final(self).pos,
            match r {
                Ok(t) => token(old(self).chars@, old(self).at()) == Ok::<(Seq<char>, int), Error>((t@, final(self).pos as int)),
                Err(e) => token(old(self).chars@, old(self).at()) == Err::<(Seq<char>, int), Error>(e),
            },
    {
        if self.pos < self.chars.len() && self.chars[self.pos] == '"' {
            self.read_quoted()
        } else {
            Ok(self.read_bare())
        }
    }
}

/// Adding a pair adds its plain values.
proof fn lemma_entries_push(es: Seq<(String, Value)>, x: (String, Value))
    ensures
        entries_view(es.push(x)) == entries_view(es).push((x.0@, value_view(x.1))),
{
    assert(es.push(x).drop_last() =~= es);
}

/// Each pair's plain values, in place.
proof fn lemma_entries_view(es: Seq<(String, Value)>)
    ensures
        entries_view(es).len() == es.len(),
        forall|i: int|
            0 <= i < es.len() ==> #[trigger] entries_view(es)[i] == (es[i].0@, value_view(es[i].1)),
    decreases es.len(),
{
    if es.len() > 0 {
        lemma_entries_view(es.drop_last());
    }
}

impl Parser {
    /// Reads the pairs of one block: the whole document at `depth` 0, up to
    /// the matching `}` deeper. `opened_line` points a truncation at its
    /// brace.
    fn parse_body(&mut self, depth: usize, opened_line: usize) -> (r: Result<Object, Error>)
        requires
            old(self).wf(),
            depth <= MAX_DEPTH,
        ensures
            final(self).wf(),
            final(self).chars@ == old(self).chars@,
            old(self).pos <= final(self).pos,
            match r {
                Ok(o) => body(old(self).chars@, old(self).at(), depth as int, opened_line as int, Seq::empty())
                    == Ok::<(Seq<(Seq<char>, ValueV)>, Cursor), Error>((o@, final(self).at())),
                Err(e) => body(old(self).chars@, old(self).at(), depth as int, opened_line as int, Seq::empty())
                    == Err::<(Seq<(Seq<char>, ValueV)>, Cursor), Error>(e),
            },
        decreases MAX_DEPTH - depth,
    {
        let ghost s = self.chars@;
        let ghost c0 = self.at();
        let mut object = Object { entries: Vec::new() };
        assert(object@ =~= Seq::<(Seq<char>, ValueV)>::empty());
        loop
            invariant
                self.wf(),
                self.chars@ == s,
                s == old(self).chars@,
                c0 == old(self).at(),
                c0.0 <= self.pos,
                depth <= MAX_DEPTH,
                body(s, c0, depth as int, opened_line as int, Seq::empty()) == body(
                    s,
                    self.at(),
                    depth as int,
                    opened_line as int,
                    object@,
                ),
            decreases s.len() - self.pos,
        {
            let ghost c = self.at();
            proof {
                lemma_skip(s, c);
            }
            self.skip_trivia();
            if self.pos >= self.chars.len() {
                if depth == 0 {
                    return Ok(object);
                }
                return Err(self.error(ErrorKind::UnclosedObject { opened_line }));
            }
            let byte = self.chars[self.pos];
            if byte == '}' {
                if depth == 0 {
                    return Err(self.error(ErrorKind::UnmatchedCloseBrace));
                }
                self.pos = self.pos + 1;
                return Ok(object);
            }
            if byte == '{' {
                return Err(self.error(ErrorKind::ExpectedKey));
            }
            if byte == '[' {
                return Err(self.error(ErrorKind::PlatformConditional));
            }
            if byte == '#' {
                return Err(self.error(ErrorKind::Directive));
            }
            let key_at = self.mark();
            proof {
                lemma_token(s, key_at.at());
            }
            let key = match self.read_token() {
                Ok(key) => key,
                Err(e) => return Err(e),
            };
            proof {
                lemma_skip(s, self.at());
            }
            self.skip_trivia();
            if self.pos >= self.chars.len() || self.chars[self.pos] == '}' {
                return Err(self.error_at(ErrorKind::MissingValue, key_at));
            }
            let next = self.chars[self.pos];
            if next == '[' {
                return Err(self.error(ErrorKind::PlatformConditional));
            }
            let ghost entries_before = object.entries@;
            if next == '{' {
                let line = self.line;
                if depth + 1 > MAX_DEPTH {
                    return Err(self.error(ErrorKind::TooDeep));
                }
                self.pos = self.pos + 1;
                let inner = match self.parse_body(depth + 1, line) {
                    Ok(inner) => inner,
                    Err(e) => return Err(e),
                };
                proof {
                    lemma_entries_push(object.entries@, (key, Value::Object(inner)));
                }
                object.entries.push((key, Value::Object(inner)));
            } else {
                let ghost value_at = self.at();
                proof {
                    lemma_token(s, value_at);
                }
                let value = match self.read_token() {
                    Ok(value) => value,
                    Err(e) => return Err(e),
                };
                proof {
                    lemma_entries_push(object.entries@, (key, Value::String(value)));
                }
                object.entries.push((key, Value::String(value)));
            }
        }
    }
}

/// Parses a `KeyValues` document into its root object. A leading byte-order
/// mark is skipped; `//` comments and both quoted and bare tokens are
/// accepted. The first structural problem is returned, with its line and
/// column; nothing partial is.
pub fn parse(input: &str) -> (r: Result<Value, Error>)
    requires
        utf8_len(input@) < usize::MAX,
    ensures
        match r {
            Ok(v) => spec_parse(input@) == Ok::<ValueV, Error>(v@),
            Err(e) => spec_parse(input@) == Err::<ValueV, Error>(e),
        },
{
    let chars = chars_of(input);
    proof {
        lemma_utf8_len_at_least_chars(input@);
    }
    let first: usize = if chars.len() > 0 && chars[0] == '\u{feff}' {
        1
    } else {
        0
    };
    let mut parser = Parser { chars, pos: first, line: 1, line_start: first };
    match parser.parse_body(0, 1) {
        Ok(root) => Ok(Value::Object(root)),
        Err(e) => Err(e),
    }
}

/// The first value in `pairs` stored under `key`, compared without ASCII
/// case.
pub open spec fn lookup(pairs: Seq<(Seq<char>, ValueV)>, key: Seq<char>) -> Option<ValueV>
    decreases pairs.len(),
{
    if pairs.len() == 0 {
        None
    } else if eq_ignore_case(pairs[0].0, key) {
        Some(pairs[0].1)
    } else {
        lookup(pairs.drop_first(), key)
    }
}

impl Value {
    /// The string, if this is a leaf.
    pub fn as_str(&self) -> (r: Option<&str>)
        ensures
            match r {
                Some(t) => self@ == ValueV::String(t@),
                None => self@ is Object,
            },
    {
        match self {
            Value::String(s) => Some(s.as_str()),
            Value::Object(_) => None,
        }
    }

    /// The object, if this is a block.
    pub fn as_object(&self) -> (r: Option<&Object>)
        ensures
            match r {
                Some(o) => self@ == ValueV::Object(o@),
                None => self@ is String,
            },
    {
        match self {
            Value::Object(o) => Some(o),
            Value::String(_) => None,
        }
    }
}

impl Object {
    /// The first value stored under `key`, compared without ASCII case.
    pub fn get(&self, key: &str) -> (r: Option<&Value>)
        ensures
            match r {
                Some(v) => lookup(self@, key@) == Some(v@),
                None => lookup(self@, key@) is None,
            },
    {
        let ghost pairs = self@;
        proof {
            lemma_entries_view(self.entries@);
        }
        let mut i: usize = 0;
        assert(pairs.skip(0) =~= pairs);
        while i < self.entries.len()
            invariant
                i <= self.entries@.len(),
                pairs == self@,
                pairs.len() == self.entries@.len(),
                forall|j: int|
                    0 <= j < self.entries@.len() ==> #[trigger] pairs[j] == (
                        self.entries@[j].0@,
                        value_view(self.entries@[j].1),
                    ),
                lookup(pairs, key@) == lookup(pairs.skip(i as int), key@),
            decreases self.entries@.len() - i,
        {
            assert(pairs.skip(i as int)[0] == pairs[i as int]);
            let entry = &self.entries[i];
            if eq_ignore_ascii_case(entry.0.as_str(), key) {
                return Some(&entry.1);
            }
            assert(pairs.skip(i as int).drop_first() =~= pairs.skip(i + 1));
            i = i + 1;
        }
        None
    }

    /// The first value under `key`, if it is a leaf string.
    pub fn get_str(&self, key: &str) -> (r: Option<&str>)
        ensures
            match r {
                Some(t) => lookup(self@, key@) == Some(ValueV::String(t@)),
                None => !(lookup(self@, key@) matches Some(ValueV::String(_))),
            },
    {
        match self.get(key) {
            Some(v) => v.as_str(),
            None => None,
        }
    }

    /// The first value under `key`, if it is a nested object.
    pub fn get_object(&self, key: &str) -> (r: Option<&Object>)
        ensures
            match r {
                Some(o) => lookup(self@, key@) == Some(ValueV::Object(o@)),
                None => !(lookup(self@, key@) matches Some(ValueV::Object(_))),
            },
    {
        match self.get(key) {
            Some(v) => v.as_object(),
            None => None,
        }
    }

    /// Every pair, in the order the document spelled them.
    pub fn iter(&self) -> (pairs: Vec<(&str, &Value)>)
        ensures
            pairs@.len() == self@.len(),
            forall|i: int|
                0 <= i < pairs@.len() ==> (#[trigger] pairs@[i].0@, pairs@[i].1@) == self@[i],
    {
        proof {
            lemma_entries_view(self.entries@);
        }
        let mut pairs: Vec<(&str, &Value)> = Vec::new();
        let mut i: usize = 0;
        while i < self.entries.len()
            invariant
                i <= self.entries@.len(),
                pairs@.len() == i,
                self@.len() == self.entries@.len(),
                forall|j: int|
                    0 <= j < self.entries@.len() ==> #[trigger] self@[j] == (
                        self.entries@[j].0@,
                        value_view(self.entries@[j].1),
                    ),
                forall|j: int|
                    0 <= j < i ==> (#[trigger] pairs@[j].0@, pairs@[j].1@) == self@[j],
            decreases self.entries@.len() - i,
        {
            let entry = &self.entries[i];
            pairs.push((entry.0.as_str(), &entry.1));
            i = i + 1;
        }
        pairs
    }

    /// How many pairs the object holds, duplicates counted separately.
    pub fn len(&self) -> (n: usize)
        ensures
            n == self@.len(),
    {
        proof {
            lemma_entries_view(self.entries@);
        }
        self.entries.len()
    }

    /// Whether the object holds no pairs at all.
    pub fn is_empty(&self) -> (b: bool)
        ensures
            b == (self@.len() == 0),
    {
        proof {
            lemma_entries_view(self.entries@);
        }
        self.entries.len() == 0
    }
}

/// Looking a key up does not depend on the ASCII case it is written in.
pub proof fn lemma_lookup_ignores_case(pairs: Seq<(Seq<char>, ValueV)>, a: Seq<char>, b: Seq<char>)
    requires
        eq_ignore_case(a, b),
    ensures
        lookup(pairs, a) == lookup(pairs, b),
    decreases pairs.len(),
{
    if pairs.len() > 0 {
        lemma_lookup_ignores_case(pairs.drop_first(), a, b);
    }
}

/// Where an error is: `line L, column C`.
pub open spec fn position(e: Error) -> Seq<char> {
    "line "@ + decimal(e.line as nat) + ", column "@ + decimal(e.column as nat)
}

/// The sentence an error is printed as.
pub open spec fn spec_error_describe(e: Error) -> Seq<char> {
    match e.kind {
        ErrorKind::UnclosedObject { opened_line } => "block opened on line "@ + decimal(
            opened_line as nat,
        ) + " was never closed (input ended at "@ + position(e) + ")"@,
        ErrorKind::MissingValue => "key with no value at "@ + position(e),
        ErrorKind::UnclosedString => "unterminated string at "@ + position(e),
        ErrorKind::NewlineInString => "newline inside a quoted string at "@ + position(e),
        ErrorKind::UnmatchedCloseBrace => "unmatched '}' at "@ + position(e),
        ErrorKind::ExpectedKey => "expected a key at "@ + position(e),
        ErrorKind::TooDeep => "nested past "@ + decimal(MAX_DEPTH as nat) + " levels at "@
            + position(e),
        ErrorKind::PlatformConditional => "platform conditional at "@ + position(e)
            + " is not supported; reading it as an ordinary key would shift every pair after it"@,
        ErrorKind::Directive => "#base or #include directive at "@ + position(e)
            + " is not supported; the keys it would pull in would be missing with nothing to say so"@,
    }
}

impl Error {
    /// Appends where this error is.
    fn push_position(&self, out: &mut String)
        ensures
            final(out)@ == old(out)@ + position(*self),
    {
        out.push_str("line ");
        push_decimal(out, self.line as u64);
        out.push_str(", column ");
        push_decimal(out, self.column as u64);
        assert(final(out)@ =~= old(out)@ + position(*self));
    }

    /// The sentence this error is printed as.
    pub fn describe(&self) -> (s: String)
        ensures
            s@ == spec_error_describe(*self),
    {
        let mut s = String::new();
        match self.kind {
            ErrorKind::UnclosedObject { opened_line } => {
                s.push_str("block opened on line ");
                push_decimal(&mut s, opened_line as u64);
                s.push_str(" was never closed (input ended at ");
                self.push_position(&mut s);
                s.push_str(")");
            },
            ErrorKind::MissingValue => {
                s.push_str("key with no value at ");
                self.push_position(&mut s);
            },
            ErrorKind::UnclosedString => {
                s.push_str("unterminated string at ");
                self.push_position(&mut s);
            },
            ErrorKind::NewlineInString => {
                s.push_str("newline inside a quoted string at ");
                self.push_position(&mut s);
            },
            ErrorKind::UnmatchedCloseBrace => {
                s.push_str("unmatched '}' at ");
                self.push_position(&mut s);
            },
            ErrorKind::ExpectedKey => {
                s.push_str("expected a key at ");
                self.push_position(&mut s);
            },
            ErrorKind::TooDeep => {
                s.push_str("nested past ");
                push_decimal(&mut s, MAX_DEPTH as u64);
                s.push_str(" levels at ");
                self.push_position(&mut s);
            },
            ErrorKind::PlatformConditional => {
                s.push_str("platform conditional at ");
                self.push_position(&mut s);
                s.push_str(
                    " is not supported; reading it as an ordinary key would shift every pair after it",
                );
            },
            ErrorKind::Directive => {
                s.push_str("#base or #include directive at ");
                self.push_position(&mut s);
                s.push_str(
                    " is not supported; the keys it would pull in would be missing with nothing to say so",
                );
            },
        }
        assert(s@ =~= spec_error_describe(*self));
        s
    }
}

} // verus!
