//! The whole script as logical lines of tokens, as Python joins them.
//!
//! The whole script, not just the interesting part: a triple-quoted string
//! anywhere above the function can hold any text at all, and a scanner that
//! started reading in the middle would take that text for code. Every
//! delimiter Python's grammar has is ASCII, so a character outside ASCII can
//! only appear whole inside a token.

use vstd::prelude::*;

use super::{Error, ErrorKind};
use crate::text::{chars_of, string_of_range};
use crate::vdf::{lemma_line_end, line_end};

verus! {

/// How wide a tab is taken to be when measuring indentation, as `CPython`
/// takes it.
pub const TAB: usize = 8;

/// As much of a Python token as this reader has any use for.
#[derive(Debug, PartialEq, Eq)]
pub enum Token {
    /// An identifier or keyword.
    Name(String),
    /// An unprefixed string literal with no escape in it, and its value.
    Text(String),
    /// A string literal whose value this reader will not claim to know: it
    /// carries a prefix or an escape.
    Opaque,
    /// A number; its value is never needed.
    Number,
    /// One punctuation character.
    Punct(char),
}

/// A token as plain values.
pub enum TokenV {
    Name(Seq<char>),
    Text(Seq<char>),
    Opaque,
    Number,
    Punct(char),
}

impl View for Token {
    type V = TokenV;

    open spec fn view(&self) -> TokenV {
        match self {
            Token::Name(n) => TokenV::Name(n@),
            Token::Text(t) => TokenV::Text(t@),
            Token::Opaque => TokenV::Opaque,
            Token::Number => TokenV::Number,
            Token::Punct(c) => TokenV::Punct(*c),
        }
    }
}

/// The plain values of each token.
pub open spec fn tokens_view(v: Seq<Token>) -> Seq<TokenV> {
    v.map_values(|t: Token| t@)
}

/// One logical line: everything Python joins into a single statement.
#[derive(Debug)]
pub struct Logical {
    /// Indentation of the first physical line, tabs counted to [`TAB`].
    pub indent: usize,
    /// Whether a tab was used to indent it.
    pub tabbed: bool,
    /// 1-based physical line the statement starts on.
    pub line: usize,
    /// 1-based physical line the statement ends on.
    pub end: usize,
    pub tokens: Vec<Token>,
}

/// A logical line as plain values.
pub struct LogicalV {
    pub indent: int,
    pub tabbed: bool,
    pub line: int,
    pub end: int,
    pub tokens: Seq<TokenV>,
}

impl View for Logical {
    type V = LogicalV;

    open spec fn view(&self) -> LogicalV {
        LogicalV {
            indent: self.indent as int,
            tabbed: self.tabbed,
            line: self.line as int,
            end: self.end as int,
            tokens: tokens_view(self.tokens@),
        }
    }
}

/// The plain values of each logical line.
pub open spec fn lines_view(v: Seq<Logical>) -> Seq<LogicalV> {
    v.map_values(|l: Logical| l@)
}

/// Where the lexer is: the index it reads next, the physical line, how many
/// brackets are open and the line the outermost opened on, whether it is
/// still measuring a line's indentation and what it has measured, the line
/// the statement started on, the statement's tokens so far, and the logical
/// lines finished.
pub struct LexState {
    pub at: int,
    pub line: int,
    pub depth: int,
    pub open_line: int,
    pub measuring: bool,
    pub indent: int,
    pub tabbed: bool,
    pub start: int,
    pub tokens: Seq<TokenV>,
    pub out: Seq<LogicalV>,
}

/// A letter, `_`, or any character outside ASCII: what may start a name.
pub open spec fn name_start(c: char) -> bool {
    ('a' <= c && c <= 'z') || ('A' <= c && c <= 'Z') || c == '_' || (c as u32) >= 0x80
}

/// What may continue a name.
pub open spec fn name_part(c: char) -> bool {
    name_start(c) || ('0' <= c && c <= '9')
}

/// What may continue a number: ASCII letters and digits, `.` and `_`.
pub open spec fn number_part(c: char) -> bool {
    ('a' <= c && c <= 'z') || ('A' <= c && c <= 'Z') || ('0' <= c && c <= '9') || c == '.' || c
        == '_'
}

/// Where a run of characters satisfying `part` from `p` ends.
pub open spec fn run_end(s: Seq<char>, p: int, part: spec_fn(char) -> bool) -> int
    decreases s.len() - p,
{
    if p < 0 || p >= s.len() || !part(s[p]) {
        p
    } else {
        run_end(s, p + 1, part)
    }
}

/// A run stays in the text.
pub proof fn lemma_run_end(s: Seq<char>, p: int, part: spec_fn(char) -> bool)
    requires
        0 <= p <= s.len(),
    ensures
        p <= run_end(s, p, part) <= s.len(),
    decreases s.len() - p,
{
    if p < s.len() && part(s[p]) {
        lemma_run_end(s, p + 1, part);
    }
}

/// A name that may prefix a string: one or two of `r`, `b`, `u`, `f`, in
/// either case.
pub open spec fn string_prefix(n: Seq<char>) -> bool {
    1 <= n.len() <= 2 && forall|k: int|
        0 <= k < n.len() ==> {
            let c = #[trigger] n[k];
            c == 'r' || c == 'R' || c == 'b' || c == 'B' || c == 'u' || c == 'U' || c == 'f'
                || c == 'F'
        }
}

/// The rest of a string literal's body from `i`: where the body ends, the
/// index just past the closing quotes, the line reached, and whether an
/// escape was met; `None` when it is not closed.
pub open spec fn string_rest(s: Seq<char>, quote: char, triple: bool, i: int, line: int, escaped: bool) -> Option<
    (int, int, int, bool),
>
    decreases s.len() + 1 - i,
{
    if i < 0 || i >= s.len() {
        None
    } else if s[i] == '\\' {
        string_rest(
            s,
            quote,
            triple,
            i + 2,
            if i + 1 < s.len() && s[i + 1] == '\n' {
                line + 1
            } else {
                line
            },
            true,
        )
    } else if s[i] == '\n' {
        if triple {
            string_rest(s, quote, triple, i + 1, line + 1, escaped)
        } else {
            None
        }
    } else if s[i] == quote && !triple {
        Some((i, i + 1, line, escaped))
    } else if s[i] == quote && i + 2 < s.len() && s[i + 1] == quote && s[i + 2] == quote {
        Some((i, i + 3, line, escaped))
    } else {
        string_rest(s, quote, triple, i + 1, line, escaped)
    }
}

/// A string closes past where its body starts, inside the text.
pub proof fn lemma_string_rest(s: Seq<char>, quote: char, triple: bool, i: int, line: int, escaped: bool)
    requires
        0 <= i,
    ensures
        string_rest(s, quote, triple, i, line, escaped) matches Some((e, n, _, _)) ==> i <= e < n
            <= s.len(),
    decreases s.len() + 1 - i,
{
    if 0 <= i < s.len() {
        if s[i] == '\\' {
            lemma_string_rest(
                s,
                quote,
                triple,
                i + 2,
                if i + 1 < s.len() && s[i + 1] == '\n' {
                    line + 1
                } else {
                    line
                },
                true,
            );
        } else if s[i] == '\n' {
            if triple {
                lemma_string_rest(s, quote, triple, i + 1, line + 1, escaped);
            }
        } else if !(s[i] == quote && !triple) && !(s[i] == quote && i + 2 < s.len() && s[i + 1]
            == quote && s[i + 2] == quote) {
            lemma_string_rest(s, quote, triple, i + 1, line, escaped);
        }
    }
}

/// The string literal whose opening quote is at `at`: its token, the index
/// after it and the line reached. The value is opaque when the literal is
/// prefixed or holds an escape. An unterminated literal is reported at the
/// line it opened on.
pub open spec fn string_at(s: Seq<char>, at: int, line: int, prefixed: bool) -> Result<(TokenV, int, int), Error> {
    if at < 0 || at >= s.len() || !(s[at] == '"' || s[at] == '\'') {
        Err(Error { kind: ErrorKind::UnterminatedString, line: line as usize })
    } else {
        let quote = s[at];
        let triple = at + 2 < s.len() && s[at + 1] == quote && s[at + 2] == quote;
        let body = if triple {
            at + 3
        } else {
            at + 1
        };
        match string_rest(s, quote, triple, body, line, false) {
            None => Err(Error { kind: ErrorKind::UnterminatedString, line: line as usize }),
            Some((end, next, reached, escaped)) => Ok(
                (
                    if escaped || prefixed {
                        TokenV::Opaque
                    } else {
                        TokenV::Text(s.subrange(body, end))
                    },
                    next,
                    reached,
                ),
            ),
        }
    }
}

/// The state with the statement ended at physical line `ended`: a logical
/// line added, and measuring begun again.
pub open spec fn finish_line(st: LexState, ended: int) -> LexState {
    LexState {
        out: st.out.push(
            LogicalV {
                indent: st.indent,
                tabbed: st.tabbed,
                line: st.start,
                end: ended,
                tokens: st.tokens,
            },
        ),
        tokens: Seq::empty(),
        indent: 0,
        tabbed: false,
        measuring: true,
        ..st
    }
}

/// One character of a line's indentation. A comment-only line is skipped
/// whole, and anything else ends the measuring.
pub open spec fn measure(s: Seq<char>, st: LexState) -> LexState {
    let c = s[st.at];
    if c == ' ' {
        LexState { indent: st.indent + 1, at: st.at + 1, ..st }
    } else if c == '\t' {
        LexState {
            tabbed: true,
            indent: st.indent - st.indent % (TAB as int) + TAB as int,
            at: st.at + 1,
            ..st
        }
    } else if c == '\r' || c == '\x0c' {
        LexState { at: st.at + 1, ..st }
    } else if c == '\n' {
        LexState { line: st.line + 1, indent: 0, tabbed: false, at: st.at + 1, ..st }
    } else if c == '#' {
        LexState { at: line_end(s, st.at), ..st }
    } else {
        LexState { measuring: false, start: st.line, ..st }
    }
}

/// One token, or one character of whitespace, inside a statement.
pub open spec fn step(s: Seq<char>, st: LexState) -> Result<LexState, Error> {
    let c = s[st.at];
    if c == '#' {
        Ok(LexState { at: line_end(s, st.at), ..st })
    } else if c == '\n' {
        let moved = LexState { line: st.line + 1, at: st.at + 1, ..st };
        Ok(
            if st.depth == 0 {
                finish_line(moved, st.line)
            } else {
                moved
            },
        )
    } else if c == '\\' {
        let next = if st.at + 1 < s.len() && s[st.at + 1] == '\r' {
            st.at + 2
        } else {
            st.at + 1
        };
        if next < s.len() && s[next] == '\n' {
            Ok(LexState { line: st.line + 1, at: next + 1, ..st })
        } else {
            Ok(LexState { tokens: st.tokens.push(TokenV::Punct('\\')), at: st.at + 1, ..st })
        }
    } else if c == ' ' || c == '\t' || c == '\r' || c == '\x0c' {
        Ok(LexState { at: st.at + 1, ..st })
    } else if c == '"' || c == '\'' {
        match string_at(s, st.at, st.line, false) {
            Err(e) => Err(e),
            Ok((token, next, line)) => Ok(
                LexState { tokens: st.tokens.push(token), at: next, line, ..st },
            ),
        }
    } else if c == '(' || c == '[' || c == '{' {
        Ok(
            LexState {
                open_line: if st.depth == 0 {
                    st.line
                } else {
                    st.open_line
                },
                depth: st.depth + 1,
                tokens: st.tokens.push(TokenV::Punct(c)),
                at: st.at + 1,
                ..st
            },
        )
    } else if c == ')' || c == ']' || c == '}' {
        if st.depth == 0 {
            Err(Error { kind: ErrorKind::UnmatchedBracket, line: st.line as usize })
        } else {
            Ok(
                LexState {
                    depth: st.depth - 1,
                    tokens: st.tokens.push(TokenV::Punct(c)),
                    at: st.at + 1,
                    ..st
                },
            )
        }
    } else if '0' <= c && c <= '9' {
        Ok(
            LexState {
                at: run_end(s, st.at, |c: char| number_part(c)),
                tokens: st.tokens.push(TokenV::Number),
                ..st
            },
        )
    } else if name_start(c) {
        let end = run_end(s, st.at, |c: char| name_part(c));
        let name = s.subrange(st.at, end);
        if end < s.len() && (s[end] == '"' || s[end] == '\'') && string_prefix(name) {
            match string_at(s, end, st.line, true) {
                Err(e) => Err(e),
                Ok((_, next, line)) => Ok(
                    LexState { tokens: st.tokens.push(TokenV::Opaque), at: next, line, ..st },
                ),
            }
        } else {
            Ok(LexState { tokens: st.tokens.push(TokenV::Name(name)), at: end, ..st })
        }
    } else {
        Ok(LexState { tokens: st.tokens.push(TokenV::Punct(c)), at: st.at + 1, ..st })
    }
}

/// The logical lines from `st` to the end of the text: an error at the first
/// thing that cannot be tokenised, or when the text ends inside a bracket,
/// and a last statement with no newline after it kept.
pub open spec fn lex_from(s: Seq<char>, st: LexState) -> Result<Seq<LogicalV>, Error>
    decreases lex_measure(s, st),
{
    if st.at < 0 || st.at >= s.len() {
        if st.depth != 0 {
            Err(Error { kind: ErrorKind::UnclosedBracket, line: st.open_line as usize })
        } else if st.tokens.len() > 0 {
            Ok(finish_line(st, st.line).out)
        } else {
            Ok(st.out)
        }
    } else {
        let next = if st.measuring {
            Ok(measure(s, st))
        } else {
            step(s, st)
        };
        match next {
            Err(e) => Err(e),
            Ok(after) => if 0 <= lex_measure(s, after) < lex_measure(s, st) {
                lex_from(s, after)
            } else {
                Ok(st.out)
            },
        }
    }
}

/// How much is left to do: every character still to read counts twice, and
/// measuring a line's indentation once more.
pub open spec fn lex_measure(s: Seq<char>, st: LexState) -> int {
    2 * (s.len() - st.at) + if st.measuring {
        1int
    } else {
        0int
    }
}

/// How many tokens the lines hold together.
pub open spec fn total_tokens(lines: Seq<LogicalV>) -> nat
    decreases lines.len(),
{
    if lines.len() == 0 {
        0
    } else {
        total_tokens(lines.drop_last()) + lines.last().tokens.len()
    }
}

/// A finished line moves the statement's tokens into the total.
pub proof fn lemma_total_push(lines: Seq<LogicalV>, l: LogicalV)
    ensures
        total_tokens(lines.push(l)) == total_tokens(lines) + l.tokens.len(),
{
    assert(lines.push(l).drop_last() =~= lines);
}

/// The lines before `n` hold no more tokens than all of them.
pub proof fn lemma_total_prefix(lines: Seq<LogicalV>, n: int)
    requires
        0 <= n <= lines.len(),
    ensures
        total_tokens(lines.take(n)) <= total_tokens(lines),
        n < lines.len() ==> total_tokens(lines.take(n + 1)) == total_tokens(lines.take(n))
            + lines[n].tokens.len(),
    decreases lines.len() - n,
{
    if n < lines.len() {
        assert(lines.take(n + 1).drop_last() =~= lines.take(n));
        lemma_total_prefix(lines, n + 1);
    } else {
        assert(lines.take(n) =~= lines);
    }
}

/// How one step moved the tokens: kept them, added one, or finished the
/// line with them.
pub open spec fn moved_tokens(st: LexState, a: LexState) -> bool {
    ||| a.out == st.out && a.tokens == st.tokens && !a.measuring
    ||| a.out == st.out && a.tokens.len() == st.tokens.len() + 1 && !a.measuring
    ||| total_tokens(a.out) == total_tokens(st.out) + st.tokens.len() && a.tokens.len() == 0
}

/// One step inside a statement keeps its tokens, adds one, or finishes the
/// line.
proof fn lemma_step_tokens(s: Seq<char>, st: LexState)
    requires
        0 <= st.at < s.len(),
        !st.measuring,
    ensures
        step(s, st) matches Ok(a) ==> moved_tokens(st, a),
{
    let c = s[st.at];
    if c == '#' {
    } else if c == '\n' {
        if st.depth == 0 {
            let moved = LexState { line: st.line + 1, at: st.at + 1, ..st };
            lemma_total_push(st.out, LogicalV {
                indent: moved.indent,
                tabbed: moved.tabbed,
                line: moved.start,
                end: st.line,
                tokens: moved.tokens,
            });
        }
    } else if c == '\\' {
    } else if c == ' ' || c == '\t' || c == '\r' || c == '\x0c' {
    } else if c == '"' || c == '\'' {
    } else if c == '(' || c == '[' || c == '{' {
    } else if c == ')' || c == ']' || c == '}' {
    } else if '0' <= c && c <= '9' {
    } else if name_start(c) {
    } else {
        let a = LexState { tokens: st.tokens.push(TokenV::Punct(c)), at: st.at + 1, ..st };
        assert(step(s, st) == Ok::<LexState, Error>(a));
        lemma_push_one(st, a, TokenV::Punct(c));
    }
}

proof fn lemma_push_one(st: LexState, a: LexState, t: TokenV)
    requires
        a.tokens == st.tokens.push(t),
        a.out == st.out,
        !a.measuring,
    ensures
        moved_tokens(st, a),
{
}

/// Every token the lexer keeps stands on at least one character of the
/// script.
pub proof fn lemma_lex_tokens(s: Seq<char>, st: LexState)
    requires
        0 <= st.at <= s.len(),
        total_tokens(st.out) + st.tokens.len() <= st.at,
    ensures
        lex_from(s, st) matches Ok(lines) ==> total_tokens(lines) <= s.len(),
    decreases lex_measure(s, st),
{
    if st.at >= s.len() {
        if st.depth == 0 && st.tokens.len() > 0 {
            lemma_total_push(st.out, LogicalV {
                indent: st.indent,
                tabbed: st.tabbed,
                line: st.start,
                end: st.line,
                tokens: st.tokens,
            });
        }
    } else {
        let next = if st.measuring {
            Ok(measure(s, st))
        } else {
            step(s, st)
        };
        if !st.measuring {
            lemma_step_tokens(s, st);
        }
        match next {
            Err(_) => {},
            Ok(after) => if 0 <= lex_measure(s, after) < lex_measure(s, st) {
                lemma_lex_tokens(s, after);
            },
        }
    }
}

/// Where lexing starts.
pub open spec fn lex_start() -> LexState {
    LexState {
        at: 0,
        line: 1,
        depth: 0,
        open_line: 1,
        measuring: true,
        indent: 0,
        tabbed: false,
        start: 1,
        tokens: Seq::empty(),
        out: Seq::empty(),
    }
}

/// The whole script as logical lines, or the first thing that defeated the
/// reader.
pub open spec fn spec_lex(s: Seq<char>) -> Result<Seq<LogicalV>, Error> {
    lex_from(s, lex_start())
}

/// A cursor over the characters of the script, with the statement being
/// built.
struct Lexer {
    chars: Vec<char>,
    at: usize,
    line: usize,
    depth: usize,
    open_line: usize,
    measuring: bool,
    indent: usize,
    tabbed: bool,
    start: usize,
    tokens: Vec<Token>,
    out: Vec<Logical>,
}

impl Lexer {
    spec fn state(&self) -> LexState {
        LexState {
            at: self.at as int,
            line: self.line as int,
            depth: self.depth as int,
            open_line: self.open_line as int,
            measuring: self.measuring,
            indent: self.indent as int,
            tabbed: self.tabbed,
            start: self.start as int,
            tokens: tokens_view(self.tokens@),
            out: lines_view(self.out@),
        }
    }

    spec fn wf(&self) -> bool {
        &&& self.at <= self.chars@.len()
        &&& 8 * self.chars@.len() < usize::MAX
        &&& 1 <= self.line <= self.at + 1
        &&& self.depth <= self.at
        &&& 1 <= self.open_line <= self.line
        &&& 1 <= self.start <= self.line
        &&& self.indent <= 8 * self.at
    }

    /// Where the current line ends, from `at`.
    fn line_end_from(&self, at: usize) -> (e: usize)
        requires
            at <= self.chars@.len(),
        ensures
            e == line_end(self.chars@, at as int),
            at <= e <= self.chars@.len(),
    {
        let mut e = at;
        while e < self.chars.len() && self.chars[e] != '\n'
            invariant
                at <= e <= self.chars@.len(),
                line_end(self.chars@, at as int) == line_end(self.chars@, e as int),
            decreases self.chars@.len() - e,
        {
            e = e + 1;
        }
        e
    }

    /// Ends the statement at physical line `ended`.
    fn finish_line(&mut self, ended: usize)
        requires
            old(self).wf(),
        ensures
            final(self).state() == finish_line(old(self).state(), ended as int),
            final(self).chars@ == old(self).chars@,
            final(self).wf(),
    {
        let mut tokens: Vec<Token> = Vec::new();
        std::mem::swap(&mut tokens, &mut self.tokens);
        let logical = Logical {
            indent: self.indent,
            tabbed: self.tabbed,
            line: self.start,
            end: ended,
            tokens,
        };
        let ghost before = self.out@;
        self.out.push(logical);
        assert(lines_view(self.out@) =~= lines_view(before).push(logical@));
        self.indent = 0;
        self.tabbed = false;
        self.measuring = true;
        assert(tokens_view(self.tokens@) =~= Seq::<TokenV>::empty());
    }

    /// One character of a line's indentation.
    fn measure(&mut self)
        requires
            old(self).wf(),
            old(self).at < old(self).chars@.len(),
        ensures
            final(self).wf(),
            final(self).chars@ == old(self).chars@,
            final(self).state() == measure(old(self).chars@, old(self).state()),
            old(self).measuring ==> (final(self).at > old(self).at || !final(self).measuring),
            final(self).at >= old(self).at,
    {
        let c = self.chars[self.at];
        if c == ' ' {
            self.indent = self.indent + 1;
            self.at = self.at + 1;
        } else if c == '\t' {
            self.tabbed = true;
            self.indent = self.indent - self.indent % TAB + TAB;
            self.at = self.at + 1;
        } else if c == '\r' || c == '\x0c' {
            self.at = self.at + 1;
        } else if c == '\n' {
            self.line = self.line + 1;
            self.indent = 0;
            self.tabbed = false;
            self.at = self.at + 1;
        } else if c == '#' {
            let e = self.line_end_from(self.at);
            proof {
                assert(line_end(self.chars@, self.at as int) == line_end(self.chars@, self.at + 1));
                lemma_line_end(self.chars@, self.at + 1);
            }
            self.at = e;
        } else {
            self.measuring = false;
            self.start = self.line;
        }
    }

    /// Reads the string literal whose opening quote is at `at`.
    fn read_string(&self, at: usize, line: usize, prefixed: bool) -> (r: Result<(Token, usize, usize), Error>)
        requires
            self.wf(),
            at <= self.chars@.len(),
            1 <= line <= at + 1,
        ensures
            match r {
                Ok((t, next, reached)) => string_at(self.chars@, at as int, line as int, prefixed)
                    == Ok::<(TokenV, int, int), Error>((t@, next as int, reached as int)) && at
                    < next <= self.chars@.len() && line <= reached <= line + (next - at),
                Err(e) => string_at(self.chars@, at as int, line as int, prefixed) == Err::<
                    (TokenV, int, int),
                    Error,
                >(e),
            },
    {
        let n = self.chars.len();
        if at >= n || !(self.chars[at] == '"' || self.chars[at] == '\'') {
            return Err(Error { kind: ErrorKind::UnterminatedString, line });
        }
        let quote = self.chars[at];
        let triple = at + 2 < n && self.chars[at + 1] == quote && self.chars[at + 2] == quote;
        let body = if triple {
            at + 3
        } else {
            at + 1
        };
        let ghost s = self.chars@;
        let mut i = body;
        let mut reached = line;
        let mut escaped = false;
        while i < n
            invariant
                n == s.len(),
                s == self.chars@,
                8 * s.len() < usize::MAX,
                at < body <= i <= n + 1,
                body == if triple {
                    at + 3
                } else {
                    at + 1
                },
                quote == s[at as int],
                quote == '"' || quote == '\'',
                triple == (at + 2 < s.len() && s[at + 1] == quote && s[at + 2] == quote),
                1 <= line <= at + 1,
                line <= reached <= line + (i - at),
                string_rest(s, quote, triple, body as int, line as int, false) == string_rest(
                    s,
                    quote,
                    triple,
                    i as int,
                    reached as int,
                    escaped,
                ),
            decreases n + 1 - i,
        {
            let c = self.chars[i];
            if c == '\\' {
                escaped = true;
                if i + 1 < n && self.chars[i + 1] == '\n' {
                    reached = reached + 1;
                }
                i = i + 2;
            } else if c == '\n' {
                if !triple {
                    return Err(Error { kind: ErrorKind::UnterminatedString, line });
                }
                reached = reached + 1;
                i = i + 1;
            } else if c == quote && !triple {
                let token = if escaped || prefixed {
                    Token::Opaque
                } else {
                    Token::Text(string_of_range(self.chars.as_slice(), body, i))
                };
                return Ok((token, i + 1, reached));
            } else if c == quote && i + 2 < n && self.chars[i + 1] == quote && self.chars[i + 2]
                == quote {
                let token = if escaped || prefixed {
                    Token::Opaque
                } else {
                    Token::Text(string_of_range(self.chars.as_slice(), body, i))
                };
                return Ok((token, i + 3, reached));
            } else {
                i = i + 1;
            }
        }
        Err(Error { kind: ErrorKind::UnterminatedString, line })
    }
}



impl Lexer {
    /// Where a run of name characters from `from` ends.
    fn name_end(&self, from: usize) -> (e: usize)
        requires
            from <= self.chars@.len(),
        ensures
            e == run_end(self.chars@, from as int, |c: char| name_part(c)),
            from <= e <= self.chars@.len(),
    {
        let mut e = from;
        while e < self.chars.len() && continues_name(self.chars[e])
            invariant
                from <= e <= self.chars@.len(),
                run_end(self.chars@, from as int, |c: char| name_part(c)) == run_end(
                    self.chars@,
                    e as int,
                    |c: char| name_part(c),
                ),
            decreases self.chars@.len() - e,
        {
            e = e + 1;
        }
        e
    }

    /// Where a run of number characters from `from` ends.
    fn number_end(&self, from: usize) -> (e: usize)
        requires
            from <= self.chars@.len(),
        ensures
            e == run_end(self.chars@, from as int, |c: char| number_part(c)),
            from <= e <= self.chars@.len(),
    {
        let mut e = from;
        while e < self.chars.len() && continues_number(self.chars[e])
            invariant
                from <= e <= self.chars@.len(),
                run_end(self.chars@, from as int, |c: char| number_part(c)) == run_end(
                    self.chars@,
                    e as int,
                    |c: char| number_part(c),
                ),
            decreases self.chars@.len() - e,
        {
            e = e + 1;
        }
        e
    }

    /// Appends a token to the statement.
    fn push(&mut self, t: Token)
        ensures
            final(self).state() == (LexState {
                tokens: old(self).state().tokens.push(t@),
                ..old(self).state()
            }),
            final(self).chars@ == old(self).chars@,
            final(self).at == old(self).at,
            final(self).line == old(self).line,
            final(self).depth == old(self).depth,
            final(self).open_line == old(self).open_line,
            final(self).start == old(self).start,
            final(self).indent == old(self).indent,
    {
        let ghost before = self.tokens@;
        self.tokens.push(t);
        assert(tokens_view(self.tokens@) =~= tokens_view(before).push(t@));
    }

    /// One token, or one character of whitespace, inside a statement.
    fn step(&mut self) -> (r: Result<(), Error>)
        requires
            old(self).wf(),
            old(self).at < old(self).chars@.len(),
        ensures
            final(self).chars@ == old(self).chars@,
            match r {
                Ok(()) => step(old(self).chars@, old(self).state()) == Ok::<LexState, Error>(
                    final(self).state(),
                ) && final(self).wf() && final(self).at > old(self).at,
                Err(e) => step(old(self).chars@, old(self).state()) == Err::<LexState, Error>(e),
            },
    {
        let ghost s = self.chars@;
        let c = self.chars[self.at];
        if c == '#' {
            let e = self.line_end_from(self.at);
            proof {
                assert(line_end(s, self.at as int) == line_end(s, self.at + 1));
                lemma_line_end(s, self.at + 1);
            }
            self.at = e;
        } else if c == '\n' {
            let ended = self.line;
            self.line = self.line + 1;
            self.at = self.at + 1;
            if self.depth == 0 {
                self.finish_line(ended);
            }
        } else if c == '\\' {
            let mut next = self.at + 1;
            if next < self.chars.len() && self.chars[next] == '\r' {
                next = next + 1;
            }
            if next < self.chars.len() && self.chars[next] == '\n' {
                self.line = self.line + 1;
                self.at = next + 1;
            } else {
                self.push(Token::Punct('\\'));
                self.at = self.at + 1;
            }
        } else if c == ' ' || c == '\t' || c == '\r' || c == '\x0c' {
            self.at = self.at + 1;
        } else if c == '"' || c == '\'' {
            let (token, next, reached) = match self.read_string(self.at, self.line, false) {
                Ok(found) => found,
                Err(e) => return Err(e),
            };
            self.push(token);
            self.at = next;
            self.line = reached;
        } else if c == '(' || c == '[' || c == '{' {
            if self.depth == 0 {
                self.open_line = self.line;
            }
            self.depth = self.depth + 1;
            self.push(Token::Punct(c));
            self.at = self.at + 1;
        } else if c == ')' || c == ']' || c == '}' {
            if self.depth == 0 {
                return Err(Error { kind: ErrorKind::UnmatchedBracket, line: self.line });
            }
            self.depth = self.depth - 1;
            self.push(Token::Punct(c));
            self.at = self.at + 1;
        } else if '0' <= c && c <= '9' {
            let e = self.number_end(self.at);
            proof {
                assert(run_end(s, self.at as int, |c: char| number_part(c)) == run_end(
                    s,
                    self.at + 1,
                    |c: char| number_part(c),
                ));
                lemma_run_end(s, self.at + 1, |c: char| number_part(c));
            }
            self.push(Token::Number);
            self.at = e;
        } else if ('a' <= c && c <= 'z') || ('A' <= c && c <= 'Z') || c == '_' || (c as u32)
            >= 0x80 {
            let from = self.at;
            let e = self.name_end(from);
            proof {
                assert(run_end(s, from as int, |c: char| name_part(c)) == run_end(
                    s,
                    from + 1,
                    |c: char| name_part(c),
                ));
                lemma_run_end(s, from + 1, |c: char| name_part(c));
            }
            let name = string_of_range(self.chars.as_slice(), from, e);
            if e < self.chars.len() && (self.chars[e] == '"' || self.chars[e] == '\'')
                && is_string_prefix(&self.chars, from, e) {
                let (_, next, reached) = match self.read_string(e, self.line, true) {
                    Ok(found) => found,
                    Err(err) => return Err(err),
                };
                self.push(Token::Opaque);
                self.at = next;
                self.line = reached;
            } else {
                self.push(Token::Name(name));
                self.at = e;
            }
        } else {
            self.push(Token::Punct(c));
            self.at = self.at + 1;
        }
        Ok(())
    }
}

/// Whether `c` may continue a name.
fn continues_name(c: char) -> (b: bool)
    ensures
        b == name_part(c),
{
    ('a' <= c && c <= 'z') || ('A' <= c && c <= 'Z') || c == '_' || (c as u32) >= 0x80 || ('0'
        <= c && c <= '9')
}

/// Whether `c` may continue a number.
fn continues_number(c: char) -> (b: bool)
    ensures
        b == number_part(c),
{
    ('a' <= c && c <= 'z') || ('A' <= c && c <= 'Z') || ('0' <= c && c <= '9') || c == '.' || c
        == '_'
}

/// Whether the name `chars[from..to]` may prefix a string.
fn is_string_prefix(chars: &Vec<char>, from: usize, to: usize) -> (b: bool)
    requires
        from <= to <= chars@.len(),
    ensures
        b == string_prefix(chars@.subrange(from as int, to as int)),
{
    let n = to - from;
    if n < 1 || n > 2 {
        return false;
    }
    let mut k = from;
    while k < to
        invariant
            from <= k <= to <= chars@.len(),
            1 <= to - from <= 2,
            forall|j: int|
                from <= j < k ==> {
                    let c = #[trigger] chars@[j];
                    c == 'r' || c == 'R' || c == 'b' || c == 'B' || c == 'u' || c == 'U' || c
                        == 'f' || c == 'F'
                },
        decreases to - k,
    {
        let c = chars[k];
        if !(c == 'r' || c == 'R' || c == 'b' || c == 'B' || c == 'u' || c == 'U' || c == 'f' || c
            == 'F') {
            assert(chars@.subrange(from as int, to as int)[k - from] == c);
            return false;
        }
        k = k + 1;
    }
    assert forall|j: int| 0 <= j < n implies {
        let c = #[trigger] chars@.subrange(from as int, to as int)[j];
        c == 'r' || c == 'R' || c == 'b' || c == 'B' || c == 'u' || c == 'U' || c == 'f' || c
            == 'F'
    } by {
        assert(chars@.subrange(from as int, to as int)[j] == chars@[from + j]);
    }
    true
}

/// Turns the whole script into logical lines.
pub fn lex(script: &str) -> (r: Result<Vec<Logical>, Error>)
    requires
        8 * script@.len() < usize::MAX,
    ensures
        match r {
            Ok(lines) => spec_lex(script@) == Ok::<Seq<LogicalV>, Error>(lines_view(lines@))
                && total_tokens(lines_view(lines@)) <= script@.len(),
            Err(e) => spec_lex(script@) == Err::<Seq<LogicalV>, Error>(e),
        },
{
    let chars = chars_of(script);
    let mut lexer = Lexer {
        chars,
        at: 0,
        line: 1,
        depth: 0,
        open_line: 1,
        measuring: true,
        indent: 0,
        tabbed: false,
        start: 1,
        tokens: Vec::new(),
        out: Vec::new(),
    };
    let ghost s = script@;
    proof {
        lemma_lex_tokens(s, lex_start());
    }
    assert(lexer.state() == lex_start()) by {
        assert(tokens_view(lexer.tokens@) =~= Seq::<TokenV>::empty());
        assert(lines_view(lexer.out@) =~= Seq::<LogicalV>::empty());
    }
    while lexer.at < lexer.chars.len()
        invariant
            lexer.wf(),
            lexer.chars@ == s,
            s == script@,
            spec_lex(s) == lex_from(s, lexer.state()),
        decreases lex_measure(s, lexer.state()),
    {
        if lexer.measuring {
            lexer.measure();
        } else {
            match lexer.step() {
                Ok(()) => {},
                Err(e) => return Err(e),
            }
        }
    }
    if lexer.depth != 0 {
        return Err(Error { kind: ErrorKind::UnclosedBracket, line: lexer.open_line });
    }
    if lexer.tokens.len() > 0 {
        let end = lexer.line;
        lexer.finish_line(end);
    }
    Ok(lexer.out)
}

} // verus!
