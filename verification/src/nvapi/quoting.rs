//! The script's physical lines, and blocks of them quoted back verbatim with
//! the margin they share taken off.
//!
//! A guard is shown to the reader as the script spells it. The margin is an
//! artefact of where the block sits in the file, so it goes; everything else
//! stays, trailing blanks apart.

use vstd::prelude::*;

use crate::text::{chars_of, string_of_range, texts, utf8_len, utf8_width};

verus! {

/// Whether `c` is white space as `char::is_whitespace` judges it: Unicode's
/// `White_Space` property, which holds of exactly these code points.
pub open spec fn white_space(c: char) -> bool {
    let u = c as u32;
    (0x09 <= u && u <= 0x0D) || u == 0x20 || u == 0x85 || u == 0xA0 || u == 0x1680 || (0x2000 <= u
        && u <= 0x200A) || u == 0x2028 || u == 0x2029 || u == 0x202F || u == 0x205F || u == 0x3000
}

/// Whether `c` is white space: see [`white_space`].
pub(crate) fn is_white(c: char) -> (b: bool)
    ensures
        b == white_space(c),
{
    let u = c as u32;
    (0x09 <= u && u <= 0x0D) || u == 0x20 || u == 0x85 || u == 0xA0 || u == 0x1680 || (0x2000 <= u
        && u <= 0x200A) || u == 0x2028 || u == 0x2029 || u == 0x202F || u == 0x205F || u == 0x3000
}

/// The text of a physical line, a `\r` before its newline dropped.
pub open spec fn without_cr(l: Seq<char>) -> Seq<char> {
    if l.len() > 0 && l.last() == '\r' {
        l.drop_last()
    } else {
        l
    }
}

/// The physical lines of `s` from the line that starts at `start`, reading
/// from `i`, added to `acc`.
pub open spec fn lines_from(s: Seq<char>, start: int, i: int, acc: Seq<Seq<char>>) -> Seq<
    Seq<char>,
>
    decreases s.len() - i,
{
    if i < 0 || i >= s.len() {
        if 0 <= start < s.len() {
            acc.push(s.subrange(start, s.len() as int))
        } else {
            acc
        }
    } else if s[i] == '\n' {
        lines_from(s, i + 1, i + 1, acc.push(without_cr(s.subrange(start, i))))
    } else {
        lines_from(s, start, i + 1, acc)
    }
}

/// The physical lines of a text as `str::lines` splits them: at each `\n`,
/// with a `\r` before it dropped, and no empty line after a final newline.
pub open spec fn physical_lines(s: Seq<char>) -> Seq<Seq<char>> {
    lines_from(s, 0, 0, Seq::empty())
}

/// The physical lines of `script`.
pub fn physical_lines_of(script: &str) -> (r: Vec<String>)
    ensures
        texts(r@) == physical_lines(script@),
        forall|k: int| 0 <= k < r@.len() ==> (#[trigger] r@[k])@.len() <= script@.len(),
{
    let chars = chars_of(script);
    let ghost s = script@;
    let mut out: Vec<String> = Vec::new();
    let mut start: usize = 0;
    let mut i: usize = 0;
    assert(texts(out@) =~= Seq::<Seq<char>>::empty());
    while i < chars.len()
        invariant
            start <= i <= chars@.len(),
            chars@ == s,
            forall|k: int| 0 <= k < out@.len() ==> (#[trigger] out@[k])@.len() <= s.len(),
            physical_lines(s) == lines_from(s, start as int, i as int, texts(out@)),
        decreases chars@.len() - i,
    {
        if chars[i] == '\n' {
            let end = if i > start && chars[i - 1] == '\r' {
                i - 1
            } else {
                i
            };
            let line = string_of_range(chars.as_slice(), start, end);
            assert(line@ == without_cr(s.subrange(start as int, i as int)));
            let ghost before = texts(out@);
            out.push(line);
            assert(texts(out@) =~= before.push(line@));
            start = i + 1;
        }
        i = i + 1;
    }
    if start < chars.len() {
        let line = string_of_range(chars.as_slice(), start, chars.len());
        let ghost before = texts(out@);
        out.push(line);
        assert(texts(out@) =~= before.push(line@));
    }
    out
}

/// How many characters of `s` from `i` are white before one is not.
pub open spec fn lead_from(s: Seq<char>, i: int) -> int
    decreases s.len() - i,
{
    if i < 0 || i >= s.len() {
        s.len() as int
    } else if white_space(s[i]) {
        lead_from(s, i + 1)
    } else {
        i
    }
}

/// Whether `s` is nothing but white space: `str::trim` leaves it empty.
pub open spec fn blank(s: Seq<char>) -> bool {
    lead_from(s, 0) == s.len()
}

/// How many bytes of white space `s` starts with: what `str::trim_start`
/// takes off.
pub open spec fn indent_bytes(s: Seq<char>) -> nat {
    utf8_len(s.take(lead_from(s, 0)))
}

/// Where the text of `s` up to `n` ends once trailing white space is gone.
pub open spec fn trail_end(s: Seq<char>, n: int) -> int
    decreases n,
{
    if n <= 0 || n > s.len() {
        0
    } else if white_space(s[n - 1]) {
        trail_end(s, n - 1)
    } else {
        n
    }
}

/// `s` with trailing white space removed: `str::trim_end`.
pub open spec fn trimmed_end(s: Seq<char>) -> Seq<char> {
    s.take(trail_end(s, s.len() as int))
}

/// `s` after its first `m` bytes, when `m` falls between two characters (or
/// at the end): `str::get(m..)`.
pub open spec fn byte_cut(s: Seq<char>, m: int) -> Option<Seq<char>>
    decreases s.len(),
{
    if m == 0 {
        Some(s)
    } else if m < 0 || s.len() == 0 {
        None
    } else if utf8_width(s[0]) <= m {
        byte_cut(s.drop_first(), m - utf8_width(s[0]))
    } else {
        None
    }
}

/// The least indentation, in bytes, of the lines that are not blank.
pub open spec fn least_indent(src: Seq<Seq<char>>) -> Option<nat>
    decreases src.len(),
{
    if src.len() == 0 {
        None
    } else {
        let rest = least_indent(src.drop_last());
        let last = src.last();
        if blank(last) {
            rest
        } else {
            match rest {
                None => Some(indent_bytes(last)),
                Some(m) => Some(
                    if indent_bytes(last) < m {
                        indent_bytes(last)
                    } else {
                        m
                    },
                ),
            }
        }
    }
}

/// The physical lines `first` to `last` (1-based) that `raw` has.
pub open spec fn quoted_source(raw: Seq<Seq<char>>, first: int, last: int) -> Seq<Seq<char>> {
    let from = if first >= 1 {
        first - 1
    } else {
        0
    };
    let count = if last >= first {
        last - first + 1
    } else {
        1
    };
    if from >= raw.len() {
        Seq::empty()
    } else if from + count >= raw.len() {
        raw.skip(from)
    } else {
        raw.subrange(from, from + count)
    }
}

/// One quoted line: the margin cut off, or nothing when the margin falls
/// inside a character, and trailing white space removed.
pub open spec fn quoted_line(l: Seq<char>, margin: nat) -> Seq<char> {
    match byte_cut(l, margin as int) {
        Some(rest) => trimmed_end(rest),
        None => Seq::empty(),
    }
}

/// Physical lines `first` to `last`, with the indentation they share
/// removed.
pub open spec fn spec_quote(raw: Seq<Seq<char>>, first: int, last: int) -> Seq<Seq<char>> {
    let src = quoted_source(raw, first, last);
    let margin = match least_indent(src) {
        Some(m) => m,
        None => 0,
    };
    src.map_values(|l: Seq<char>| quoted_line(l, margin))
}

/// UTF-8 spends at most four bytes on a character.
proof fn lemma_utf8_len_at_most(s: Seq<char>)
    ensures
        utf8_len(s) <= 4 * s.len(),
    decreases s.len(),
{
    if s.len() > 0 {
        lemma_utf8_len_at_most(s.drop_last());
    }
}

/// How many white characters `chars` starts with.
fn lead_count(chars: &Vec<char>) -> (n: usize)
    ensures
        n == lead_from(chars@, 0),
        n <= chars@.len(),
{
    let mut i: usize = 0;
    while i < chars.len() && is_white(chars[i])
        invariant
            i <= chars@.len(),
            lead_from(chars@, 0) == lead_from(chars@, i as int),
        decreases chars@.len() - i,
    {
        i = i + 1;
    }
    i
}

/// The bytes `chars[..n]` take in UTF-8.
fn utf8_count(chars: &Vec<char>, n: usize) -> (b: usize)
    requires
        n <= chars@.len(),
        4 * chars@.len() <= usize::MAX,
    ensures
        b == utf8_len(chars@.take(n as int)),
{
    let mut b: usize = 0;
    let mut i: usize = 0;
    while i < n
        invariant
            i <= n <= chars@.len(),
            4 * chars@.len() <= usize::MAX,
            b == utf8_len(chars@.take(i as int)),
        decreases n - i,
    {
        assert(chars@.take(i + 1).drop_last() =~= chars@.take(i as int));
        proof {
            lemma_utf8_len_at_most(chars@.take(i + 1));
        }
        b = b + char_width(chars[i]);
        i = i + 1;
    }
    b
}

/// The bytes UTF-8 spends on `c`.
fn char_width(c: char) -> (w: usize)
    ensures
        w == utf8_width(c),
{
    let code = c as u32;
    if code < 0x80 {
        1
    } else if code < 0x800 {
        2
    } else if code < 0x10000 {
        3
    } else {
        4
    }
}

/// Where `chars[m bytes..]` starts, when `m` falls between characters.
fn cut_at(chars: &Vec<char>, m: usize) -> (r: Option<usize>)
    ensures
        match byte_cut(chars@, m as int) {
            Some(rest) => r matches Some(k) && k <= chars@.len() && rest == chars@.skip(k as int),
            None => r is None,
        },
{
    let mut k: usize = 0;
    let mut left: usize = m;
    assert(chars@.skip(0) =~= chars@);
    while left > 0 && k < chars.len() && char_width(chars[k]) <= left
        invariant
            k <= chars@.len(),
            left <= m,
            byte_cut(chars@, m as int) == byte_cut(chars@.skip(k as int), left as int),
        decreases chars@.len() - k,
    {
        assert(chars@.skip(k as int)[0] == chars@[k as int]);
        assert(chars@.skip(k as int).drop_first() =~= chars@.skip(k + 1));
        left = left - char_width(chars[k]);
        k = k + 1;
    }
    if left == 0 {
        Some(k)
    } else {
        proof {
            if k < chars@.len() {
                assert(chars@.skip(k as int)[0] == chars@[k as int]);
            }
        }
        None
    }
}

/// Where the text of `chars[k..]` ends once trailing white space is gone.
fn trim_end_of(chars: &Vec<char>, k: usize) -> (e: usize)
    requires
        k <= chars@.len(),
    ensures
        k <= e <= chars@.len(),
        chars@.subrange(k as int, e as int) == trimmed_end(chars@.skip(k as int)),
{
    let ghost rest = chars@.skip(k as int);
    let mut e: usize = chars.len();
    while e > k && is_white(chars[e - 1])
        invariant
            k <= e <= chars@.len(),
            rest == chars@.skip(k as int),
            trail_end(rest, rest.len() as int) == trail_end(rest, e - k),
        decreases e,
    {
        assert(rest[e - k - 1] == chars@[e - 1]);
        e = e - 1;
    }
    proof {
        if e > k {
            assert(rest[e - k - 1] == chars@[e - 1]);
        }
    }
    assert(chars@.subrange(k as int, e as int) =~= rest.take(e - k));
    e
}

/// Physical lines `first` to `last` (1-based), with the indentation they
/// share removed and trailing white space dropped.
pub fn quote(raw: &Vec<String>, first: usize, last: usize) -> (r: Vec<String>)
    requires
        forall|k: int| 0 <= k < raw@.len() ==> 4 * (#[trigger] raw@[k])@.len() <= usize::MAX,
    ensures
        texts(r@) == spec_quote(texts(raw@), first as int, last as int),
{
    let ghost rv = texts(raw@);
    let wanted: usize = if first >= 1 {
        first - 1
    } else {
        0
    };
    let from: usize = if wanted >= raw.len() {
        raw.len()
    } else {
        wanted
    };
    let span: usize = if last >= first {
        last - first
    } else {
        0
    };
    let ghost src = quoted_source(rv, first as int, last as int);
    let stop: usize = if from >= raw.len() {
        from
    } else if raw.len() - from <= span {
        raw.len()
    } else {
        from + span + 1
    };
    assert(src =~= rv.subrange(from as int, stop as int));
    // The least indentation among the lines that are not blank.
    let mut margin: Option<usize> = None;
    let mut i: usize = from;
    assert(src.take(0) =~= Seq::<Seq<char>>::empty());
    while i < stop
        invariant
            from <= i <= stop,
            from <= stop <= raw@.len(),
            src == rv.subrange(from as int, stop as int),
            rv == texts(raw@),
            forall|k: int| 0 <= k < raw@.len() ==> 4 * (#[trigger] raw@[k])@.len() <= usize::MAX,
            match least_indent(src.take(i - from)) {
                None => margin is None,
                Some(m) => margin == Some(m as usize) && m <= usize::MAX,
            },
        decreases stop - i,
    {
        let chars = chars_of(raw[i].as_str());
        assert(4 * raw@[i as int]@.len() <= usize::MAX);
        assert(src.take(i - from + 1).drop_last() =~= src.take(i - from));
        assert(src.take(i - from + 1).last() == chars@);
        let lead = lead_count(&chars);
        let ghost done = src.take(i - from);
        let ghost now = src.take(i - from + 1);
        assert(least_indent(now) == if blank(chars@) {
            least_indent(done)
        } else {
            match least_indent(done) {
                None => Some(indent_bytes(chars@)),
                Some(x) => Some(
                    if indent_bytes(chars@) < x {
                        indent_bytes(chars@)
                    } else {
                        x
                    },
                ),
            }
        });
        if lead < chars.len() {
            let bytes = utf8_count(&chars, lead);
            margin = match margin {
                None => Some(bytes),
                Some(m) => Some(
                    if bytes < m {
                        bytes
                    } else {
                        m
                    },
                ),
            };
        }
        i = i + 1;
    }
    assert(src.take(stop - from) =~= src);
    let m: usize = match margin {
        Some(m) => m,
        None => 0,
    };
    let ghost expected = spec_quote(rv, first as int, last as int);
    let mut out: Vec<String> = Vec::new();
    let mut j: usize = from;
    while j < stop
        invariant
            from <= j <= stop,
            from <= stop <= raw@.len(),
            src == rv.subrange(from as int, stop as int),
            rv == texts(raw@),
            expected == src.map_values(|l: Seq<char>| quoted_line(l, m as nat)),
            texts(out@) == expected.take(j - from),
        decreases stop - j,
    {
        let chars = chars_of(raw[j].as_str());
        assert(src[j - from] == chars@);
        let line = match cut_at(&chars, m) {
            Some(k) => {
                let e = trim_end_of(&chars, k);
                string_of_range(chars.as_slice(), k, e)
            },
            None => String::new(),
        };
        assert(line@ == quoted_line(chars@, m as nat));
        let ghost before = texts(out@);
        out.push(line);
        assert(texts(out@) =~= before.push(line@));
        j = j + 1;
        assert(expected.take(j - from) =~= expected.take(j - from - 1).push(expected[j - from - 1]));
    }
    assert(expected.take(stop - from) =~= expected);
    out
}

/// `s` with white space removed from both ends: `str::trim`.
pub open spec fn trimmed(s: Seq<char>) -> Seq<char> {
    trimmed_end(s.skip(lead_from(s, 0)))
}

/// Where the text of `chars` starts and ends once white space is trimmed
/// from both ends.
pub fn trim_range(chars: &Vec<char>) -> (r: (usize, usize))
    ensures
        r.0 <= r.1 <= chars@.len(),
        chars@.subrange(r.0 as int, r.1 as int) == trimmed(chars@),
{
    let lo = lead_count(chars);
    let hi = trim_end_of(chars, lo);
    (lo, hi)
}

/// Whether `text` is blank.
pub fn is_blank(text: &str) -> (b: bool)
    ensures
        b == blank(text@),
{
    let chars = chars_of(text);
    let mut i: usize = 0;
    while i < chars.len() && is_white(chars[i])
        invariant
            i <= chars@.len(),
            chars@ == text@,
            lead_from(text@, 0) == lead_from(text@, i as int),
        decreases chars@.len() - i,
    {
        i = i + 1;
    }
    i == chars.len()
}

} // verus!
