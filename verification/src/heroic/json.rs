//! The small JSON tree Heroic's caches need: strings, booleans and structure
//! are interpreted, and every other scalar is kept only as "something".
//!
//! The document is read character by character. Outside strings every byte
//! the grammar looks at is ASCII, so reading characters decides exactly what
//! reading the text's bytes would; the one place bytes show is the count of
//! what is left for a `\u` escape, which is counted in UTF-8 bytes.

use vstd::prelude::*;

use crate::text::{chars_of, copy_text, decimal, push_decimal, utf8_len, utf8_width};

verus! {

/// How deep a cache document may nest before it is treated as malformed. A
/// real cache is about six levels deep; the bound stops a file of `[` from
/// overflowing the stack.
pub const MAX_DEPTH: usize = 64;

/// A parsed document.
#[derive(Debug)]
pub enum Json {
    Object(Vec<(String, Json)>),
    Array(Vec<Json>),
    Text(String),
    Bool(bool),
    /// A number, `null`, or any other scalar: present, and not read.
    Other,
}

/// A document as plain values.
pub enum JsonV {
    Object(Seq<(Seq<char>, JsonV)>),
    Array(Seq<JsonV>),
    Text(Seq<char>),
    Bool(bool),
    Other,
}

/// The plain values of a document.
pub closed spec fn json_view(j: Json) -> JsonV
    decreases j,
{
    match j {
        Json::Object(m) => JsonV::Object(members_view(m@)),
        Json::Array(v) => JsonV::Array(elements_view(v@)),
        Json::Text(t) => JsonV::Text(t@),
        Json::Bool(b) => JsonV::Bool(b),
        Json::Other => JsonV::Other,
    }
}

/// The plain values of an object's members.
pub closed spec fn members_view(m: Seq<(String, Json)>) -> Seq<(Seq<char>, JsonV)>
    decreases m,
{
    if m.len() == 0 {
        Seq::empty()
    } else {
        members_view(m.drop_last()).push((m.last().0@, json_view(m.last().1)))
    }
}

/// The plain values of an array's elements.
pub closed spec fn elements_view(v: Seq<Json>) -> Seq<JsonV>
    decreases v,
{
    if v.len() == 0 {
        Seq::empty()
    } else {
        elements_view(v.drop_last()).push(json_view(v.last()))
    }
}

impl View for Json {
    type V = JsonV;

    closed spec fn view(&self) -> JsonV {
        json_view(*self)
    }
}

/// What `u8::is_ascii_whitespace` accepts.
pub open spec fn ascii_space(c: char) -> bool {
    c == ' ' || c == '\t' || c == '\n' || c == '\x0c' || c == '\r'
}

/// The first position from `i` that is not ASCII white space.
pub open spec fn space_end(s: Seq<char>, i: int) -> int
    decreases s.len() - i,
{
    if i < 0 || i >= s.len() || !ascii_space(s[i]) {
        i
    } else {
        space_end(s, i + 1)
    }
}

/// The value of a hexadecimal digit, either case.
pub open spec fn hex_digit(c: char) -> Option<nat> {
    if '0' <= c && c <= '9' {
        Some((c as nat - 48) as nat)
    } else if 'a' <= c && c <= 'f' {
        Some((c as nat - 87) as nat)
    } else if 'A' <= c && c <= 'F' {
        Some((c as nat - 55) as nat)
    } else {
        None
    }
}

/// The value of a run of hexadecimal digits.
pub open spec fn hex_value(d: Seq<char>) -> Option<nat>
    decreases d.len(),
{
    if d.len() == 0 {
        Some(0)
    } else {
        match (hex_value(d.drop_last()), hex_digit(d.last())) {
            (Some(a), Some(b)) => Some(16 * a + b),
            _ => None,
        }
    }
}

/// What `u16::from_str_radix(_, 16)` makes of four characters: hexadecimal
/// digits, after an optional `+`.
pub open spec fn unit_digits(d: Seq<char>) -> Option<nat> {
    if d.len() > 0 && d[0] == '+' {
        if d.len() > 1 {
            hex_value(d.drop_first())
        } else {
            None
        }
    } else {
        hex_value(d)
    }
}

/// The four-digit unit of a `\u` escape whose digits start at `i`.
pub open spec fn unit_at(s: Seq<char>, i: int) -> Result<(nat, int), Seq<char>> {
    if utf8_len(s.skip(i)) < 4 {
        Err("short unicode escape"@)
    } else if i + 4 > s.len() {
        Err("invalid unicode escape"@)
    } else {
        match unit_digits(s.subrange(i, i + 4)) {
            Some(v) => Ok((v, i + 4)),
            None => Err("invalid unicode escape"@),
        }
    }
}

/// The character whose code is `u`.
pub open spec fn scalar(u: nat) -> char {
    (u as u32) as char
}

/// The character a `\u` escape whose digits start at `i` stands for, with
/// the low half of a surrogate pair after it when the first unit is a high
/// half.
pub open spec fn escape_at(s: Seq<char>, i: int) -> Result<(char, int), Seq<char>> {
    match unit_at(s, i) {
        Err(m) => Err(m),
        Ok((first, j)) => if !(0xd800 <= first && first <= 0xdbff) {
            if 0xdc00 <= first && first <= 0xdfff {
                Err("invalid unicode scalar"@)
            } else {
                Ok((scalar(first), j))
            }
        } else if !(j + 2 <= s.len() && s[j] == '\\' && s[j + 1] == 'u') {
            Err("unpaired high surrogate"@)
        } else {
            match unit_at(s, j + 2) {
                Err(m) => Err(m),
                Ok((second, k)) => if !(0xdc00 <= second && second <= 0xdfff) {
                    Err("unpaired high surrogate"@)
                } else {
                    Ok((scalar((0x10000 + (first - 0xd800) * 1024 + (second - 0xdc00)) as nat), k))
                },
            }
        },
    }
}

/// The first byte of a character's UTF-8 encoding, which `{:?}` of a `u8`
/// prints in decimal.
pub open spec fn first_byte(c: char) -> nat {
    let u = c as nat;
    if u < 0x80 {
        u
    } else if u < 0x800 {
        0xc0 + u / 64
    } else if u < 0x10000 {
        0xe0 + u / 4096
    } else {
        0xf0 + u / 262144
    }
}

/// The character a one-letter escape stands for.
pub open spec fn escaped_char(e: char) -> Option<char> {
    if e == '"' {
        Some('"')
    } else if e == '\\' {
        Some('\\')
    } else if e == '/' {
        Some('/')
    } else if e == 'b' {
        Some('\x08')
    } else if e == 'f' {
        Some('\x0c')
    } else if e == 'n' {
        Some('\n')
    } else if e == 'r' {
        Some('\r')
    } else if e == 't' {
        Some('\t')
    } else {
        None
    }
}

/// The rest of a string whose contents so far are `acc`, reading from `i`:
/// its text and the position after its closing quote, or what went wrong.
pub open spec fn string_from(s: Seq<char>, i: int, acc: Seq<char>) -> Result<(Seq<char>, int), Seq<char>>
    decreases s.len() - i,
{
    if i < 0 || i >= s.len() {
        Err("unterminated string"@)
    } else {
        let c = s[i];
        if c == '"' {
            Ok((acc, i + 1))
        } else if c == '\\' {
            if i + 1 >= s.len() {
                Err("unterminated escape"@)
            } else {
                let e = s[i + 1];
                if e == 'u' {
                    match escape_at(s, i + 2) {
                        Err(m) => Err(m),
                        Ok((ch, j)) => if i < j {
                            string_from(s, j, acc.push(ch))
                        } else {
                            Err("unterminated escape"@)
                        },
                    }
                } else {
                    match escaped_char(e) {
                        Some(ch) => string_from(s, i + 2, acc.push(ch)),
                        None => Err("bad escape "@ + decimal(first_byte(e))),
                    }
                }
            }
        } else if (c as u32) < 32 {
            Err("control byte in string"@)
        } else {
            string_from(s, i + 1, acc.push(c))
        }
    }
}

/// A string read from `i`, white space before it skipped.
pub open spec fn string_at(s: Seq<char>, i: int) -> Result<(Seq<char>, int), Seq<char>> {
    let p = space_end(s, i);
    if 0 <= p < s.len() && s[p] == '"' {
        string_from(s, p + 1, Seq::empty())
    } else {
        Err("expected '\"'"@)
    }
}

/// Where a bare scalar that starts at `i` ends: at white space, `,`, `}`,
/// `]` or the end.
pub open spec fn atom_end(s: Seq<char>, i: int) -> int
    decreases s.len() - i,
{
    if i < 0 || i >= s.len() || ascii_space(s[i]) || s[i] == ',' || s[i] == '}' || s[i] == ']' {
        i
    } else {
        atom_end(s, i + 1)
    }
}

/// The message for a document nested too deep.
pub open spec fn too_deep() -> Seq<char> {
    "nested past "@ + decimal(MAX_DEPTH as nat) + " levels"@
}

/// Whether the word `w` is spelled at `p`.
pub open spec fn word_at(s: Seq<char>, p: int, w: Seq<char>) -> bool {
    0 <= p && p + w.len() <= s.len() && s.subrange(p, p + w.len()) == w
}

/// The value that starts at `i` (after white space), `depth` containers
/// being open around it.
pub open spec fn value_at(s: Seq<char>, i: int, depth: int) -> Result<(JsonV, int), Seq<char>>
    decreases s.len() - i, 0int,
{
    let p = space_end(s, i);
    if p < 0 || p >= s.len() || p < i {
        Err("expected value"@)
    } else if s[p] == '{' {
        if depth >= MAX_DEPTH {
            Err(too_deep())
        } else {
            object_open(s, p + 1, depth)
        }
    } else if s[p] == '"' {
        match string_from(s, p + 1, Seq::empty()) {
            Err(m) => Err(m),
            Ok((t, j)) => Ok((JsonV::Text(t), j)),
        }
    } else if s[p] == '[' {
        if depth >= MAX_DEPTH {
            Err(too_deep())
        } else {
            array_open(s, p + 1, depth)
        }
    } else if s[p] == 't' {
        if word_at(s, p, "true"@) {
            Ok((JsonV::Bool(true), p + "true"@.len()))
        } else {
            Err("invalid literal"@)
        }
    } else if s[p] == 'f' {
        if word_at(s, p, "false"@) {
            Ok((JsonV::Bool(false), p + "false"@.len()))
        } else {
            Err("invalid literal"@)
        }
    } else if s[p] == 'n' {
        if word_at(s, p, "null"@) {
            Ok((JsonV::Other, p + "null"@.len()))
        } else {
            Err("invalid literal"@)
        }
    } else if atom_end(s, p) > p {
        Ok((JsonV::Other, atom_end(s, p)))
    } else {
        Err("expected atom"@)
    }
}

/// An array whose `[` ends just before `q`: empty when `]` comes first,
/// else its elements.
pub open spec fn array_open(s: Seq<char>, q: int, depth: int) -> Result<(JsonV, int), Seq<char>>
    decreases s.len() - q, 2int,
{
    let q1 = space_end(s, q);
    if q1 < q || q1 > s.len() {
        Err("expected value"@)
    } else if 0 <= q1 < s.len() && s[q1] == ']' {
        Ok((JsonV::Array(Seq::empty()), q1 + 1))
    } else {
        elements_from(s, q1, depth, Seq::empty())
    }
}

/// The elements of an array from `i` on, after `acc`: each a value one
/// level deeper, separated by `,`, up to `]`.
pub open spec fn elements_from(s: Seq<char>, i: int, depth: int, acc: Seq<JsonV>) -> Result<
    (JsonV, int),
    Seq<char>,
>
    decreases s.len() - i, 1int,
{
    match value_at(s, i, depth + 1) {
        Err(m) => Err(m),
        Ok((v, k)) => {
            let all = acc.push(v);
            let k1 = space_end(s, k);
            if 0 <= k1 < s.len() && s[k1] == ']' {
                Ok((JsonV::Array(all), k1 + 1))
            } else if 0 <= k1 < s.len() && s[k1] == ',' {
                if i < k1 + 1 {
                    elements_from(s, k1 + 1, depth, all)
                } else {
                    Err("expected value"@)
                }
            } else {
                Err("expected ','"@)
            }
        },
    }
}

/// An object whose `{` ends just before `q`: empty when `}` comes first,
/// else its members.
pub open spec fn object_open(s: Seq<char>, q: int, depth: int) -> Result<(JsonV, int), Seq<char>>
    decreases s.len() - q, 2int,
{
    let q1 = space_end(s, q);
    if q1 < q || q1 > s.len() {
        Err("expected value"@)
    } else if 0 <= q1 < s.len() && s[q1] == '}' {
        Ok((JsonV::Object(Seq::empty()), q1 + 1))
    } else {
        members_from(s, q1, depth, Seq::empty())
    }
}

/// The members of an object from `i` on, after `acc`: each a string key,
/// `:`, and a value one level deeper, separated by `,`, up to `}`.
pub open spec fn members_from(
    s: Seq<char>,
    i: int,
    depth: int,
    acc: Seq<(Seq<char>, JsonV)>,
) -> Result<(JsonV, int), Seq<char>>
    decreases s.len() - i, 1int,
{
    match string_at(s, i) {
        Err(m) => Err(m),
        Ok((key, j)) => {
            let j1 = space_end(s, j);
            if !(0 <= j1 < s.len() && s[j1] == ':') {
                Err("expected ':'"@)
            } else if j1 + 1 <= i {
                Err("expected value"@)
            } else {
                match value_at(s, j1 + 1, depth + 1) {
                    Err(m) => Err(m),
                    Ok((v, k)) => {
                        let all = acc.push((key, v));
                        let k1 = space_end(s, k);
                        if 0 <= k1 < s.len() && s[k1] == '}' {
                            Ok((JsonV::Object(all), k1 + 1))
                        } else if 0 <= k1 < s.len() && s[k1] == ',' {
                            if i < k1 + 1 {
                                members_from(s, k1 + 1, depth, all)
                            } else {
                                Err("expected value"@)
                            }
                        } else {
                            Err("expected ','"@)
                        }
                    },
                }
            }
        },
    }
}

/// What [`parse`] makes of a document: one value with nothing but white
/// space after it, or the first thing that is wrong.
pub open spec fn spec_parse_json(s: Seq<char>) -> Result<JsonV, Seq<char>> {
    match value_at(s, 0, 0) {
        Err(m) => Err(m),
        Ok((v, k)) => if space_end(s, k) == s.len() {
            Ok(v)
        } else {
            Err("trailing data"@)
        },
    }
}

/// A member more adds its plain values.
proof fn lemma_members_push(m: Seq<(String, Json)>, x: (String, Json))
    ensures
        members_view(m.push(x)) == members_view(m).push((x.0@, json_view(x.1))),
{
    assert(m.push(x).drop_last() =~= m);
}

/// An element more adds its plain values.
proof fn lemma_elements_push(v: Seq<Json>, x: Json)
    ensures
        elements_view(v.push(x)) == elements_view(v).push(json_view(x)),
{
    assert(v.push(x).drop_last() =~= v);
}

/// Calls `char::from_u32`, which the documentation says gives the character
/// with that code when it is a Unicode scalar value (not a surrogate, not
/// past `0x10FFFF`) and `None` otherwise.
#[verifier::external_body]
fn char_from(u: u32) -> (c: Option<char>)
    ensures
        c is Some <==> (u < 0xd800 || (0xe000 <= u && u <= 0x10ffff)),
        c matches Some(x) ==> x as u32 == u,
{
    char::from_u32(u)
}

/// The value of one hexadecimal digit.
fn hex_of(c: char) -> (r: Option<u32>)
    ensures
        match hex_digit(c) {
            Some(v) => r == Some(v as u32),
            None => r is None,
        },
{
    if '0' <= c && c <= '9' {
        Some(c as u32 - 48)
    } else if 'a' <= c && c <= 'f' {
        Some(c as u32 - 87)
    } else if 'A' <= c && c <= 'F' {
        Some(c as u32 - 55)
    } else {
        None
    }
}

/// Sixteen to the power `n`.
spec fn pow16(n: int) -> nat
    decreases n,
{
    if n <= 0 {
        1
    } else {
        16 * pow16(n - 1)
    }
}

/// The value of the hexadecimal digits `chars[lo..hi]`, at most four.
fn hex_run(chars: &Vec<char>, lo: usize, hi: usize) -> (r: Option<u32>)
    requires
        lo <= hi <= chars@.len(),
        hi - lo <= 4,
    ensures
        match hex_value(chars@.subrange(lo as int, hi as int)) {
            Some(v) => r == Some(v as u32) && v < 0x10000,
            None => r is None,
        },
{
    let ghost d = chars@.subrange(lo as int, hi as int);
    let mut val: u32 = 0;
    let mut j: usize = lo;
    assert(pow16(4) == 65536) by {
        reveal_with_fuel(pow16, 5);
    }
    while j < hi
        invariant
            lo <= j <= hi <= chars@.len(),
            hi - lo <= 4,
            d == chars@.subrange(lo as int, hi as int),
            pow16(4) == 65536,
            hex_value(d.take(j - lo)) == Some(val as nat),
            val < pow16(j - lo),
            pow16(j - lo) <= pow16(4),
        decreases hi - j,
    {
        assert(d.take(j - lo + 1).drop_last() =~= d.take(j - lo));
        assert(d.take(j - lo + 1).last() == chars@[j as int]);
        assert(pow16(j - lo + 1) == 16 * pow16(j - lo));
        proof {
            if j - lo + 1 <= 4 {
                lemma_pow16_mono(j - lo + 1, 4);
            }
        }
        match hex_of(chars[j]) {
            Some(x) => {
                val = 16 * val + x;
            },
            None => {
                proof {
                    lemma_hex_none_stays(d, j - lo + 1);
                }
                return None;
            },
        }
        j = j + 1;
    }
    assert(d.take(j - lo) =~= d);
    Some(val)
}

/// Powers of sixteen grow with the exponent.
proof fn lemma_pow16_mono(a: int, b: int)
    requires
        0 <= a <= b,
    ensures
        pow16(a) <= pow16(b),
    decreases b - a,
{
    if a < b {
        lemma_pow16_mono(a, b - 1);
    }
}

/// A run with a bad digit in its first `n` stays unreadable.
proof fn lemma_hex_none_stays(d: Seq<char>, n: int)
    requires
        0 <= n <= d.len(),
        hex_value(d.take(n)) is None,
    ensures
        hex_value(d) is None,
    decreases d.len() - n,
{
    if n < d.len() {
        assert(d.take(n + 1).drop_last() =~= d.take(n));
        lemma_hex_none_stays(d, n + 1);
    } else {
        assert(d.take(n) =~= d);
    }
}

/// The bytes UTF-8 spends on `c`.
fn width_of(c: char) -> (w: usize)
    ensures
        w == utf8_width(c),
{
    let code = c as u32;
    if code < 0x80 {
        1
    } else if code < 0x800 {
        2
    } else if code < 0x10000 {
        3
    } else {
        4
    }
}

/// A cursor over the document's characters.
struct JsonParser {
    chars: Vec<char>,
    at: usize,
}

impl JsonParser {
    spec fn wf(&self) -> bool {
        self.at <= self.chars@.len() < usize::MAX
    }

    /// Skips ASCII white space.
    fn space(&mut self)
        requires
            old(self).wf(),
        ensures
            final(self).wf(),
            final(self).chars@ == old(self).chars@,
            final(self).at == space_end(old(self).chars@, old(self).at as int),
    {
        let ghost s = self.chars@;
        let ghost start = self.at as int;
        while self.at < self.chars.len() && (self.chars[self.at] == ' ' || self.chars[self.at]
            == '\t' || self.chars[self.at] == '\n' || self.chars[self.at] == '\x0c'
            || self.chars[self.at] == '\r')
            invariant
                self.wf(),
                self.chars@ == s,
                space_end(s, start) == space_end(s, self.at as int),
            decreases s.len() - self.at,
        {
            self.at = self.at + 1;
        }
    }

    /// Whether at least four bytes of the document are left from `at`.
    fn four_bytes_left(&self) -> (b: bool)
        requires
            self.wf(),
        ensures
            b == (utf8_len(self.chars@.skip(self.at as int)) >= 4),
    {
        let ghost s = self.chars@;
        let ghost rest = s.skip(self.at as int);
        let mut k: usize = self.at;
        let mut acc: usize = 0;
        while k < self.chars.len() && acc < 4
            invariant
                self.at <= k <= s.len(),
                s == self.chars@,
                rest == s.skip(self.at as int),
                acc == utf8_len(s.subrange(self.at as int, k as int)),
                acc <= 8,
            decreases s.len() - k,
        {
            assert(s.subrange(self.at as int, k + 1).drop_last() =~= s.subrange(
                self.at as int,
                k as int,
            ));
            acc = acc + width_of(self.chars[k]);
            k = k + 1;
        }
        if acc >= 4 {
            assert(rest.take(k - self.at) =~= s.subrange(self.at as int, k as int));
            proof {
                crate::text::lemma_utf8_len_prefix(rest, k - self.at);
            }
            true
        } else {
            assert(s.subrange(self.at as int, k as int) =~= rest);
            false
        }
    }

    /// The four-digit unit of a `\u` escape.
    fn unit(&mut self) -> (r: Result<u32, String>)
        requires
            old(self).wf(),
        ensures
            final(self).wf(),
            final(self).chars@ == old(self).chars@,
            match r {
                Ok(v) => unit_at(old(self).chars@, old(self).at as int) == Ok::<
                    (nat, int),
                    Seq<char>,
                >((v as nat, final(self).at as int)) && v < 0x10000,
                Err(m) => unit_at(old(self).chars@, old(self).at as int) is Err && unit_at(
                    old(self).chars@,
                    old(self).at as int,
                ) == Err::<(nat, int), Seq<char>>(m@),
            },
    {
        let ghost s = self.chars@;
        if !self.four_bytes_left() {
            return Err(copy_text("short unicode escape"));
        }
        let n = self.chars.len();
        if n - self.at < 4 {
            return Err(copy_text("invalid unicode escape"));
        }
        let lo = self.at;
        let ghost d = s.subrange(lo as int, lo + 4);
        let value = if self.chars[lo] == '+' {
            assert(d[0] == '+');
            assert(d.drop_first() =~= s.subrange(lo + 1, lo + 4));
            hex_run(&self.chars, lo + 1, lo + 4)
        } else {
            assert(d[0] == s[lo as int]);
            hex_run(&self.chars, lo, lo + 4)
        };
        match value {
            Some(v) => {
                self.at = lo + 4;
                Ok(v)
            },
            None => Err(copy_text("invalid unicode escape")),
        }
    }

    /// The character a `\u` escape stands for, its digits starting at
    /// `at`.
    fn escape(&mut self) -> (r: Result<char, String>)
        requires
            old(self).wf(),
        ensures
            final(self).wf(),
            final(self).chars@ == old(self).chars@,
            match r {
                Ok(c) => escape_at(old(self).chars@, old(self).at as int) == Ok::<
                    (char, int),
                    Seq<char>,
                >((c, final(self).at as int)) && old(self).at < final(self).at,
                Err(m) => escape_at(old(self).chars@, old(self).at as int) == Err::<
                    (char, int),
                    Seq<char>,
                >(m@),
            },
    {
        let ghost s = self.chars@;
        let ghost start = self.at as int;
        let first = match self.unit() {
            Ok(v) => v,
            Err(m) => return Err(m),
        };
        if !(0xd800 <= first && first <= 0xdbff) {
            return match char_from(first) {
                Some(c) => {
                    proof {
                        vstd::utf8::char_u32_cast(c, first);
                    }
                    assert(c == scalar(first as nat));
                    Ok(c)
                },
                None => Err(copy_text("invalid unicode scalar")),
            };
        }
        let n = self.chars.len();
        if !(n - self.at >= 2 && self.chars[self.at] == '\\' && self.chars[self.at + 1] == 'u') {
            return Err(copy_text("unpaired high surrogate"));
        }
        self.at = self.at + 2;
        let second = match self.unit() {
            Ok(v) => v,
            Err(m) => return Err(m),
        };
        if !(0xdc00 <= second && second <= 0xdfff) {
            return Err(copy_text("unpaired high surrogate"));
        }
        let code: u32 = 0x10000 + (first - 0xd800) * 1024 + (second - 0xdc00);
        match char_from(code) {
            Some(c) => {
                proof {
                    vstd::utf8::char_u32_cast(c, code);
                }
                assert(c == scalar(code as nat));
                Ok(c)
            },
            None => Err(copy_text("invalid unicode scalar")),
        }
    }
}

impl JsonParser {
    /// The message for a byte after a backslash that escapes nothing.
    fn bad_escape(e: char) -> (m: String)
        ensures
            m@ == "bad escape "@ + decimal(first_byte(e)),
    {
        let code = e as u32;
        let b: u32 = if code < 0x80 {
            code
        } else if code < 0x800 {
            0xc0 + code / 64
        } else if code < 0x10000 {
            0xe0 + code / 4096
        } else {
            0xf0 + code / 262144
        };
        let mut m = String::new();
        m.push_str("bad escape ");
        push_decimal(&mut m, b as u64);
        m
    }

    /// The message for a document nested too deep.
    fn too_deep_message() -> (m: String)
        ensures
            m@ == too_deep(),
    {
        let mut m = String::new();
        m.push_str("nested past ");
        push_decimal(&mut m, MAX_DEPTH as u64);
        m.push_str(" levels");
        m
    }

    /// The rest of a string after its opening quote.
    fn string_rest(&mut self) -> (r: Result<String, String>)
        requires
            old(self).wf(),
        ensures
            final(self).wf(),
            final(self).chars@ == old(self).chars@,
            match r {
                Ok(t) => string_from(old(self).chars@, old(self).at as int, Seq::empty()) == Ok::<
                    (Seq<char>, int),
                    Seq<char>,
                >((t@, final(self).at as int)) && old(self).at < final(self).at,
                Err(m) => string_from(old(self).chars@, old(self).at as int, Seq::empty())
                    == Err::<(Seq<char>, int), Seq<char>>(m@),
            },
    {
        let ghost s = self.chars@;
        let ghost start = self.at;
        let mut out = String::new();
        loop
            invariant
                self.wf(),
                self.chars@ == s,
                s == old(self).chars@,
                start == old(self).at,
                start <= self.at,
                string_from(s, start as int, Seq::empty()) == string_from(
                    s,
                    self.at as int,
                    out@,
                ),
            decreases s.len() - self.at,
        {
            if self.at >= self.chars.len() {
                return Err(copy_text("unterminated string"));
            }
            let c = self.chars[self.at];
            if c == '"' {
                self.at = self.at + 1;
                return Ok(out);
            }
            if c == '\\' {
                if self.at + 1 >= self.chars.len() {
                    return Err(copy_text("unterminated escape"));
                }
                let e = self.chars[self.at + 1];
                if e == 'u' {
                    self.at = self.at + 2;
                    match self.escape() {
                        Ok(ch) => {
                            out.push(ch);
                        },
                        Err(m) => return Err(m),
                    }
                } else {
                    let ch = if e == '"' {
                        '"'
                    } else if e == '\\' {
                        '\\'
                    } else if e == '/' {
                        '/'
                    } else if e == 'b' {
                        '\x08'
                    } else if e == 'f' {
                        '\x0c'
                    } else if e == 'n' {
                        '\n'
                    } else if e == 'r' {
                        '\r'
                    } else if e == 't' {
                        '\t'
                    } else {
                        return Err(Self::bad_escape(e));
                    };
                    out.push(ch);
                    self.at = self.at + 2;
                }
            } else if (c as u32) < 32 {
                return Err(copy_text("control byte in string"));
            } else {
                out.push(c);
                self.at = self.at + 1;
            }
        }
    }

    /// A string, white space before it skipped.
    fn string_value(&mut self) -> (r: Result<String, String>)
        requires
            old(self).wf(),
        ensures
            final(self).wf(),
            final(self).chars@ == old(self).chars@,
            match r {
                Ok(t) => string_at(old(self).chars@, old(self).at as int) == Ok::<
                    (Seq<char>, int),
                    Seq<char>,
                >((t@, final(self).at as int)) && old(self).at < final(self).at,
                Err(m) => string_at(old(self).chars@, old(self).at as int) == Err::<
                    (Seq<char>, int),
                    Seq<char>,
                >(m@),
            },
    {
        let ghost s = self.chars@;
        let ghost i = self.at as int;
        self.space();
        proof {
            lemma_space_end(s, i);
        }
        if self.at < self.chars.len() && self.chars[self.at] == '"' {
            self.at = self.at + 1;
            self.string_rest()
        } else {
            Err(copy_text("expected '\"'"))
        }
    }

    /// Whether `word` is spelled at `at`.
    fn word_here(&self, word: &str) -> (b: bool)
        requires
            self.wf(),
        ensures
            b == word_at(self.chars@, self.at as int, word@),
    {
        let w = chars_of(word);
        let n = self.chars.len();
        if n - self.at < w.len() {
            return false;
        }
        let mut k: usize = 0;
        while k < w.len()
            invariant
                k <= w@.len(),
                self.at + w@.len() <= self.chars@.len(),
                n == self.chars@.len(),
                w@ == word@,
                forall|j: int| 0 <= j < k ==> self.chars@[self.at + j] == w@[j],
            decreases w@.len() - k,
        {
            if self.chars[self.at + k] != w[k] {
                assert(self.chars@.subrange(self.at as int, self.at + w@.len())[k as int]
                    != w@[k as int]);
                return false;
            }
            k = k + 1;
        }
        assert(self.chars@.subrange(self.at as int, self.at + w@.len()) =~= w@);
        true
    }

    /// The literal `true`, `false` or `null` that starts with `c` at `at`.
    fn literal(&mut self, c: char) -> (r: Result<Json, String>)
        requires
            old(self).wf(),
            old(self).at < old(self).chars@.len(),
            old(self).chars@[old(self).at as int] == c,
            c == 't' || c == 'f' || c == 'n',
        ensures
            final(self).wf(),
            final(self).chars@ == old(self).chars@,
            match r {
                Ok(v) => {
                    let (w, j) = if c == 't' {
                        ("true"@, JsonV::Bool(true))
                    } else if c == 'f' {
                        ("false"@, JsonV::Bool(false))
                    } else {
                        ("null"@, JsonV::Other)
                    };
                    word_at(old(self).chars@, old(self).at as int, w) && v@ == j && final(self).at
                        == old(self).at + w.len() && old(self).at < final(self).at
                },
                Err(m) => m@ == "invalid literal"@ && !word_at(
                    old(self).chars@,
                    old(self).at as int,
                    if c == 't' {
                        "true"@
                    } else if c == 'f' {
                        "false"@
                    } else {
                        "null"@
                    },
                ),
            },
    {
        proof {
            reveal_strlit("true");
            reveal_strlit("false");
            reveal_strlit("null");
        }
        if c == 't' {
            if self.word_here("true") {
                self.at = self.at + 4;
                let v = Json::Bool(true);
                assert(v@ == JsonV::Bool(true)) by {
                    reveal_with_fuel(json_view, 1);
                }
                return Ok(v);
            }
        } else if c == 'f' {
            if self.word_here("false") {
                self.at = self.at + 5;
                let v = Json::Bool(false);
                assert(v@ == JsonV::Bool(false)) by {
                    reveal_with_fuel(json_view, 1);
                }
                return Ok(v);
            }
        } else {
            if self.word_here("null") {
                self.at = self.at + 4;
                let v = Json::Other;
                assert(v@ == JsonV::Other) by {
                    reveal_with_fuel(json_view, 1);
                }
                return Ok(v);
            }
        }
        Err(copy_text("invalid literal"))
    }

    /// The value at `at`, `depth` containers being open around it.
    #[verifier::rlimit(30)]
    fn value(&mut self, depth: usize) -> (r: Result<Json, String>)
        requires
            old(self).wf(),
            depth <= MAX_DEPTH,
        ensures
            final(self).wf(),
            final(self).chars@ == old(self).chars@,
            match r {
                Ok(v) => value_at(old(self).chars@, old(self).at as int, depth as int) == Ok::<
                    (JsonV, int),
                    Seq<char>,
                >((v@, final(self).at as int)) && old(self).at < final(self).at,
                Err(m) => value_at(old(self).chars@, old(self).at as int, depth as int) == Err::<
                    (JsonV, int),
                    Seq<char>,
                >(m@),
            },
        decreases MAX_DEPTH - depth, 1int,
    {
        let ghost s = self.chars@;
        let ghost i = self.at as int;
        self.space();
        proof {
            lemma_space_end(s, i);
        }
        if self.at >= self.chars.len() {
            return Err(copy_text("expected value"));
        }
        let c = self.chars[self.at];
        if c == '{' {
            if depth >= MAX_DEPTH {
                return Err(Self::too_deep_message());
            }
            self.at = self.at + 1;
            return self.object_open(depth);
        }
        if c == '"' {
            self.at = self.at + 1;
            return match self.string_rest() {
                Ok(t) => {
                    let v = Json::Text(t);
                    assert(v@ == JsonV::Text(t@)) by {
                        reveal_with_fuel(json_view, 1);
                    }
                    Ok(v)
                },
                Err(m) => Err(m),
            };
        }
        if c == '[' {
            if depth >= MAX_DEPTH {
                return Err(Self::too_deep_message());
            }
            self.at = self.at + 1;
            return self.array_open(depth);
        }
        if c == 't' || c == 'f' || c == 'n' {
            return self.literal(c);
        }
        let start = self.at;
        while self.at < self.chars.len() && !(self.chars[self.at] == ' ' || self.chars[self.at]
            == '\t' || self.chars[self.at] == '\n' || self.chars[self.at] == '\x0c'
            || self.chars[self.at] == '\r' || self.chars[self.at] == ',' || self.chars[self.at]
            == '}' || self.chars[self.at] == ']')
            invariant
                self.wf(),
                self.chars@ == s,
                start <= self.at,
                atom_end(s, start as int) == atom_end(s, self.at as int),
            decreases s.len() - self.at,
        {
            self.at = self.at + 1;
        }
        if self.at > start {
            let v = Json::Other;
            assert(v@ == JsonV::Other) by {
                reveal_with_fuel(json_view, 1);
            }
            Ok(v)
        } else {
            Err(copy_text("expected atom"))
        }
    }

    /// An array whose `[` is behind `at`.
    #[verifier::rlimit(30)]
    fn array_open(&mut self, depth: usize) -> (r: Result<Json, String>)
        requires
            old(self).wf(),
            depth < MAX_DEPTH,
        ensures
            final(self).wf(),
            final(self).chars@ == old(self).chars@,
            match r {
                Ok(v) => array_open(old(self).chars@, old(self).at as int, depth as int) == Ok::<
                    (JsonV, int),
                    Seq<char>,
                >((v@, final(self).at as int)) && old(self).at < final(self).at,
                Err(m) => array_open(old(self).chars@, old(self).at as int, depth as int)
                    == Err::<(JsonV, int), Seq<char>>(m@),
            },
        decreases MAX_DEPTH - depth, 0int,
    {
        let ghost s = self.chars@;
        let ghost q = self.at as int;
        self.space();
        proof {
            lemma_space_end(s, q);
        }
        if self.at < self.chars.len() && self.chars[self.at] == ']' {
            self.at = self.at + 1;
            let values: Vec<Json> = Vec::new();
            let v = Json::Array(values);
            assert(v@ == JsonV::Array(Seq::empty())) by {
                reveal_with_fuel(json_view, 1);
                reveal_with_fuel(elements_view, 1);
            }
            return Ok(v);
        }
        let mut values: Vec<Json> = Vec::new();
        assert(elements_view(values@) =~= Seq::<JsonV>::empty()) by {
            reveal_with_fuel(elements_view, 1);
        }
        loop
            invariant
                self.wf(),
                self.chars@ == s,
                s == old(self).chars@,
                q == old(self).at,
                q <= self.at,
                depth < MAX_DEPTH,
                array_open(s, q, depth as int) == elements_from(
                    s,
                    self.at as int,
                    depth as int,
                    elements_view(values@),
                ),
            decreases s.len() - self.at,
        {
            let ghost i = self.at as int;
            let v = match self.value(depth + 1) {
                Ok(v) => v,
                Err(m) => return Err(m),
            };
            proof {
                lemma_elements_push(values@, v);
            }
            let ghost before = values@;
            values.push(v);
            assert(values@ == before.push(v));
            let ghost k = self.at as int;
            self.space();
            proof {
                lemma_space_end(s, k);
            }
            if self.at < self.chars.len() && self.chars[self.at] == ']' {
                self.at = self.at + 1;
                let a = Json::Array(values);
                assert(a@ == JsonV::Array(elements_view(values@))) by {
                    reveal_with_fuel(json_view, 1);
                }
                return Ok(a);
            }
            if self.at < self.chars.len() && self.chars[self.at] == ',' {
                self.at = self.at + 1;
            } else {
                return Err(copy_text("expected ','"));
            }
        }
    }

    /// An object whose `{` is behind `at`.
    #[verifier::rlimit(30)]
    fn object_open(&mut self, depth: usize) -> (r: Result<Json, String>)
        requires
            old(self).wf(),
            depth < MAX_DEPTH,
        ensures
            final(self).wf(),
            final(self).chars@ == old(self).chars@,
            match r {
                Ok(v) => object_open(old(self).chars@, old(self).at as int, depth as int) == Ok::<
                    (JsonV, int),
                    Seq<char>,
                >((v@, final(self).at as int)) && old(self).at < final(self).at,
                Err(m) => object_open(old(self).chars@, old(self).at as int, depth as int)
                    == Err::<(JsonV, int), Seq<char>>(m@),
            },
        decreases MAX_DEPTH - depth, 0int,
    {
        let ghost s = self.chars@;
        let ghost q = self.at as int;
        self.space();
        proof {
            lemma_space_end(s, q);
        }
        if self.at < self.chars.len() && self.chars[self.at] == '}' {
            self.at = self.at + 1;
            let members: Vec<(String, Json)> = Vec::new();
            let v = Json::Object(members);
            assert(v@ == JsonV::Object(Seq::empty())) by {
                reveal_with_fuel(json_view, 1);
                reveal_with_fuel(members_view, 1);
            }
            return Ok(v);
        }
        let mut members: Vec<(String, Json)> = Vec::new();
        assert(members_view(members@) =~= Seq::<(Seq<char>, JsonV)>::empty()) by {
            reveal_with_fuel(members_view, 1);
        }
        loop
            invariant
                self.wf(),
                self.chars@ == s,
                s == old(self).chars@,
                q == old(self).at,
                q <= self.at,
                depth < MAX_DEPTH,
                object_open(s, q, depth as int) == members_from(
                    s,
                    self.at as int,
                    depth as int,
                    members_view(members@),
                ),
            decreases s.len() - self.at,
        {
            let ghost i = self.at as int;
            let key = match self.string_value() {
                Ok(k) => k,
                Err(m) => return Err(m),
            };
            let ghost j = self.at as int;
            self.space();
            proof {
                lemma_space_end(s, j);
            }
            if !(self.at < self.chars.len() && self.chars[self.at] == ':') {
                return Err(copy_text("expected ':'"));
            }
            self.at = self.at + 1;
            let v = match self.value(depth + 1) {
                Ok(v) => v,
                Err(m) => return Err(m),
            };
            let ghost keyv = key@;
            proof {
                lemma_members_push(members@, (key, v));
            }
            let ghost before = members@;
            members.push((key, v));
            assert(members@ == before.push((key, v)));
            let ghost k = self.at as int;
            self.space();
            proof {
                lemma_space_end(s, k);
            }
            if self.at < self.chars.len() && self.chars[self.at] == '}' {
                self.at = self.at + 1;
                let o = Json::Object(members);
                assert(o@ == JsonV::Object(members_view(members@))) by {
                    reveal_with_fuel(json_view, 1);
                }
                return Ok(o);
            }
            if self.at < self.chars.len() && self.chars[self.at] == ',' {
                self.at = self.at + 1;
            } else {
                return Err(copy_text("expected ','"));
            }
        }
    }
}

/// White space skipped from `i` ends at `i` or after it, within the text.
proof fn lemma_space_end(s: Seq<char>, i: int)
    requires
        0 <= i <= s.len(),
    ensures
        i <= space_end(s, i) <= s.len(),
    decreases s.len() - i,
{
    if i < s.len() && ascii_space(s[i]) {
        lemma_space_end(s, i + 1);
    }
}

/// Reads one JSON document: a single value with nothing but white space
/// after it.
pub fn parse(text: &str) -> (r: Result<Json, String>)
    requires
        text@.len() < usize::MAX,
    ensures
        match r {
            Ok(v) => spec_parse_json(text@) == Ok::<JsonV, Seq<char>>(v@),
            Err(m) => spec_parse_json(text@) == Err::<JsonV, Seq<char>>(m@),
        },
{
    let mut parser = JsonParser { chars: chars_of(text), at: 0 };
    let value = match parser.value(0) {
        Ok(v) => v,
        Err(m) => return Err(m),
    };
    parser.space();
    if parser.at == parser.chars.len() {
        Ok(value)
    } else {
        Err(copy_text("trailing data"))
    }
}

/// The first member of `m` from index `k` named `key`.
pub open spec fn first_member(m: Seq<(Seq<char>, JsonV)>, key: Seq<char>, k: int) -> Option<JsonV>
    decreases m.len() - k,
{
    if k < 0 || k >= m.len() {
        None
    } else if m[k].0 == key {
        Some(m[k].1)
    } else {
        first_member(m, key, k + 1)
    }
}

/// The member of an object named `key`: the first one, when a key repeats.
pub open spec fn json_get(j: JsonV, key: Seq<char>) -> Option<JsonV> {
    match j {
        JsonV::Object(m) => first_member(m, key, 0),
        _ => None,
    }
}

/// The value reached by following `keys` member by member.
pub open spec fn json_pointer(j: JsonV, keys: Seq<Seq<char>>) -> Option<JsonV>
    decreases keys.len(),
{
    if keys.len() == 0 {
        Some(j)
    } else {
        match json_get(j, keys[0]) {
            Some(v) => json_pointer(v, keys.drop_first()),
            None => None,
        }
    }
}

/// The text of a value that is a string.
pub open spec fn as_text(o: Option<JsonV>) -> Option<Seq<char>> {
    match o {
        Some(JsonV::Text(t)) => Some(t),
        _ => None,
    }
}

/// The truth of a value that is a boolean.
pub open spec fn as_bool(o: Option<JsonV>) -> Option<bool> {
    match o {
        Some(JsonV::Bool(b)) => Some(b),
        _ => None,
    }
}

/// The first of two lookups that found something.
pub open spec fn either(a: Option<JsonV>, b: Option<JsonV>) -> Option<JsonV> {
    match a {
        Some(x) => Some(x),
        None => b,
    }
}

/// Each member's plain values, in place.
pub proof fn lemma_members_index(m: Seq<(String, Json)>)
    ensures
        members_view(m).len() == m.len(),
        forall|i: int| 0 <= i < m.len() ==> #[trigger] members_view(m)[i] == (m[i].0@, m[i].1@),
    decreases m.len(),
{
    if m.len() > 0 {
        lemma_members_index(m.drop_last());
    }
}

/// Each element's plain values, in place.
pub proof fn lemma_elements_index(v: Seq<Json>)
    ensures
        elements_view(v).len() == v.len(),
        forall|i: int| 0 <= i < v.len() ==> #[trigger] elements_view(v)[i] == v[i]@,
    decreases v.len(),
{
    if v.len() > 0 {
        lemma_elements_index(v.drop_last());
    }
}

impl Json {
    /// The members, when this is an object.
    pub fn members(&self) -> (r: Option<&Vec<(String, Json)>>)
        ensures
            match r {
                Some(m) => self@ == JsonV::Object(members_view(m@)),
                None => !(self@ is Object),
            },
    {
        proof {
            reveal_with_fuel(json_view, 1);
        }
        match self {
            Json::Object(m) => Some(m),
            _ => None,
        }
    }

    /// Whether this is a number, `null` or another scalar that is not read.
    pub fn is_other(&self) -> (b: bool)
        ensures
            b == (self@ is Other),
    {
        proof {
            reveal_with_fuel(json_view, 1);
        }
        match self {
            Json::Other => true,
            _ => false,
        }
    }

    /// The elements, when this is an array.
    pub fn elements(&self) -> (r: Option<&Vec<Json>>)
        ensures
            match r {
                Some(v) => self@ == JsonV::Array(elements_view(v@)),
                None => !(self@ is Array),
            },
    {
        proof {
            reveal_with_fuel(json_view, 1);
        }
        match self {
            Json::Array(v) => Some(v),
            _ => None,
        }
    }

    /// The text, when this is a string.
    pub fn text(&self) -> (r: Option<&str>)
        ensures
            match r {
                Some(t) => self@ == JsonV::Text(t@),
                None => !(self@ is Text),
            },
    {
        proof {
            reveal_with_fuel(json_view, 1);
        }
        match self {
            Json::Text(t) => Some(t.as_str()),
            _ => None,
        }
    }

    /// The truth, when this is a boolean.
    pub fn boolean(&self) -> (r: Option<bool>)
        ensures
            r == as_bool(Some(self@)),
    {
        proof {
            reveal_with_fuel(json_view, 1);
        }
        match self {
            Json::Bool(b) => Some(*b),
            _ => None,
        }
    }

    /// Whether this is an object with no members.
    pub fn is_empty_object(&self) -> (b: bool)
        ensures
            b == (self@ == JsonV::Object(Seq::empty())),
    {
        match self.members() {
            Some(m) => {
                proof {
                    lemma_members_index(m@);
                }
                if m.len() == 0 {
                    assert(members_view(m@) =~= Seq::<(Seq<char>, JsonV)>::empty());
                    true
                } else {
                    false
                }
            },
            None => false,
        }
    }

    /// The member named `key`: the first one, when a key repeats.
    pub fn get(&self, key: &str) -> (r: Option<&Json>)
        ensures
            match r {
                Some(v) => json_get(self@, key@) == Some(v@),
                None => json_get(self@, key@) is None,
            },
    {
        let m = match self.members() {
            Some(m) => m,
            None => return None,
        };
        let ghost mv = members_view(m@);
        proof {
            lemma_members_index(m@);
        }
        let mut k: usize = 0;
        while k < m.len()
            invariant
                k <= m@.len(),
                mv == members_view(m@),
                self@ == JsonV::Object(mv),
                mv.len() == m@.len(),
                forall|i: int| 0 <= i < m@.len() ==> #[trigger] mv[i] == (m@[i].0@, m@[i].1@),
                first_member(mv, key@, 0) == first_member(mv, key@, k as int),
            decreases m@.len() - k,
        {
            if crate::text::same_text(m[k].0.as_str(), key) {
                assert(mv[k as int].0 == key@);
                return Some(&m[k].1);
            }
            k = k + 1;
        }
        None
    }
}

} // verus!
