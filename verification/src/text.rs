//! Character-level helpers shared by the parsers and the judgements: ASCII
//! case folding, comparison, and the one conversion from bytes to text.

use vstd::prelude::*;

verus! {

/// What `String::from_utf8_lossy` makes of `bytes`: the text they encode,
/// with each invalid sequence replaced by U+FFFD.
pub uninterp spec fn utf8_lossy(bytes: Seq<u8>) -> Seq<char>;

/// Decodes `bytes` as UTF-8, replacing what is not.
///
/// Calls `String::from_utf8_lossy`. The contract claims only that the result
/// is a function of the bytes alone, named [`utf8_lossy`]; what that function
/// is on given bytes is std's business and is not restated here.
#[verifier::external_body]
pub fn decode_lossy(bytes: &[u8]) -> (s: String)
    ensures
        s@ == utf8_lossy(bytes@),
{
    String::from_utf8_lossy(bytes).into_owned()
}

} // verus!

verus! {

/// `String::push` appends one character.
pub assume_specification[ std::string::String::push ](s: &mut std::string::String, ch: char)
    ensures
        final(s)@ == old(s)@.push(ch),
;

/// `String::push_str` appends the characters of `string`.
pub assume_specification[ std::string::String::push_str ](s: &mut std::string::String, string: &str)
    ensures
        final(s)@ == old(s)@ + string@,
;

/// The characters of `s`, in order.
pub fn chars_of(s: &str) -> (v: Vec<char>)
    ensures
        v@ == s@,
{
    let mut v: Vec<char> = Vec::new();
    for c in it: s.chars()
        invariant
            v@ == it.seq().take(it.index() as int),
            it.seq() == s@,
    {
        v.push(c);
    }
    v
}

} // verus!

verus! {

/// The characters of `v` as a `String`.
pub fn string_of(v: &[char]) -> (s: String)
    ensures
        s@ == v@,
{
    let mut s = String::new();
    let mut i: usize = 0;
    while i < v.len()
        invariant
            i <= v@.len(),
            s@ == v@.take(i as int),
        decreases v@.len() - i,
    {
        s.push(v[i]);
        i = i + 1;
        assert(s@ =~= v@.take(i as int));
    }
    assert(v@.take(i as int) =~= v@);
    s
}

/// The characters of `v` from `start` up to `end` as a `String`.
pub fn string_of_range(v: &[char], start: usize, end: usize) -> (s: String)
    requires
        start <= end <= v@.len(),
    ensures
        s@ == v@.subrange(start as int, end as int),
{
    let mut s = String::new();
    let mut i: usize = start;
    while i < end
        invariant
            start <= i <= end <= v@.len(),
            s@ == v@.subrange(start as int, i as int),
        decreases end - i,
    {
        s.push(v[i]);
        i = i + 1;
        assert(s@ =~= v@.subrange(start as int, i as int));
    }
    s
}

/// `parts` joined by `sep`.
pub open spec fn join(parts: Seq<Seq<char>>, sep: Seq<char>) -> Seq<char>
    decreases parts.len(),
{
    if parts.len() == 0 {
        Seq::empty()
    } else if parts.len() == 1 {
        parts[0]
    } else {
        join(parts.drop_last(), sep) + sep + parts.last()
    }
}

/// The text of each string.
pub open spec fn texts(v: Seq<String>) -> Seq<Seq<char>> {
    v.map_values(|s: String| s@)
}

/// Appends `parts[lo..hi]`, joined by `sep`.
pub fn push_join(out: &mut String, parts: &Vec<String>, lo: usize, hi: usize, sep: &str)
    requires
        lo <= hi <= parts@.len(),
    ensures
        final(out)@ == old(out)@ + join(texts(parts@).subrange(lo as int, hi as int), sep@),
{
    let ghost start = out@;
    let ghost all = texts(parts@).subrange(lo as int, hi as int);
    let mut i: usize = lo;
    while i < hi
        invariant
            lo <= i <= hi <= parts@.len(),
            all == texts(parts@).subrange(lo as int, hi as int),
            out@ == start + join(all.take(i - lo), sep@),
        decreases hi - i,
    {
        assert(all.take(i + 1 - lo).drop_last() =~= all.take(i - lo));
        assert(all.take(i + 1 - lo).last() == parts@[i as int]@);
        if i > lo {
            out.push_str(sep);
        }
        out.push_str(parts[i].as_str());
        i = i + 1;
        proof {
            if i - lo == 1 {
                assert(all.take(1)[0] == all.take(1).last());
            }
            assert(out@ =~= start + join(all.take(i - lo), sep@));
        }
    }
    assert(all.take(i - lo) =~= all);
}

/// A copy of `s`.
pub fn copy_text(s: &str) -> (t: String)
    ensures
        t@ == s@,
{
    s.to_owned()
}

/// A copy of every string in `v`.
pub fn copy_texts(v: &Vec<String>) -> (out: Vec<String>)
    ensures
        texts(out@) == texts(v@),
{
    let mut out: Vec<String> = Vec::new();
    let mut i: usize = 0;
    while i < v.len()
        invariant
            i <= v@.len(),
            texts(out@) == texts(v@).take(i as int),
        decreases v@.len() - i,
    {
        let t = copy_text(v[i].as_str());
        let ghost before = out@;
        out.push(t);
        assert(out@ == before.push(t));
        assert(texts(out@) =~= texts(before).push(t@));
        i = i + 1;
        assert(texts(out@) =~= texts(v@).take(i as int));
    }
    assert(texts(v@).take(i as int) =~= texts(v@));
    out
}

/// `c` with an ASCII capital letter made small; every other character as is.
pub open spec fn lower(c: char) -> char {
    if 'A' <= c && c <= 'Z' {
        ((c as u32) + 32) as char
    } else {
        c
    }
}

/// `s` with ASCII capitals made small, as `str::to_ascii_lowercase` does.
pub open spec fn lower_seq(s: Seq<char>) -> Seq<char> {
    s.map_values(|c: char| lower(c))
}

/// Two texts that are equal once ASCII case is ignored, as
/// `str::eq_ignore_ascii_case` compares them.
pub open spec fn eq_ignore_case(a: Seq<char>, b: Seq<char>) -> bool {
    lower_seq(a) == lower_seq(b)
}

/// True when `s` begins with `prefix`.
pub open spec fn starts_with(s: Seq<char>, prefix: Seq<char>) -> bool {
    prefix.len() <= s.len() && s.take(prefix.len() as int) == prefix
}

/// `c`, made small if it is an ASCII capital.
pub fn lower_char(c: char) -> (d: char)
    ensures
        d == lower(c),
{
    if 'A' <= c && c <= 'Z' {
        let code = (c as u32) + 32;
        char_from(code)
    } else {
        c
    }
}

/// The character a code point in `a..=z` names.
fn char_from(code: u32) -> (c: char)
    requires
        97 <= code <= 122,
    ensures
        c == code as char,
{
    let b = code as u8;
    b as char
}

/// A copy of `s` with ASCII capitals made small.
pub fn to_lower(s: &str) -> (t: String)
    ensures
        t@ == lower_seq(s@),
{
    let v = chars_of(s);
    let mut out: Vec<char> = Vec::new();
    let mut i: usize = 0;
    while i < v.len()
        invariant
            i <= v@.len(),
            v@ == s@,
            out@ == lower_seq(v@.take(i as int)),
        decreases v@.len() - i,
    {
        out.push(lower_char(v[i]));
        i = i + 1;
        assert(out@ =~= lower_seq(v@.take(i as int)));
    }
    assert(v@.take(i as int) =~= v@);
    string_of(&out)
}

/// Whether two character sequences are equal.
pub fn same_chars(a: &[char], b: &[char]) -> (r: bool)
    ensures
        r == (a@ == b@),
{
    if a.len() != b.len() {
        return false;
    }
    let mut i: usize = 0;
    while i < a.len()
        invariant
            i <= a@.len(),
            a@.len() == b@.len(),
            forall|j: int| 0 <= j < i ==> a@[j] == b@[j],
        decreases a@.len() - i,
    {
        if a[i] != b[i] {
            return false;
        }
        i = i + 1;
    }
    assert(a@ =~= b@);
    true
}

/// Whether two texts are equal.
pub fn same_text(a: &str, b: &str) -> (r: bool)
    ensures
        r == (a@ == b@),
{
    let x = chars_of(a);
    let y = chars_of(b);
    same_chars(&x, &y)
}

/// Whether two texts are equal once ASCII case is ignored.
pub fn eq_ignore_ascii_case(a: &str, b: &str) -> (r: bool)
    ensures
        r == eq_ignore_case(a@, b@),
{
    let x = to_lower(a);
    let y = to_lower(b);
    same_text(x.as_str(), y.as_str())
}

/// Whether `s` begins with `prefix`.
pub fn has_prefix(s: &[char], prefix: &[char]) -> (r: bool)
    ensures
        r == starts_with(s@, prefix@),
{
    if prefix.len() > s.len() {
        return false;
    }
    let mut i: usize = 0;
    while i < prefix.len()
        invariant
            i <= prefix@.len() <= s@.len(),
            forall|j: int| 0 <= j < i ==> s@[j] == prefix@[j],
        decreases prefix@.len() - i,
    {
        if s[i] != prefix[i] {
            assert(s@.take(prefix@.len() as int)[i as int] != prefix@[i as int]);
            return false;
        }
        i = i + 1;
    }
    assert(s@.take(prefix@.len() as int) =~= prefix@);
    true
}

/// The digit that stands for `d` in base sixteen or below.
pub open spec fn digit(d: nat) -> char {
    if d < 10 {
        (48 + d) as char
    } else {
        (87 + d) as char
    }
}

/// `n` in decimal, with no leading zeroes.
pub open spec fn decimal(n: nat) -> Seq<char>
    decreases n,
{
    if n < 10 {
        seq![digit(n)]
    } else {
        decimal(n / 10).push(digit(n % 10))
    }
}

/// `n` in lowercase hexadecimal, with no leading zeroes.
pub open spec fn hex(n: nat) -> Seq<char>
    decreases n,
{
    if n < 16 {
        seq![digit(n)]
    } else {
        hex(n / 16).push(digit(n % 16))
    }
}

/// `count` zeroes.
pub open spec fn zeroes(count: int) -> Seq<char> {
    Seq::new(if count > 0 { count as nat } else { 0 }, |i: int| '0')
}

/// The character for digit `d`.
fn digit_char(d: u64) -> (c: char)
    requires
        d < 16,
    ensures
        c == digit(d as nat),
{
    let code: u8 = if d < 10 {
        48 + d as u8
    } else {
        87 + d as u8
    };
    code as char
}

/// Appends `n` in decimal.
pub fn push_decimal(out: &mut String, n: u64)
    ensures
        final(out)@ == old(out)@ + decimal(n as nat),
    decreases n,
{
    if n >= 10 {
        push_decimal(out, n / 10);
    }
    out.push(digit_char(n % 10));
    proof {
        if n >= 10 {
            assert(old(out)@ + decimal(n as nat) =~= old(out)@ + decimal((n / 10) as nat) + seq![
                digit((n % 10) as nat),
            ]);
        }
    }
}

/// `n` in decimal, behind a `-` when it is negative.
pub open spec fn signed_decimal(n: int) -> Seq<char> {
    if n < 0 {
        "-"@ + decimal((-n) as nat)
    } else {
        decimal(n as nat)
    }
}

/// Appends `n` in decimal, behind a `-` when it is negative.
pub fn push_signed(out: &mut String, n: i32)
    ensures
        final(out)@ == old(out)@ + signed_decimal(n as int),
{
    if n < 0 {
        out.push_str("-");
        let magnitude: u64 = (0i64 - n as i64) as u64;
        push_decimal(out, magnitude);
    } else {
        push_decimal(out, n as u64);
    }
}

/// Appends `n` in lowercase hexadecimal.
pub fn push_hex(out: &mut String, n: u64)
    ensures
        final(out)@ == old(out)@ + hex(n as nat),
    decreases n,
{
    if n >= 16 {
        push_hex(out, n / 16);
    }
    out.push(digit_char(n % 16));
    proof {
        if n >= 16 {
            assert(old(out)@ + hex(n as nat) =~= old(out)@ + hex((n / 16) as nat) + seq![
                digit((n % 16) as nat),
            ]);
        }
    }
}

/// Appends `n` in hexadecimal behind `0x`, padded with zeroes to at least
/// `width` digits: `{:#0w$x}` with `w` counting the prefix too.
pub fn push_hex_padded(out: &mut String, n: u64, width: usize)
    ensures
        final(out)@ == old(out)@ + "0x"@ + zeroes(width - hex(n as nat).len()) + hex(n as nat),
{
    out.push_str("0x");
    let mut digits = String::new();
    push_hex(&mut digits, n);
    let count = digits.as_str().unicode_len();
    let mut pad = count;
    while pad < width
        invariant
            count <= pad,
            pad <= width || pad == count,
            count == hex(n as nat).len(),
            out@ == old(out)@ + "0x"@ + zeroes(pad - count),
        decreases width - pad,
    {
        out.push('0');
        pad = pad + 1;
        assert(out@ =~= old(out)@ + "0x"@ + zeroes(pad - count));
    }
    assert(zeroes(pad - count) =~= zeroes(width - hex(n as nat).len()));
    out.push_str(digits.as_str());
}

} // verus!

verus! {

/// Whether `char::is_alphanumeric` holds of `c`: Unicode's alphabetic and
/// numeric characters.
pub uninterp spec fn alphanumeric(c: char) -> bool;

/// What `char::to_lowercase` yields for `c`: one character or, for a few,
/// several.
pub uninterp spec fn lowercase(c: char) -> Seq<char>;

/// Calls `char::is_alphanumeric`. The contract claims only that the answer is
/// a function of the character, named [`alphanumeric`]; the Unicode tables
/// behind it are std's and are not restated.
#[verifier::external_body]
pub(crate) fn is_alphanumeric(c: char) -> (b: bool)
    ensures
        b == alphanumeric(c),
{
    c.is_alphanumeric()
}

/// Collects what `char::to_lowercase` yields. The contract claims only that
/// the characters are a function of `c`, named [`lowercase`].
#[verifier::external_body]
fn to_lowercase(c: char) -> (v: Vec<char>)
    ensures
        v@ == lowercase(c),
{
    c.to_lowercase().collect()
}

/// `s` with every character that is not a letter or a digit dropped, and the
/// rest made lowercase.
pub open spec fn squash(s: Seq<char>) -> Seq<char>
    decreases s.len(),
{
    if s.len() == 0 {
        Seq::empty()
    } else if alphanumeric(s.last()) {
        squash(s.drop_last()) + lowercase(s.last())
    } else {
        squash(s.drop_last())
    }
}

/// Lowercase letters and digits only.
pub fn squashed(text: &str) -> (t: String)
    ensures
        t@ == squash(text@),
{
    let chars = chars_of(text);
    let mut out = String::new();
    let mut i: usize = 0;
    while i < chars.len()
        invariant
            i <= chars@.len(),
            chars@ == text@,
            out@ == squash(chars@.take(i as int)),
        decreases chars@.len() - i,
    {
        let c = chars[i];
        assert(chars@.take(i + 1).drop_last() =~= chars@.take(i as int));
        assert(chars@.take(i + 1).last() == c);
        if is_alphanumeric(c) {
            let low = to_lowercase(c);
            let mut k: usize = 0;
            let ghost before = out@;
            while k < low.len()
                invariant
                    k <= low@.len(),
                    out@ == before + low@.take(k as int),
                decreases low@.len() - k,
            {
                out.push(low[k]);
                k = k + 1;
                assert(out@ =~= before + low@.take(k as int));
            }
            assert(low@.take(k as int) =~= low@);
        }
        i = i + 1;
    }
    assert(chars@.take(i as int) =~= chars@);
    out
}

/// How many bytes UTF-8 spends on `c`.
pub open spec fn utf8_width(c: char) -> nat {
    if (c as u32) < 0x80 {
        1
    } else if (c as u32) < 0x800 {
        2
    } else if (c as u32) < 0x10000 {
        3
    } else {
        4
    }
}

/// How many bytes UTF-8 spends on `s`: what `str::len` counts.
pub open spec fn utf8_len(s: Seq<char>) -> nat
    decreases s.len(),
{
    if s.len() == 0 {
        0
    } else {
        utf8_len(s.drop_last()) + utf8_width(s.last())
    }
}

/// Whether `s` takes fewer than `limit` bytes in UTF-8.
pub fn utf8_shorter_than(s: &str, limit: u64) -> (b: bool)
    requires
        limit <= 0xffff,
    ensures
        b == (utf8_len(s@) < limit),
{
    if limit == 0 {
        return false;
    }
    let chars = chars_of(s);
    let mut count: u64 = 0;
    let mut i: usize = 0;
    while i < chars.len()
        invariant
            i <= chars@.len(),
            chars@ == s@,
            count == utf8_len(chars@.take(i as int)),
            count < limit <= 0xffff,
        decreases chars@.len() - i,
    {
        assert(chars@.take(i + 1).drop_last() =~= chars@.take(i as int));
        assert(chars@.take(i + 1).last() == chars@[i as int]);
        let code = chars[i] as u32;
        let width: u64 = if code < 0x80 {
            1
        } else if code < 0x800 {
            2
        } else if code < 0x10000 {
            3
        } else {
            4
        };
        count = count + width;
        i = i + 1;
        if count >= limit {
            proof {
                lemma_utf8_len_prefix(chars@, i as int);
            }
            return false;
        }
    }
    assert(chars@.take(i as int) =~= chars@);
    true
}

/// No prefix of a text takes more bytes than the text.
pub proof fn lemma_utf8_len_prefix(s: Seq<char>, n: int)
    requires
        0 <= n <= s.len(),
    ensures
        utf8_len(s.take(n)) <= utf8_len(s),
    decreases s.len(),
{
    if n < s.len() {
        lemma_utf8_len_prefix(s.drop_last(), n);
        assert(s.drop_last().take(n) =~= s.take(n));
    } else {
        assert(s.take(n) =~= s);
    }
}

/// UTF-8 spends at least one byte on every character.
pub proof fn lemma_utf8_len_at_least_chars(s: Seq<char>)
    ensures
        utf8_len(s) >= s.len(),
    decreases s.len(),
{
    if s.len() > 0 {
        lemma_utf8_len_at_least_chars(s.drop_last());
    }
}

/// How `{:?}` prints a string: in double quotes, with quotes, backslashes,
/// control characters and unprintable characters escaped.
pub uninterp spec fn debug_quoted(s: Seq<char>) -> Seq<char>;

/// Formats `s` as `{:?}` prints a `str`. The contract claims only that the
/// text is a function of `s`, named [`debug_quoted`]; std's escaping rules
/// are not restated.
#[verifier::external_body]
pub fn debug_text(s: &str) -> (t: String)
    ensures
        t@ == debug_quoted(s@),
{
    format!("{s:?}")
}

/// The value of a run of decimal digits.
pub open spec fn digits_value(d: Seq<char>) -> nat
    decreases d.len(),
{
    if d.len() == 0 {
        0
    } else {
        10 * digits_value(d.drop_last()) + ((d.last() as u32) - 48) as nat
    }
}

/// Every character is an ASCII digit.
pub open spec fn all_digits(d: Seq<char>) -> bool {
    forall|i: int| 0 <= i < d.len() ==> '0' <= #[trigger] d[i] && d[i] <= '9'
}

/// What `str::parse::<u32>` gives: an optional `+`, then one or more ASCII
/// digits whose value fits in 32 bits.
pub open spec fn parse_u32(s: Seq<char>) -> Option<u32> {
    let d = if s.len() > 0 && s[0] == '+' {
        s.drop_first()
    } else {
        s
    };
    if d.len() > 0 && all_digits(d) && digits_value(d) <= u32::MAX {
        Some(digits_value(d) as u32)
    } else {
        None
    }
}

/// More digits never make a smaller number.
pub proof fn lemma_digits_grow(d: Seq<char>, n: int)
    requires
        0 <= n <= d.len(),
        all_digits(d),
    ensures
        digits_value(d.take(n)) <= digits_value(d),
    decreases d.len(),
{
    if n < d.len() {
        let p = d.drop_last();
        assert(all_digits(p)) by {
            assert forall|i: int| 0 <= i < p.len() implies '0' <= #[trigger] p[i] && p[i] <= '9' by {
                assert(p[i] == d[i]);
            }
        }
        lemma_digits_grow(p, n);
        assert(p.take(n) =~= d.take(n));
    } else {
        assert(d.take(n) =~= d);
    }
}

/// Parses a decimal `u32` as `str::parse::<u32>` does.
pub fn parse_u32_text(s: &str) -> (r: Option<u32>)
    ensures
        r == parse_u32(s@),
{
    let chars = chars_of(s);
    let start: usize = if chars.len() > 0 && chars[0] == '+' {
        1
    } else {
        0
    };
    let ghost d = if s@.len() > 0 && s@[0] == '+' {
        s@.drop_first()
    } else {
        s@
    };
    assert(d =~= chars@.skip(start as int));
    if start == chars.len() {
        return None;
    }
    let mut value: u64 = 0;
    let mut i: usize = start;
    while i < chars.len()
        invariant
            start <= i <= chars@.len(),
            chars@ == s@,
            d == chars@.skip(start as int),
            d == (if s@.len() > 0 && s@[0] == '+' {
                s@.drop_first()
            } else {
                s@
            }),
            d.len() > 0,
            forall|k: int| 0 <= k < i - start ==> '0' <= #[trigger] d[k] && d[k] <= '9',
            value == digits_value(d.take(i - start)),
            value <= u32::MAX,
        decreases chars@.len() - i,
    {
        let c = chars[i];
        assert(d[i - start] == c);
        if !('0' <= c && c <= '9') {
            assert(!all_digits(d));
            return None;
        }
        assert(d.take(i + 1 - start).drop_last() =~= d.take(i - start));
        assert(d.take(i + 1 - start).last() == c);
        value = value * 10 + ((c as u32) - 48) as u64;
        i = i + 1;
        if value > 0xffff_ffff {
            proof {
                if all_digits(d) {
                    lemma_digits_grow(d, i - start);
                }
            }
            return None;
        }
    }
    assert(d.take(i - start) =~= d);
    Some(value as u32)
}

} // verus!
