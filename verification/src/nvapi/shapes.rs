//! The two statement shapes this reader understands, and the smaller token
//! patterns they are built from. Every match is exact: a shape that is
//! almost right is not read.

use vstd::prelude::*;

use super::lexer::{tokens_view, Token, TokenV};
use super::{flag_named, Flag};
use crate::text::{copy_text, same_text, texts, to_lower};

verus! {

/// An opening bracket.
pub open spec fn opens(c: char) -> bool {
    c == '(' || c == '[' || c == '{'
}

/// A closing bracket.
pub open spec fn closes(c: char) -> bool {
    c == ')' || c == ']' || c == '}'
}

/// Whether `t` is the name `w`.
pub fn is_name(t: &Token, w: &str) -> (b: bool)
    ensures
        b == (t@ == TokenV::Name(w@)),
{
    match t {
        Token::Name(n) => same_text(n.as_str(), w),
        _ => false,
    }
}

/// Whether `t` is the punctuation `c`.
pub fn is_punct(t: &Token, c: char) -> (b: bool)
    ensures
        b == (t@ == TokenV::Punct(c)),
{
    match t {
        Token::Punct(p) => *p == c,
        _ => false,
    }
}

/// The text of `t`, when it is a plain string literal.
pub fn text_of(t: &Token) -> (r: Option<&str>)
    ensures
        match r {
            Some(s) => t@ == TokenV::Text(s@),
            None => !(t@ is Text),
        },
{
    match t {
        Token::Text(s) => Some(s.as_str()),
        _ => None,
    }
}

/// The depth of brackets after one more token, never below zero.
pub open spec fn depth_after(t: TokenV, depth: int) -> int {
    match t {
        TokenV::Punct(c) => if opens(c) {
            depth + 1
        } else if closes(c) {
            if depth > 0 {
                depth - 1
            } else {
                0
            }
        } else {
            depth
        },
        _ => depth,
    }
}

/// The index of the first `:` at bracket depth zero in `ts` from `i`.
pub open spec fn colon_from(ts: Seq<TokenV>, i: int, depth: int) -> Option<int>
    decreases ts.len() - i,
{
    if i < 0 || i >= ts.len() {
        None
    } else if depth == 0 && ts[i] == TokenV::Punct(':') {
        Some(i)
    } else {
        colon_from(ts, i + 1, depth_after(ts[i], depth))
    }
}

/// The index of the `:` that ends a statement's header.
pub open spec fn colon_at(ts: Seq<TokenV>) -> Option<int> {
    colon_from(ts, 0, 0)
}

/// The contents of a bracket split on the commas that belong to it, from
/// index `i`, the current item having started at `start`.
pub open spec fn items_from(ts: Seq<TokenV>, i: int, depth: int, start: int, acc: Seq<Seq<TokenV>>) -> Seq<
    Seq<TokenV>,
>
    decreases ts.len() - i,
{
    if i < 0 || i >= ts.len() {
        acc.push(ts.subrange(start, ts.len() as int))
    } else if depth == 0 && ts[i] == TokenV::Punct(',') {
        items_from(ts, i + 1, depth, i + 1, acc.push(ts.subrange(start, i)))
    } else {
        items_from(ts, i + 1, depth_after(ts[i], depth), start, acc)
    }
}

/// The items of a bracket's contents: always at least one, possibly empty.
pub open spec fn items(ts: Seq<TokenV>) -> Seq<Seq<TokenV>> {
    items_from(ts, 0, 0, 0, Seq::empty())
}

/// The flag `ret.add("flag")` adds, when `ts` is exactly that statement.
pub open spec fn ret_add(ts: Seq<TokenV>) -> Option<Seq<char>> {
    if ts.len() == 6 && ts[0] == TokenV::Name("ret"@) && ts[1] == TokenV::Punct('.') && ts[2]
        == TokenV::Name("add"@) && ts[3] == TokenV::Punct('(') && ts[4] is Text && ts[5]
        == TokenV::Punct(')') {
        Some(ts[4]->Text_0)
    } else {
        None
    }
}

/// The NVAPI flags named by the string literals in `ts`, each once, in order.
pub open spec fn flags_named(ts: Seq<TokenV>) -> Seq<Flag>
    decreases ts.len(),
{
    if ts.len() == 0 {
        Seq::empty()
    } else {
        let before = flags_named(ts.drop_last());
        match ts.last() {
            TokenV::Text(t) => match flag_named(t) {
                Some(f) => if before.contains(f) {
                    before
                } else {
                    before.push(f)
                },
                None => before,
            },
            _ => before,
        }
    }
}

/// Whether a text holds `nvapi` in any ASCII case.
pub open spec fn mentions_nvapi(t: Seq<char>) -> bool {
    exists|k: int|
        0 <= k && k + 5 <= t.len() && #[trigger] crate::text::lower_seq(t).subrange(k, k + 5)
            == "nvapi"@
}

/// How many string literals in `ts` mention `nvapi` in any spelling.
pub open spec fn nvapi_strings(ts: Seq<TokenV>) -> nat
    decreases ts.len(),
{
    if ts.len() == 0 {
        0
    } else {
        nvapi_strings(ts.drop_last()) + match ts.last() {
            TokenV::Text(t) => if mentions_nvapi(t) {
                1nat
            } else {
                0nat
            },
            _ => 0nat,
        }
    }
}

/// Whether a statement binds `appid`: `appid = ...`, not `appid == ...`.
pub open spec fn assigns_appid(ts: Seq<TokenV>) -> bool {
    ts.len() >= 2 && ts[0] == TokenV::Name("appid"@) && ts[1] == TokenV::Punct('=') && !(ts.len()
        >= 3 && ts[2] == TokenV::Punct('='))
}

/// A bracket pair that matches.
pub open spec fn brackets_match(open: char, close: char) -> bool {
    (open == '[' && close == ']') || (open == '(' && close == ')') || (open == '{' && close
        == '}')
}

/// A recognised `if appid in [...]` test: the plain string entries, how many
/// entries were something else, and where the header's `:` is.
pub struct TestV {
    pub appids: Seq<Seq<char>>,
    pub opaque: nat,
    pub colon: int,
}

/// The entries of an appid list, read item by item.
pub open spec fn list_entries(its: Seq<Seq<TokenV>>) -> (Seq<Seq<char>>, nat)
    decreases its.len(),
{
    if its.len() == 0 {
        (Seq::empty(), 0)
    } else {
        let (appids, opaque) = list_entries(its.drop_last());
        let item = its.last();
        if item.len() == 0 {
            (appids, opaque)
        } else if item.len() == 1 && item[0] is Text {
            (appids.push(item[0]->Text_0), opaque)
        } else {
            (appids, opaque + 1)
        }
    }
}

/// Matches `if appid in [...]`, `(...)`, `{...}` and `if appid == "..."`,
/// and nothing else.
pub open spec fn appid_test(ts: Seq<TokenV>) -> Option<TestV> {
    if ts.len() == 0 || ts[0] != TokenV::Name("if"@) {
        None
    } else {
        match colon_at(ts) {
            None => None,
            Some(colon) => {
                let test = ts.subrange(1, colon);
                if test.len() == 4 && test[0] == TokenV::Name("appid"@) && test[1]
                    == TokenV::Punct('=') && test[2] == TokenV::Punct('=') && test[3] is Text {
                    Some(TestV { appids: seq![test[3]->Text_0], opaque: 0, colon })
                } else if test.len() >= 4 && test[0] == TokenV::Name("appid"@) && test[1]
                    == TokenV::Name("in"@) && test[2] is Punct && test[test.len() - 1] is Punct
                    && brackets_match(test[2]->Punct_0, test[test.len() - 1]->Punct_0) {
                    let (appids, opaque) = list_entries(
                        items(test.subrange(3, test.len() - 1)),
                    );
                    Some(TestV { appids, opaque, colon })
                } else {
                    None
                }
            },
        }
    }
}

/// The tokens of `ts` from `lo` to `hi`, as plain values.
pub open spec fn part(ts: Seq<Token>, lo: int, hi: int) -> Seq<TokenV> {
    tokens_view(ts).subrange(lo, hi)
}

/// The depth after one more token.
fn next_depth(t: &Token, depth: usize) -> (d: usize)
    requires
        depth < usize::MAX,
    ensures
        d == depth_after(t@, depth as int),
{
    match t {
        Token::Punct(c) => if *c == '(' || *c == '[' || *c == '{' {
            depth + 1
        } else if *c == ')' || *c == ']' || *c == '}' {
            if depth > 0 {
                depth - 1
            } else {
                0
            }
        } else {
            depth
        },
        _ => depth,
    }
}

/// The index of the first `:` at depth zero between `lo` and `hi`.
pub fn colon_in(ts: &Vec<Token>, lo: usize, hi: usize) -> (r: Option<usize>)
    requires
        lo <= hi <= ts@.len(),
    ensures
        match r {
            Some(i) => lo <= i < hi && colon_at(part(ts@, lo as int, hi as int)) == Some(
                i - lo,
            ),
            None => colon_at(part(ts@, lo as int, hi as int)) is None,
        },
{
    let ghost sub = part(ts@, lo as int, hi as int);
    let mut depth: usize = 0;
    let mut i = lo;
    while i < hi
        invariant
            lo <= i <= hi <= ts@.len(),
            sub == part(ts@, lo as int, hi as int),
            depth <= i - lo,
            colon_at(sub) == colon_from(sub, i - lo, depth as int),
        decreases hi - i,
    {
        assert(sub[i - lo] == ts@[i as int]@);
        if depth == 0 && is_punct(&ts[i], ':') {
            return Some(i);
        }
        depth = next_depth(&ts[i], depth);
        i = i + 1;
    }
    None
}

/// The items between `lo` and `hi`, as index ranges.
pub fn items_in(ts: &Vec<Token>, lo: usize, hi: usize) -> (r: Vec<(usize, usize)>)
    requires
        lo <= hi <= ts@.len(),
    ensures
        r@.len() == items(part(ts@, lo as int, hi as int)).len(),
        r@.len() <= hi - lo + 1,
        forall|k: int|
            0 <= k < r@.len() ==> lo <= (#[trigger] r@[k]).0 <= r@[k].1 <= hi && part(
                ts@,
                r@[k].0 as int,
                r@[k].1 as int,
            ) == items(part(ts@, lo as int, hi as int))[k],
{
    let ghost sub = part(ts@, lo as int, hi as int);
    let mut out: Vec<(usize, usize)> = Vec::new();
    let mut depth: usize = 0;
    let mut start = lo;
    let mut i = lo;
    let ghost acc: Seq<Seq<TokenV>> = Seq::empty();
    while i < hi
        invariant
            lo <= start <= i <= hi <= ts@.len(),
            sub == part(ts@, lo as int, hi as int),
            depth <= i - lo,
            acc.len() == out@.len(),
            out@.len() <= start - lo,
            forall|k: int|
                0 <= k < out@.len() ==> lo <= (#[trigger] out@[k]).0 <= out@[k].1 <= hi && part(
                    ts@,
                    out@[k].0 as int,
                    out@[k].1 as int,
                ) == acc[k],
            items(sub) == items_from(sub, i - lo, depth as int, start - lo, acc),
        decreases hi - i,
    {
        assert(sub[i - lo] == ts@[i as int]@);
        if depth == 0 && is_punct(&ts[i], ',') {
            assert(sub.subrange(start - lo, i - lo) =~= part(ts@, start as int, i as int));
            proof {
                acc = acc.push(part(ts@, start as int, i as int));
            }
            out.push((start, i));
            start = i + 1;
        } else {
            depth = next_depth(&ts[i], depth);
        }
        i = i + 1;
    }
    assert(sub.subrange(start - lo, sub.len() as int) =~= part(ts@, start as int, hi as int));
    out.push((start, hi));
    proof {
        acc = acc.push(part(ts@, start as int, hi as int));
    }
    out
}

/// The flag of `ret.add("flag")`, when the tokens between `lo` and `hi` are
/// exactly that statement.
pub fn ret_add_in(ts: &Vec<Token>, lo: usize, hi: usize) -> (r: Option<&str>)
    requires
        lo <= hi <= ts@.len(),
    ensures
        match r {
            Some(f) => ret_add(part(ts@, lo as int, hi as int)) == Some(f@),
            None => ret_add(part(ts@, lo as int, hi as int)) is None,
        },
{
    let ghost sub = part(ts@, lo as int, hi as int);
    if hi - lo != 6 {
        return None;
    }
    assert(forall|k: int| 0 <= k < 6 ==> #[trigger] sub[k] == ts@[lo + k]@);
    if !is_name(&ts[lo], "ret") || !is_punct(&ts[lo + 1], '.') || !is_name(&ts[lo + 2], "add")
        || !is_punct(&ts[lo + 3], '(') || !is_punct(&ts[lo + 5], ')') {
        return None;
    }
    text_of(&ts[lo + 4])
}

/// The NVAPI flags named by the string literals between `lo` and `hi`.
pub fn flags_in(ts: &Vec<Token>, lo: usize, hi: usize) -> (r: Vec<Flag>)
    requires
        lo <= hi <= ts@.len(),
    ensures
        r@ == flags_named(part(ts@, lo as int, hi as int)),
{
    let ghost sub = part(ts@, lo as int, hi as int);
    let mut out: Vec<Flag> = Vec::new();
    let mut i = lo;
    while i < hi
        invariant
            lo <= i <= hi <= ts@.len(),
            sub == part(ts@, lo as int, hi as int),
            out@ == flags_named(sub.take(i - lo)),
        decreases hi - i,
    {
        assert(sub.take(i + 1 - lo).drop_last() =~= sub.take(i - lo));
        assert(sub.take(i + 1 - lo).last() == ts@[i as int]@);
        if let Some(t) = text_of(&ts[i]) {
            if let Some(f) = Flag::lookup(t) {
                if !contains_flag(&out, f) {
                    out.push(f);
                }
            }
        }
        i = i + 1;
    }
    assert(sub.take(i - lo) =~= sub);
    out
}

/// Whether `v` holds `f`.
pub fn contains_flag(v: &Vec<Flag>, f: Flag) -> (b: bool)
    ensures
        b == v@.contains(f),
{
    let mut i: usize = 0;
    while i < v.len()
        invariant
            i <= v@.len(),
            forall|j: int| 0 <= j < i ==> v@[j] != f,
        decreases v@.len() - i,
    {
        if v[i] == f {
            return true;
        }
        i = i + 1;
    }
    false
}

/// Whether `t` holds `nvapi` in any ASCII case.
fn has_nvapi(t: &str) -> (b: bool)
    ensures
        b == mentions_nvapi(t@),
{
    let low = to_lower(t);
    let cs = crate::text::chars_of(low.as_str());
    let ghost lowered = crate::text::lower_seq(t@);
    assert(cs@ == lowered);
    proof {
        reveal_strlit("nvapi");
        assert("nvapi"@ =~= seq!['n', 'v', 'a', 'p', 'i']);
    }
    if cs.len() < 5 {
        return false;
    }
    let mut k: usize = 0;
    while k <= cs.len() - 5
        invariant
            k <= cs@.len(),
            cs@.len() >= 5,
            lowered == crate::text::lower_seq(t@),
            "nvapi"@ == seq!['n', 'v', 'a', 'p', 'i'],
            cs@ == lowered,
            lowered.len() == t@.len(),
            forall|j: int| 0 <= j < k ==> #[trigger] lowered.subrange(j, j + 5) != "nvapi"@,
        decreases cs@.len() - k,
    {
        if cs[k] == 'n' && cs[k + 1] == 'v' && cs[k + 2] == 'a' && cs[k + 3] == 'p' && cs[k + 4]
            == 'i' {
            assert(crate::text::lower_seq(t@).subrange(k as int, k + 5) =~= "nvapi"@);
            return true;
        }
        assert(lowered.subrange(k as int, k + 5)[0] == cs@[k as int]);
        assert(lowered.subrange(k as int, k + 5)[1] == cs@[k + 1]);
        assert(lowered.subrange(k as int, k + 5)[2] == cs@[k + 2]);
        assert(lowered.subrange(k as int, k + 5)[3] == cs@[k + 3]);
        assert(lowered.subrange(k as int, k + 5)[4] == cs@[k + 4]);
        k = k + 1;
    }
    false
}

/// How many string literals among all of `ts` mention `nvapi`.
pub fn nvapi_count(ts: &Vec<Token>) -> (n: usize)
    ensures
        n == nvapi_strings(tokens_view(ts@)),
        n <= ts@.len(),
{
    let ghost all = tokens_view(ts@);
    let mut n: usize = 0;
    let mut i: usize = 0;
    while i < ts.len()
        invariant
            i <= ts@.len(),
            all == tokens_view(ts@),
            n == nvapi_strings(all.take(i as int)),
            n <= i,
        decreases ts@.len() - i,
    {
        assert(all.take(i + 1).drop_last() =~= all.take(i as int));
        assert(all.take(i + 1).last() == ts@[i as int]@);
        if let Some(t) = text_of(&ts[i]) {
            if has_nvapi(t) {
                n = n + 1;
            }
        }
        i = i + 1;
    }
    assert(all.take(i as int) =~= all);
    n
}

/// Whether the tokens between `lo` and `hi` bind `appid`.
pub fn assigns_appid_in(ts: &Vec<Token>, lo: usize, hi: usize) -> (b: bool)
    requires
        lo <= hi <= ts@.len(),
    ensures
        b == assigns_appid(part(ts@, lo as int, hi as int)),
{
    let ghost sub = part(ts@, lo as int, hi as int);
    if hi - lo < 2 {
        return false;
    }
    assert(sub[0] == ts@[lo as int]@ && sub[1] == ts@[lo + 1]@);
    if !is_name(&ts[lo], "appid") || !is_punct(&ts[lo + 1], '=') {
        return false;
    }
    if hi - lo >= 3 {
        assert(sub[2] == ts@[lo + 2]@);
        if is_punct(&ts[lo + 2], '=') {
            return false;
        }
    }
    true
}

/// A colon found from `i` is at `i` or after it, and past any token that is
/// not a colon at depth zero.
pub proof fn lemma_colon_from_at_least(ts: Seq<TokenV>, i: int, depth: int)
    requires
        0 <= i,
    ensures
        colon_from(ts, i, depth) matches Some(j) ==> i <= j < ts.len() && (j == i ==> depth == 0
            && ts[i] == TokenV::Punct(':')),
    decreases ts.len() - i,
{
    if i < ts.len() && !(depth == 0 && ts[i] == TokenV::Punct(':')) {
        lemma_colon_from_at_least(ts, i + 1, depth_after(ts[i], depth));
    }
}

/// A recognised appid test.
pub struct Test {
    /// The plain string entries, in file order.
    pub appids: Vec<String>,
    /// How many entries were something else.
    pub opaque: usize,
    /// Index of the `:` in the header's tokens.
    pub colon: usize,
}

/// Matches `if appid in [...]` and `if appid == "..."`, as [`appid_test`]
/// states.
pub fn appid_test_in(ts: &Vec<Token>) -> (r: Option<Test>)
    ensures
        match r {
            Some(t) => appid_test(tokens_view(ts@)) == Some(
                TestV { appids: texts(t.appids@), opaque: t.opaque as nat, colon: t.colon as int },
            ),
            None => appid_test(tokens_view(ts@)) is None,
        },
{
    let ghost all = tokens_view(ts@);
    let n = ts.len();
    if n == 0 || !is_name(&ts[0], "if") {
        return None;
    }
    assert(all.subrange(0, n as int) =~= all);
    let colon = match colon_in(ts, 0, n) {
        Some(c) => c,
        None => return None,
    };
    proof {
        lemma_colon_from_at_least(all, 0, 0);
    }
    if colon < 1 {
        return None;
    }
    let ghost test = all.subrange(1, colon as int);
    let len = colon - 1;
    assert(forall|k: int| 0 <= k < len ==> #[trigger] test[k] == ts@[1 + k]@);
    if len == 4 && is_name(&ts[1], "appid") && is_punct(&ts[2], '=') && is_punct(&ts[3], '=') {
        if let Some(v) = text_of(&ts[4]) {
            let mut appids: Vec<String> = Vec::new();
            appids.push(copy_text(v));
            assert(texts(appids@) =~= seq![v@]);
            return Some(Test { appids, opaque: 0, colon });
        }
    }
    if len < 4 || !is_name(&ts[1], "appid") || !is_name(&ts[2], "in") {
        return None;
    }
    let open = match &ts[3] {
        Token::Punct(c) => *c,
        _ => return None,
    };
    let close = match &ts[colon - 1] {
        Token::Punct(c) => *c,
        _ => return None,
    };
    if !((open == '[' && close == ']') || (open == '(' && close == ')') || (open == '{' && close
        == '}')) {
        return None;
    }
    let ranges = items_in(ts, 4, colon - 1);
    assert(test.subrange(3, test.len() - 1) =~= part(ts@, 4, colon - 1));
    let ghost its = items(part(ts@, 4, colon - 1));
    let mut appids: Vec<String> = Vec::new();
    let mut opaque: usize = 0;
    let mut k: usize = 0;
    while k < ranges.len()
        invariant
            k <= ranges@.len() == its.len(),
            its == items(part(ts@, 4, colon - 1)),
            forall|m: int|
                0 <= m < ranges@.len() ==> 4 <= (#[trigger] ranges@[m]).0 <= ranges@[m].1 <= colon
                    - 1 && part(ts@, ranges@[m].0 as int, ranges@[m].1 as int) == its[m],
            colon <= ts@.len(),
            list_entries(its.take(k as int)) == (texts(appids@), opaque as nat),
            opaque <= k,
        decreases ranges@.len() - k,
    {
        let (a, b) = ranges[k];
        assert(its.take(k + 1).drop_last() =~= its.take(k as int));
        assert(its.take(k + 1).last() == its[k as int]);
        let ghost item = part(ts@, a as int, b as int);
        if b - a == 1 {
            assert(its[k as int][0] == ts@[a as int]@);
        }
        if a == b {
        } else if b - a == 1 && text_of(&ts[a]).is_some() {
            let v = text_of(&ts[a]).unwrap();
            let ghost before = appids@;
            appids.push(copy_text(v));
            assert(texts(appids@) =~= texts(before).push(v@));
        } else {
            opaque = opaque + 1;
        }
        k = k + 1;
    }
    assert(its.take(k as int) =~= its);
    Some(Test { appids, opaque, colon })
}

} // verus!
