//! Reading one `proton` script's NVAPI policy out of its text.
//!
//! The function body is walked block by block. A recognised `if appid in
//! [...]` block is read whole; everything else is descended into, with the
//! block that opened it remembered as a guard, so that a flag set beneath it
//! is conditional rather than invisible. Any flag named where neither shape
//! explains it becomes a refusal.

use vstd::prelude::*;

use super::lexer::{lex, lines_view, tokens_view, total_tokens, Logical, LogicalV, Token, TokenV};
use super::quoting::{
    blank, is_blank, physical_lines, physical_lines_of, quote, spec_quote,
};
use super::shapes::{
    appid_test, appid_test_in, assigns_appid, assigns_appid_in, flags_in, flags_named, is_name,
    is_punct, part, ret_add, ret_add_in, text_of, Test, TestV,
};
use super::environment::{formula, recorded_line, spec_formula, spec_recorded_line, spec_switches, switches};
use super::lexer::spec_lex;
use super::{
    copy_guards, flag_named, guards_view, policy_flag, sites_view, spec_policy, Error, ErrorKind,
    Flag, Guard, GuardV, Policy, Reading, ReadingV, Refusal, RefusalKind, Site, SiteV,
};
use crate::text::{chars_of, copy_text, copy_texts, same_text, texts};

verus! {

/// How deep the walk descends through nested blocks before it stops and
/// says so.
pub const MAX_DEPTH: usize = 64;

/// What the walk of the function body fills in: how many appid lists were
/// read, the sites, and the refusals.
pub struct WalkV {
    pub lists: nat,
    pub sites: Seq<SiteV>,
    pub refusals: Seq<Refusal>,
}

/// `st` with one more refusal.
pub open spec fn refuse(st: WalkV, line: int, kind: RefusalKind) -> WalkV {
    WalkV { refusals: st.refusals.push(Refusal { line: line as usize, kind }), ..st }
}

/// `out` with the string literal `t` added, unless it is blank, a flag's
/// name, or already there.
pub open spec fn literal_step(out: Seq<Seq<char>>, t: TokenV) -> Seq<Seq<char>> {
    match t {
        TokenV::Text(x) => if blank(x) || flag_named(x) is Some || out.contains(x) {
            out
        } else {
            out.push(x)
        },
        _ => out,
    }
}

/// `out` with the literals of `ts` added.
pub open spec fn literals_of_tokens(out: Seq<Seq<char>>, ts: Seq<TokenV>) -> Seq<Seq<char>>
    decreases ts.len(),
{
    if ts.len() == 0 {
        out
    } else {
        literal_step(literals_of_tokens(out, ts.drop_last()), ts.last())
    }
}

/// The plain string literals some lines name, in order and each once, flags
/// and blanks left out.
pub open spec fn literals(lines: Seq<LogicalV>) -> Seq<Seq<char>>
    decreases lines.len(),
{
    if lines.len() == 0 {
        Seq::empty()
    } else {
        literals_of_tokens(literals(lines.drop_last()), lines.last().tokens)
    }
}

/// A block that wraps an appid list, quoted as its header alone.
pub open spec fn enclosing_guard(header: LogicalV, raw: Seq<Seq<char>>) -> GuardV {
    GuardV {
        enclosing: true,
        first: header.line as usize,
        last: header.end as usize,
        source: spec_quote(raw, header.line, header.end),
        mentions: literals(seq![header]),
    }
}

/// The body of an appid block that reaches its flag through something else.
pub open spec fn inner_guard(body: Seq<LogicalV>, raw: Seq<Seq<char>>) -> GuardV {
    let first = if body.len() > 0 {
        body[0].line
    } else {
        1
    };
    let last = if body.len() > 0 {
        body.last().end
    } else {
        first
    };
    GuardV {
        enclosing: false,
        first: first as usize,
        last: last as usize,
        source: spec_quote(raw, first, last),
        mentions: literals(body),
    }
}

/// `if "<variable>" in os.environ:`.
pub open spec fn environ_test(ts: Seq<TokenV>) -> bool {
    ts.len() == 7 && ts[0] == TokenV::Name("if"@) && ts[1] is Text && ts[2] == TokenV::Name("in"@)
        && ts[3] == TokenV::Name("os"@) && ts[4] == TokenV::Punct('.') && ts[5] == TokenV::Name(
        "environ"@,
    ) && ts[6] == TokenV::Punct(':')
}

/// Whether a block exists only to bind the application id: an environment
/// test with `appid = ...` at the top level of its body.
pub open spec fn binds_appid(header: LogicalV, body: Seq<LogicalV>) -> bool {
    environ_test(header.tokens) && body.len() > 0 && exists|j: int|
        0 <= j < body.len() && body[j].indent == body[0].indent && assigns_appid(
            #[trigger] body[j].tokens,
        )
}

/// The flag a `ret.add("flag")` statement adds, when it is one of the NVAPI
/// flags.
pub open spec fn line_flag(ts: Seq<TokenV>) -> Option<Flag> {
    match ret_add(ts) {
        Some(t) => flag_named(t),
        None => None,
    }
}

/// The statement on the same line as a block's `if`, after the `:`.
pub open spec fn inline_of(header: LogicalV, test: TestV) -> Seq<TokenV> {
    header.tokens.skip(test.colon + 1)
}

/// The indentation of a block's top level, when its body is indented rather
/// than written on the `if` line.
pub open spec fn top_of(header: LogicalV, test: TestV, body: Seq<LogicalV>) -> Option<int> {
    if inline_of(header, test).len() == 0 && body.len() > 0 {
        Some(body[0].indent)
    } else {
        None
    }
}

/// Whether the block sets `flag` outright, on its `if` line or at its top
/// level, looking at its first `n` body lines.
pub open spec fn outright_within(
    header: LogicalV,
    test: TestV,
    body: Seq<LogicalV>,
    flag: Flag,
    n: int,
) -> bool {
    line_flag(inline_of(header, test)) == Some(flag) || exists|j: int|
        0 <= j < n && top_of(header, test, body) == Some(body[j].indent) && line_flag(
            #[trigger] body[j].tokens,
        ) == Some(flag)
}

/// Whether the block sets `flag` below its top level, looking at its first
/// `n` body lines.
pub open spec fn nested_within(
    header: LogicalV,
    test: TestV,
    body: Seq<LogicalV>,
    flag: Flag,
    n: int,
) -> bool {
    exists|j: int|
        0 <= j < n && top_of(header, test, body) != Some(body[j].indent) && line_flag(
            #[trigger] body[j].tokens,
        ) == Some(flag)
}

/// Whether the block names a flag somewhere that is not a `ret.add`,
/// looking at its first `n` body lines.
pub open spec fn unaccounted_within(header: LogicalV, test: TestV, body: Seq<LogicalV>, n: int) -> bool {
    (line_flag(inline_of(header, test)) is None && flags_named(inline_of(header, test)).len() > 0)
        || exists|j: int|
        0 <= j < n && line_flag(#[trigger] body[j].tokens) is None && flags_named(
            body[j].tokens,
        ).len() > 0
}

/// Whether the block sets `flag` outright: on its `if` line, or at its top
/// level.
pub open spec fn outright(header: LogicalV, test: TestV, body: Seq<LogicalV>, flag: Flag) -> bool {
    outright_within(header, test, body, flag, body.len() as int)
}

/// Whether the block sets `flag` below its top level.
pub open spec fn nested(header: LogicalV, test: TestV, body: Seq<LogicalV>, flag: Flag) -> bool {
    nested_within(header, test, body, flag, body.len() as int)
}

/// Whether the block names a flag somewhere that is not a `ret.add`.
pub open spec fn unaccounted(header: LogicalV, test: TestV, body: Seq<LogicalV>) -> bool {
    unaccounted_within(header, test, body, body.len() as int)
}

/// The site the block makes for `flag`, if it sets it at all.
pub open spec fn site_for(
    header: LogicalV,
    test: TestV,
    body: Seq<LogicalV>,
    raw: Seq<Seq<char>>,
    guards: Seq<GuardV>,
    flag: Flag,
) -> Option<SiteV> {
    if outright(header, test, body, flag) {
        Some(
            SiteV {
                flag,
                line: header.line as usize,
                appids: test.appids,
                condition: if guards.len() > 0 {
                    Some(guards)
                } else {
                    None
                },
            },
        )
    } else if nested(header, test, body, flag) {
        Some(
            SiteV {
                flag,
                line: header.line as usize,
                appids: test.appids,
                condition: Some(guards.push(inner_guard(body, raw))),
            },
        )
    } else {
        None
    }
}

/// `sites` with `s` added, when there is one.
pub open spec fn push_site(sites: Seq<SiteV>, s: Option<SiteV>) -> Seq<SiteV> {
    match s {
        Some(x) => sites.push(x),
        None => sites,
    }
}

/// What one recognised `if appid in [...]` block adds: a site for each flag
/// it sets, in the order `disablenvapi`, `enablenvapi`, `forcenvapi`; a
/// refusal when it names a flag it does not set; and one when it sets a flag
/// and holds entries that could not be read.
pub open spec fn block_effect(
    header: LogicalV,
    test: TestV,
    body: Seq<LogicalV>,
    raw: Seq<Seq<char>>,
    guards: Seq<GuardV>,
    st: WalkV,
) -> WalkV {
    let d = site_for(header, test, body, raw, guards, Flag::Disable);
    let e = site_for(header, test, body, raw, guards, Flag::Enable);
    let f = site_for(header, test, body, raw, guards, Flag::Force);
    let added = d is Some || e is Some || f is Some;
    let st1 = WalkV { sites: push_site(push_site(push_site(st.sites, d), e), f), ..st };
    let st2 = if unaccounted(header, test, body) {
        refuse(st1, header.line, RefusalKind::Unaccounted)
    } else {
        st1
    };
    if added && test.opaque > 0 {
        refuse(st2, header.line, RefusalKind::UnreadableEntries { count: test.opaque as usize })
    } else {
        st2
    }
}

/// The walk's state, held as the reader fills it.
struct Walk {
    lists: usize,
    sites: Vec<Site>,
    refusals: Vec<Refusal>,
}

impl View for Walk {
    type V = WalkV;

    closed spec fn view(&self) -> WalkV {
        WalkV {
            lists: self.lists as nat,
            sites: sites_view(self.sites@),
            refusals: self.refusals@,
        }
    }
}

/// Whether `v` holds `x`.
fn holds(v: &Vec<String>, x: &str) -> (b: bool)
    ensures
        b == texts(v@).contains(x@),
{
    let mut i: usize = 0;
    while i < v.len()
        invariant
            i <= v@.len(),
            forall|j: int| 0 <= j < i ==> texts(v@)[j] != x@,
        decreases v@.len() - i,
    {
        if same_text(v[i].as_str(), x) {
            assert(texts(v@)[i as int] == x@);
            return true;
        }
        i = i + 1;
    }
    false
}

/// The literals of lines `lo` to `hi`.
fn literals_in(lines: &Vec<Logical>, lo: usize, hi: usize) -> (r: Vec<String>)
    requires
        lo <= hi <= lines@.len(),
    ensures
        texts(r@) == literals(lines_view(lines@).subrange(lo as int, hi as int)),
{
    let ghost body = lines_view(lines@).subrange(lo as int, hi as int);
    let mut out: Vec<String> = Vec::new();
    let mut i: usize = lo;
    assert(body.take(0) =~= Seq::<LogicalV>::empty());
    assert(texts(out@) =~= Seq::<Seq<char>>::empty());
    while i < hi
        invariant
            lo <= i <= hi <= lines@.len(),
            body == lines_view(lines@).subrange(lo as int, hi as int),
            texts(out@) == literals(body.take(i - lo)),
        decreases hi - i,
    {
        let ts = &lines[i].tokens;
        let ghost tv = tokens_view(ts@);
        let ghost start = texts(out@);
        assert(body.take(i - lo + 1).drop_last() =~= body.take(i - lo));
        assert(body.take(i - lo + 1).last() == lines@[i as int]@);
        let mut k: usize = 0;
        assert(tv.take(0) =~= Seq::<TokenV>::empty());
        while k < ts.len()
            invariant
                k <= ts@.len(),
                tv == tokens_view(ts@),
                texts(out@) == literals_of_tokens(start, tv.take(k as int)),
            decreases ts@.len() - k,
        {
            assert(tv.take(k + 1).drop_last() =~= tv.take(k as int));
            assert(tv.take(k + 1).last() == ts@[k as int]@);
            if let Some(t) = text_of(&ts[k]) {
                if !is_blank(t) && super::Flag::lookup(t).is_none() && !holds(&out, t) {
                    let ghost before = texts(out@);
                    out.push(copy_text(t));
                    assert(texts(out@) =~= before.push(t@));
                }
            }
            k = k + 1;
        }
        assert(tv.take(k as int) =~= tv);
        i = i + 1;
    }
    assert(body.take(hi - lo) =~= body);
    out
}

/// The guard for a block that wraps what lies below it: its header alone.
fn enclosing_guard_of(lines: &Vec<Logical>, i: usize, raw: &Vec<String>) -> (g: Guard)
    requires
        i < lines@.len(),
        forall|k: int| 0 <= k < raw@.len() ==> 4 * (#[trigger] raw@[k])@.len() <= usize::MAX,
    ensures
        g@ == enclosing_guard(lines@[i as int]@, texts(raw@)),
{
    let header = &lines[i];
    assert(i < lines.len());
    let mentions = literals_in(lines, i, i + 1);
    assert(lines_view(lines@).subrange(i as int, i + 1) =~= seq![lines@[i as int]@]);
    Guard {
        enclosing: true,
        first: header.line,
        last: header.end,
        source: quote(raw, header.line, header.end),
        mentions,
    }
}

/// The guard for the body of an appid block, lines `lo` to `hi`.
fn inner_guard_of(lines: &Vec<Logical>, lo: usize, hi: usize, raw: &Vec<String>) -> (g: Guard)
    requires
        lo <= hi <= lines@.len(),
        forall|k: int| 0 <= k < raw@.len() ==> 4 * (#[trigger] raw@[k])@.len() <= usize::MAX,
    ensures
        g@ == inner_guard(lines_view(lines@).subrange(lo as int, hi as int), texts(raw@)),
{
    let ghost body = lines_view(lines@).subrange(lo as int, hi as int);
    let first = if lo < hi {
        lines[lo].line
    } else {
        1
    };
    let last = if lo < hi {
        lines[hi - 1].end
    } else {
        first
    };
    proof {
        if lo < hi {
            assert(body[0] == lines@[lo as int]@);
            assert(body.last() == lines@[hi - 1]@);
        }
    }
    Guard {
        enclosing: false,
        first,
        last,
        source: quote(raw, first, last),
        mentions: literals_in(lines, lo, hi),
    }
}

/// Whether the block headed by line `i`, with body `lo` to `hi`, exists only
/// to bind the application id.
fn binds_appid_in(lines: &Vec<Logical>, i: usize, lo: usize, hi: usize) -> (b: bool)
    requires
        i < lines@.len(),
        lo <= hi <= lines@.len(),
    ensures
        b == binds_appid(lines@[i as int]@, lines_view(lines@).subrange(lo as int, hi as int)),
{
    let ghost body = lines_view(lines@).subrange(lo as int, hi as int);
    let ts = &lines[i].tokens;
    let ghost tv = tokens_view(ts@);
    if ts.len() != 7 {
        return false;
    }
    assert(forall|k: int| 0 <= k < 7 ==> #[trigger] tv[k] == ts@[k]@);
    if !is_name(&ts[0], "if") || text_of(&ts[1]).is_none() || !is_name(&ts[2], "in") || !is_name(
        &ts[3],
        "os",
    ) || !is_punct(&ts[4], '.') || !is_name(&ts[5], "environ") || !is_punct(&ts[6], ':') {
        return false;
    }
    if lo == hi {
        return false;
    }
    let top = lines[lo].indent;
    assert(body[0] == lines@[lo as int]@);
    assert(environ_test(lines@[i as int]@.tokens));
    let mut j: usize = lo;
    while j < hi
        invariant
            i < lines@.len(),
            environ_test(lines@[i as int]@.tokens),
            lo <= j <= hi <= lines@.len(),
            lo < hi,
            body == lines_view(lines@).subrange(lo as int, hi as int),
            top == body[0].indent,
            forall|q: int|
                0 <= q < j - lo ==> !(body[q].indent == body[0].indent && assigns_appid(
                    #[trigger] body[q].tokens,
                )),
        decreases hi - j,
    {
        assert(body[j - lo] == lines@[j as int]@);
        let n = lines[j].tokens.len();
        assert(part(lines@[j as int].tokens@, 0, n as int) =~= body[j - lo].tokens);
        if lines[j].indent == top && assigns_appid_in(&lines[j].tokens, 0, n) {
            assert(body[j - lo].indent == body[0].indent && assigns_appid(body[j - lo].tokens));
            return true;
        }
        j = j + 1;
    }
    false
}

/// The NVAPI flag a `ret.add("flag")` statement between `lo` and `hi` adds.
fn line_flag_in(ts: &Vec<Token>, lo: usize, hi: usize) -> (f: Option<Flag>)
    requires
        lo <= hi <= ts@.len(),
    ensures
        f == line_flag(part(ts@, lo as int, hi as int)),
{
    match ret_add_in(ts, lo, hi) {
        Some(t) => Flag::lookup(t),
        None => None,
    }
}

/// Whether `o` is `flag`.
fn is_flag(o: Option<Flag>, flag: Flag) -> (b: bool)
    ensures
        b == (o == Some(flag)),
{
    match o {
        Some(f) => f == flag,
        None => false,
    }
}

/// What one flag of a block comes to: a site set outright, one set below the
/// top level with the body as its last guard, or none.
fn site_of(
    flag: Flag,
    set_outright: bool,
    set_nested: bool,
    line: usize,
    test: &Test,
    lines: &Vec<Logical>,
    lo: usize,
    hi: usize,
    raw: &Vec<String>,
    guards: &Vec<Guard>,
) -> (s: Option<Site>)
    requires
        lo <= hi <= lines@.len(),
        forall|k: int| 0 <= k < raw@.len() ==> 4 * (#[trigger] raw@[k])@.len() <= usize::MAX,
    ensures
        match s {
            Some(x) => Some(x@) == (if set_outright {
                Some(
                    SiteV {
                        flag,
                        line,
                        appids: texts(test.appids@),
                        condition: if guards@.len() > 0 {
                            Some(guards_view(guards@))
                        } else {
                            None
                        },
                    },
                )
            } else if set_nested {
                Some(
                    SiteV {
                        flag,
                        line,
                        appids: texts(test.appids@),
                        condition: Some(
                            guards_view(guards@).push(
                                inner_guard(
                                    lines_view(lines@).subrange(lo as int, hi as int),
                                    texts(raw@),
                                ),
                            ),
                        ),
                    },
                )
            } else {
                None::<SiteV>
            }),
            None => !set_outright && !set_nested,
        },
{
    if set_outright {
        let condition = if guards.len() > 0 {
            Some(super::Condition { guards: copy_guards(guards) })
        } else {
            None
        };
        Some(Site { flag, line, appids: copy_texts(&test.appids), condition })
    } else if set_nested {
        let mut all = copy_guards(guards);
        let inner = inner_guard_of(lines, lo, hi, raw);
        let ghost before = guards_view(all@);
        all.push(inner);
        assert(guards_view(all@) =~= before.push(inner@));
        Some(
            Site {
                flag,
                line,
                appids: copy_texts(&test.appids),
                condition: Some(super::Condition { guards: all }),
            },
        )
    } else {
        None
    }
}

/// The plain values of a recognised test.
spec fn test_view(t: &Test) -> TestV {
    TestV { appids: texts(t.appids@), opaque: t.opaque as nat, colon: t.colon as int }
}

/// Reads one recognised `if appid in [...]` block: its header at line `h`
/// and its body, lines `lo` to `hi`.
fn block(
    lines: &Vec<Logical>,
    h: usize,
    test: &Test,
    lo: usize,
    hi: usize,
    raw: &Vec<String>,
    guards: &Vec<Guard>,
    w: &mut Walk,
)
    requires
        h < lines@.len(),
        lo <= hi <= lines@.len(),
        appid_test(lines@[h as int]@.tokens) == Some(test_view(test)),
        forall|k: int| 0 <= k < raw@.len() ==> 4 * (#[trigger] raw@[k])@.len() <= usize::MAX,
    ensures
        final(w)@ == block_effect(
            lines@[h as int]@,
            test_view(test),
            lines_view(lines@).subrange(lo as int, hi as int),
            texts(raw@),
            guards_view(guards@),
            old(w)@,
        ),
{
    let ghost header = lines@[h as int]@;
    let ghost tv = test_view(test);
    let ghost body = lines_view(lines@).subrange(lo as int, hi as int);
    let ts = &lines[h].tokens;
    let n = ts.len();
    proof {
        super::shapes::lemma_colon_from_at_least(header.tokens, 0, 0);
    }
    let c1 = test.colon + 1;
    assert(inline_of(header, tv) =~= part(ts@, c1 as int, n as int));
    let inline_flag = line_flag_in(ts, c1, n);
    let inline_named = flags_in(ts, c1, n).len() > 0;
    let has_top = c1 == n && lo < hi;
    let top: usize = if has_top {
        lines[lo].indent
    } else {
        0
    };
    proof {
        if lo < hi {
            assert(body[0] == lines@[lo as int]@);
        }
    }
    assert(top_of(header, tv, body) == if has_top {
        Some(top as int)
    } else {
        None::<int>
    });
    let mut out_d = is_flag(inline_flag, Flag::Disable);
    let mut out_e = is_flag(inline_flag, Flag::Enable);
    let mut out_f = is_flag(inline_flag, Flag::Force);
    let mut nest_d = false;
    let mut nest_e = false;
    let mut nest_f = false;
    let mut unacc = inline_flag.is_none() && inline_named;
    let mut j: usize = lo;
    while j < hi
        invariant
            lo <= j <= hi <= lines@.len(),
            body == lines_view(lines@).subrange(lo as int, hi as int),
            top_of(header, tv, body) == if has_top {
                Some(top as int)
            } else {
                None::<int>
            },
            out_d == outright_within(header, tv, body, Flag::Disable, j - lo),
            out_e == outright_within(header, tv, body, Flag::Enable, j - lo),
            out_f == outright_within(header, tv, body, Flag::Force, j - lo),
            nest_d == nested_within(header, tv, body, Flag::Disable, j - lo),
            nest_e == nested_within(header, tv, body, Flag::Enable, j - lo),
            nest_f == nested_within(header, tv, body, Flag::Force, j - lo),
            unacc == unaccounted_within(header, tv, body, j - lo),
        decreases hi - j,
    {
        let lts = &lines[j].tokens;
        let m = lts.len();
        assert(body[j - lo] == lines@[j as int]@);
        assert(part(lts@, 0, m as int) =~= body[j - lo].tokens);
        let lf = line_flag_in(lts, 0, m);
        let at_top = has_top && lines[j].indent == top;
        let ghost q = j - lo;
        assert(at_top == (top_of(header, tv, body) == Some(body[q].indent)));
        match lf {
            Some(f) => {
                if at_top {
                    if f == Flag::Disable {
                        out_d = true;
                    } else if f == Flag::Enable {
                        out_e = true;
                    } else {
                        out_f = true;
                    }
                } else {
                    if f == Flag::Disable {
                        nest_d = true;
                    } else if f == Flag::Enable {
                        nest_e = true;
                    } else {
                        nest_f = true;
                    }
                }
            },
            None => {
                if flags_in(lts, 0, m).len() > 0 {
                    unacc = true;
                }
            },
        }
        j = j + 1;
    }
    let line = lines[h].line;
    let sd = site_of(Flag::Disable, out_d, nest_d, line, test, lines, lo, hi, raw, guards);
    let se = site_of(Flag::Enable, out_e, nest_e, line, test, lines, lo, hi, raw, guards);
    let sf = site_of(Flag::Force, out_f, nest_f, line, test, lines, lo, hi, raw, guards);
    let added = sd.is_some() || se.is_some() || sf.is_some();
    let ghost start = w@;
    push_site_of(w, sd);
    push_site_of(w, se);
    push_site_of(w, sf);
    if unacc {
        w.refusals.push(Refusal { line, kind: RefusalKind::Unaccounted });
    }
    if added && test.opaque > 0 {
        w.refusals.push(Refusal { line, kind: RefusalKind::UnreadableEntries { count: test.opaque } });
    }
}

/// Adds `s` to the walk's sites, when there is one.
fn push_site_of(w: &mut Walk, s: Option<Site>)
    ensures
        final(w)@ == (WalkV {
            sites: push_site(
                old(w)@.sites,
                match s {
                    Some(x) => Some(x@),
                    None => None,
                },
            ),
            ..old(w)@
        }),
{
    if let Some(x) = s {
        let ghost before = sites_view(w.sites@);
        w.sites.push(x);
        assert(sites_view(w.sites@) =~= before.push(x@));
    }
}

/// Where the block headed at `body[j - 1]` ends: the first line from `j`
/// indented no deeper than `indent`, or the end of the body.
pub open spec fn end_from(body: Seq<LogicalV>, j: int, indent: int) -> int
    decreases body.len() - j,
{
    if j < 0 || j >= body.len() {
        body.len() as int
    } else if body[j].indent > indent {
        end_from(body, j + 1, indent)
    } else {
        j
    }
}

/// Where the block headed by `body[i]` ends.
pub open spec fn block_end(body: Seq<LogicalV>, i: int) -> int {
    end_from(body, i + 1, body[i].indent)
}

/// The walk of `body` from line `i`, with `guards` standing over it, at
/// nesting `depth`: each recognised appid list is read whole, and everything
/// else is checked for flags and descended into with its header kept as a
/// guard, unless it only binds the application id, or unless the walk is
/// already as deep as it goes.
pub open spec fn walk_from(
    body: Seq<LogicalV>,
    i: int,
    raw: Seq<Seq<char>>,
    guards: Seq<GuardV>,
    depth: int,
    st: WalkV,
) -> WalkV
    decreases body.len(), body.len() - i,
{
    if i < 0 || i >= body.len() {
        st
    } else {
        let line = body[i];
        let end = block_end(body, i);
        if end <= i || end > body.len() {
            st
        } else {
            let inner = body.subrange(i + 1, end);
            match appid_test(line.tokens) {
                Some(test) => walk_from(
                    body,
                    end,
                    raw,
                    guards,
                    depth,
                    block_effect(line, test, inner, raw, guards, WalkV { lists: st.lists + 1, ..st }),
                ),
                None => {
                    let st1 = if flags_named(line.tokens).len() > 0 {
                        refuse(st, line.line, RefusalKind::Unaccounted)
                    } else {
                        st
                    };
                    let st2 = if inner.len() == 0 {
                        st1
                    } else if depth + 1 >= MAX_DEPTH {
                        refuse(st1, line.line, RefusalKind::TooDeep)
                    } else {
                        let g = if binds_appid(line, inner) {
                            guards
                        } else {
                            guards.push(enclosing_guard(line, raw))
                        };
                        walk_from(inner, 0, raw, g, depth + 1, st1)
                    };
                    walk_from(body, end, raw, guards, depth, st2)
                },
            }
        }
    }
}

/// The tokens of two runs of lines together.
proof fn lemma_total_concat(a: Seq<LogicalV>, b: Seq<LogicalV>)
    ensures
        total_tokens(a + b) == total_tokens(a) + total_tokens(b),
    decreases b.len(),
{
    if b.len() == 0 {
        assert(a + b =~= a);
    } else {
        assert((a + b).drop_last() =~= a + b.drop_last());
        lemma_total_concat(a, b.drop_last());
    }
}

/// A bracket's contents split into at most one item more than it has
/// tokens.
proof fn lemma_items_from_len(
    ts: Seq<TokenV>,
    i: int,
    depth: int,
    start: int,
    acc: Seq<Seq<TokenV>>,
)
    requires
        0 <= i <= ts.len(),
    ensures
        super::shapes::items_from(ts, i, depth, start, acc).len() <= acc.len() + (ts.len() - i)
            + 1,
    decreases ts.len() - i,
{
    if i < ts.len() {
        if depth == 0 && ts[i] == TokenV::Punct(',') {
            lemma_items_from_len(ts, i + 1, depth, i + 1, acc.push(ts.subrange(start, i)));
        } else {
            lemma_items_from_len(
                ts,
                i + 1,
                super::shapes::depth_after(ts[i], depth),
                start,
                acc,
            );
        }
    }
}

/// An appid list holds no more entries than it has items.
proof fn lemma_entries_len(its: Seq<Seq<TokenV>>)
    ensures
        super::shapes::list_entries(its).0.len() <= its.len(),
    decreases its.len(),
{
    if its.len() > 0 {
        lemma_entries_len(its.drop_last());
    }
}

/// A recognised test names no more application ids than its line has
/// tokens.
proof fn lemma_test_appids(ts: Seq<TokenV>)
    ensures
        appid_test(ts) matches Some(t) ==> t.appids.len() <= ts.len(),
{
    if ts.len() > 0 && ts[0] == TokenV::Name("if"@) {
        super::shapes::lemma_colon_from_at_least(ts, 0, 0);
        match super::shapes::colon_at(ts) {
            Some(colon) => {
                let test = ts.subrange(1, colon);
                if test.len() >= 4 {
                    let inner = test.subrange(3, test.len() - 1);
                    lemma_items_from_len(inner, 0, 0, 0, Seq::empty());
                    lemma_entries_len(super::shapes::items(inner));
                }
            },
            None => {},
        }
    }
}

/// One more site adds its application ids to the count.
proof fn lemma_all_appids_push(sites: Seq<SiteV>, x: SiteV)
    ensures
        super::all_appids(sites.push(x)) == super::all_appids(sites) + x.appids.len(),
{
    assert(sites.push(x).drop_last() =~= sites);
}

/// A block adds at most one site per flag, each naming the list's ids.
proof fn lemma_block_appids(
    header: LogicalV,
    test: TestV,
    body: Seq<LogicalV>,
    raw: Seq<Seq<char>>,
    guards: Seq<GuardV>,
    st: WalkV,
)
    ensures
        block_effect(header, test, body, raw, guards, st).lists == st.lists,
        super::all_appids(block_effect(header, test, body, raw, guards, st).sites)
            <= super::all_appids(st.sites) + 3 * test.appids.len(),
{
    let d = site_for(header, test, body, raw, guards, Flag::Disable);
    let e = site_for(header, test, body, raw, guards, Flag::Enable);
    let f = site_for(header, test, body, raw, guards, Flag::Force);
    let s1 = push_site(st.sites, d);
    let s2 = push_site(s1, e);
    if let Some(x) = d {
        lemma_all_appids_push(st.sites, x);
    }
    if let Some(x) = e {
        lemma_all_appids_push(s1, x);
    }
    if let Some(x) = f {
        lemma_all_appids_push(s2, x);
    }
}

/// The walk counts at most one appid list per line, and its sites name at
/// most three times as many application ids as the lines have tokens.
proof fn lemma_walk_bounds(
    body: Seq<LogicalV>,
    i: int,
    raw: Seq<Seq<char>>,
    guards: Seq<GuardV>,
    depth: int,
    st: WalkV,
)
    requires
        0 <= i <= body.len(),
    ensures
        walk_from(body, i, raw, guards, depth, st).lists <= st.lists + (body.len() - i),
        super::all_appids(walk_from(body, i, raw, guards, depth, st).sites) <= super::all_appids(
            st.sites,
        ) + 3 * total_tokens(body.skip(i)),
    decreases body.len(), body.len() - i,
{
    if i < body.len() {
        let line = body[i];
        let end = block_end(body, i);
        if end > i && end <= body.len() {
            let inner = body.subrange(i + 1, end);
            assert(body.skip(i) =~= seq![line] + inner + body.skip(end));
            lemma_total_concat(seq![line] + inner, body.skip(end));
            lemma_total_concat(seq![line], inner);
            assert(seq![line].drop_last() =~= Seq::<LogicalV>::empty());
            match appid_test(line.tokens) {
                Some(test) => {
                    let st0 = WalkV { lists: st.lists + 1, ..st };
                    let st1 = block_effect(line, test, inner, raw, guards, st0);
                    lemma_test_appids(line.tokens);
                    lemma_block_appids(line, test, inner, raw, guards, st0);
                    lemma_walk_bounds(body, end, raw, guards, depth, st1);
                },
                None => {
                    let st1 = if flags_named(line.tokens).len() > 0 {
                        refuse(st, line.line, RefusalKind::Unaccounted)
                    } else {
                        st
                    };
                    let st2 = if inner.len() == 0 {
                        st1
                    } else if depth + 1 >= MAX_DEPTH {
                        refuse(st1, line.line, RefusalKind::TooDeep)
                    } else {
                        let g = if binds_appid(line, inner) {
                            guards
                        } else {
                            guards.push(enclosing_guard(line, raw))
                        };
                        lemma_walk_bounds(inner, 0, raw, g, depth + 1, st1);
                        assert(inner.skip(0) =~= inner);
                        walk_from(inner, 0, raw, g, depth + 1, st1)
                    };
                    lemma_walk_bounds(body, end, raw, guards, depth, st2);
                },
            }
        }
    } else {
        assert(body.skip(i) =~= Seq::<LogicalV>::empty());
    }
}

/// Walks the body lines `lo` to `hi`, as [`walk_from`] states.
fn walk(
    lines: &Vec<Logical>,
    lo: usize,
    hi: usize,
    raw: &Vec<String>,
    guards: &mut Vec<Guard>,
    depth: usize,
    w: &mut Walk,
)
    requires
        lo <= hi <= lines@.len(),
        depth < MAX_DEPTH,
        forall|k: int| 0 <= k < raw@.len() ==> 4 * (#[trigger] raw@[k])@.len() <= usize::MAX,
        old(w)@.lists + (hi - lo) <= usize::MAX,
    ensures
        guards_view(final(guards)@) == guards_view(old(guards)@),
        final(w)@ == walk_from(
            lines_view(lines@).subrange(lo as int, hi as int),
            0,
            texts(raw@),
            guards_view(old(guards)@),
            depth as int,
            old(w)@,
        ),
    decreases hi - lo,
{
    let ghost body = lines_view(lines@).subrange(lo as int, hi as int);
    let ghost g0 = guards_view(guards@);
    let ghost w0 = w@;
    let ghost rv = texts(raw@);
    let mut i: usize = lo;
    while i < hi
        invariant
            lo <= i <= hi <= lines@.len(),
            depth < MAX_DEPTH,
            body == lines_view(lines@).subrange(lo as int, hi as int),
            rv == texts(raw@),
            forall|k: int| 0 <= k < raw@.len() ==> 4 * (#[trigger] raw@[k])@.len() <= usize::MAX,
            guards_view(guards@) == g0,
            w@.lists + (hi - i) <= usize::MAX,
            walk_from(body, 0, rv, g0, depth as int, w0) == walk_from(
                body,
                i - lo,
                rv,
                g0,
                depth as int,
                w@,
            ),
        decreases hi - i,
    {
        let indent = lines[i].indent;
        let ghost k = i - lo;
        assert(body[k] == lines@[i as int]@);
        let mut end: usize = i + 1;
        while end < hi && lines[end].indent > indent
            invariant
                lo <= i < end <= hi <= lines@.len(),
                body == lines_view(lines@).subrange(lo as int, hi as int),
                indent == body[i - lo].indent,
                block_end(body, i - lo) == end_from(body, end - lo, indent as int),
            decreases hi - end,
        {
            assert(body[end - lo] == lines@[end as int]@);
            end = end + 1;
        }
        proof {
            if end < hi {
                assert(body[end - lo] == lines@[end as int]@);
            }
        }
        assert(block_end(body, k) == end - lo);
        assert(body.subrange(k + 1, end - lo) =~= lines_view(lines@).subrange(i + 1, end as int));
        let ghost inner = body.subrange(k + 1, end - lo);
        let ghost st = w@;
        let ts = &lines[i].tokens;
        let n = ts.len();
        assert(part(ts@, 0, n as int) =~= body[k].tokens);
        match appid_test_in(ts) {
            Some(test) => {
                w.lists = w.lists + 1;
                block(lines, i, &test, i + 1, end, raw, guards, w);
            },
            None => {
                if flags_in(ts, 0, n).len() > 0 {
                    w.refusals.push(Refusal { line: lines[i].line, kind: RefusalKind::Unaccounted });
                }
                let ghost st1 = w@;
                if end > i + 1 {
                    if depth + 1 >= MAX_DEPTH {
                        w.refusals.push(Refusal { line: lines[i].line, kind: RefusalKind::TooDeep });
                    } else {
                        let transparent = binds_appid_in(lines, i, i + 1, end);
                        if !transparent {
                            let g = enclosing_guard_of(lines, i, raw);
                            guards.push(g);
                            assert(guards_view(guards@) =~= g0.push(g@));
                        }
                        walk(lines, i + 1, end, raw, guards, depth + 1, w);
                        proof {
                            let gi = if transparent {
                                g0
                            } else {
                                g0.push(enclosing_guard(lines@[i as int]@, rv))
                            };
                            lemma_walk_bounds(inner, 0, rv, gi, depth + 1, st1);
                        }
                        if !transparent {
                            let ghost pushed = guards@;
                            guards.pop();
                            assert(guards_view(guards@) =~= guards_view(pushed).drop_last());
                        }
                    }
                }
            },
        }
        i = end;
    }
}

/// `def default_compat_config(`.
pub open spec fn is_def(ts: Seq<TokenV>) -> bool {
    ts.len() >= 3 && ts[0] == TokenV::Name("def"@) && ts[1] == TokenV::Name(
        "default_compat_config"@,
    ) && ts[2] == TokenV::Punct('(')
}

/// The index of the function's `def` from line `i` on, `found` being the one
/// met before; a second definition is an error.
pub open spec fn defs_from(lines: Seq<LogicalV>, i: int, found: Option<int>) -> Result<
    Option<int>,
    Error,
>
    decreases lines.len() - i,
{
    if i < 0 || i >= lines.len() {
        Ok(found)
    } else if is_def(lines[i].tokens) {
        match found {
            Some(first) => Err(
                Error {
                    kind: ErrorKind::DuplicateFunction { first: lines[first].line as usize },
                    line: lines[i].line as usize,
                },
            ),
            None => defs_from(lines, i + 1, Some(i)),
        }
    } else {
        defs_from(lines, i + 1, found)
    }
}

/// The index of the function's `def`, if the script has one.
pub open spec fn function_at(lines: Seq<LogicalV>) -> Result<Option<int>, Error> {
    defs_from(lines, 0, None)
}

/// The lines of the function body: those after its `def` indented deeper
/// than it.
pub open spec fn body_range(lines: Seq<LogicalV>, header: Option<int>) -> (int, int) {
    match header {
        Some(at) => (at + 1, end_from(lines, at + 1, lines[at].indent)),
        None => (0, 0),
    }
}

/// How many string literals in all the lines mention `nvapi`.
pub open spec fn mentions_total(lines: Seq<LogicalV>) -> nat
    decreases lines.len(),
{
    if lines.len() == 0 {
        0
    } else {
        mentions_total(lines.drop_last()) + super::shapes::nvapi_strings(lines.last().tokens)
    }
}

/// `out` with each of `fs` that it lacks added, in order.
pub open spec fn add_flags(out: Seq<Flag>, fs: Seq<Flag>) -> Seq<Flag>
    decreases fs.len(),
{
    if fs.len() == 0 {
        out
    } else {
        let before = add_flags(out, fs.drop_last());
        if before.contains(fs.last()) {
            before
        } else {
            before.push(fs.last())
        }
    }
}

/// The flags the first `n` lines name outside the function, each once, in
/// file order.
pub open spec fn elsewhere_of(
    lines: Seq<LogicalV>,
    n: int,
    lo: int,
    hi: int,
    header: Option<int>,
) -> Seq<Flag>
    decreases n,
{
    if n <= 0 {
        Seq::empty()
    } else {
        let before = elsewhere_of(lines, n - 1, lo, hi, header);
        let i = n - 1;
        if (lo <= i < hi) || header == Some(i) {
            before
        } else {
            add_flags(before, flags_named(lines[i].tokens))
        }
    }
}

/// The first line from `i` to `hi` indented with a tab.
pub open spec fn first_tabbed(lines: Seq<LogicalV>, i: int, hi: int) -> Option<int>
    decreases hi - i,
{
    if i < 0 || i >= hi || hi > lines.len() {
        None
    } else if lines[i].tabbed {
        Some(i)
    } else {
        first_tabbed(lines, i + 1, hi)
    }
}

/// The refusal recorded when the lists and the rest of the script disagree
/// about which way round the policy runs: the script names the other flag
/// outside the function, and never the lists' own.
pub open spec fn polarity_refusal(
    sites: Seq<SiteV>,
    elsewhere: Seq<Flag>,
    function_line: Option<usize>,
) -> Option<Refusal> {
    match spec_policy(sites) {
        None => None,
        Some(p) => {
            let listed = policy_flag(p);
            let opposite = match p {
                Policy::DenyList => Flag::Enable,
                Policy::AllowList => Flag::Disable,
            };
            if elsewhere.contains(listed) || !elsewhere.contains(opposite) {
                None
            } else {
                Some(
                    Refusal {
                        line: match function_line {
                            Some(l) => l,
                            None => 1,
                        },
                        kind: RefusalKind::PolarityDisagrees { listed, used: opposite },
                    },
                )
            }
        },
    }
}

/// Everything one script says about NVAPI, read from its text: the lexer's
/// error, a second definition of the function, or a tab inside it; or else
/// the reading.
pub open spec fn spec_scan(s: Seq<char>) -> Result<ReadingV, Error> {
    match spec_lex(s) {
        Err(e) => Err(e),
        Ok(lines) => match function_at(lines) {
            Err(e) => Err(e),
            Ok(header) => {
                let (lo, hi) = body_range(lines, header);
                match first_tabbed(lines, lo, hi) {
                    Some(t) => Err(Error { kind: ErrorKind::TabIndent, line: lines[t].line as usize }),
                    None => {
                        let sw = spec_switches(lines);
                        let w = walk_from(
                            lines.subrange(lo, hi),
                            0,
                            physical_lines(s),
                            Seq::empty(),
                            0,
                            WalkV { lists: 0, sites: Seq::empty(), refusals: Seq::empty() },
                        );
                        let elsewhere = elsewhere_of(lines, lines.len() as int, lo, hi, header);
                        let function_line = match header {
                            Some(at) => Some(lines[at].line as usize),
                            None => None,
                        };
                        Ok(
                            ReadingV {
                                function_line,
                                appid_lists: w.lists as usize,
                                sites: w.sites,
                                refusals: match polarity_refusal(
                                    w.sites,
                                    elsewhere,
                                    function_line,
                                ) {
                                    Some(r) => w.refusals.push(r),
                                    None => w.refusals,
                                },
                                elsewhere,
                                nvapi_mentions: mentions_total(lines) as usize,
                                switches: sw.0,
                                switches_unread: sw.1 as usize,
                                formula: spec_formula(lines),
                                recorded_line: spec_recorded_line(lines),
                            },
                        )
                    },
                }
            },
        },
    }
}

/// No line has more literals mentioning `nvapi` than tokens.
proof fn lemma_nvapi_strings_bounded(ts: Seq<TokenV>)
    ensures
        super::shapes::nvapi_strings(ts) <= ts.len(),
    decreases ts.len(),
{
    if ts.len() > 0 {
        lemma_nvapi_strings_bounded(ts.drop_last());
    }
}

/// No more literals mention `nvapi` than there are tokens.
proof fn lemma_mentions_bounded(lines: Seq<LogicalV>)
    ensures
        mentions_total(lines) <= total_tokens(lines),
    decreases lines.len(),
{
    if lines.len() > 0 {
        lemma_mentions_bounded(lines.drop_last());
        lemma_nvapi_strings_bounded(lines.last().tokens);
    }
}

/// The index of the function's `def`, or `None` if the script has no such
/// function.
fn function_line(lines: &Vec<Logical>) -> (r: Result<Option<usize>, Error>)
    ensures
        match r {
            Ok(h) => function_at(lines_view(lines@)) == Ok::<Option<int>, Error>(
                match h {
                    Some(i) => Some(i as int),
                    None => None,
                },
            ) && (h matches Some(i) ==> i < lines@.len()),
            Err(e) => function_at(lines_view(lines@)) == Err::<Option<int>, Error>(e),
        },
{
    let ghost lv = lines_view(lines@);
    let mut found: Option<usize> = None;
    let mut i: usize = 0;
    while i < lines.len()
        invariant
            i <= lines@.len(),
            lv == lines_view(lines@),
            found matches Some(f) ==> f < i,
            function_at(lv) == defs_from(
                lv,
                i as int,
                match found {
                    Some(f) => Some(f as int),
                    None => None,
                },
            ),
        decreases lines@.len() - i,
    {
        let ts = &lines[i].tokens;
        let ghost tv = tokens_view(ts@);
        assert(lv[i as int] == lines@[i as int]@);
        let def = ts.len() >= 3 && is_name(&ts[0], "def") && is_name(&ts[1], "default_compat_config")
            && is_punct(&ts[2], '(');
        proof {
            if ts.len() >= 3 {
                assert(tv[0] == ts@[0]@ && tv[1] == ts@[1]@ && tv[2] == ts@[2]@);
            }
        }
        if def {
            match found {
                Some(first) => {
                    assert(lv[first as int] == lines@[first as int]@);
                    return Err(
                        Error {
                            kind: ErrorKind::DuplicateFunction { first: lines[first].line },
                            line: lines[i].line,
                        },
                    );
                },
                None => {
                    found = Some(i);
                },
            }
        }
        i = i + 1;
    }
    Ok(found)
}

/// Records a refusal when the lists and the rest of the script disagree
/// about which way round the policy runs.
fn check_polarity(reading: &mut Reading)
    ensures
        final(reading)@ == (ReadingV {
            refusals: match polarity_refusal(
                old(reading)@.sites,
                old(reading)@.elsewhere,
                old(reading)@.function_line,
            ) {
                Some(r) => old(reading)@.refusals.push(r),
                None => old(reading)@.refusals,
            },
            ..old(reading)@
        }),
{
    let policy = match reading.policy() {
        Some(p) => p,
        None => return,
    };
    let listed = policy.flag();
    if super::shapes::contains_flag(&reading.elsewhere, listed) {
        return;
    }
    let opposite = match policy {
        Policy::DenyList => Flag::Enable,
        Policy::AllowList => Flag::Disable,
    };
    if !super::shapes::contains_flag(&reading.elsewhere, opposite) {
        return;
    }
    let line = match reading.function_line {
        Some(l) => l,
        None => 1,
    };
    reading.refusals.push(
        Refusal { line, kind: RefusalKind::PolarityDisagrees { listed, used: opposite } },
    );
}

/// Reads one `proton` script's NVAPI policy out of its text.
///
/// A script with no `default_compat_config` is not an error: it comes back
/// as a [`Reading`] with no function line, which [`decide`](super::decide)
/// turns into [`Unknown::NoFunction`](super::Unknown::NoFunction). The
/// errors are a file that cannot be tokenised, a function defined twice, and
/// a tab in the function's indentation; nothing partial comes back with them.
pub fn scan(script: &str) -> (r: Result<Reading, Error>)
    requires
        8 * script@.len() < usize::MAX,
    ensures
        match r {
            Ok(reading) => spec_scan(script@) == Ok::<ReadingV, Error>(reading@)
                && super::all_appids(reading@.sites) <= 3 * script@.len(),
            Err(e) => spec_scan(script@) == Err::<ReadingV, Error>(e),
        },
{
    let lines = match lex(script) {
        Ok(lines) => lines,
        Err(e) => return Err(e),
    };
    let ghost lv = lines_view(lines@);
    let raw = physical_lines_of(script);
    let (switches, switches_unread) = switches(&lines);
    let formula = formula(&lines);
    let recorded_line = recorded_line(&lines);
    let header = match function_line(&lines) {
        Ok(h) => h,
        Err(e) => return Err(e),
    };
    let ghost hv: Option<int> = match header {
        Some(at) => Some(at as int),
        None => None,
    };
    let (lo, hi) = match header {
        Some(at) => {
            let indent = lines[at].indent;
            assert(lv[at as int] == lines@[at as int]@);
            let count = lines.len();
            assert(at < count);
            let mut end: usize = at + 1;
            while end < lines.len() && lines[end].indent > indent
                invariant
                    at < end <= lines@.len(),
                    lv == lines_view(lines@),
                    indent == lv[at as int].indent,
                    end_from(lv, at + 1, indent as int) == end_from(lv, end as int, indent as int),
                decreases lines@.len() - end,
            {
                assert(lv[end as int] == lines@[end as int]@);
                end = end + 1;
            }
            proof {
                if end < lines.len() {
                    assert(lv[end as int] == lines@[end as int]@);
                }
            }
            (at + 1, end)
        },
        None => (0, 0),
    };
    assert(body_range(lv, hv) == (lo as int, hi as int));
    let function_line = match header {
        Some(at) => Some(lines[at].line),
        None => None,
    };
    // What the script says about NVAPI outside the function, and how often it
    // mentions NVAPI at all.
    let mut mentions: usize = 0;
    let mut elsewhere: Vec<Flag> = Vec::new();
    let mut i: usize = 0;
    proof {
        lemma_mentions_bounded(lv);
        assert(lv.take(0) =~= Seq::<LogicalV>::empty());
    }
    while i < lines.len()
        invariant
            i <= lines@.len(),
            lv == lines_view(lines@),
            total_tokens(lv) <= script@.len(),
            8 * script@.len() < usize::MAX,
            mentions == mentions_total(lv.take(i as int)),
            elsewhere@ == elsewhere_of(lv, i as int, lo as int, hi as int, hv),
            hv == match header {
                Some(at) => Some(at as int),
                None => None::<int>,
            },
        decreases lines@.len() - i,
    {
        let ts = &lines[i].tokens;
        assert(lv[i as int] == lines@[i as int]@);
        assert(lv.take(i + 1).drop_last() =~= lv.take(i as int));
        proof {
            super::lexer::lemma_total_prefix(lv, i + 1);
            lemma_mentions_bounded(lv.take(i + 1));
        }
        mentions = mentions + super::shapes::nvapi_count(ts);
        let in_body = lo <= i && i < hi;
        let is_header = match header {
            Some(at) => at == i,
            None => false,
        };
        if !in_body && !is_header {
            let n = ts.len();
            assert(part(ts@, 0, n as int) =~= lv[i as int].tokens);
            let fs = flags_in(ts, 0, n);
            let ghost start = elsewhere@;
            let mut k: usize = 0;
            assert(fs@.take(0) =~= Seq::<Flag>::empty());
            while k < fs.len()
                invariant
                    k <= fs@.len(),
                    elsewhere@ == add_flags(start, fs@.take(k as int)),
                decreases fs@.len() - k,
            {
                assert(fs@.take(k + 1).drop_last() =~= fs@.take(k as int));
                let f = fs[k];
                if !super::shapes::contains_flag(&elsewhere, f) {
                    elsewhere.push(f);
                }
                k = k + 1;
            }
            assert(fs@.take(k as int) =~= fs@);
        }
        i = i + 1;
    }
    assert(lv.take(i as int) =~= lv);
    // A block boundary computed from a tab of the wrong width is wrong
    // silently, so the whole body is checked before anything is read.
    let mut t: usize = lo;
    while t < hi
        invariant
            lo <= t <= hi <= lines@.len(),
            lv == lines_view(lines@),
            first_tabbed(lv, lo as int, hi as int) == first_tabbed(lv, t as int, hi as int),
            spec_lex(script@) == Ok::<Seq<LogicalV>, Error>(lv),
            function_at(lv) == Ok::<Option<int>, Error>(hv),
            body_range(lv, hv) == (lo as int, hi as int),
        decreases hi - t,
    {
        assert(lv[t as int] == lines@[t as int]@);
        if lines[t].tabbed {
            return Err(Error { kind: ErrorKind::TabIndent, line: lines[t].line });
        }
        t = t + 1;
    }
    let mut w = Walk { lists: 0, sites: Vec::new(), refusals: Vec::new() };
    assert(w@ == WalkV { lists: 0, sites: Seq::empty(), refusals: Seq::empty() }) by {
        assert(sites_view(w.sites@) =~= Seq::<SiteV>::empty());
    }
    let mut guards: Vec<Guard> = Vec::new();
    assert(guards_view(guards@) =~= Seq::<GuardV>::empty());
    walk(&lines, lo, hi, &raw, &mut guards, 0, &mut w);
    proof {
        let body = lv.subrange(lo as int, hi as int);
        lemma_walk_bounds(
            body,
            0,
            texts(raw@),
            Seq::empty(),
            0,
            WalkV { lists: 0, sites: Seq::empty(), refusals: Seq::empty() },
        );
        assert(body.skip(0) =~= body);
        assert(lv =~= lv.take(lo as int) + body + lv.skip(hi as int));
        lemma_total_concat(lv.take(lo as int) + body, lv.skip(hi as int));
        lemma_total_concat(lv.take(lo as int), body);
    }
    let mut reading = Reading {
        function_line,
        appid_lists: w.lists,
        sites: w.sites,
        refusals: w.refusals,
        elsewhere,
        nvapi_mentions: mentions,
        switches,
        switches_unread,
        formula,
        recorded_line,
    };
    check_polarity(&mut reading);
    Ok(reading)
}

} // verus!
