//! The sentences a reading, its guards, refusals and decisions are printed
//! as, worded so none can be read as more certain than it is.

use vstd::prelude::*;

use super::{
    all_appids, spec_listed, spec_lists, Condition, Decision, DecisionV, Error, ErrorKind, Flag, Guard, GuardV,
    Reading, ReadingV, Refusal, RefusalKind, SiteV, Unknown,
};
use crate::text::{debug_quoted, debug_text, decimal, join, push_decimal, texts};

verus! {

/// Where a guard is.
pub open spec fn guard_place(g: GuardV) -> Seq<char> {
    if g.enclosing {
        "a test at line "@ + decimal(g.first as nat)
    } else if g.first == g.last {
        "a block at line "@ + decimal(g.first as nat)
    } else {
        "a block at lines "@ + decimal(g.first as nat) + "-"@ + decimal(g.last as nat)
    }
}

/// One clause naming where a guard is and what it reads.
pub open spec fn guard_summary(g: GuardV) -> Seq<char> {
    if g.mentions.len() == 0 {
        guard_place(g) + " whose terms this reader cannot name"@
    } else {
        guard_place(g) + " that turns on "@ + join(
            g.mentions.map_values(|m: Seq<char>| debug_quoted(m)),
            ", "@,
        )
    }
}

/// One sentence naming every guard, outermost first.
pub open spec fn condition_summary(c: Seq<GuardV>) -> Seq<char> {
    decimal(c.len()) + " test"@ + (if c.len() == 1 {
        Seq::empty()
    } else {
        "s"@
    }) + " this reader does not evaluate and does not claim to understand: "@ + join(
        c.map_values(|g: GuardV| guard_summary(g)),
        "; and inside it, "@,
    )
}

impl Guard {
    /// One clause naming where it is and what it reads.
    pub fn summary(&self) -> (s: String)
        ensures
            s@ == guard_summary(self@),
    {
        let mut s = String::new();
        if self.enclosing {
            s.push_str("a test at line ");
            push_decimal(&mut s, self.first as u64);
        } else if self.first == self.last {
            s.push_str("a block at line ");
            push_decimal(&mut s, self.first as u64);
        } else {
            s.push_str("a block at lines ");
            push_decimal(&mut s, self.first as u64);
            s.push_str("-");
            push_decimal(&mut s, self.last as u64);
        }
        assert(s@ =~= guard_place(self@));
        if self.mentions.len() == 0 {
            s.push_str(" whose terms this reader cannot name");
            return s;
        }
        s.push_str(" that turns on ");
        let ghost start = s@;
        let ghost quoted = self@.mentions.map_values(|m: Seq<char>| debug_quoted(m));
        let mut i: usize = 0;
        while i < self.mentions.len()
            invariant
                i <= self.mentions@.len(),
                quoted == self@.mentions.map_values(|m: Seq<char>| debug_quoted(m)),
                s@ == start + join(quoted.take(i as int), ", "@),
            decreases self.mentions@.len() - i,
        {
            assert(quoted.take(i + 1).drop_last() =~= quoted.take(i as int));
            assert(quoted.take(i + 1).last() == debug_quoted(self.mentions@[i as int]@));
            if i > 0 {
                s.push_str(", ");
            }
            let q = debug_text(self.mentions[i].as_str());
            s.push_str(q.as_str());
            i = i + 1;
            proof {
                if i == 1 {
                    assert(quoted.take(1)[0] == quoted.take(1).last());
                }
                assert(s@ =~= start + join(quoted.take(i as int), ", "@));
            }
        }
        assert(quoted.take(i as int) =~= quoted);
        s
    }
}

impl Condition {
    /// One sentence naming every guard, outermost first.
    pub fn summary(&self) -> (s: String)
        ensures
            s@ == condition_summary(self@),
    {
        let n = self.guards.len();
        let mut s = String::new();
        push_decimal(&mut s, n as u64);
        s.push_str(" test");
        if n != 1 {
            s.push_str("s");
        }
        s.push_str(" this reader does not evaluate and does not claim to understand: ");
        assert(self@.len() == n);
        assert(s@ =~= decimal(self@.len()) + " test"@ + (if self@.len() == 1 {
            Seq::empty()
        } else {
            "s"@
        }) + " this reader does not evaluate and does not claim to understand: "@);
        let ghost start = s@;
        let ghost parts = self@.map_values(|g: GuardV| guard_summary(g));
        let mut i: usize = 0;
        while i < n
            invariant
                i <= n == self.guards@.len(),
                parts == self@.map_values(|g: GuardV| guard_summary(g)),
                s@ == start + join(parts.take(i as int), "; and inside it, "@),
            decreases n - i,
        {
            assert(parts.take(i + 1).drop_last() =~= parts.take(i as int));
            assert(parts.take(i + 1).last() == guard_summary(self.guards@[i as int]@));
            if i > 0 {
                s.push_str("; and inside it, ");
            }
            let part = self.guards[i].summary();
            s.push_str(part.as_str());
            i = i + 1;
            proof {
                if i == 1 {
                    assert(parts.take(1)[0] == parts.take(1).last());
                }
                assert(s@ =~= start + join(parts.take(i as int), "; and inside it, "@));
            }
        }
        assert(parts.take(i as int) =~= parts);
        assert(s@ =~= condition_summary(self@));
        s
    }

    /// Every guard's text, outermost first, for a report with room to print
    /// it.
    pub fn source(&self) -> (lines: Vec<String>)
        ensures
            texts(lines@) == all_source(self@),
    {
        let mut lines: Vec<String> = Vec::new();
        let mut i: usize = 0;
        while i < self.guards.len()
            invariant
                i <= self.guards@.len(),
                texts(lines@) == all_source(self@.take(i as int)),
            decreases self.guards@.len() - i,
        {
            let g = &self.guards[i];
            assert(self@.take(i + 1).drop_last() =~= self@.take(i as int));
            assert(self@.take(i + 1).last() == g@);
            let mut k: usize = 0;
            let ghost before = texts(lines@);
            while k < g.source.len()
                invariant
                    k <= g.source@.len(),
                    texts(lines@) == before + texts(g.source@).take(k as int),
                decreases g.source@.len() - k,
            {
                let line = crate::text::copy_text(g.source[k].as_str());
                let ghost prior = lines@;
                lines.push(line);
                assert(texts(lines@) =~= texts(prior).push(line@));
                k = k + 1;
                assert(texts(lines@) =~= before + texts(g.source@).take(k as int));
            }
            assert(texts(g.source@).take(k as int) =~= texts(g.source@));
            i = i + 1;
        }
        assert(self@.take(i as int) =~= self@);
        lines
    }
}

/// Every guard's text, outermost first.
pub open spec fn all_source(c: Seq<GuardV>) -> Seq<Seq<char>>
    decreases c.len(),
{
    if c.len() == 0 {
        Seq::empty()
    } else {
        all_source(c.drop_last()) + c.last().source
    }
}

/// `one` when `n` is one, else `many`.
pub open spec fn plural(n: int, one: Seq<char>, many: Seq<char>) -> Seq<char> {
    if n == 1 {
        one
    } else {
        many
    }
}

/// The sentence a refusal is printed as.
pub open spec fn refusal_sentence(r: Refusal) -> Seq<char> {
    "line "@ + decimal(r.line as nat) + match r.kind {
        RefusalKind::Unaccounted => ": an NVAPI flag is set by something this reader does not recognise as a list of application ids"@,
        RefusalKind::UnreadableEntries { count } => ": "@ + decimal(count as nat) + " "@ + plural(
            count as int,
            "entry"@,
            "entries"@,
        ) + " in this NVAPI list "@ + plural(count as int, "is"@, "are"@)
            + " not a plain string"@,
        RefusalKind::PolarityDisagrees { listed, used } => ": the appid lists are written under "@
            + listed.spec_as_str() + " while the rest of the script knows only "@
            + used.spec_as_str() + ", so which way the policy runs is not settled"@,
        RefusalKind::TooDeep => ": blocks nested past 64 levels, so this reader stopped before the bottom of them"@,
    }
}

/// The sentence for a reason an answer could not be given.
pub open spec fn unknown_sentence(u: Unknown) -> Seq<char> {
    match u {
        Unknown::NoFunction { mechanism } => if mechanism {
            "not determined: this script contains no default_compat_config, but it does name an NVAPI flag elsewhere, so it has a mechanism that is not a list of games"@
        } else {
            "not determined: this script contains no default_compat_config, and no NVAPI flag anywhere else either"@
        },
        Unknown::Unreadable { refusals } => "not determined: NVAPI is set inside default_compat_config by "@
            + decimal(refusals as nat) + " thing"@ + plural(refusals as int, Seq::empty(), "s"@)
            + " this reader does not understand and no list it does, so whether this build has a per-game policy cannot be told from it"@,
        Unknown::PolarityUnknown { listed, appids } => "not determined: this build lists "@
            + decimal(appids as nat) + " "@ + plural(appids as int, "game"@, "games"@) + " under "@
            + listed.spec_as_str()
            + " and has no disablenvapi or enablenvapi list, so which way round its policy runs cannot be told"@,
        Unknown::Contradictory => "not determined: this script lists application ids under both disablenvapi and enablenvapi, which no release has done and this reader will not pick a winner from"@,
        Unknown::Refused { refusals } => "not determined: this game is in none of the lists that were read, but "@
            + decimal(refusals as nat) + " thing"@ + plural(refusals as int, Seq::empty(), "s"@)
            + " in the NVAPI policy "@ + plural(refusals as int, "was"@, "were"@)
            + " not understood, so \"not in the list\" is not a safe reading"@,
        Unknown::UnknownSpelling { mentions } => "not determined: no appid list touches an NVAPI flag this reader knows, yet "@
            + decimal(mentions as nat)
            + " strings in this script mention nvapi \u{2014} so it has machinery that is spelled in some way this reader does not recognise"@,
    }
}

/// The sentence a decision is printed as.
pub open spec fn decision_sentence(d: DecisionV) -> Seq<char> {
    match d {
        DecisionV::ListedToDisable { line } => "NVAPI is withheld: this game is in the disablenvapi list at line "@
            + decimal(line as nat),
        DecisionV::ListedToForce { line } => "NVAPI is forced on: this game is in the forcenvapi list at line "@
            + decimal(line as nat),
        DecisionV::NotListedToDisable => "NVAPI is left alone: this build withholds it only from the games in its disablenvapi lists, and this game is not in them"@,
        DecisionV::ListedToEnable { line } => "NVAPI is offered: this game is in the enablenvapi list at line "@
            + decimal(line as nat),
        DecisionV::NotListedToEnable => "NVAPI is withheld: this build offers it only to the games in its enablenvapi lists, and this game is not in them"@,
        DecisionV::Conditional { flag, line, condition } => "conditional: this game is in the list at line "@
            + decimal(line as nat) + ", but "@ + flag.spec_as_str() + " is set there only under "@
            + condition_summary(condition) + " \u{2014} the condition is reported, not resolved"@,
        DecisionV::NotGameSpecific { via } => match via {
            Some(flag) => "not game-specific: default_compat_config was read in full and no appid list in it touches NVAPI. This build decides NVAPI by its "@
                + flag.spec_as_str()
                + " switch rather than by which game is running, so being this game changes nothing"@,
            None => "not game-specific: default_compat_config was read in full, no appid list in it touches NVAPI, and no NVAPI flag appears anywhere in the script"@,
        },
        DecisionV::Unknown(u) => unknown_sentence(u),
    }
}

/// The sentence a script error is printed as.
pub open spec fn error_sentence(e: Error) -> Seq<char> {
    match e.kind {
        ErrorKind::UnterminatedString => "unterminated string literal at line "@ + decimal(e.line as nat),
        ErrorKind::UnmatchedBracket => "unmatched bracket at line "@ + decimal(e.line as nat),
        ErrorKind::UnclosedBracket => "the script ends inside a bracket opened at line "@ + decimal(
            e.line as nat,
        ),
        ErrorKind::TabIndent => "line "@ + decimal(e.line as nat)
            + " is indented with a tab, and the block structure this reader depends on cannot be recovered from mixed indentation"@,
        ErrorKind::DuplicateFunction { first } => "default_compat_config is defined twice, at lines "@
            + decimal(first as nat) + " and "@ + decimal(e.line as nat)
            + ", and reading the wrong one would report a policy that never runs"@,
    }
}

/// Appends `one` when `n` is one, else `many`.
fn push_plural(out: &mut String, n: usize, one: &str, many: &str)
    ensures
        final(out)@ == old(out)@ + plural(n as int, one@, many@),
{
    if n == 1 {
        out.push_str(one);
    } else {
        out.push_str(many);
    }
}

/// Appends `s` when `n` is not one.
fn push_s(out: &mut String, n: usize)
    ensures
        final(out)@ == old(out)@ + plural(n as int, Seq::empty(), "s"@),
{
    if n != 1 {
        out.push_str("s");
    } else {
        assert(old(out)@ + Seq::<char>::empty() =~= old(out)@);
    }
}

impl Refusal {
    /// The sentence this refusal is printed as.
    pub fn describe(&self) -> (s: String)
        ensures
            s@ == refusal_sentence(*self),
    {
        let mut s = String::new();
        s.push_str("line ");
        push_decimal(&mut s, self.line as u64);
        match self.kind {
            RefusalKind::Unaccounted => {
                s.push_str(
                    ": an NVAPI flag is set by something this reader does not recognise as a list of application ids",
                );
            },
            RefusalKind::UnreadableEntries { count } => {
                s.push_str(": ");
                push_decimal(&mut s, count as u64);
                s.push_str(" ");
                push_plural(&mut s, count, "entry", "entries");
                s.push_str(" in this NVAPI list ");
                push_plural(&mut s, count, "is", "are");
                s.push_str(" not a plain string");
            },
            RefusalKind::PolarityDisagrees { listed, used } => {
                s.push_str(": the appid lists are written under ");
                s.push_str(listed.as_str());
                s.push_str(" while the rest of the script knows only ");
                s.push_str(used.as_str());
                s.push_str(", so which way the policy runs is not settled");
            },
            RefusalKind::TooDeep => {
                s.push_str(
                    ": blocks nested past 64 levels, so this reader stopped before the bottom of them",
                );
            },
        }
        assert(s@ =~= refusal_sentence(*self));
        s
    }
}

/// The sentence for a reason an answer could not be given.
pub fn unknown_describe(u: Unknown) -> (s: String)
    ensures
        s@ == unknown_sentence(u),
{
    let mut s = String::new();
    match u {
        Unknown::NoFunction { mechanism } => {
            if mechanism {
                s.push_str(
                    "not determined: this script contains no default_compat_config, but it does name an NVAPI flag elsewhere, so it has a mechanism that is not a list of games",
                );
            } else {
                s.push_str(
                    "not determined: this script contains no default_compat_config, and no NVAPI flag anywhere else either",
                );
            }
        },
        Unknown::Unreadable { refusals } => {
            s.push_str("not determined: NVAPI is set inside default_compat_config by ");
            push_decimal(&mut s, refusals as u64);
            s.push_str(" thing");
            push_s(&mut s, refusals);
            s.push_str(
                " this reader does not understand and no list it does, so whether this build has a per-game policy cannot be told from it",
            );
        },
        Unknown::PolarityUnknown { listed, appids } => {
            s.push_str("not determined: this build lists ");
            push_decimal(&mut s, appids as u64);
            s.push_str(" ");
            push_plural(&mut s, appids, "game", "games");
            s.push_str(" under ");
            s.push_str(listed.as_str());
            s.push_str(
                " and has no disablenvapi or enablenvapi list, so which way round its policy runs cannot be told",
            );
        },
        Unknown::Contradictory => {
            s.push_str(
                "not determined: this script lists application ids under both disablenvapi and enablenvapi, which no release has done and this reader will not pick a winner from",
            );
        },
        Unknown::Refused { refusals } => {
            s.push_str("not determined: this game is in none of the lists that were read, but ");
            push_decimal(&mut s, refusals as u64);
            s.push_str(" thing");
            push_s(&mut s, refusals);
            s.push_str(" in the NVAPI policy ");
            push_plural(&mut s, refusals, "was", "were");
            s.push_str(" not understood, so \"not in the list\" is not a safe reading");
        },
        Unknown::UnknownSpelling { mentions } => {
            s.push_str(
                "not determined: no appid list touches an NVAPI flag this reader knows, yet ",
            );
            push_decimal(&mut s, mentions as u64);
            s.push_str(
                " strings in this script mention nvapi \u{2014} so it has machinery that is spelled in some way this reader does not recognise",
            );
        },
    }
    assert(s@ =~= unknown_sentence(u));
    s
}

impl Decision {
    /// The sentence this decision is printed as.
    pub fn describe(&self) -> (s: String)
        ensures
            s@ == decision_sentence(self@),
    {
        let mut s = String::new();
        match self {
            Decision::ListedToDisable { line } => {
                s.push_str("NVAPI is withheld: this game is in the disablenvapi list at line ");
                push_decimal(&mut s, *line as u64);
            },
            Decision::ListedToForce { line } => {
                s.push_str("NVAPI is forced on: this game is in the forcenvapi list at line ");
                push_decimal(&mut s, *line as u64);
            },
            Decision::NotListedToDisable => {
                s.push_str(
                    "NVAPI is left alone: this build withholds it only from the games in its disablenvapi lists, and this game is not in them",
                );
            },
            Decision::ListedToEnable { line } => {
                s.push_str("NVAPI is offered: this game is in the enablenvapi list at line ");
                push_decimal(&mut s, *line as u64);
            },
            Decision::NotListedToEnable => {
                s.push_str(
                    "NVAPI is withheld: this build offers it only to the games in its enablenvapi lists, and this game is not in them",
                );
            },
            Decision::Conditional { flag, line, condition } => {
                s.push_str("conditional: this game is in the list at line ");
                push_decimal(&mut s, *line as u64);
                s.push_str(", but ");
                s.push_str(flag.as_str());
                s.push_str(" is set there only under ");
                let summary = condition.summary();
                s.push_str(summary.as_str());
                s.push_str(" \u{2014} the condition is reported, not resolved");
            },
            Decision::NotGameSpecific { via } => match via {
                Some(flag) => {
                    s.push_str(
                        "not game-specific: default_compat_config was read in full and no appid list in it touches NVAPI. This build decides NVAPI by its ",
                    );
                    s.push_str(flag.as_str());
                    s.push_str(
                        " switch rather than by which game is running, so being this game changes nothing",
                    );
                },
                None => {
                    s.push_str(
                        "not game-specific: default_compat_config was read in full, no appid list in it touches NVAPI, and no NVAPI flag appears anywhere in the script",
                    );
                },
            },
            Decision::Unknown(u) => {
                let t = unknown_describe(*u);
                s.push_str(t.as_str());
            },
        }
        assert(s@ =~= decision_sentence(self@));
        s
    }
}

impl Error {
    /// The sentence this error is printed as.
    pub fn describe(&self) -> (s: String)
        ensures
            s@ == error_sentence(*self),
    {
        let mut s = String::new();
        match self.kind {
            ErrorKind::UnterminatedString => {
                s.push_str("unterminated string literal at line ");
                push_decimal(&mut s, self.line as u64);
            },
            ErrorKind::UnmatchedBracket => {
                s.push_str("unmatched bracket at line ");
                push_decimal(&mut s, self.line as u64);
            },
            ErrorKind::UnclosedBracket => {
                s.push_str("the script ends inside a bracket opened at line ");
                push_decimal(&mut s, self.line as u64);
            },
            ErrorKind::TabIndent => {
                s.push_str("line ");
                push_decimal(&mut s, self.line as u64);
                s.push_str(
                    " is indented with a tab, and the block structure this reader depends on cannot be recovered from mixed indentation",
                );
            },
            ErrorKind::DuplicateFunction { first } => {
                s.push_str("default_compat_config is defined twice, at lines ");
                push_decimal(&mut s, first as u64);
                s.push_str(" and ");
                push_decimal(&mut s, self.line as u64);
                s.push_str(", and reading the wrong one would report a policy that never runs");
            },
        }
        assert(s@ =~= error_sentence(*self));
        s
    }
}

/// How many application ids the sites for `flag` name, in words.
pub open spec fn listing_part(sites: Seq<SiteV>, flag: Flag) -> Seq<char> {
    let n = spec_listed(sites, flag);
    decimal(n) + " "@ + plural(n as int, "appid"@, "appids"@) + " under "@ + flag.spec_as_str()
}

/// The part for each flag some site sets, in the order disable, enable,
/// force.
pub open spec fn listing_parts(sites: Seq<SiteV>) -> Seq<Seq<char>> {
    (if spec_lists(sites, Flag::Disable) {
        seq![listing_part(sites, Flag::Disable)]
    } else {
        Seq::empty()
    }) + (if spec_lists(sites, Flag::Enable) {
        seq![listing_part(sites, Flag::Enable)]
    } else {
        Seq::empty()
    }) + (if spec_lists(sites, Flag::Force) {
        seq![listing_part(sites, Flag::Force)]
    } else {
        Seq::empty()
    })
}

/// How many sites carry a condition.
pub open spec fn conditional_sites(sites: Seq<SiteV>) -> nat
    decreases sites.len(),
{
    if sites.len() == 0 {
        0
    } else {
        conditional_sites(sites.drop_last()) + if sites.last().condition is Some {
            1nat
        } else {
            0nat
        }
    }
}

/// One sentence about how much of the script was understood.
pub open spec fn evidence_sentence(r: ReadingV) -> Seq<char> {
    match r.function_line {
        None => if r.elsewhere.len() > 0 {
            "no default_compat_config in this script, though it names "@
                + r.elsewhere[0].spec_as_str()
                + " elsewhere, so it has an NVAPI mechanism that is not an appid list"@
        } else {
            "no default_compat_config in this script, and no NVAPI flag anywhere in it"@
        },
        Some(line) => {
            let conditional = conditional_sites(r.sites);
            "default_compat_config at line "@ + decimal(line as nat) + "; "@ + decimal(
                r.appid_lists as nat,
            ) + " appid "@ + plural(r.appid_lists as int, "list"@, "lists"@) + " read"@ + (if r.sites.len()
                == 0 {
                "; no NVAPI site among them"@
            } else {
                "; "@ + join(listing_parts(r.sites), ", "@)
            }) + (if conditional > 0 {
                "; "@ + decimal(conditional) + " of the sites "@ + plural(
                    conditional as int,
                    "is"@,
                    "are"@,
                ) + " conditional"@
            } else {
                Seq::empty()
            }) + (if r.refusals.len() > 0 {
                "; "@ + decimal(r.refusals.len()) + " thing"@ + plural(
                    r.refusals.len() as int,
                    Seq::empty(),
                    "s"@,
                ) + " refused"@
            } else {
                Seq::empty()
            })
        },
    }
}

/// Up to three optional parts joined by `, ` are each part behind a
/// separator when one came before it.
proof fn lemma_three_parts(pd: Seq<char>, pe: Seq<char>, pf: Seq<char>, d: bool, e: bool, f: bool)
    ensures
        join(
            (if d {
                seq![pd]
            } else {
                Seq::empty()
            }) + (if e {
                seq![pe]
            } else {
                Seq::empty()
            }) + (if f {
                seq![pf]
            } else {
                Seq::empty()
            }),
            ", "@,
        ) == (if d {
            pd
        } else {
            Seq::empty()
        }) + (if e {
            (if d {
                ", "@
            } else {
                Seq::empty()
            }) + pe
        } else {
            Seq::empty()
        }) + (if f {
            (if d || e {
                ", "@
            } else {
                Seq::empty()
            }) + pf
        } else {
            Seq::empty()
        }),
{
    let parts = (if d {
        seq![pd]
    } else {
        Seq::empty()
    }) + (if e {
        seq![pe]
    } else {
        Seq::empty()
    }) + (if f {
        seq![pf]
    } else {
        Seq::empty()
    });
    reveal_with_fuel(join, 4);
    if d && e && f {
        assert(parts =~= seq![pd, pe, pf]);
        assert(parts.drop_last() =~= seq![pd, pe]);
        assert(parts.drop_last().drop_last() =~= seq![pd]);
    } else if d && e {
        assert(parts =~= seq![pd, pe]);
        assert(parts.drop_last() =~= seq![pd]);
    } else if d && f {
        assert(parts =~= seq![pd, pf]);
        assert(parts.drop_last() =~= seq![pd]);
    } else if e && f {
        assert(parts =~= seq![pe, pf]);
        assert(parts.drop_last() =~= seq![pe]);
    } else if d {
        assert(parts =~= seq![pd]);
    } else if e {
        assert(parts =~= seq![pe]);
    } else if f {
        assert(parts =~= seq![pf]);
    } else {
        assert(parts =~= Seq::<Seq<char>>::empty());
    }
}

/// No more sites carry a condition than there are sites.
proof fn lemma_conditional_bounded(sites: Seq<SiteV>)
    ensures
        conditional_sites(sites) <= sites.len(),
    decreases sites.len(),
{
    if sites.len() > 0 {
        lemma_conditional_bounded(sites.drop_last());
    }
}

impl Reading {
    /// Appends the part for `flag` when a site sets it, behind `, ` when a
    /// part came before.
    fn push_part(&self, out: &mut String, flag: Flag, first: bool) -> (wrote: bool)
        requires
            all_appids(self@.sites) <= usize::MAX,
        ensures
            wrote == spec_lists(self@.sites, flag),
            final(out)@ == old(out)@ + if wrote {
                (if first {
                    Seq::empty()
                } else {
                    ", "@
                }) + listing_part(self@.sites, flag)
            } else {
                Seq::empty()
            },
    {
        if !self.lists(flag) {
            assert(old(out)@ + Seq::<char>::empty() =~= old(out)@);
            return false;
        }
        if !first {
            out.push_str(", ");
        }
        let n = self.listed(flag);
        push_decimal(out, n as u64);
        out.push_str(" ");
        push_plural(out, n, "appid", "appids");
        out.push_str(" under ");
        out.push_str(flag.as_str());
        proof {
            if first {
                assert(final(out)@ =~= old(out)@ + (Seq::<char>::empty() + listing_part(
                    self@.sites,
                    flag,
                )));
            } else {
                assert(final(out)@ =~= old(out)@ + (", "@ + listing_part(self@.sites, flag)));
            }
        }
        true
    }

    /// Appends the part for each flag some site sets, joined by `, `.
    fn push_parts(&self, out: &mut String)
        requires
            all_appids(self@.sites) <= usize::MAX,
        ensures
            final(out)@ == old(out)@ + join(listing_parts(self@.sites), ", "@),
    {
        let d = self.push_part(out, Flag::Disable, true);
        let e = self.push_part(out, Flag::Enable, !d);
        let f = self.push_part(out, Flag::Force, !d && !e);
        proof {
            lemma_three_parts(
                listing_part(self@.sites, Flag::Disable),
                listing_part(self@.sites, Flag::Enable),
                listing_part(self@.sites, Flag::Force),
                d,
                e,
                f,
            );
            assert(final(out)@ =~= old(out)@ + join(listing_parts(self@.sites), ", "@));
        }
    }

    /// One sentence about how much of the script was understood, reported
    /// beside every answer.
    #[verifier::spinoff_prover]
    #[verifier::rlimit(40)]
    pub fn evidence(&self) -> (s: String)
        requires
            all_appids(self@.sites) <= usize::MAX,
        ensures
            s@ == evidence_sentence(self@),
    {
        let mut s = String::new();
        let line = match self.function_line {
            None => {
                if self.elsewhere.len() > 0 {
                    s.push_str("no default_compat_config in this script, though it names ");
                    s.push_str(self.elsewhere[0].as_str());
                    s.push_str(" elsewhere, so it has an NVAPI mechanism that is not an appid list");
                } else {
                    s.push_str(
                        "no default_compat_config in this script, and no NVAPI flag anywhere in it",
                    );
                }
                assert(s@ =~= evidence_sentence(self@));
                return s;
            },
            Some(line) => line,
        };
        s.push_str("default_compat_config at line ");
        push_decimal(&mut s, line as u64);
        s.push_str("; ");
        push_decimal(&mut s, self.appid_lists as u64);
        s.push_str(" appid ");
        push_plural(&mut s, self.appid_lists, "list", "lists");
        s.push_str(" read");
        let ghost head = s@;
        if self.sites.len() == 0 {
            s.push_str("; no NVAPI site among them");
        } else {
            s.push_str("; ");
            self.push_parts(&mut s);
        }
        let ghost middle = s@;
        let mut conditional: usize = 0;
        let mut i: usize = 0;
        while i < self.sites.len()
            invariant
                i <= self.sites@.len(),
                conditional == conditional_sites(self@.sites.take(i as int)),
                conditional <= i,
            decreases self.sites@.len() - i,
        {
            assert(self@.sites.take(i + 1).drop_last() =~= self@.sites.take(i as int));
            assert(self@.sites.take(i + 1).last() == self.sites@[i as int]@);
            if self.sites[i].condition.is_some() {
                conditional = conditional + 1;
            }
            i = i + 1;
        }
        assert(self@.sites.take(i as int) =~= self@.sites);
        if conditional > 0 {
            s.push_str("; ");
            push_decimal(&mut s, conditional as u64);
            s.push_str(" of the sites ");
            push_plural(&mut s, conditional, "is", "are");
            s.push_str(" conditional");
        }
        let n = self.refusals.len();
        if n > 0 {
            s.push_str("; ");
            push_decimal(&mut s, n as u64);
            s.push_str(" thing");
            push_s(&mut s, n);
            s.push_str(" refused");
        }
        assert(s@ =~= evidence_sentence(self@));
        s
    }
}

} // verus!
