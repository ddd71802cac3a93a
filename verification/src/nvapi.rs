//! What Proton's launcher script says it will do to a game's NVAPI, read from
//! the script's text.
//!
//! Which games Proton withholds NVAPI from is written in the `proton` launcher
//! script, a Python file inside every Proton install. This module reads that
//! file without a Python parser, and is built to notice when it is out of its
//! depth: the whole file is tokenised, only two statement shapes are
//! understood (`if appid in [...]` and `ret.add("flag")`), every mention of
//! an NVAPI flag those shapes do not explain becomes a [`Refusal`], and every
//! block standing between the function body and a flag becomes a [`Guard`],
//! quoted back and never evaluated.
//!
//! An empty answer is never a confident "no" and never a shrug: [`Unknown`]
//! keeps a true negative apart from a script that was not understood. The
//! direction of the policy is read off the flag its lists are written under
//! (see [`Policy`]), since it flipped twice between releases.

use vstd::prelude::*;

pub mod environment;
pub mod lexer;
pub mod quoting;
pub mod scan;
pub mod shapes;
pub mod sentences;

pub use environment::{Formula, Switch, SwitchV};
pub use scan::scan;

use crate::text::{copy_text, copy_texts, same_text, texts};

verus! {

/// The name of the function Proton keeps its per-game workarounds in.
pub const FUNCTION: &'static str = "default_compat_config";

/// An application id no Proton script lists, used to ask about a build rather
/// than about a game: the empty string, which is not a decimal number.
pub const NO_GAME: &'static str = "";

/// The NVAPI-related flags Proton's compat config knows.
#[derive(Debug, Clone, Copy, PartialEq, Eq, Structural, Hash)]
pub enum Flag {
    /// `disablenvapi`: the games listed under it do not get NVAPI. Proton 9.0
    /// onwards.
    Disable,
    /// `enablenvapi`: the games listed under it are the only ones that do.
    /// Proton 6.3 through 8.0.
    Enable,
    /// `forcenvapi`: overrides a `disablenvapi` for the games listed under it.
    Force,
}

impl Flag {
    /// The flag as the script spells it.
    pub open spec fn spec_as_str(self) -> Seq<char> {
        match self {
            Flag::Disable => "disablenvapi"@,
            Flag::Enable => "enablenvapi"@,
            Flag::Force => "forcenvapi"@,
        }
    }

    /// The flag as the script spells it.
    pub fn as_str(self) -> (s: &'static str)
        ensures
            s@ == self.spec_as_str(),
    {
        match self {
            Flag::Disable => "disablenvapi",
            Flag::Enable => "enablenvapi",
            Flag::Force => "forcenvapi",
        }
    }

    /// The flag a string literal names, if it names one.
    pub fn lookup(text: &str) -> (f: Option<Flag>)
        ensures
            f == flag_named(text@),
    {
        if same_text(text, "disablenvapi") {
            Some(Flag::Disable)
        } else if same_text(text, "enablenvapi") {
            Some(Flag::Enable)
        } else if same_text(text, "forcenvapi") {
            Some(Flag::Force)
        } else {
            None
        }
    }
}

/// The flag a text names, if it is exactly one of their spellings.
pub open spec fn flag_named(t: Seq<char>) -> Option<Flag> {
    if t == Flag::Disable.spec_as_str() {
        Some(Flag::Disable)
    } else if t == Flag::Enable.spec_as_str() {
        Some(Flag::Enable)
    } else if t == Flag::Force.spec_as_str() {
        Some(Flag::Force)
    } else {
        None
    }
}

/// Which way round a script's NVAPI policy runs, inferred from the flag its
/// lists are written under.
#[derive(Debug, Clone, Copy, PartialEq, Eq, Structural)]
pub enum Policy {
    /// Every game gets NVAPI except the ones in the lists. Proton 9.0 onwards.
    DenyList,
    /// No game gets NVAPI except the ones in the lists. Proton 6.3 to 8.0.
    AllowList,
}

/// The flag whose lists express a policy.
pub open spec fn policy_flag(p: Policy) -> Flag {
    match p {
        Policy::DenyList => Flag::Disable,
        Policy::AllowList => Flag::Enable,
    }
}

impl Policy {
    /// The flag whose lists express this policy.
    pub fn flag(self) -> (f: Flag)
        ensures
            f == policy_flag(self),
    {
        match self {
            Policy::DenyList => Flag::Disable,
            Policy::AllowList => Flag::Enable,
        }
    }
}

/// One block standing between the function body and a flag being set,
/// quoted back rather than summarised, and never evaluated.
#[derive(Debug, Clone, PartialEq, Eq)]
pub struct Guard {
    /// Whether it wraps the appid list itself, rather than sitting between
    /// that list and the flag. Such a guard is quoted as its header alone.
    pub enclosing: bool,
    /// 1-based first physical line of the quoted text.
    pub first: usize,
    /// 1-based last physical line of the quoted text.
    pub last: usize,
    /// The text, verbatim, with the indentation all of it shares removed.
    pub source: Vec<String>,
    /// The plain string literals it names, deduplicated and in order, with
    /// the NVAPI flag names themselves left out.
    pub mentions: Vec<String>,
}

/// A guard as plain values.
pub struct GuardV {
    pub enclosing: bool,
    pub first: usize,
    pub last: usize,
    pub source: Seq<Seq<char>>,
    pub mentions: Seq<Seq<char>>,
}

impl View for Guard {
    type V = GuardV;

    open spec fn view(&self) -> GuardV {
        GuardV {
            enclosing: self.enclosing,
            first: self.first,
            last: self.last,
            source: texts(self.source@),
            mentions: texts(self.mentions@),
        }
    }
}

/// The plain values of each guard.
pub open spec fn guards_view(v: Seq<Guard>) -> Seq<GuardV> {
    v.map_values(|g: Guard| g@)
}

impl Guard {
    /// A copy of this guard.
    pub fn copy(&self) -> (g: Guard)
        ensures
            g@ == self@,
    {
        Guard {
            enclosing: self.enclosing,
            first: self.first,
            last: self.last,
            source: copy_texts(&self.source),
            mentions: copy_texts(&self.mentions),
        }
    }
}

/// Everything standing between an appid list and the flag it would set,
/// outermost first.
#[derive(Debug, Clone, PartialEq, Eq)]
pub struct Condition {
    pub guards: Vec<Guard>,
}

impl View for Condition {
    type V = Seq<GuardV>;

    open spec fn view(&self) -> Seq<GuardV> {
        guards_view(self.guards@)
    }
}

impl Condition {
    /// A copy of this condition.
    pub fn copy(&self) -> (c: Condition)
        ensures
            c@ == self@,
    {
        Condition { guards: copy_guards(&self.guards) }
    }
}

/// A copy of every guard in `v`.
pub(crate) fn copy_guards(v: &Vec<Guard>) -> (out: Vec<Guard>)
    ensures
        guards_view(out@) == guards_view(v@),
{
    let mut guards: Vec<Guard> = Vec::new();
    let mut i: usize = 0;
    while i < v.len()
        invariant
            i <= v@.len(),
            guards_view(guards@) == guards_view(v@).take(i as int),
        decreases v@.len() - i,
    {
        let g = v[i].copy();
        let ghost before = guards@;
        guards.push(g);
        assert(guards_view(guards@) =~= guards_view(before).push(g@));
        i = i + 1;
        assert(guards_view(guards@) =~= guards_view(v@).take(i as int));
    }
    assert(guards_view(v@).take(i as int) =~= guards_view(v@));
    guards
}

/// One `if appid in [...]` block whose body sets an NVAPI flag.
#[derive(Debug, Clone, PartialEq, Eq)]
pub struct Site {
    /// The flag the block sets.
    pub flag: Flag,
    /// 1-based line of the `if` that opens the block.
    pub line: usize,
    /// The application ids the list holds, as the script spells them.
    pub appids: Vec<String>,
    /// What stands between the list and the flag, when anything does.
    pub condition: Option<Condition>,
}

/// A site as plain values.
pub struct SiteV {
    pub flag: Flag,
    pub line: usize,
    pub appids: Seq<Seq<char>>,
    pub condition: Option<Seq<GuardV>>,
}

impl View for Site {
    type V = SiteV;

    open spec fn view(&self) -> SiteV {
        SiteV {
            flag: self.flag,
            line: self.line,
            appids: texts(self.appids@),
            condition: match self.condition {
                Some(c) => Some(c@),
                None => None,
            },
        }
    }
}

/// The plain values of each site.
pub open spec fn sites_view(v: Seq<Site>) -> Seq<SiteV> {
    v.map_values(|s: Site| s@)
}

/// Something inside the policy that this reader met and would not guess at.
#[derive(Debug, Clone, Copy, PartialEq, Eq, Structural)]
pub struct Refusal {
    /// 1-based line the refusal is about.
    pub line: usize,
    pub kind: RefusalKind,
}

/// The shapes a refusal comes in.
#[derive(Debug, Clone, Copy, PartialEq, Eq, Structural)]
pub enum RefusalKind {
    /// An NVAPI flag is named somewhere that is not a `ret.add("flag")`
    /// inside a recognised appid list.
    Unaccounted,
    /// A recognised appid list that sets an NVAPI flag holds entries that are
    /// not plain string literals.
    UnreadableEntries {
        /// How many entries could not be read.
        count: usize,
    },
    /// The lists are written under one flag and the script's environment
    /// switches name only the other.
    PolarityDisagrees {
        /// The flag the lists use.
        listed: Flag,
        /// The flag the rest of the script uses.
        used: Flag,
    },
    /// Blocks nested past the walk's depth limit.
    TooDeep,
}

/// Everything one `proton` script was found to say about NVAPI, and
/// everything about it that could not be determined.
#[derive(Debug, Clone, Default, PartialEq, Eq)]
pub struct Reading {
    /// 1-based line of `default_compat_config`, when the script has one.
    pub function_line: Option<usize>,
    /// How many `if appid in [...]` blocks were read, whatever flag they set.
    pub appid_lists: usize,
    /// The NVAPI sites, in the order the file spells them.
    pub sites: Vec<Site>,
    /// What was met inside the function and not understood.
    pub refusals: Vec<Refusal>,
    /// The NVAPI flags the script names outside the function, deduplicated
    /// and in file order.
    pub elsewhere: Vec<Flag>,
    /// How many string literals anywhere in the script hold the text `nvapi`,
    /// in any spelling.
    pub nvapi_mentions: usize,
    /// The `check_environment` calls for NVAPI flags, in file order.
    pub switches: Vec<Switch>,
    /// NVAPI switches whose variable is not a plain string literal.
    pub switches_unread: usize,
    /// The `use_nvapi` expression, when it is one this reader recognises.
    pub formula: Option<Formula>,
    /// 1-based line of `config_info` that records `use_nvapi`.
    pub recorded_line: Option<usize>,
}

/// A reading as plain values.
pub struct ReadingV {
    pub function_line: Option<usize>,
    pub appid_lists: usize,
    pub sites: Seq<SiteV>,
    pub refusals: Seq<Refusal>,
    pub elsewhere: Seq<Flag>,
    pub nvapi_mentions: usize,
    pub switches: Seq<SwitchV>,
    pub switches_unread: usize,
    pub formula: Option<Formula>,
    pub recorded_line: Option<usize>,
}

/// The plain values of each switch.
pub open spec fn switches_view(v: Seq<Switch>) -> Seq<SwitchV> {
    v.map_values(|s: Switch| s@)
}

impl View for Reading {
    type V = ReadingV;

    open spec fn view(&self) -> ReadingV {
        ReadingV {
            function_line: self.function_line,
            appid_lists: self.appid_lists,
            sites: sites_view(self.sites@),
            refusals: self.refusals@,
            elsewhere: self.elsewhere@,
            nvapi_mentions: self.nvapi_mentions,
            switches: switches_view(self.switches@),
            switches_unread: self.switches_unread,
            formula: self.formula,
            recorded_line: self.recorded_line,
        }
    }
}

/// Whether any site sets `flag`.
pub open spec fn spec_lists(sites: Seq<SiteV>, flag: Flag) -> bool {
    exists|i: int| 0 <= i < sites.len() && (#[trigger] sites[i]).flag == flag
}

/// How many application ids the sites for `flag` name in total.
pub open spec fn spec_listed(sites: Seq<SiteV>, flag: Flag) -> nat
    decreases sites.len(),
{
    if sites.len() == 0 {
        0
    } else {
        spec_listed(sites.drop_last(), flag) + if sites.last().flag == flag {
            sites.last().appids.len()
        } else {
            0
        }
    }
}

/// How many application ids all the sites name between them.
pub open spec fn all_appids(sites: Seq<SiteV>) -> nat
    decreases sites.len(),
{
    if sites.len() == 0 {
        0
    } else {
        all_appids(sites.drop_last()) + sites.last().appids.len()
    }
}

/// The count for one flag is part of the count for all.
pub proof fn lemma_listed_bounded(sites: Seq<SiteV>, flag: Flag)
    ensures
        spec_listed(sites, flag) <= all_appids(sites),
    decreases sites.len(),
{
    if sites.len() > 0 {
        lemma_listed_bounded(sites.drop_last(), flag);
    }
}

/// The direction of the policy: a deny-list when lists are written under
/// `disablenvapi` only, an allow-list under `enablenvapi` only, and untold
/// otherwise.
pub open spec fn spec_policy(sites: Seq<SiteV>) -> Option<Policy> {
    let d = spec_lists(sites, Flag::Disable);
    let e = spec_lists(sites, Flag::Enable);
    if d && !e {
        Some(Policy::DenyList)
    } else if !d && e {
        Some(Policy::AllowList)
    } else {
        None
    }
}

impl Reading {
    /// Whether any site sets `flag`.
    pub fn lists(&self, flag: Flag) -> (b: bool)
        ensures
            b == spec_lists(self@.sites, flag),
    {
        let mut i: usize = 0;
        while i < self.sites.len()
            invariant
                i <= self.sites@.len(),
                forall|j: int| 0 <= j < i ==> (#[trigger] self@.sites[j]).flag != flag,
            decreases self.sites@.len() - i,
        {
            assert(self@.sites[i as int] == self.sites@[i as int]@);
            if self.sites[i].flag == flag {
                return true;
            }
            i = i + 1;
        }
        false
    }

    /// How many application ids the sites for `flag` name in total.
    pub fn listed(&self, flag: Flag) -> (n: usize)
        requires
            all_appids(self@.sites) <= usize::MAX,
        ensures
            n == spec_listed(self@.sites, flag),
    {
        let ghost sites = self@.sites;
        let mut n: usize = 0;
        let mut i: usize = 0;
        while i < self.sites.len()
            invariant
                i <= self.sites@.len(),
                sites == self@.sites,
                all_appids(sites) <= usize::MAX,
                n == spec_listed(sites.take(i as int), flag),
            decreases self.sites@.len() - i,
        {
            assert(sites.take(i + 1).drop_last() =~= sites.take(i as int));
            assert(sites.take(i + 1).last() == self.sites@[i as int]@);
            proof {
                lemma_listed_bounded(sites.take(i + 1), flag);
                lemma_all_appids_prefix(sites, i + 1);
            }
            if self.sites[i].flag == flag {
                n = n + self.sites[i].appids.len();
            }
            i = i + 1;
        }
        assert(sites.take(i as int) =~= sites);
        n
    }

    /// Which way round the policy runs, if it can be told.
    pub fn policy(&self) -> (p: Option<Policy>)
        ensures
            p == spec_policy(self@.sites),
    {
        let d = self.lists(Flag::Disable);
        let e = self.lists(Flag::Enable);
        if d && !e {
            Some(Policy::DenyList)
        } else if !d && e {
            Some(Policy::AllowList)
        } else {
            None
        }
    }
}

/// No prefix of the sites names more ids than all of them.
pub proof fn lemma_all_appids_prefix(sites: Seq<SiteV>, n: int)
    requires
        0 <= n <= sites.len(),
    ensures
        all_appids(sites.take(n)) <= all_appids(sites),
    decreases sites.len(),
{
    if n < sites.len() {
        lemma_all_appids_prefix(sites.drop_last(), n);
        assert(sites.drop_last().take(n) =~= sites.take(n));
    } else {
        assert(sites.take(n) =~= sites);
    }
}

/// What the policy does to one application id.
#[derive(Debug, Clone, PartialEq, Eq)]
pub enum Decision {
    /// In a `disablenvapi` list with nothing between the list and the flag.
    ListedToDisable {
        /// 1-based line of the list.
        line: usize,
    },
    /// In a `forcenvapi` list, which beats a `disablenvapi` for the same id.
    ListedToForce {
        /// 1-based line of the list.
        line: usize,
    },
    /// A deny-list policy was read and this id is in none of its lists.
    NotListedToDisable,
    /// In an `enablenvapi` list: one of the games the release hands NVAPI to.
    ListedToEnable {
        /// 1-based line of the list.
        line: usize,
    },
    /// An allow-list policy was read and this id is not in it, so NVAPI is
    /// withheld.
    NotListedToEnable,
    /// Listed, and the flag is set only when something holds that this
    /// reader will not evaluate.
    Conditional {
        /// The flag the condition would set.
        flag: Flag,
        /// 1-based line of the list.
        line: usize,
        /// Everything standing between the list and the flag.
        condition: Condition,
    },
    /// The function was read in full, nothing in it was refused, and no appid
    /// list in it touches NVAPI: a finding, not a failure.
    NotGameSpecific {
        /// The NVAPI flag the rest of the script names, when it names one.
        via: Option<Flag>,
    },
    /// Not determined, and why.
    Unknown(Unknown),
}

/// Why an answer could not be given.
#[derive(Debug, Clone, Copy, PartialEq, Eq, Structural)]
pub enum Unknown {
    /// The script parsed and holds no `default_compat_config`.
    NoFunction {
        /// Whether the script names an NVAPI flag anywhere else.
        mechanism: bool,
    },
    /// NVAPI is set inside the function by shapes this reader does not model,
    /// and no site was read at all.
    Unreadable {
        /// How many things were refused.
        refusals: usize,
    },
    /// Appid lists that touch NVAPI were read, and none of them is written
    /// under `disablenvapi` or `enablenvapi`.
    PolarityUnknown {
        /// The flag the lists that were found use.
        listed: Flag,
        /// How many games those lists name.
        appids: usize,
    },
    /// The script lists appids under both `disablenvapi` and `enablenvapi`.
    Contradictory,
    /// A policy was read, this id is in none of it, and something was
    /// refused.
    Refused {
        /// How many things were refused.
        refusals: usize,
    },
    /// No NVAPI site and nothing refused, but the script is full of `nvapi`
    /// strings and names no flag this reader knows.
    UnknownSpelling {
        /// How many `nvapi` strings are in the script.
        mentions: usize,
    },
}

/// A decision as plain values.
pub enum DecisionV {
    ListedToDisable { line: usize },
    ListedToForce { line: usize },
    NotListedToDisable,
    ListedToEnable { line: usize },
    NotListedToEnable,
    Conditional { flag: Flag, line: usize, condition: Seq<GuardV> },
    NotGameSpecific { via: Option<Flag> },
    Unknown(Unknown),
}

impl View for Decision {
    type V = DecisionV;

    open spec fn view(&self) -> DecisionV {
        match self {
            Decision::ListedToDisable { line } => DecisionV::ListedToDisable { line: *line },
            Decision::ListedToForce { line } => DecisionV::ListedToForce { line: *line },
            Decision::NotListedToDisable => DecisionV::NotListedToDisable,
            Decision::ListedToEnable { line } => DecisionV::ListedToEnable { line: *line },
            Decision::NotListedToEnable => DecisionV::NotListedToEnable,
            Decision::Conditional { flag, line, condition } => DecisionV::Conditional {
                flag: *flag,
                line: *line,
                condition: condition@,
            },
            Decision::NotGameSpecific { via } => DecisionV::NotGameSpecific { via: *via },
            Decision::Unknown(u) => DecisionV::Unknown(*u),
        }
    }
}

/// The first site for `flag` whose list holds `appid`, with a condition or
/// without one as asked.
pub open spec fn find_site(sites: Seq<SiteV>, flag: Flag, appid: Seq<char>, conditional: bool) -> Option<
    SiteV,
>
    decreases sites.len(),
{
    if sites.len() == 0 {
        None
    } else if sites[0].flag == flag && (sites[0].condition is Some) == conditional
        && sites[0].appids.contains(appid) {
        Some(sites[0])
    } else {
        find_site(sites.drop_first(), flag, appid, conditional)
    }
}

/// The line of the unconditional site for `flag` that lists `appid`.
pub open spec fn flat(r: ReadingV, flag: Flag, appid: Seq<char>) -> Option<usize> {
    match find_site(r.sites, flag, appid, false) {
        Some(site) => Some(site.line),
        None => None,
    }
}

/// The conditional answer for `flag`, when a conditional site lists `appid`.
pub open spec fn guarded(r: ReadingV, flag: Flag, appid: Seq<char>) -> Option<DecisionV> {
    match find_site(r.sites, flag, appid, true) {
        Some(site) => Some(
            DecisionV::Conditional {
                flag,
                line: site.line,
                condition: match site.condition {
                    Some(c) => c,
                    None => Seq::empty(),
                },
            },
        ),
        None => None,
    }
}

/// The refusal answer, when anything was refused.
pub open spec fn refused(r: ReadingV) -> Option<DecisionV> {
    if r.refusals.len() > 0 {
        Some(DecisionV::Unknown(Unknown::Refused { refusals: r.refusals.len() as usize }))
    } else {
        None
    }
}

/// `a`, or failing that `b`.
pub open spec fn either(a: Option<DecisionV>, b: Option<DecisionV>) -> Option<DecisionV> {
    match a {
        Some(_) => a,
        None => b,
    }
}

/// An optional line, as a decision.
pub open spec fn at_line(line: Option<usize>, make: spec_fn(usize) -> DecisionV) -> Option<
    DecisionV,
> {
    match line {
        Some(l) => Some(make(l)),
        None => None,
    }
}

/// What the policy in `r` does to `appid`, compared as the script spells it.
///
/// A `forcenvapi` beats a `disablenvapi` for the same id, because the
/// script's own test is `"disablenvapi" not in config or "forcenvapi" in
/// config`. Lists that do not say which way the policy runs still answer for
/// the games in them, and not for the rest.
pub open spec fn spec_decide(r: ReadingV, appid: Seq<char>) -> DecisionV {
    if r.function_line is None {
        DecisionV::Unknown(Unknown::NoFunction { mechanism: r.elsewhere.len() > 0 })
    } else if r.sites.len() == 0 && r.refusals.len() > 0 {
        DecisionV::Unknown(Unknown::Unreadable { refusals: r.refusals.len() as usize })
    } else {
        match spec_policy(r.sites) {
            Some(Policy::DenyList) => match either(
                at_line(flat(r, Flag::Force, appid), |l: usize| DecisionV::ListedToForce { line: l }),
                either(
                    at_line(
                        flat(r, Flag::Disable, appid),
                        |l: usize| DecisionV::ListedToDisable { line: l },
                    ),
                    either(
                        guarded(r, Flag::Force, appid),
                        either(guarded(r, Flag::Disable, appid), refused(r)),
                    ),
                ),
            ) {
                Some(d) => d,
                None => DecisionV::NotListedToDisable,
            },
            Some(Policy::AllowList) => match either(
                at_line(flat(r, Flag::Enable, appid), |l: usize| DecisionV::ListedToEnable { line: l }),
                either(guarded(r, Flag::Enable, appid), refused(r)),
            ) {
                Some(d) => d,
                None => DecisionV::NotListedToEnable,
            },
            None => if spec_lists(r.sites, Flag::Disable) && spec_lists(r.sites, Flag::Enable) {
                DecisionV::Unknown(Unknown::Contradictory)
            } else if r.sites.len() > 0 {
                let listed = r.sites[0].flag;
                match either(
                    at_line(flat(r, listed, appid), |l: usize| DecisionV::ListedToForce { line: l }),
                    guarded(r, listed, appid),
                ) {
                    Some(d) => d,
                    None => DecisionV::Unknown(
                        Unknown::PolarityUnknown {
                            listed,
                            appids: spec_listed(r.sites, listed) as usize,
                        },
                    ),
                }
            } else if r.elsewhere.len() == 0 && r.nvapi_mentions > 0 {
                DecisionV::Unknown(Unknown::UnknownSpelling { mentions: r.nvapi_mentions })
            } else {
                DecisionV::NotGameSpecific {
                    via: if r.elsewhere.len() > 0 {
                        Some(r.elsewhere[0])
                    } else {
                        None
                    },
                }
            },
        }
    }
}

/// Whether Proton will offer a game NVAPI under a decision: settled only for
/// the five outright answers.
pub open spec fn spec_available(d: DecisionV) -> Option<bool> {
    match d {
        DecisionV::ListedToDisable { .. } | DecisionV::NotListedToEnable => Some(false),
        DecisionV::ListedToForce { .. }
        | DecisionV::NotListedToDisable
        | DecisionV::ListedToEnable { .. } => Some(true),
        _ => None,
    }
}

impl Decision {
    /// Whether Proton will offer this game NVAPI: `Some(true)`,
    /// `Some(false)`, or `None` when it is not settled.
    pub fn available(&self) -> (a: Option<bool>)
        ensures
            a == spec_available(self@),
    {
        match self {
            Decision::ListedToDisable { .. } | Decision::NotListedToEnable => Some(false),
            Decision::ListedToForce { .. }
            | Decision::NotListedToDisable
            | Decision::ListedToEnable { .. } => Some(true),
            _ => None,
        }
    }

    /// Whether the answer is that there is no answer.
    pub fn is_unknown(&self) -> (b: bool)
        ensures
            b == (self@ is Unknown),
    {
        match self {
            Decision::Unknown(_) => true,
            _ => false,
        }
    }

    /// What this game is under, when it is under anything.
    pub fn condition(&self) -> (c: Option<&Condition>)
        ensures
            match c {
                Some(x) => self@ matches DecisionV::Conditional { condition, .. } && condition
                    == x@,
                None => !(self@ is Conditional),
            },
    {
        match self {
            Decision::Conditional { condition, .. } => Some(condition),
            _ => None,
        }
    }
}

/// Whether `v` holds `x`.
fn holds(v: &Vec<String>, x: &str) -> (b: bool)
    ensures
        b == texts(v@).contains(x@),
{
    let mut i: usize = 0;
    while i < v.len()
        invariant
            i <= v@.len(),
            forall|j: int| 0 <= j < i ==> texts(v@)[j] != x@,
        decreases v@.len() - i,
    {
        if same_text(v[i].as_str(), x) {
            assert(texts(v@)[i as int] == x@);
            return true;
        }
        i = i + 1;
    }
    false
}

/// The first site for `flag` that names `appid`, conditional or not as asked.
fn find<'a>(reading: &'a Reading, flag: Flag, appid: &str, conditional: bool) -> (s: Option<&'a Site>)
    ensures
        match s {
            Some(site) => find_site(reading@.sites, flag, appid@, conditional) == Some(site@),
            None => find_site(reading@.sites, flag, appid@, conditional) is None,
        },
{
    let ghost sites = reading@.sites;
    let mut i: usize = 0;
    assert(sites.skip(0) =~= sites);
    while i < reading.sites.len()
        invariant
            i <= reading.sites@.len(),
            sites == reading@.sites,
            find_site(sites, flag, appid@, conditional) == find_site(
                sites.skip(i as int),
                flag,
                appid@,
                conditional,
            ),
        decreases reading.sites@.len() - i,
    {
        let site = &reading.sites[i];
        assert(sites.skip(i as int)[0] == site@);
        if site.flag == flag && site.condition.is_some() == conditional && holds(
            &site.appids,
            appid,
        ) {
            return Some(site);
        }
        assert(sites.skip(i as int).drop_first() =~= sites.skip(i + 1));
        i = i + 1;
    }
    None
}

/// The unconditional line for `flag`, as [`flat`] gives it.
fn flat_line(reading: &Reading, flag: Flag, appid: &str) -> (l: Option<usize>)
    ensures
        l == flat(reading@, flag, appid@),
{
    match find(reading, flag, appid, false) {
        Some(site) => Some(site.line),
        None => None,
    }
}

/// The conditional answer for `flag`, as [`guarded`] gives it.
fn guarded_decision(reading: &Reading, flag: Flag, appid: &str) -> (d: Option<Decision>)
    ensures
        match d {
            Some(x) => guarded(reading@, flag, appid@) == Some(x@),
            None => guarded(reading@, flag, appid@) is None,
        },
{
    match find(reading, flag, appid, true) {
        Some(site) => {
            let condition = match &site.condition {
                Some(c) => c.copy(),
                None => Condition { guards: Vec::new() },
            };
            proof {
                if site.condition is None {
                    assert(condition@ =~= Seq::<GuardV>::empty());
                }
            }
            Some(Decision::Conditional { flag, line: site.line, condition })
        },
        None => None,
    }
}

/// What the policy in `reading` does to `appid`, compared as the script
/// spells it: a decimal string.
pub fn decide(reading: &Reading, appid: &str) -> (d: Decision)
    requires
        all_appids(reading@.sites) <= usize::MAX,
    ensures
        d@ == spec_decide(reading@, appid@),
{
    let r = reading;
    if r.function_line.is_none() {
        return Decision::Unknown(Unknown::NoFunction { mechanism: r.elsewhere.len() > 0 });
    }
    if r.sites.len() == 0 && r.refusals.len() > 0 {
        return Decision::Unknown(Unknown::Unreadable { refusals: r.refusals.len() });
    }
    let refusal = if r.refusals.len() > 0 {
        Some(Decision::Unknown(Unknown::Refused { refusals: r.refusals.len() }))
    } else {
        None
    };
    match r.policy() {
        Some(Policy::DenyList) => {
            if let Some(line) = flat_line(r, Flag::Force, appid) {
                return Decision::ListedToForce { line };
            }
            if let Some(line) = flat_line(r, Flag::Disable, appid) {
                return Decision::ListedToDisable { line };
            }
            if let Some(d) = guarded_decision(r, Flag::Force, appid) {
                return d;
            }
            if let Some(d) = guarded_decision(r, Flag::Disable, appid) {
                return d;
            }
            match refusal {
                Some(d) => d,
                None => Decision::NotListedToDisable,
            }
        },
        Some(Policy::AllowList) => {
            if let Some(line) = flat_line(r, Flag::Enable, appid) {
                return Decision::ListedToEnable { line };
            }
            if let Some(d) = guarded_decision(r, Flag::Enable, appid) {
                return d;
            }
            match refusal {
                Some(d) => d,
                None => Decision::NotListedToEnable,
            }
        },
        None => {
            if r.lists(Flag::Disable) && r.lists(Flag::Enable) {
                return Decision::Unknown(Unknown::Contradictory);
            }
            if r.sites.len() > 0 {
                let listed = r.sites[0].flag;
                assert(r@.sites[0] == r.sites@[0]@);
                if let Some(line) = flat_line(r, listed, appid) {
                    return Decision::ListedToForce { line };
                }
                if let Some(d) = guarded_decision(r, listed, appid) {
                    return d;
                }
                let appids = r.listed(listed);
                return Decision::Unknown(Unknown::PolarityUnknown { listed, appids });
            }
            if r.elsewhere.len() == 0 && r.nvapi_mentions > 0 {
                return Decision::Unknown(Unknown::UnknownSpelling { mentions: r.nvapi_mentions });
            }
            let via = if r.elsewhere.len() > 0 {
                Some(r.elsewhere[0])
            } else {
                None
            };
            Decision::NotGameSpecific { via }
        },
    }
}

/// What this build does to a game it says nothing about in particular.
pub fn overall(reading: &Reading) -> (d: Decision)
    requires
        all_appids(reading@.sites) <= usize::MAX,
    ensures
        d@ == spec_decide(reading@, NO_GAME@),
{
    decide(reading, NO_GAME)
}

/// Whether the build was read well enough for its answers to be worth
/// having: false exactly when asking about a game no script lists comes back
/// not determined.
pub fn settled(reading: &Reading) -> (b: bool)
    requires
        all_appids(reading@.sites) <= usize::MAX,
    ensures
        b == !(spec_decide(reading@, NO_GAME@) is Unknown),
{
    !overall(reading).is_unknown()
}

/// What went wrong while reading the script, and where. Every variant means
/// the same thing to a caller: this file was not understood, so believe
/// nothing about it.
#[derive(Debug, Clone, PartialEq, Eq, Structural)]
pub struct Error {
    pub kind: ErrorKind,
    /// 1-based line the reader gave up on.
    pub line: usize,
}

/// The shapes a script this reader cannot handle comes in.
#[derive(Debug, Clone, Copy, PartialEq, Eq, Structural)]
pub enum ErrorKind {
    /// A string literal ran to the end of the file, or a one-line string ran
    /// to the end of its line.
    UnterminatedString,
    /// A `)`, `]` or `}` with nothing open.
    UnmatchedBracket,
    /// The file ended inside a bracket.
    UnclosedBracket,
    /// A line inside the function is indented with a tab.
    TabIndent,
    /// The script defines the function more than once.
    DuplicateFunction {
        /// 1-based line of the first definition.
        first: usize,
    },
}

} // verus!
