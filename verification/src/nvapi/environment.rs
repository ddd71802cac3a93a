//! What Proton computes for `use_nvapi` once a launch's environment is known.
//!
//! The script's lists are only the default. `check_environment` calls run
//! after them and can add or remove each flag, so a launch option decides the
//! answer for one game. Everything here mirrors the script, read from its own
//! lines: the switches, the `use_nvapi` expression, and where `config_info`
//! records it.

use vstd::prelude::*;

use super::lexer::{
    lemma_total_prefix, lex, lines_view, spec_lex, tokens_view, total_tokens, Logical, LogicalV,
    Token, TokenV,
};
use super::shapes::{
    closes, is_name, is_punct, items, items_in, opens, part, text_of,
};
use super::{
    find, find_site, flag_named, spec_policy, switches_view, Flag, Policy, Reading, ReadingV,
};
use crate::text::{copy_text, decimal, push_decimal, same_text, texts};

verus! {

/// A `check_environment("VARIABLE", "flag")` call for an NVAPI flag.
#[derive(Debug, Clone, PartialEq, Eq)]
pub struct Switch {
    pub variable: String,
    pub flag: Flag,
    /// 1-based line of the call.
    pub line: usize,
}

/// A switch as plain values.
pub struct SwitchV {
    pub variable: Seq<char>,
    pub flag: Flag,
    pub line: usize,
}

impl View for Switch {
    type V = SwitchV;

    open spec fn view(&self) -> SwitchV {
        SwitchV { variable: self.variable@, flag: self.flag, line: self.line }
    }
}

/// The `use_nvapi = ...` expressions this reader recognises.
#[derive(Debug, Clone, Copy, PartialEq, Eq, Structural)]
pub enum Formula {
    /// `'enablenvapi' in compat_config`: Proton 6.3 to 8.0.
    Enable,
    /// `'disablenvapi' not in compat_config or 'forcenvapi' in compat_config`:
    /// Proton 9.0 onwards. `arm_clause` is Experimental's extra
    /// `and host_pe_arch != "aarch64-windows"`.
    DisableUnlessForced { arm_clause: bool },
}

/// The direction a formula computes.
pub open spec fn formula_policy(f: Formula) -> Policy {
    match f {
        Formula::Enable => Policy::AllowList,
        Formula::DisableUnlessForced { .. } => Policy::DenyList,
    }
}

/// The contents of `user_settings.py`, which fills in variables a launch did
/// not set.
#[derive(Debug, Clone, PartialEq, Eq)]
pub enum UserSettings {
    /// No `user_settings.py` beside the script.
    Absent,
    Read(Vec<(String, String)>),
    /// Present, and not a plain dictionary of strings.
    Unreadable,
}

/// Where a variable came from.
#[derive(Debug, Clone, Copy, PartialEq, Eq, Structural, Default)]
pub enum SetBy {
    /// A Steam game's launch options.
    #[default]
    LaunchOptions,
    /// A Heroic game's environment options.
    Heroic,
    /// The variable Heroic sets from its DXVK-NVAPI setting, over the game's
    /// own options.
    HeroicSwitch,
    UserSettings,
}

/// Where a variable came from, in words.
pub open spec fn set_by_words(s: SetBy) -> Seq<char> {
    match s {
        SetBy::LaunchOptions => "launch options"@,
        SetBy::Heroic => "Heroic's environment options"@,
        SetBy::HeroicSwitch => "Heroic's DXVK-NVAPI setting"@,
        SetBy::UserSettings => "user_settings.py"@,
    }
}

impl SetBy {
    fn as_str(self) -> (s: &'static str)
        ensures
            s@ == set_by_words(self),
    {
        match self {
            SetBy::LaunchOptions => "launch options",
            SetBy::Heroic => "Heroic's environment options",
            SetBy::HeroicSwitch => "Heroic's DXVK-NVAPI setting",
            SetBy::UserSettings => "user_settings.py",
        }
    }
}

/// A named value as plain values.
pub open spec fn pairs_view(v: Seq<(String, String)>) -> Seq<(Seq<char>, Seq<char>)> {
    v.map_values(|p: (String, String)| (p.0@, p.1@))
}

/// A named value and its source as plain values.
pub open spec fn sourced_view(v: Seq<(String, String, SetBy)>) -> Seq<(Seq<char>, Seq<char>, SetBy)> {
    v.map_values(|p: (String, String, SetBy)| (p.0@, p.1@, p.2))
}

/// The variables one launch hands Proton, as far as they can be seen. Launch
/// options win over `user_settings.py`, which only fills in what is absent.
#[derive(Debug, Clone, Default)]
pub struct Environment {
    launch: Vec<(String, String, SetBy)>,
    settings: Vec<(String, String)>,
    launch_unseen: Option<String>,
    settings_unseen: Option<String>,
}

/// An environment as plain values.
pub struct EnvironmentV {
    pub launch: Seq<(Seq<char>, Seq<char>, SetBy)>,
    pub settings: Seq<(Seq<char>, Seq<char>)>,
    pub launch_unseen: Option<Seq<char>>,
    pub settings_unseen: Option<Seq<char>>,
}

/// A text, if there is one, as plain values.
pub open spec fn opt_text(t: Option<String>) -> Option<Seq<char>> {
    match t {
        Some(x) => Some(x@),
        None => None,
    }
}

impl View for Environment {
    type V = EnvironmentV;

    closed spec fn view(&self) -> EnvironmentV {
        EnvironmentV {
            launch: sourced_view(self.launch@),
            settings: pairs_view(self.settings@),
            launch_unseen: opt_text(self.launch_unseen),
            settings_unseen: opt_text(self.settings_unseen),
        }
    }
}

/// The settings as the environment keeps them: the values read, or why
/// there are none to read.
pub open spec fn settings_part(s: UserSettings) -> (Seq<(Seq<char>, Seq<char>)>, Option<Seq<char>>) {
    match s {
        UserSettings::Absent => (Seq::empty(), None),
        UserSettings::Read(values) => (pairs_view(values@), None),
        UserSettings::Unreadable => (
            Seq::empty(),
            Some("the build's user_settings.py is not a dictionary this reader can read"@),
        ),
    }
}

/// What a variable is to a launch.
pub enum LookupV {
    Given(Seq<char>, SetBy),
    Unset,
    Unseen(Seq<char>),
}

/// The last value `pairs` gives `name`, with its source.
pub open spec fn last_launch(pairs: Seq<(Seq<char>, Seq<char>, SetBy)>, name: Seq<char>) -> Option<
    (Seq<char>, SetBy),
>
    decreases pairs.len(),
{
    if pairs.len() == 0 {
        None
    } else if pairs.last().0 == name {
        Some((pairs.last().1, pairs.last().2))
    } else {
        last_launch(pairs.drop_last(), name)
    }
}

/// The last value `pairs` gives `name`.
pub open spec fn last_setting(pairs: Seq<(Seq<char>, Seq<char>)>, name: Seq<char>) -> Option<
    Seq<char>,
>
    decreases pairs.len(),
{
    if pairs.len() == 0 {
        None
    } else if pairs.last().0 == name {
        Some(pairs.last().1)
    } else {
        last_setting(pairs.drop_last(), name)
    }
}

/// A variable's value: the last the launch gives it; else, when the launch
/// could not be read, unseen; else the last `user_settings.py` gives it; else
/// unseen when that could not be read, and unset when it could.
pub open spec fn lookup_env(e: EnvironmentV, name: Seq<char>) -> LookupV {
    match last_launch(e.launch, name) {
        Some((value, by)) => LookupV::Given(value, by),
        None => match e.launch_unseen {
            Some(why) => LookupV::Unseen(why),
            None => match last_setting(e.settings, name) {
                Some(value) => LookupV::Given(value, SetBy::UserSettings),
                None => match e.settings_unseen {
                    Some(why) => LookupV::Unseen(why),
                    None => LookupV::Unset,
                },
            },
        },
    }
}

/// What a variable is to a launch.
enum Lookup<'a> {
    Given(&'a str, SetBy),
    Unset,
    Unseen(&'a str),
}

impl<'a> Lookup<'a> {
    spec fn view(self) -> LookupV {
        match self {
            Lookup::Given(v, by) => LookupV::Given(v@, by),
            Lookup::Unset => LookupV::Unset,
            Lookup::Unseen(why) => LookupV::Unseen(why@),
        }
    }
}

impl Environment {
    /// `launch` is the parsed launch options, or why they could not be read.
    pub fn new(launch: Result<Vec<(String, String)>, String>, settings: &UserSettings) -> (e:
        Environment)
        ensures
            e@ == (EnvironmentV {
                launch: match launch {
                    Ok(values) => pairs_view(values@).map_values(
                        |p: (Seq<char>, Seq<char>)| (p.0, p.1, SetBy::LaunchOptions),
                    ),
                    Err(_) => Seq::empty(),
                },
                settings: settings_part(*settings).0,
                launch_unseen: match launch {
                    Ok(_) => None,
                    Err(why) => Some(why@),
                },
                settings_unseen: settings_part(*settings).1,
            }),
    {
        let launch = match launch {
            Ok(values) => {
                let ghost given = pairs_view(values@);
                let mut out: Vec<(String, String, SetBy)> = Vec::new();
                let mut rest = values;
                let mut i: usize = 0;
                let total = rest.len();
                assert(given.skip(0) =~= given);
                while rest.len() > 0
                    invariant
                        i + rest@.len() == total == given.len(),
                        pairs_view(rest@) == given.skip(i as int),
                        sourced_view(out@) == given.take(i as int).map_values(
                            |p: (Seq<char>, Seq<char>)| (p.0, p.1, SetBy::LaunchOptions),
                        ),
                    decreases rest@.len(),
                {
                    let ghost before = rest@;
                    let (name, value) = rest.remove(0);
                    assert(pairs_view(before)[0] == (name@, value@));
                    assert(given.skip(i as int)[0] == given[i as int]);
                    assert(pairs_view(rest@) =~= pairs_view(before).drop_first());
                    assert(given.skip(i as int).drop_first() =~= given.skip(i + 1));
                    let ghost prior = out@;
                    out.push((name, value, SetBy::LaunchOptions));
                    assert(sourced_view(out@) =~= sourced_view(prior).push(
                        (given[i as int].0, given[i as int].1, SetBy::LaunchOptions),
                    ));
                    i = i + 1;
                    assert(sourced_view(out@) =~= given.take(i as int).map_values(
                        |p: (Seq<char>, Seq<char>)| (p.0, p.1, SetBy::LaunchOptions),
                    ));
                }
                assert(given.take(i as int) =~= given);
                Ok(out)
            },
            Err(why) => Err(why),
        };
        Self::sourced(launch, settings)
    }

    /// The same, with each launch variable naming where it came from.
    pub fn sourced(launch: Result<Vec<(String, String, SetBy)>, String>, settings: &UserSettings) -> (e:
        Environment)
        ensures
            e@ == (EnvironmentV {
                launch: match launch {
                    Ok(values) => sourced_view(values@),
                    Err(_) => Seq::empty(),
                },
                settings: settings_part(*settings).0,
                launch_unseen: match launch {
                    Ok(_) => None,
                    Err(why) => Some(why@),
                },
                settings_unseen: settings_part(*settings).1,
            }),
    {
        let (values, launch_unseen) = match launch {
            Ok(values) => (values, None),
            Err(why) => (Vec::new(), Some(why)),
        };
        let (kept, settings_unseen) = match settings {
            UserSettings::Absent => (Vec::new(), None),
            UserSettings::Read(values) => (copy_pairs(values), None),
            UserSettings::Unreadable => (
                Vec::new(),
                Some(
                    copy_text("the build's user_settings.py is not a dictionary this reader can read"),
                ),
            ),
        };
        let e = Environment { launch: values, settings: kept, launch_unseen, settings_unseen };
        assert(e@.launch =~= match launch {
            Ok(values) => sourced_view(values@),
            Err(_) => Seq::empty(),
        });
        assert(e@.settings =~= settings_part(*settings).0);
        e
    }

    /// What `variable` is to this launch.
    fn get(&self, variable: &str) -> (l: Lookup<'_>)
        ensures
            l.view() == lookup_env(self@, variable@),
    {
        let ghost launch = self@.launch;
        let mut i = self.launch.len();
        assert(launch.take(i as int) =~= launch);
        while i > 0
            invariant
                i <= self.launch@.len(),
                launch == self@.launch,
                last_launch(launch, variable@) == last_launch(launch.take(i as int), variable@),
            decreases i,
        {
            let entry = &self.launch[i - 1];
            assert(launch.take(i as int).last() == (entry.0@, entry.1@, entry.2));
            if same_text(entry.0.as_str(), variable) {
                return Lookup::Given(entry.1.as_str(), entry.2);
            }
            assert(launch.take(i as int).drop_last() =~= launch.take(i - 1));
            i = i - 1;
        }
        if let Some(why) = &self.launch_unseen {
            return Lookup::Unseen(why.as_str());
        }
        let ghost settings = self@.settings;
        let mut k = self.settings.len();
        assert(settings.take(k as int) =~= settings);
        while k > 0
            invariant
                k <= self.settings@.len(),
                settings == self@.settings,
                last_launch(self@.launch, variable@) is None,
                self@.launch_unseen is None,
                last_setting(settings, variable@) == last_setting(settings.take(k as int), variable@),
            decreases k,
        {
            let entry = &self.settings[k - 1];
            assert(settings.take(k as int).last() == (entry.0@, entry.1@));
            if same_text(entry.0.as_str(), variable) {
                return Lookup::Given(entry.1.as_str(), SetBy::UserSettings);
            }
            assert(settings.take(k as int).drop_last() =~= settings.take(k - 1));
            k = k - 1;
        }
        match &self.settings_unseen {
            Some(why) => Lookup::Unseen(why.as_str()),
            None => Lookup::Unset,
        }
    }
}

/// A copy of every pair.
fn copy_pairs(v: &Vec<(String, String)>) -> (out: Vec<(String, String)>)
    ensures
        pairs_view(out@) == pairs_view(v@),
{
    let mut out: Vec<(String, String)> = Vec::new();
    let mut i: usize = 0;
    while i < v.len()
        invariant
            i <= v@.len(),
            pairs_view(out@) == pairs_view(v@).take(i as int),
        decreases v@.len() - i,
    {
        let pair = (copy_text(v[i].0.as_str()), copy_text(v[i].1.as_str()));
        let ghost before = out@;
        out.push(pair);
        assert(pairs_view(out@) =~= pairs_view(before).push((pair.0@, pair.1@)));
        i = i + 1;
        assert(pairs_view(out@) =~= pairs_view(v@).take(i as int));
    }
    assert(pairs_view(v@).take(i as int) =~= pairs_view(v@));
    out
}

/// One switch a launch sets, and what it does to its flag.
#[derive(Debug, Clone, PartialEq, Eq)]
pub struct Applied {
    pub variable: String,
    pub value: String,
    pub set_by: SetBy,
    pub flag: Flag,
    /// `false` when the value is `0` or empty, which removes the flag.
    pub added: bool,
}

/// An applied switch as plain values.
pub struct AppliedV {
    pub variable: Seq<char>,
    pub value: Seq<char>,
    pub set_by: SetBy,
    pub flag: Flag,
    pub added: bool,
}

impl View for Applied {
    type V = AppliedV;

    open spec fn view(&self) -> AppliedV {
        AppliedV {
            variable: self.variable@,
            value: self.value@,
            set_by: self.set_by,
            flag: self.flag,
            added: self.added,
        }
    }
}

/// The plain values of each applied switch.
pub open spec fn applied_view(v: Seq<Applied>) -> Seq<AppliedV> {
    v.map_values(|a: Applied| a@)
}

/// `VARIABLE=value in <source> adds|removes <flag>`.
pub open spec fn applied_words(a: AppliedV) -> Seq<char> {
    a.variable + "="@ + a.value + " in "@ + set_by_words(a.set_by) + " "@ + (if a.added {
        "adds"@
    } else {
        "removes"@
    }) + " "@ + a.flag.spec_as_str()
}

impl Applied {
    /// `PROTON_FORCE_NVAPI=1 in launch options adds forcenvapi`.
    pub fn describe(&self) -> (s: String)
        ensures
            s@ == applied_words(self@),
    {
        let mut s = copy_text(self.variable.as_str());
        s.push_str("=");
        s.push_str(self.value.as_str());
        s.push_str(" in ");
        s.push_str(self.set_by.as_str());
        s.push_str(" ");
        s.push_str(
            if self.added {
                "adds"
            } else {
                "removes"
            },
        );
        s.push_str(" ");
        s.push_str(self.flag.as_str());
        assert(s@ =~= applied_words(self@));
        s
    }
}

/// What the launch environment does to `use_nvapi`.
#[derive(Debug, Clone, PartialEq, Eq)]
pub enum Resolution {
    /// Nothing in the environment reaches an NVAPI switch: the script's own
    /// policy stands.
    Default,
    /// The value the script computes with these switches applied.
    Computed { use_nvapi: bool, applied: Vec<Applied> },
    /// Why the value cannot be computed.
    Undetermined(String),
}

/// A resolution as plain values.
pub enum ResolutionV {
    Default,
    Computed { use_nvapi: bool, applied: Seq<AppliedV> },
    Undetermined(Seq<char>),
}

impl View for Resolution {
    type V = ResolutionV;

    open spec fn view(&self) -> ResolutionV {
        match self {
            Resolution::Default => ResolutionV::Default,
            Resolution::Computed { use_nvapi, applied } => ResolutionV::Computed {
                use_nvapi: *use_nvapi,
                applied: applied_view(applied@),
            },
            Resolution::Undetermined(why) => ResolutionV::Undetermined(why@),
        }
    }
}

/// Whether a flag is set: known present, known absent, or not known and why.
pub enum StateV {
    Present,
    Absent,
    Uncertain(Seq<char>),
}

/// Whether a flag is set.
enum State {
    Present,
    Absent,
    Uncertain(String),
}

impl State {
    spec fn view(&self) -> StateV {
        match self {
            State::Present => StateV::Present,
            State::Absent => StateV::Absent,
            State::Uncertain(why) => StateV::Uncertain(why@),
        }
    }
}

/// Whether the default lists set `flag` for `appid`.
pub open spec fn default_state(r: ReadingV, flag: Flag, appid: Seq<char>) -> StateV {
    if find_site(r.sites, flag, appid, false) is Some {
        StateV::Present
    } else {
        match find_site(r.sites, flag, appid, true) {
            Some(site) => StateV::Uncertain(
                "the list at line "@ + decimal(site.line as nat) + " sets "@ + flag.spec_as_str()
                    + " only under a condition this reader does not evaluate"@,
            ),
            None => if r.refusals.len() == 0 {
                StateV::Absent
            } else {
                StateV::Uncertain("part of the NVAPI policy was not understood"@)
            },
        }
    }
}

/// Proton's `nonzero`: any value but `""` and `"0"` sets the flag.
pub open spec fn nonzero(value: Seq<char>) -> bool {
    value.len() != 0 && value != "0"@
}

/// The three flags' states, the switches applied so far, and whether any
/// switch was reached.
pub struct Applying {
    pub disable: StateV,
    pub enable: StateV,
    pub force: StateV,
    pub applied: Seq<AppliedV>,
    pub touched: bool,
}

/// `a` with `flag`'s state replaced.
pub open spec fn with_state(a: Applying, flag: Flag, state: StateV) -> Applying {
    match flag {
        Flag::Disable => Applying { disable: state, ..a },
        Flag::Enable => Applying { enable: state, ..a },
        Flag::Force => Applying { force: state, ..a },
    }
}

/// Every switch in turn, in the script's order, set from what the launch
/// gives its variable: unset leaves the flag alone, unseen makes it
/// uncertain, and a value adds or removes it.
pub open spec fn apply_switches(start: Applying, switches: Seq<SwitchV>, e: EnvironmentV) -> Applying
    decreases switches.len(),
{
    if switches.len() == 0 {
        start
    } else {
        let a = apply_switches(start, switches.drop_last(), e);
        let sw = switches.last();
        match lookup_env(e, sw.variable) {
            LookupV::Unset => a,
            LookupV::Unseen(why) => with_state(
                Applying { touched: true, ..a },
                sw.flag,
                StateV::Uncertain(why),
            ),
            LookupV::Given(value, by) => {
                let added = nonzero(value);
                with_state(
                    Applying {
                        touched: true,
                        applied: a.applied.push(
                            AppliedV {
                                variable: sw.variable,
                                value,
                                set_by: by,
                                flag: sw.flag,
                                added,
                            },
                        ),
                        ..a
                    },
                    sw.flag,
                    if added {
                        StateV::Present
                    } else {
                        StateV::Absent
                    },
                )
            },
        }
    }
}

/// A known state's value, or why it is not known.
pub open spec fn known(s: StateV) -> Result<bool, Seq<char>> {
    match s {
        StateV::Present => Ok(true),
        StateV::Absent => Ok(false),
        StateV::Uncertain(why) => Err(why),
    }
}

/// `use_nvapi` under `disablenvapi not in config or forcenvapi in config`.
pub open spec fn unless_forced(disable: StateV, force: StateV) -> Result<bool, Seq<char>> {
    if force is Present || disable is Absent {
        Ok(true)
    } else if disable is Present && force is Absent {
        Ok(false)
    } else {
        match disable {
            StateV::Uncertain(why) => Err(why),
            _ => match force {
                StateV::Uncertain(why) => Err(why),
                _ => Ok(false),
            },
        }
    }
}

/// What the launch environment does to `use_nvapi` for `appid`: the script's
/// defaults for it, the switches applied in the script's order, and the
/// script's own expression evaluated. `x86_64_host` is whether this build runs
/// on an x86-64 host, which Experimental's ARM clause turns on.
pub open spec fn spec_resolve(r: ReadingV, appid: Seq<char>, e: EnvironmentV, x86_64_host: bool) -> ResolutionV {
    let start = Applying {
        disable: default_state(r, Flag::Disable, appid),
        enable: default_state(r, Flag::Enable, appid),
        force: default_state(r, Flag::Force, appid),
        applied: Seq::empty(),
        touched: false,
    };
    let a = apply_switches(start, r.switches, e);
    if !a.touched {
        ResolutionV::Default
    } else if r.switches_unread > 0 {
        ResolutionV::Undetermined(
            "an NVAPI switch in this script reads a variable this reader cannot name"@,
        )
    } else {
        match r.formula {
            None => ResolutionV::Undetermined(
                "the script's use_nvapi expression is not in a shape this reader knows"@,
            ),
            Some(f) => if spec_policy(r.sites) is Some && spec_policy(r.sites) != Some(
                formula_policy(f),
            ) {
                ResolutionV::Undetermined(
                    "the script's use_nvapi expression and its appid lists disagree about direction"@,
                )
            } else if f == (Formula::DisableUnlessForced { arm_clause: true }) && !x86_64_host {
                ResolutionV::Undetermined(
                    "the script withholds NVAPI on an ARM host, and this build does not assume the host"@,
                )
            } else {
                let value = match f {
                    Formula::Enable => known(a.enable),
                    Formula::DisableUnlessForced { .. } => unless_forced(a.disable, a.force),
                };
                match value {
                    Ok(v) => if a.applied.len() == 0 {
                        ResolutionV::Default
                    } else {
                        ResolutionV::Computed { use_nvapi: v, applied: a.applied }
                    },
                    Err(why) => ResolutionV::Undetermined(why),
                }
            },
        }
    }
}

/// The switches the launch gives a value, in the script's order, each as
/// applied: its variable, the value, who set it, its flag, and whether the
/// value sets the flag.
pub open spec fn given_switches(switches: Seq<SwitchV>, e: EnvironmentV) -> Seq<AppliedV>
    decreases switches.len(),
{
    if switches.len() == 0 {
        Seq::empty()
    } else {
        let before = given_switches(switches.drop_last(), e);
        let sw = switches.last();
        match lookup_env(e, sw.variable) {
            LookupV::Given(value, by) => before.push(
                AppliedV { variable: sw.variable, value, set_by: by, flag: sw.flag, added: nonzero(value) },
            ),
            _ => before,
        }
    }
}

/// True when the launch sets, or may set, one of the switches' variables.
pub open spec fn touches(switches: Seq<SwitchV>, e: EnvironmentV) -> bool {
    exists|i: int| 0 <= i < switches.len() && !(lookup_env(e, (#[trigger] switches[i]).variable) is Unset)
}

proof fn lemma_apply_switches(start: Applying, switches: Seq<SwitchV>, e: EnvironmentV)
    ensures
        apply_switches(start, switches, e).applied == start.applied + given_switches(switches, e),
        apply_switches(start, switches, e).touched == (start.touched || touches(switches, e)),
    decreases switches.len(),
{
    if switches.len() == 0 {
        assert(start.applied + Seq::<AppliedV>::empty() =~= start.applied);
    } else {
        let rest = switches.drop_last();
        lemma_apply_switches(start, rest, e);
        let sw = switches.last();
        match lookup_env(e, sw.variable) {
            LookupV::Given(value, by) => {
                let x = AppliedV { variable: sw.variable, value, set_by: by, flag: sw.flag, added: nonzero(value) };
                assert(start.applied + given_switches(rest, e).push(x) =~= (start.applied + given_switches(rest, e)).push(x));
            },
            _ => {},
        }
        if touches(rest, e) {
            let i = choose|i: int| 0 <= i < rest.len() && !(lookup_env(e, (#[trigger] rest[i]).variable) is Unset);
            assert(switches[i] == rest[i]);
        }
        if touches(switches, e) && lookup_env(e, sw.variable) is Unset {
            let i = choose|i: int| 0 <= i < switches.len() && !(lookup_env(e, (#[trigger] switches[i]).variable) is Unset);
            if i < rest.len() {
                assert(switches[i] == rest[i]);
            }
        }
        if !(lookup_env(e, sw.variable) is Unset) {
            assert(switches[switches.len() - 1] == sw);
        }
    }
}

/// What resolving promises: a launch that sets none of the switches'
/// variables leaves the default; a computed answer applied at least one
/// switch, and exactly the switches the launch gives a value, in the
/// script's order, each adding its flag when its value is not `""` or
/// `"0"`; and a switch reached while a switch's variable could not be named
/// leaves the answer undetermined.
pub proof fn lemma_resolve_laws(r: ReadingV, appid: Seq<char>, e: EnvironmentV, x86_64_host: bool)
    ensures
        !touches(r.switches, e) ==> spec_resolve(r, appid, e, x86_64_host) == ResolutionV::Default,
        spec_resolve(r, appid, e, x86_64_host) matches ResolutionV::Computed { applied, .. } ==> applied.len()
            > 0 && applied == given_switches(r.switches, e),
        touches(r.switches, e) && r.switches_unread > 0 ==> spec_resolve(
            r,
            appid,
            e,
            x86_64_host,
        ) is Undetermined,
{
    let start = Applying {
        disable: default_state(r, Flag::Disable, appid),
        enable: default_state(r, Flag::Enable, appid),
        force: default_state(r, Flag::Force, appid),
        applied: Seq::empty(),
        touched: false,
    };
    lemma_apply_switches(start, r.switches, e);
    assert(Seq::<AppliedV>::empty() + given_switches(r.switches, e) =~= given_switches(r.switches, e));
}

/// Whether the default lists set `flag` for `appid`.
fn default_state_of(reading: &Reading, flag: Flag, appid: &str) -> (s: State)
    ensures
        s.view() == default_state(reading@, flag, appid@),
{
    if find(reading, flag, appid, false).is_some() {
        return State::Present;
    }
    if let Some(site) = find(reading, flag, appid, true) {
        let mut why = copy_text("the list at line ");
        push_decimal(&mut why, site.line as u64);
        why.push_str(" sets ");
        why.push_str(flag.as_str());
        why.push_str(" only under a condition this reader does not evaluate");
        return State::Uncertain(why);
    }
    if reading.refusals.len() == 0 {
        State::Absent
    } else {
        State::Uncertain(copy_text("part of the NVAPI policy was not understood"))
    }
}

/// Proton's `nonzero`: any value but `""` and `"0"` sets the flag.
fn is_nonzero(value: &str) -> (b: bool)
    ensures
        b == nonzero(value@),
{
    !value.is_empty() && !same_text(value, "0")
}

/// A copy of a state.
fn copy_state(s: &State) -> (t: State)
    ensures
        t.view() == s.view(),
{
    match s {
        State::Present => State::Present,
        State::Absent => State::Absent,
        State::Uncertain(why) => State::Uncertain(copy_text(why.as_str())),
    }
}

/// Applies `environment` to the script's defaults for `appid` and evaluates
/// the `use_nvapi` expression, in the script's own order.
pub fn resolve(reading: &Reading, appid: &str, environment: &Environment, x86_64_host: bool) -> (r:
    Resolution)
    ensures
        r@ == spec_resolve(reading@, appid@, environment@, x86_64_host),
{
    let mut disable = default_state_of(reading, Flag::Disable, appid);
    let mut enable = default_state_of(reading, Flag::Enable, appid);
    let mut force = default_state_of(reading, Flag::Force, appid);
    let mut applied: Vec<Applied> = Vec::new();
    let mut touched = false;
    let ghost start = Applying {
        disable: default_state(reading@, Flag::Disable, appid@),
        enable: default_state(reading@, Flag::Enable, appid@),
        force: default_state(reading@, Flag::Force, appid@),
        applied: Seq::empty(),
        touched: false,
    };
    let ghost switches = reading@.switches;
    let mut i: usize = 0;
    assert(switches.take(0) =~= Seq::<SwitchV>::empty());
    assert(applied_view(applied@) =~= Seq::<AppliedV>::empty());
    while i < reading.switches.len()
        invariant
            i <= reading.switches@.len(),
            switches == reading@.switches,
            apply_switches(start, switches.take(i as int), environment@) == (Applying {
                disable: disable.view(),
                enable: enable.view(),
                force: force.view(),
                applied: applied_view(applied@),
                touched,
            }),
        decreases reading.switches@.len() - i,
    {
        let sw = &reading.switches[i];
        assert(switches.take(i + 1).drop_last() =~= switches.take(i as int));
        assert(switches.take(i + 1).last() == sw@);
        let state = match environment.get(sw.variable.as_str()) {
            Lookup::Unset => {
                i = i + 1;
                continue;
            },
            Lookup::Unseen(why) => State::Uncertain(copy_text(why)),
            Lookup::Given(value, set_by) => {
                let added = is_nonzero(value);
                let ghost before = applied@;
                let entry = Applied {
                    variable: copy_text(sw.variable.as_str()),
                    value: copy_text(value),
                    set_by,
                    flag: sw.flag,
                    added,
                };
                applied.push(entry);
                assert(applied_view(applied@) =~= applied_view(before).push(entry@));
                if added {
                    State::Present
                } else {
                    State::Absent
                }
            },
        };
        touched = true;
        match sw.flag {
            Flag::Disable => disable = state,
            Flag::Enable => enable = state,
            Flag::Force => force = state,
        }
        i = i + 1;
    }
    assert(switches.take(i as int) =~= switches);
    if !touched {
        return Resolution::Default;
    }
    if reading.switches_unread > 0 {
        return Resolution::Undetermined(
            copy_text("an NVAPI switch in this script reads a variable this reader cannot name"),
        );
    }
    let formula = match reading.formula {
        None => {
            return Resolution::Undetermined(
                copy_text("the script's use_nvapi expression is not in a shape this reader knows"),
            );
        },
        Some(f) => f,
    };
    let wanted = match formula {
        Formula::Enable => Policy::AllowList,
        Formula::DisableUnlessForced { .. } => Policy::DenyList,
    };
    match reading.policy() {
        Some(policy) => if policy != wanted {
            return Resolution::Undetermined(
                copy_text(
                    "the script's use_nvapi expression and its appid lists disagree about direction",
                ),
            );
        },
        None => {},
    }
    match formula {
        Formula::DisableUnlessForced { arm_clause } => if arm_clause && !x86_64_host {
            return Resolution::Undetermined(
                copy_text(
                    "the script withholds NVAPI on an ARM host, and this build does not assume the host",
                ),
            );
        },
        Formula::Enable => {},
    }
    let value: Result<bool, String> = match formula {
        Formula::Enable => match &enable {
            State::Present => Ok(true),
            State::Absent => Ok(false),
            State::Uncertain(why) => Err(copy_text(why.as_str())),
        },
        Formula::DisableUnlessForced { .. } => match (&disable, &force) {
            (_, State::Present) | (State::Absent, _) => Ok(true),
            (State::Present, State::Absent) => Ok(false),
            (State::Uncertain(why), _) => Err(copy_text(why.as_str())),
            (_, State::Uncertain(why)) => Err(copy_text(why.as_str())),
        },
    };
    match value {
        Ok(use_nvapi) => if applied.len() == 0 {
            Resolution::Default
        } else {
            Resolution::Computed { use_nvapi, applied }
        },
        Err(why) => Resolution::Undetermined(why),
    }
}

/// The switch a `check_environment(variable, "flag")` call at `at` makes:
/// its variable when that is a plain string, or `None` when it is not; no
/// call there at all is `None` outside.
pub open spec fn switch_at(ts: Seq<TokenV>, at: int) -> Option<(Option<Seq<char>>, Flag)> {
    if 0 <= at && at + 6 <= ts.len() && ts[at] == TokenV::Name("check_environment"@) && ts[at
        + 1] == TokenV::Punct('(') && ts[at + 3] == TokenV::Punct(',') && ts[at + 4] is Text
        && ts[at + 5] == TokenV::Punct(')') && flag_named(ts[at + 4]->Text_0) is Some {
        Some(
            (
                match ts[at + 2] {
                    TokenV::Text(v) => Some(v),
                    _ => None,
                },
                flag_named(ts[at + 4]->Text_0).unwrap(),
            ),
        )
    } else {
        None
    }
}

/// The switches found in the first `n` positions of one line's tokens, and
/// how many could not be read, added to `acc`.
pub open spec fn line_switches(ts: Seq<TokenV>, line: int, n: int, acc: (Seq<SwitchV>, nat)) -> (
    Seq<SwitchV>,
    nat,
)
    decreases n,
{
    if n <= 0 {
        acc
    } else {
        let before = line_switches(ts, line, n - 1, acc);
        match switch_at(ts, n - 1) {
            Some((Some(v), flag)) => (
                before.0.push(SwitchV { variable: v, flag, line: line as usize }),
                before.1,
            ),
            Some((None, _)) => (before.0, before.1 + 1),
            None => before,
        }
    }
}

/// Every NVAPI switch in the script, in order, and how many name their
/// variable in a way this reader cannot read.
pub open spec fn spec_switches(lines: Seq<LogicalV>) -> (Seq<SwitchV>, nat)
    decreases lines.len(),
{
    if lines.len() == 0 {
        (Seq::empty(), 0)
    } else {
        let l = lines.last();
        line_switches(l.tokens, l.line, l.tokens.len() as int, spec_switches(lines.drop_last()))
    }
}

/// The switches of one line found before `n` add at most `n` to the unread
/// count.
proof fn lemma_line_switches_bounded(ts: Seq<TokenV>, line: int, n: int, acc: (Seq<SwitchV>, nat))
    requires
        0 <= n,
    ensures
        line_switches(ts, line, n, acc).1 <= acc.1 + n,
    decreases n,
{
    if n > 0 {
        lemma_line_switches_bounded(ts, line, n - 1, acc);
    }
}

/// No more switches go unread than there are tokens.
proof fn lemma_switches_bounded(lines: Seq<LogicalV>)
    ensures
        spec_switches(lines).1 <= total_tokens(lines),
    decreases lines.len(),
{
    if lines.len() > 0 {
        let l = lines.last();
        lemma_switches_bounded(lines.drop_last());
        lemma_line_switches_bounded(
            l.tokens,
            l.line,
            l.tokens.len() as int,
            spec_switches(lines.drop_last()),
        );
    }
}

/// The switch a `check_environment` call at `at` makes, as [`switch_at`]
/// reads it.
fn switch_in(ts: &Vec<Token>, at: usize) -> (r: Option<(Option<String>, Flag)>)
    requires
        at < ts.len(),
    ensures
        match switch_at(tokens_view(ts@), at as int) {
            None => r is None,
            Some((v, f)) => r matches Some((w, g)) && g == f && opt_text(w) == v,
        },
{
    let ghost tv = tokens_view(ts@);
    if ts.len() - at < 6 {
        return None;
    }
    if !is_name(&ts[at], "check_environment") || !is_punct(&ts[at + 1], '(') || !is_punct(
        &ts[at + 3],
        ',',
    ) || !is_punct(&ts[at + 5], ')') {
        return None;
    }
    let flag_text = match text_of(&ts[at + 4]) {
        Some(t) => t,
        None => return None,
    };
    let flag = match Flag::lookup(flag_text) {
        Some(f) => f,
        None => return None,
    };
    let variable = match text_of(&ts[at + 2]) {
        Some(t) => Some(copy_text(t)),
        None => None,
    };
    Some((variable, flag))
}

/// Every NVAPI switch in the script, in order, and how many name their
/// variable in a way this reader cannot read.
pub(crate) fn switches(lines: &Vec<Logical>) -> (r: (Vec<Switch>, usize))
    requires
        total_tokens(lines_view(lines@)) <= usize::MAX,
    ensures
        switches_view(r.0@) == spec_switches(lines_view(lines@)).0,
        r.1 == spec_switches(lines_view(lines@)).1,
{
    let ghost lv = lines_view(lines@);
    let mut found: Vec<Switch> = Vec::new();
    let mut unread: usize = 0;
    let mut i: usize = 0;
    assert(lv.take(0) =~= Seq::<LogicalV>::empty());
    assert(switches_view(found@) =~= Seq::<SwitchV>::empty());
    while i < lines.len()
        invariant
            i <= lines.len(),
            lv == lines_view(lines@),
            total_tokens(lv) <= usize::MAX,
            (switches_view(found@), unread as nat) == spec_switches(lv.take(i as int)),
        decreases lines.len() - i,
    {
        let line = &lines[i];
        let ghost acc = (switches_view(found@), unread as nat);
        let ghost ts = tokens_view(line.tokens@);
        proof {
            lemma_total_prefix(lv, i as int);
            lemma_total_prefix(lv, i as int + 1);
            lemma_switches_bounded(lv.take(i as int));
            assert(lv.take(i + 1).drop_last() =~= lv.take(i as int));
            assert(lv[i as int] == lines@[i as int]@);
        }
        let mut at: usize = 0;
        while at < line.tokens.len()
            invariant
                at <= line.tokens.len(),
                ts == tokens_view(line.tokens@),
                acc.1 + line.tokens.len() <= usize::MAX,
                (switches_view(found@), unread as nat) == line_switches(
                    ts,
                    line.line as int,
                    at as int,
                    acc,
                ),
            decreases line.tokens.len() - at,
        {
            proof {
                lemma_line_switches_bounded(ts, line.line as int, at as int, acc);
            }
            match switch_in(&line.tokens, at) {
                Some((Some(variable), flag)) => {
                    let ghost before = switches_view(found@);
                    found.push(Switch { variable, flag, line: line.line });
                    assert(switches_view(found@) =~= before.push(found@.last()@));
                },
                Some((None, _)) => {
                    unread = unread + 1;
                },
                None => {},
            }
            at = at + 1;
        }
        i = i + 1;
    }
    assert(lv.take(lines.len() as int) =~= lv);
    (found, unread)
}

/// One element of a token pattern: a name, a string, a punctuation mark, or
/// `<name>.compat_config`.
pub enum Pat {
    Name(Seq<char>),
    Text(Seq<char>),
    Punct(char),
    Compat,
}

/// Whether `ts` from `i` is exactly the pattern from `k`.
pub open spec fn shape_from(ts: Seq<TokenV>, i: int, pattern: Seq<Pat>, k: int) -> bool
    decreases pattern.len() - k,
{
    if k < 0 || k >= pattern.len() {
        i == ts.len()
    } else {
        match pattern[k] {
            Pat::Name(w) => 0 <= i < ts.len() && ts[i] == TokenV::Name(w) && shape_from(
                ts,
                i + 1,
                pattern,
                k + 1,
            ),
            Pat::Text(w) => 0 <= i < ts.len() && ts[i] == TokenV::Text(w) && shape_from(
                ts,
                i + 1,
                pattern,
                k + 1,
            ),
            Pat::Punct(c) => 0 <= i < ts.len() && ts[i] == TokenV::Punct(c) && shape_from(
                ts,
                i + 1,
                pattern,
                k + 1,
            ),
            Pat::Compat => 0 <= i && i + 3 <= ts.len() && ts[i] is Name && ts[i + 1]
                == TokenV::Punct('.') && ts[i + 2] == TokenV::Name("compat_config"@) && shape_from(
                ts,
                i + 3,
                pattern,
                k + 1,
            ),
        }
    }
}

/// Whether `ts` is exactly `pattern`.
pub open spec fn shape(ts: Seq<TokenV>, pattern: Seq<Pat>) -> bool {
    shape_from(ts, 0, pattern, 0)
}

/// `'enablenvapi' in <x>.compat_config`.
pub open spec fn enable_pattern() -> Seq<Pat> {
    seq![Pat::Text("enablenvapi"@), Pat::Name("in"@), Pat::Compat]
}

/// `'disablenvapi' not in <x>.compat_config or 'forcenvapi' in
/// <x>.compat_config`.
pub open spec fn disable_unless_forced_pattern() -> Seq<Pat> {
    seq![
        Pat::Text("disablenvapi"@),
        Pat::Name("not"@),
        Pat::Name("in"@),
        Pat::Compat,
        Pat::Name("or"@),
        Pat::Text("forcenvapi"@),
        Pat::Name("in"@),
        Pat::Compat,
    ]
}

/// `and g_proton.host_pe_arch != "aarch64-windows"`.
pub open spec fn arm_pattern() -> Seq<Pat> {
    seq![
        Pat::Name("and"@),
        Pat::Name("g_proton"@),
        Pat::Punct('.'),
        Pat::Name("host_pe_arch"@),
        Pat::Punct('!'),
        Pat::Punct('='),
        Pat::Text("aarch64-windows"@),
    ]
}

/// The index of the `)` closing a bracket opened before `i`, at `depth`
/// brackets inside it.
pub open spec fn close_from(ts: Seq<TokenV>, i: int, depth: int) -> Option<int>
    decreases ts.len() - i,
{
    if i < 0 || i >= ts.len() {
        None
    } else {
        match ts[i] {
            TokenV::Punct(c) => if opens(c) {
                close_from(ts, i + 1, depth + 1)
            } else if c == ')' && depth == 0 {
                Some(i)
            } else if closes(c) {
                close_from(
                    ts,
                    i + 1,
                    if depth > 0 {
                        depth - 1
                    } else {
                        0
                    },
                )
            } else {
                close_from(ts, i + 1, depth)
            },
            _ => close_from(ts, i + 1, depth),
        }
    }
}

/// The tokens inside a leading `(`, up to its matching `)`.
pub open spec fn unwrap(ts: Seq<TokenV>) -> Option<Seq<TokenV>> {
    if ts.len() == 0 || ts[0] != TokenV::Punct('(') {
        None
    } else {
        match close_from(ts, 1, 0) {
            Some(j) => Some(ts.subrange(1, j)),
            None => None,
        }
    }
}

/// The right-hand side of the first `use_nvapi = ...` statement.
pub open spec fn use_nvapi_rhs(lines: Seq<LogicalV>) -> Option<Seq<TokenV>>
    decreases lines.len(),
{
    if lines.len() == 0 {
        None
    } else {
        let ts = lines[0].tokens;
        if ts.len() >= 2 && ts[0] == TokenV::Name("use_nvapi"@) && ts[1] == TokenV::Punct('=')
            && !(ts.len() >= 3 && ts[2] == TokenV::Punct('=')) {
            Some(ts.skip(2))
        } else {
            use_nvapi_rhs(lines.drop_first())
        }
    }
}

/// The formula a `use_nvapi` right-hand side spells, if it is one this
/// reader recognises.
pub open spec fn formula_from_rhs(rhs: Seq<TokenV>) -> Option<Formula> {
    if shape(rhs, enable_pattern()) {
        Some(Formula::Enable)
    } else if shape(rhs, disable_unless_forced_pattern()) {
        Some(Formula::DisableUnlessForced { arm_clause: false })
    } else {
        match unwrap(rhs) {
            Some(outer) => if outer.len() + 2 == rhs.len() {
                match unwrap(outer) {
                    Some(core) => if shape(core, disable_unless_forced_pattern()) && shape(
                        outer.skip((core.len() + 2) as int),
                        arm_pattern(),
                    ) {
                        Some(Formula::DisableUnlessForced { arm_clause: true })
                    } else {
                        None
                    },
                    None => None,
                }
            } else {
                None
            },
            None => None,
        }
    }
}

/// The recognised `use_nvapi` expression, if the script has one.
pub open spec fn spec_formula(lines: Seq<LogicalV>) -> Option<Formula> {
    match use_nvapi_rhs(lines) {
        None => None,
        Some(rhs) => formula_from_rhs(rhs),
    }
}

/// One element of a token pattern, as the reader holds it.
#[derive(Clone, Copy)]
enum Piece {
    Name(&'static str),
    Text(&'static str),
    Punct(char),
    Compat,
}

impl View for Piece {
    type V = Pat;

    closed spec fn view(&self) -> Pat {
        match self {
            Piece::Name(w) => Pat::Name(w@),
            Piece::Text(w) => Pat::Text(w@),
            Piece::Punct(c) => Pat::Punct(*c),
            Piece::Compat => Pat::Compat,
        }
    }
}

/// The plain values of each piece.
spec fn pieces_view(v: Seq<Piece>) -> Seq<Pat> {
    v.map_values(|p: Piece| p@)
}

/// `'enablenvapi' in <x>.compat_config`.
fn enable_pieces() -> (v: Vec<Piece>)
    ensures
        pieces_view(v@) == enable_pattern(),
{
    let mut v: Vec<Piece> = Vec::new();
    v.push(Piece::Text("enablenvapi"));
    v.push(Piece::Name("in"));
    v.push(Piece::Compat);
    assert(pieces_view(v@) =~= enable_pattern());
    v
}

/// `'disablenvapi' not in <x>.compat_config or 'forcenvapi' in
/// <x>.compat_config`.
fn disable_unless_forced_pieces() -> (v: Vec<Piece>)
    ensures
        pieces_view(v@) == disable_unless_forced_pattern(),
{
    let mut v: Vec<Piece> = Vec::new();
    v.push(Piece::Text("disablenvapi"));
    v.push(Piece::Name("not"));
    v.push(Piece::Name("in"));
    v.push(Piece::Compat);
    v.push(Piece::Name("or"));
    v.push(Piece::Text("forcenvapi"));
    v.push(Piece::Name("in"));
    v.push(Piece::Compat);
    assert(pieces_view(v@) =~= disable_unless_forced_pattern());
    v
}

/// `and g_proton.host_pe_arch != "aarch64-windows"`.
fn arm_pieces() -> (v: Vec<Piece>)
    ensures
        pieces_view(v@) == arm_pattern(),
{
    let mut v: Vec<Piece> = Vec::new();
    v.push(Piece::Name("and"));
    v.push(Piece::Name("g_proton"));
    v.push(Piece::Punct('.'));
    v.push(Piece::Name("host_pe_arch"));
    v.push(Piece::Punct('!'));
    v.push(Piece::Punct('='));
    v.push(Piece::Text("aarch64-windows"));
    assert(pieces_view(v@) =~= arm_pattern());
    v
}

/// Whether the tokens from `lo` to `hi` are exactly `pattern`.
fn shape_in(ts: &Vec<Token>, lo: usize, hi: usize, pattern: &Vec<Piece>) -> (b: bool)
    requires
        lo <= hi <= ts.len(),
    ensures
        b == shape(part(ts@, lo as int, hi as int), pieces_view(pattern@)),
{
    let ghost p = part(ts@, lo as int, hi as int);
    let ghost pv = pieces_view(pattern@);
    let mut at: usize = lo;
    let mut k: usize = 0;
    while k < pattern.len()
        invariant
            lo <= at <= hi <= ts.len(),
            k <= pattern.len(),
            p == part(ts@, lo as int, hi as int),
            pv == pieces_view(pattern@),
            shape(p, pv) == shape_from(p, at - lo, pv, k as int),
        decreases pattern.len() - k,
    {
        assert(pv[k as int] == pattern@[k as int]@);
        match pattern[k] {
            Piece::Name(w) => {
                if at < hi && is_name(&ts[at], w) {
                    assert(p[at - lo] == ts@[at as int]@);
                    at = at + 1;
                } else {
                    proof {
                        if at < hi {
                            assert(p[at - lo] == ts@[at as int]@);
                        }
                    }
                    return false;
                }
            },
            Piece::Text(w) => {
                let matched = at < hi && match text_of(&ts[at]) {
                    Some(t) => same_text(t, w),
                    None => false,
                };
                proof {
                    if at < hi {
                        assert(p[at - lo] == ts@[at as int]@);
                    }
                }
                if matched {
                    at = at + 1;
                } else {
                    return false;
                }
            },
            Piece::Punct(c) => {
                if at < hi && is_punct(&ts[at], c) {
                    assert(p[at - lo] == ts@[at as int]@);
                    at = at + 1;
                } else {
                    proof {
                        if at < hi {
                            assert(p[at - lo] == ts@[at as int]@);
                        }
                    }
                    return false;
                }
            },
            Piece::Compat => {
                let matched = hi - at >= 3 && text_of(&ts[at]).is_none() && match &ts[at] {
                    Token::Name(_) => true,
                    _ => false,
                } && is_punct(&ts[at + 1], '.') && is_name(&ts[at + 2], "compat_config");
                proof {
                    if hi - at >= 3 {
                        assert(p[at - lo] == ts@[at as int]@);
                        assert(p[at - lo + 1] == ts@[at + 1]@);
                        assert(p[at - lo + 2] == ts@[at + 2]@);
                    }
                }
                if matched {
                    at = at + 3;
                } else {
                    return false;
                }
            },
        }
        k = k + 1;
    }
    at == hi
}

/// Where the `)` matching a `(` at `lo` stands, when the tokens up to `hi`
/// close it.
fn unwrap_in(ts: &Vec<Token>, lo: usize, hi: usize) -> (r: Option<usize>)
    requires
        lo <= hi <= ts.len(),
    ensures
        match unwrap(part(ts@, lo as int, hi as int)) {
            None => r is None,
            Some(inner) => r matches Some(j) && lo < j < hi && inner == part(
                ts@,
                lo + 1,
                j as int,
            ),
        },
{
    let ghost p = part(ts@, lo as int, hi as int);
    if lo == hi || !is_punct(&ts[lo], '(') {
        proof {
            if lo < hi {
                assert(p[0] == ts@[lo as int]@);
            }
        }
        return None;
    }
    assert(p[0] == ts@[lo as int]@);
    let mut at: usize = lo + 1;
    let mut depth: usize = 0;
    while at < hi
        invariant
            lo < at <= hi <= ts.len(),
            depth <= at - lo,
            p == part(ts@, lo as int, hi as int),
            p.len() > 0 && p[0] == TokenV::Punct('('),
            close_from(p, 1, 0) == close_from(p, at - lo, depth as int),
        decreases hi - at,
    {
        assert(p[at - lo] == ts@[at as int]@);
        match &ts[at] {
            Token::Punct(c) => {
                let c = *c;
                if c == '(' || c == '[' || c == '{' {
                    depth = depth + 1;
                } else if c == ')' && depth == 0 {
                    assert(p.subrange(1, at - lo) =~= part(ts@, lo + 1, at as int));
                    return Some(at);
                } else if c == ')' || c == ']' || c == '}' {
                    if depth > 0 {
                        depth = depth - 1;
                    }
                }
            },
            _ => {},
        }
        at = at + 1;
    }
    None
}

/// The recognised `use_nvapi` expression, if the script has one.
pub(crate) fn formula(lines: &Vec<Logical>) -> (f: Option<Formula>)
    ensures
        f == spec_formula(lines_view(lines@)),
{
    let ghost lv = lines_view(lines@);
    let mut i: usize = 0;
    assert(lv.skip(0) =~= lv);
    while i < lines.len()
        invariant
            i <= lines.len(),
            lv == lines_view(lines@),
            use_nvapi_rhs(lv) == use_nvapi_rhs(lv.skip(i as int)),
        decreases lines.len() - i,
    {
        let ts = &lines[i].tokens;
        let ghost tv = tokens_view(ts@);
        assert(lv.skip(i as int)[0] == lines@[i as int]@);
        assert(lv.skip(i as int).drop_first() =~= lv.skip(i + 1));
        if ts.len() >= 2 && is_name(&ts[0], "use_nvapi") && is_punct(&ts[1], '=') && !(ts.len()
            >= 3 && is_punct(&ts[2], '=')) {
            assert(tv[0] == ts@[0]@ && tv[1] == ts@[1]@);
            proof {
                if ts.len() >= 3 {
                    assert(tv[2] == ts@[2]@);
                }
            }
            assert(tv.skip(2) =~= part(ts@, 2, ts.len() as int));
            return formula_of(ts);
        }
        proof {
            if ts.len() >= 2 {
                assert(tv[0] == ts@[0]@ && tv[1] == ts@[1]@);
                if ts.len() >= 3 {
                    assert(tv[2] == ts@[2]@);
                }
            }
        }
        i = i + 1;
    }
    assert(lv.skip(i as int) =~= Seq::<LogicalV>::empty());
    None
}

/// The formula a `use_nvapi = ...` statement's tokens spell, read from the
/// right-hand side on.
fn formula_of(ts: &Vec<Token>) -> (f: Option<Formula>)
    requires
        ts.len() >= 2,
    ensures
        f == formula_from_rhs(part(ts@, 2, ts.len() as int)),
{
    let n = ts.len();
    let ghost rhs = part(ts@, 2, n as int);
    if shape_in(ts, 2, n, &enable_pieces()) {
        return Some(Formula::Enable);
    }
    if shape_in(ts, 2, n, &disable_unless_forced_pieces()) {
        return Some(Formula::DisableUnlessForced { arm_clause: false });
    }
    let j = match unwrap_in(ts, 2, n) {
        Some(j) => j,
        None => return None,
    };
    let ghost outer = part(ts@, 3, j as int);
    if j + 1 != n {
        return None;
    }
    let k = match unwrap_in(ts, 3, j) {
        Some(k) => k,
        None => return None,
    };
    let ghost core = part(ts@, 4, k as int);
    assert(outer.skip((core.len() + 2) as int) =~= part(ts@, k + 1, j as int));
    if shape_in(ts, 4, k, &disable_unless_forced_pieces()) && shape_in(ts, k + 1, j, &arm_pieces()) {
        Some(Formula::DisableUnlessForced { arm_clause: true })
    } else {
        None
    }
}

/// The right-hand side of the first `prefix_info = ...` statement.
pub open spec fn prefix_info_rhs(lines: Seq<LogicalV>) -> Option<Seq<TokenV>>
    decreases lines.len(),
{
    if lines.len() == 0 {
        None
    } else {
        let ts = lines[0].tokens;
        if ts.len() >= 2 && ts[0] == TokenV::Name("prefix_info"@) && ts[1] == TokenV::Punct('=') {
            Some(ts.skip(2))
        } else {
            prefix_info_rhs(lines.drop_first())
        }
    }
}

/// Whether `join((` starts at `i`.
pub open spec fn join_at(ts: Seq<TokenV>, i: int) -> bool {
    0 <= i && i + 3 <= ts.len() && ts[i] == TokenV::Name("join"@) && ts[i + 1] == TokenV::Punct(
        '(',
    ) && ts[i + 2] == TokenV::Punct('(')
}

/// The first `join((` in `ts` from `i`.
pub open spec fn first_join(ts: Seq<TokenV>, i: int) -> Option<int>
    decreases ts.len() - i,
{
    if i < 0 || i + 3 > ts.len() {
        None
    } else if join_at(ts, i) {
        Some(i)
    } else {
        first_join(ts, i + 1)
    }
}

/// `str(use_nvapi)`.
pub open spec fn recorded_item() -> Seq<TokenV> {
    seq![
        TokenV::Name("str"@),
        TokenV::Punct('('),
        TokenV::Name("use_nvapi"@),
        TokenV::Punct(')'),
    ]
}

/// The first index from `k` at which `its` holds `item`.
pub open spec fn first_item(its: Seq<Seq<TokenV>>, item: Seq<TokenV>, k: int) -> Option<int>
    decreases its.len() - k,
{
    if k < 0 || k >= its.len() {
        None
    } else if its[k] == item {
        Some(k)
    } else {
        first_item(its, item, k + 1)
    }
}

/// 1-based line of `config_info` that holds `str(use_nvapi)`, read off the
/// `prefix_info` tuple: its place among the items of `join((...))`.
pub open spec fn spec_recorded_line(lines: Seq<LogicalV>) -> Option<usize> {
    match prefix_info_rhs(lines) {
        None => None,
        Some(ts) => match first_join(ts, 0) {
            None => None,
            Some(j) => match unwrap(ts.skip(j + 2)) {
                None => None,
                Some(tuple) => match first_item(items(tuple), recorded_item(), 0) {
                    None => None,
                    Some(at) => Some((at + 1) as usize),
                },
            },
        },
    }
}

/// Whether the tokens from `lo` to `hi` are `str(use_nvapi)`.
fn is_recorded(ts: &Vec<Token>, lo: usize, hi: usize) -> (b: bool)
    requires
        lo <= hi <= ts.len(),
    ensures
        b == (part(ts@, lo as int, hi as int) == recorded_item()),
{
    let ghost p = part(ts@, lo as int, hi as int);
    assert(recorded_item().len() == 4);
    if hi - lo != 4 {
        return false;
    }
    assert(forall|k: int| 0 <= k < 4 ==> #[trigger] p[k] == ts@[lo + k]@);
    let b = is_name(&ts[lo], "str") && is_punct(&ts[lo + 1], '(') && is_name(
        &ts[lo + 2],
        "use_nvapi",
    ) && is_punct(&ts[lo + 3], ')');
    proof {
        if b {
            assert(p =~= recorded_item());
        } else {
            if p == recorded_item() {
                assert(p[0] == recorded_item()[0]);
                assert(p[1] == recorded_item()[1]);
                assert(p[2] == recorded_item()[2]);
                assert(p[3] == recorded_item()[3]);
            }
        }
    }
    b
}

/// The line of a `prefix_info = ...` statement's tokens that records
/// `use_nvapi`.
fn recorded_in(ts: &Vec<Token>) -> (r: Option<usize>)
    requires
        ts.len() >= 2,
    ensures
        r == ({
            let rhs = part(ts@, 2, ts.len() as int);
            match first_join(rhs, 0) {
                None => None,
                Some(j) => match unwrap(rhs.skip(j + 2)) {
                    None => None,
                    Some(tuple) => match first_item(items(tuple), recorded_item(), 0) {
                        None => None,
                        Some(at) => Some((at + 1) as usize),
                    },
                },
            }
        }),
{
    let n = ts.len();
    let ghost rhs = part(ts@, 2, n as int);
    let mut w: usize = 2;
    while n - w >= 3 && !(is_name(&ts[w], "join") && is_punct(&ts[w + 1], '(') && is_punct(
        &ts[w + 2],
        '(',
    ))
        invariant
            2 <= w <= n,
            n == ts.len(),
            rhs == part(ts@, 2, n as int),
            first_join(rhs, 0) == first_join(rhs, w - 2),
        decreases n - w,
    {
        assert(rhs[w - 2] == ts@[w as int]@ && rhs[w - 1] == ts@[w + 1]@ && rhs[w as int] == ts@[w
            + 2]@);
        w = w + 1;
    }
    if n - w < 3 {
        return None;
    }
    assert(rhs[w - 2] == ts@[w as int]@ && rhs[w - 1] == ts@[w + 1]@ && rhs[w as int] == ts@[w
        + 2]@);
    let ghost j = w - 2;
    assert(rhs.skip(j + 2) =~= part(ts@, w + 2, n as int));
    let e = match unwrap_in(ts, w + 2, n) {
        Some(e) => e,
        None => return None,
    };
    let ghost tuple = part(ts@, w + 3, e as int);
    let ghost goal = match first_item(items(tuple), recorded_item(), 0) {
        None => None,
        Some(at) => Some((at + 1) as usize),
    };
    assert(goal == ({
        match first_join(rhs, 0) {
            None => None,
            Some(j) => match unwrap(rhs.skip(j + 2)) {
                None => None,
                Some(tuple) => match first_item(items(tuple), recorded_item(), 0) {
                    None => None,
                    Some(at) => Some((at + 1) as usize),
                },
            },
        }
    }));
    let ranges = items_in(ts, w + 3, e);
    let mut k: usize = 0;
    while k < ranges.len()
        invariant
            k <= ranges@.len(),
            w + 3 <= e <= n == ts.len(),
            ranges@.len() == items(tuple).len(),
            ranges@.len() <= e - (w + 3) + 1,
            tuple == part(ts@, w + 3, e as int),
            forall|q: int|
                0 <= q < ranges@.len() ==> w + 3 <= (#[trigger] ranges@[q]).0 <= ranges@[q].1 <= e
                    && part(ts@, ranges@[q].0 as int, ranges@[q].1 as int) == items(tuple)[q],
            first_item(items(tuple), recorded_item(), 0) == first_item(
                items(tuple),
                recorded_item(),
                k as int,
            ),
            goal == ({
                let rhs = part(ts@, 2, ts.len() as int);
                match first_join(rhs, 0) {
                    None => None,
                    Some(j) => match unwrap(rhs.skip(j + 2)) {
                        None => None,
                        Some(tuple) => match first_item(items(tuple), recorded_item(), 0) {
                            None => None,
                            Some(at) => Some((at + 1) as usize),
                        },
                    },
                }
            }),
            goal == match first_item(items(tuple), recorded_item(), 0) {
                None => None,
                Some(at) => Some((at + 1) as usize),
            },
        decreases ranges@.len() - k,
    {
        let range = ranges[k];
        assert(ranges@[k as int] == range);
        if is_recorded(ts, range.0, range.1) {
            return Some(k + 1);
        }
        k = k + 1;
    }
    None
}

/// 1-based line of `config_info` that holds `str(use_nvapi)`, read off the
/// `prefix_info` tuple: 14 up to 9.0, which still write `lib64_dir`, and 13
/// from 10.0.
pub(crate) fn recorded_line(lines: &Vec<Logical>) -> (r: Option<usize>)
    ensures
        r == spec_recorded_line(lines_view(lines@)),
{
    let ghost lv = lines_view(lines@);
    let mut i: usize = 0;
    assert(lv.skip(0) =~= lv);
    while i < lines.len()
        invariant
            i <= lines.len(),
            lv == lines_view(lines@),
            prefix_info_rhs(lv) == prefix_info_rhs(lv.skip(i as int)),
        decreases lines.len() - i,
    {
        let ts = &lines[i].tokens;
        let ghost tv = tokens_view(ts@);
        assert(lv.skip(i as int)[0] == lines@[i as int]@);
        assert(lv.skip(i as int).drop_first() =~= lv.skip(i + 1));
        if ts.len() >= 2 && is_name(&ts[0], "prefix_info") && is_punct(&ts[1], '=') {
            assert(tv[0] == ts@[0]@ && tv[1] == ts@[1]@);
            assert(tv.skip(2) =~= part(ts@, 2, ts.len() as int));
            return recorded_in(ts);
        }
        proof {
            if ts.len() >= 2 {
                assert(tv[0] == ts@[0]@ && tv[1] == ts@[1]@);
            }
        }
        i = i + 1;
    }
    assert(lv.skip(i as int) =~= Seq::<LogicalV>::empty());
    None
}

/// The inside of the first `user_settings = {...}` statement.
pub open spec fn settings_body(lines: Seq<LogicalV>) -> Option<Seq<TokenV>>
    decreases lines.len(),
{
    if lines.len() == 0 {
        None
    } else {
        let ts = lines[0].tokens;
        if ts.len() >= 4 && ts[0] == TokenV::Name("user_settings"@) && ts[1] == TokenV::Punct('=')
            && ts[2] == TokenV::Punct('{') && ts.last() == TokenV::Punct('}') {
            Some(ts.subrange(3, ts.len() - 1))
        } else {
            settings_body(lines.drop_first())
        }
    }
}

/// The `"KEY": "value"` entries of a dictionary's items, empty items
/// skipped, or `None` when an item is anything else.
pub open spec fn settings_entries(its: Seq<Seq<TokenV>>) -> Option<Seq<(Seq<char>, Seq<char>)>>
    decreases its.len(),
{
    if its.len() == 0 {
        Some(Seq::empty())
    } else {
        match settings_entries(its.drop_last()) {
            None => None,
            Some(acc) => {
                let it = its.last();
                if it.len() == 0 {
                    Some(acc)
                } else if it.len() == 3 && it[0] is Text && it[1] == TokenV::Punct(':')
                    && it[2] is Text {
                    Some(acc.push((it[0]->Text_0, it[2]->Text_0)))
                } else {
                    None
                }
            },
        }
    }
}

/// What `user_settings.py` holds, as far as this reader can read it:
/// `None` when it is not a plain dictionary of strings.
pub open spec fn spec_user_settings(text: Seq<char>) -> Option<Seq<(Seq<char>, Seq<char>)>> {
    match spec_lex(text) {
        Err(_) => None,
        Ok(lines) => match settings_body(lines) {
            None => None,
            Some(body) => settings_entries(items(body)),
        },
    }
}

/// The entries of the dictionary whose braces enclose `lo..hi`.
fn entries_in(ts: &Vec<Token>, lo: usize, hi: usize) -> (r: Option<Vec<(String, String)>>)
    requires
        lo <= hi <= ts.len(),
    ensures
        match r {
            Some(v) => settings_entries(items(part(ts@, lo as int, hi as int))) == Some(
                pairs_view(v@),
            ),
            None => settings_entries(items(part(ts@, lo as int, hi as int))) is None,
        },
{
    let ghost its = items(part(ts@, lo as int, hi as int));
    let ranges = items_in(ts, lo, hi);
    let mut values: Vec<(String, String)> = Vec::new();
    let mut k: usize = 0;
    assert(its.take(0) =~= Seq::<Seq<TokenV>>::empty());
    assert(pairs_view(values@) =~= Seq::<(Seq<char>, Seq<char>)>::empty());
    while k < ranges.len()
        invariant
            k <= ranges@.len(),
            lo <= hi <= ts.len(),
            its == items(part(ts@, lo as int, hi as int)),
            ranges@.len() == its.len(),
            forall|q: int|
                0 <= q < ranges@.len() ==> lo <= (#[trigger] ranges@[q]).0 <= ranges@[q].1 <= hi
                    && part(ts@, ranges@[q].0 as int, ranges@[q].1 as int) == its[q],
            settings_entries(its.take(k as int)) == Some(pairs_view(values@)),
        decreases ranges@.len() - k,
    {
        let range = ranges[k];
        assert(ranges@[k as int] == range);
        let ghost it = its[k as int];
        assert(its.take(k + 1).drop_last() =~= its.take(k as int));
        assert(its.take(k + 1).last() == it);
        let (a, b) = range;
        if a == b {
        } else if b - a == 3 && text_of(&ts[a]).is_some() && is_punct(&ts[a + 1], ':') && text_of(
            &ts[a + 2],
        ).is_some() {
            assert(it[0] == ts@[a as int]@ && it[1] == ts@[a + 1]@ && it[2] == ts@[a + 2]@);
            let key = copy_text(text_of(&ts[a]).unwrap());
            let value = copy_text(text_of(&ts[a + 2]).unwrap());
            let ghost before = pairs_view(values@);
            values.push((key, value));
            assert(pairs_view(values@) =~= before.push((it[0]->Text_0, it[2]->Text_0)));
        } else {
            proof {
                if b - a == 3 {
                    assert(it[0] == ts@[a as int]@ && it[1] == ts@[a + 1]@ && it[2] == ts@[a
                        + 2]@);
                }
            }
            assert(settings_entries(its.take(k + 1)) is None);
            assert(settings_entries(its) is None) by {
                lemma_entries_stay_none(its, k + 1);
            }
            return None;
        }
        k = k + 1;
    }
    assert(its.take(k as int) =~= its);
    Some(values)
}

/// Once an item is unreadable, so is every longer run of items.
proof fn lemma_entries_stay_none(its: Seq<Seq<TokenV>>, n: int)
    requires
        0 <= n <= its.len(),
        settings_entries(its.take(n)) is None,
    ensures
        settings_entries(its) is None,
    decreases its.len() - n,
{
    if n < its.len() {
        assert(its.take(n + 1).drop_last() =~= its.take(n));
        lemma_entries_stay_none(its, n + 1);
    } else {
        assert(its.take(n) =~= its);
    }
}

/// Reads `user_settings = {"KEY": "value", ...}`. Anything else is
/// [`UserSettings::Unreadable`]: Python may still build a dictionary from it.
pub fn user_settings(text: &str) -> (r: UserSettings)
    requires
        8 * text@.len() < usize::MAX,
    ensures
        match r {
            UserSettings::Read(v) => spec_user_settings(text@) == Some(pairs_view(v@)),
            UserSettings::Unreadable => spec_user_settings(text@) is None,
            UserSettings::Absent => false,
        },
{
    let lines = match lex(text) {
        Ok(lines) => lines,
        Err(_) => return UserSettings::Unreadable,
    };
    let ghost lv = lines_view(lines@);
    let mut i: usize = 0;
    assert(lv.skip(0) =~= lv);
    while i < lines.len()
        invariant
            i <= lines.len(),
            lv == lines_view(lines@),
            spec_lex(text@) == Ok::<Seq<LogicalV>, super::Error>(lv),
            settings_body(lv) == settings_body(lv.skip(i as int)),
        decreases lines.len() - i,
    {
        let ts = &lines[i].tokens;
        let ghost tv = tokens_view(ts@);
        assert(lv.skip(i as int)[0] == lines@[i as int]@);
        assert(lv.skip(i as int).drop_first() =~= lv.skip(i + 1));
        let n = ts.len();
        if n >= 4 && is_name(&ts[0], "user_settings") && is_punct(&ts[1], '=') && is_punct(
            &ts[2],
            '{',
        ) && is_punct(&ts[n - 1], '}') {
            assert(tv[0] == ts@[0]@ && tv[1] == ts@[1]@ && tv[2] == ts@[2]@ && tv.last()
                == ts@[n - 1]@);
            assert(tv.subrange(3, n - 1) =~= part(ts@, 3, n - 1));
            return match entries_in(ts, 3, n - 1) {
                Some(values) => UserSettings::Read(values),
                None => UserSettings::Unreadable,
            };
        }
        proof {
            if n >= 4 {
                assert(tv[0] == ts@[0]@ && tv[1] == ts@[1]@ && tv[2] == ts@[2]@ && tv.last()
                    == ts@[n - 1]@);
            }
        }
        i = i + 1;
    }
    assert(lv.skip(i as int) =~= Seq::<LogicalV>::empty());
    UserSettings::Unreadable
}

} // verus!
