//! `config_info` fixtures in the shape Proton writes, and the answers a game's
//! NVAPI question comes to. The directories are held in memory: the roots a
//! prefix names are read out of its text, and which of them holds a `proton`
//! script is said by each test.

use dxray::file_path::FilePath;
use dxray::nvapi::environment::{user_settings, Environment, UserSettings};
use dxray::nvapi::scan;
use dxray::proton::{
    answer_from, compatdata, resolve_from, roots_named, settle, Answer, Error, SCRIPT,
};
use dxray::steam::launch::Launches;
use dxray::vdf::parse;

/// Proton 10.0: a deny-list, `forcenvapi` beside it, and a tuple that no
/// longer carries `lib64_dir`.
const PROTON_10: &str = r#"#!/usr/bin/env python3
import os

class CompatData:
    def setup_prefix(self):
            use_nvapi = 'disablenvapi' not in g_session.compat_config or 'forcenvapi' in g_session.compat_config
            prefix_info = '\n'.join((
                CURRENT_PREFIX_VERSION,
                g_proton.fonts_dir,
                g_proton.lib_dir,
                steamdir,
                getmtimestr(steamdir, 'legacycompat', 'steamclient.dll'),
                getmtimestr(steamdir, 'legacycompat', 'steamclient64.dll'),
                getmtimestr(steamdir, 'legacycompat', 'Steam.dll'),
                g_proton.default_pfx_dir,
                getmtimestr(g_proton.default_pfx_dir, 'system.reg'),
                str(use_wined3d),
                str(use_dxvk_dxgi),
                builtin_dll_copy,
                str(use_nvapi),
            ))

def default_compat_config():
    ret = set()
    if "SteamAppId" in os.environ:
        appid = os.environ["SteamAppId"]
        if appid in [
                "1088850", #Marvel's Guardians of the Galaxy
                ]:
            ret.add("disablenvapi")

        if appid in [
                "2395210", #Tony Hawk's Pro Skater 1 + 2
                ]:
            ret.add("forcenvapi")
    return ret

class Session:
    def init_session(self):
        self.check_environment("PROTON_USE_WINED3D", "wined3d")
        self.check_environment("PROTON_DISABLE_NVAPI", "disablenvapi")
        self.check_environment("PROTON_FORCE_NVAPI", "forcenvapi")
"#;

fn path(text: &str) -> FilePath {
    FilePath::parse(text)
}

/// A `config_info` of the shape Proton writes, naming `root` as the build.
fn config_info(root: &str, dist: &str) -> String {
    format!(
        "4.11\n{root}/{dist}/share/fonts/\n{root}/{dist}/lib/\n{root}/{dist}/lib64/\n\
         /home/u/.steam/steam\n2024-01-01 00:00:00\n{root}/{dist}/share/default_pfx/\n\
         False\nTrue\nTrue\n",
    )
}

/// The prefix of the game `appid` in `library`, and where its `config_info`
/// sits.
fn prefix_file(library: &str, appid: u32) -> FilePath {
    compatdata(&path(library), appid).with_name("config_info")
}

/// What the prefix's text names, settled with `installed` as the roots that
/// hold a `proton` script.
fn for_game(config_info: &str, installed: &[&str]) -> Result<FilePath, Error> {
    let named = roots_named(config_info);
    let found: Vec<FilePath> = named
        .iter()
        .filter(|root| installed.iter().any(|dir| path(dir) == **root))
        .cloned()
        .collect();
    settle(prefix_file("/library", 570), named, found)
}

#[test]
fn the_build_a_prefix_last_ran_under_is_read_out_of_its_config_info() {
    // `config_info` names the build that ran the game.
    let root = "/library/steamapps/common/Proton 9.0";
    let script = for_game(&config_info(root, "files"), &[root])
        .expect("the build is named and present");

    assert_eq!(script, path(root).with_name(SCRIPT));
}

#[test]
fn the_older_dist_spelling_resolves_just_as_the_current_files_one_does() {
    // Proton 8.0 and older unpack into `dist/`; 9.0 renamed it `files/`.
    let root = "/library/steamapps/common/Proton 8.0";
    let script = for_game(&config_info(root, "dist"), &[root])
        .expect("the old spelling still resolves");

    assert_eq!(script, path(root).with_name(SCRIPT));
}

#[test]
fn a_game_that_has_never_run_under_proton_is_not_reported_as_a_failure() {
    // A prefix never launched is its own state, not an error.
    let error = Error::NoPrefix { path: compatdata(&path("/library"), 570) };

    assert!(error.is_absent(), "got {}", error.describe());
    assert!(
        error.describe().contains("has not been run under Proton"),
        "and the message says so rather than blaming the file, got {}",
        error.describe()
    );
}

#[test]
fn a_build_that_has_been_uninstalled_says_so_instead_of_shrugging() {
    // A deleted build is named, not reported as a parse failure.
    let error = for_game(
        &config_info("/steam/steamapps/common/Proton 7.0", "dist"),
        &[],
    )
    .expect_err("the build is gone");

    assert!(!error.is_absent(), "this one is a real failure");
    assert!(matches!(error, Error::ProtonGone { .. }), "got {error:?}");
    assert!(error.describe().contains("Proton 7.0"), "got {}", error.describe());
}

#[test]
fn a_config_info_that_names_no_proton_at_all_is_told_apart_from_one_that_names_a_missing_build() {
    // Different faults with different fixes.
    let error = for_game("4.11\n/home/u/.steam/steam\nTrue\nFalse\n", &[])
        .expect_err("nothing named");

    assert!(
        matches!(error, Error::NoProtonNamed { .. }),
        "got {error:?}"
    );
    assert!(
        error.describe().contains("cannot be identified"),
        "got {}",
        error.describe()
    );
}

#[test]
fn a_prefix_that_names_two_different_protons_is_refused_rather_than_resolved() {
    // Two builds in one prefix is refused.
    let nine = "/library/steamapps/common/Proton 9.0";
    let ten = "/library/steamapps/common/Proton 10.0";
    let error = for_game(
        &format!("4.11\n{nine}/files/lib/\n{ten}/files/lib/\n"),
        &[nine, ten],
    )
    .expect_err("two builds");

    assert!(matches!(error, Error::Ambiguous { .. }), "got {error:?}");
    assert!(
        error.describe().contains("names more than one Proton"),
        "got {}",
        error.describe()
    );
}

#[test]
fn one_build_named_by_several_lines_is_still_one_build() {
    // The same root repeated is one build.
    let root = "/library/steamapps/common/Proton 9.0";
    let text = config_info(root, "files");

    assert_eq!(roots_named(&text), vec![path(root)]);
    assert!(for_game(&text, &[root]).is_ok());
}

#[test]
fn a_line_that_could_be_cut_in_two_places_is_settled_by_looking_for_the_script() {
    // Of two candidate roots, the one holding `proton` wins.
    let root = "/library/steamapps/common/files/Proton 9.0";
    let text = config_info(root, "files");

    assert_eq!(
        roots_named(&text),
        vec![path("/library/steamapps/common"), path(root)],
        "both cuts are candidates"
    );
    let script = for_game(&text, &[root]).expect("the cut with the script wins");

    assert_eq!(script, path(root).with_name(SCRIPT));
}

#[test]
fn a_directory_and_the_script_inside_it_are_both_accepted_as_a_proton() {
    // A build directory or its script both resolve.
    let root = path("/library/steamapps/common/Proton 9.0");
    let script = root.with_name(SCRIPT);

    assert_eq!(resolve_from(root.clone(), true, true).expect("a root"), script);
    assert_eq!(resolve_from(script.clone(), false, false).expect("a script"), script);
}

#[test]
fn a_directory_with_no_launcher_in_it_is_not_a_proton_install() {
    // A folder with no `proton` is refused.
    let error = resolve_from(path("/tmp/proton-empty"), true, false).expect_err("not a Proton");

    assert!(
        error.describe().contains("not a Proton install"),
        "got {}",
        error.describe()
    );
}

#[test]
fn the_prefix_path_is_built_where_steam_puts_it() {
    // Written down in one place and asserted, because every other test in this
    // file depends on it.
    let built = compatdata(&path("/lib"), 570);

    assert_eq!(built, path("/lib/steamapps/compatdata/570"));
}

#[test]
fn a_prefix_directory_with_no_config_info_in_it_reports_the_file_it_wanted() {
    // A half-built prefix names the file that is missing.
    let error = Error::NoPrefix { path: prefix_file("/library", 570) };

    assert!(error.is_absent(), "still not a failure, got {}", error.describe());
    assert!(error.describe().starts_with("/library/steamapps/compatdata/570/config_info"));
    assert_eq!(error.path(), &prefix_file("/library", 570));
}

/// The answer for a game whose prefix is not there.
fn never_run() -> Answer {
    let error = Error::NoPrefix { path: compatdata(&path("/definitely/not/here"), 440) };
    Answer::undetermined(&error.describe())
}

#[test]
fn a_game_with_no_prefix_is_a_sentence_rather_than_an_error() {
    // A game never launched under Proton is not an error.
    let answer = never_run();

    assert!(
        answer.verdict.starts_with("not determined"),
        "expected a sentence, got {:?}",
        answer.verdict
    );
    assert!(
        answer.available.is_none(),
        "nothing was read, so nothing may be claimed either way"
    );
    assert!(
        answer.script.is_none(),
        "naming a script that was never found would send a reader to a file that is not there"
    );
}

#[test]
fn one_cache_serves_both_the_listing_and_the_detail_pane() {
    // One answer for both binaries; only rendering differs.
    let answer = never_run();

    assert!(
        answer.condition.is_empty(),
        "an answer that read nothing states no condition"
    );
}

const GOTG: u32 = 1_088_850;

/// A 10.0-shaped build, the game's launch options, and the prefix its last
/// launch left.
struct Launched {
    options: String,
    config_info: String,
    settings: UserSettings,
}

impl Launched {
    fn new(options: &str, recorded: &str) -> Self {
        let root = "/fixture/steamapps/common/Proton 10.0";
        let config_info = [
            "10.0-200".to_owned(),
            format!("{root}/files/share/fonts/"),
            format!("{root}/files/lib/"),
            "/home/u/.steam/steam".to_owned(),
            String::new(),
            String::new(),
            String::new(),
            format!("{root}/files/share/default_pfx/"),
            String::new(),
            "False".to_owned(),
            "True".to_owned(),
            "d3dcompiler_*.dll".to_owned(),
            recorded.to_owned(),
            "False".to_owned(),
        ]
        .join("\n");
        Self {
            options: options.to_owned(),
            config_info,
            settings: UserSettings::Absent,
        }
    }

    fn settings(mut self, text: &str) -> Self {
        self.settings = user_settings(text);
        self
    }

    /// The answer, with the launch options of a Steam root or without one.
    fn answer_with(&self, steam_root: bool) -> Answer {
        let root = "/fixture/steamapps/common/Proton 10.0";
        let named = roots_named(&self.config_info);
        let script = settle(prefix_file("/fixture", GOTG), named.clone(), vec![path(root)])
            .expect("the build is there");
        let reading = scan(PROTON_10).expect("the fixture is a script this reader handles");
        let launch = if steam_root {
            let localconfig = format!(
                "\"UserLocalConfigStore\" {{ \"Software\" {{ \"Valve\" {{ \"Steam\" {{ \"apps\" {{ \
                 \"{GOTG}\" {{ \"LaunchOptions\" \"{}\" }} }} }} }} }} }}",
                self.options
            );
            let mut launches = Launches::new();
            match parse(&localconfig) {
                Ok(value) => launches.add_account(&value),
                Err(error) => launches.add_problem(error.describe()),
            }
            launches.environment(GOTG)
        } else {
            Ok(Vec::new())
        };
        let environment = Environment::new(launch, &self.settings);
        answer_from(script, &reading, &environment, GOTG, Some(&self.config_info), true)
    }

    fn answer(&self) -> Answer {
        self.answer_with(true)
    }
}

#[test]
fn a_launch_option_that_forces_nvapi_is_the_answer_and_the_last_launch_confirms_it() {
    let answer = Launched::new("PROTON_FORCE_NVAPI=1 %command%", "True").answer();

    assert_eq!(answer.available, Some(true), "{}", answer.verdict);
    for part in [
        "PROTON_FORCE_NVAPI=1 in launch options adds forcenvapi",
        "the script alone says: NVAPI is withheld",
        "the last launch recorded use_nvapi=True",
    ] {
        assert!(
            answer.verdict.contains(part),
            "{part:?} in {}",
            answer.verdict
        );
    }
    assert!(!answer.verdict.contains("disagrees"), "{}", answer.verdict);
}

#[test]
fn with_no_launch_option_the_default_stands_and_the_record_agrees() {
    let answer = Launched::new("", "False").answer();

    assert_eq!(answer.available, Some(false), "{}", answer.verdict);
    assert!(
        answer.verdict.starts_with("NVAPI is withheld")
            && answer.verdict.contains("recorded use_nvapi=False"),
        "{}",
        answer.verdict
    );
}

#[test]
fn a_record_that_contradicts_the_prediction_leaves_the_answer_unsettled() {
    // A launch the options no longer describe, or a variable set somewhere
    // this reader does not look.
    let answer = Launched::new("", "True").answer();

    assert_eq!(answer.available, None, "{}", answer.verdict);
    assert!(answer.verdict.contains("disagrees"), "{}", answer.verdict);
}

#[test]
fn user_settings_beside_the_build_are_read_as_a_source() {
    let launched = Launched::new("", "True")
        .settings("user_settings = {\n    \"PROTON_FORCE_NVAPI\": \"1\",\n}\n");

    let answer = launched.answer();

    assert_eq!(answer.available, Some(true), "{}", answer.verdict);
    assert!(
        answer
            .verdict
            .contains("in user_settings.py adds forcenvapi"),
        "{}",
        answer.verdict
    );
}

#[test]
fn without_a_steam_root_there_are_no_launch_options_to_apply() {
    let launched = Launched::new("PROTON_FORCE_NVAPI=1 %command%", "False");

    let answer = launched.answer_with(false);

    assert_eq!(answer.available, Some(false), "{}", answer.verdict);
}
