//! Launch options as the environment they hand Proton.

use dxray::steam::launch::{environment, Launches};
use dxray::vdf::parse;

fn pairs(values: &[(&str, &str)]) -> Vec<(String, String)> {
    values
        .iter()
        .map(|(k, v)| ((*k).to_owned(), (*v).to_owned()))
        .collect()
}

#[test]
fn assignments_before_the_command_are_the_environment() {
    assert_eq!(
        environment("PROTON_FORCE_NVAPI=1 %command%"),
        Ok(pairs(&[("PROTON_FORCE_NVAPI", "1")]))
    );
    assert_eq!(
        environment(r#"WINEDLLOVERRIDES="dxgi=n,b" PROTON_LOG=1 %command% -dx12"#),
        Ok(pairs(&[
            ("WINEDLLOVERRIDES", "dxgi=n,b"),
            ("PROTON_LOG", "1")
        ]))
    );
    assert_eq!(
        environment("env PROTON_LOG=1 %command%"),
        Ok(pairs(&[("PROTON_LOG", "1")]))
    );
}

#[test]
fn an_assignment_after_a_wrapper_is_the_wrapper_argument() {
    assert_eq!(
        environment("DXVK_HUD=fps gamemoderun PROTON_LOG=1 %command%"),
        Ok(pairs(&[("DXVK_HUD", "fps")]))
    );
}

#[test]
fn without_the_command_placeholder_the_options_are_game_arguments() {
    assert_eq!(environment("PROTON_FORCE_NVAPI=1 -dx12"), Ok(Vec::new()));
    assert_eq!(environment(""), Ok(Vec::new()));
}

#[test]
fn shell_syntax_before_the_command_is_refused_and_after_it_ignored() {
    assert!(environment("PROTON_LOG=$HOME %command%").is_err());
    assert!(environment(r#"A="$(cat f)" %command%"#).is_err());
    assert!(environment("A=1 %command%'").is_err(), "an unclosed quote");
    assert_eq!(
        environment("PROTON_LOG=1 %command% > /tmp/log 2>&1"),
        Ok(pairs(&[("PROTON_LOG", "1")]))
    );
}

#[test]
fn a_word_that_only_looks_like_an_assignment_is_not_one() {
    assert_eq!(
        environment("1A=1 %command%"),
        Ok(Vec::new()),
        "not a variable name, so it is the command"
    );
}

fn localconfig(options: &str) -> String {
    format!(
        "\"UserLocalConfigStore\"\n{{\n\t\"Software\"\n\t{{\n\t\t\"Valve\"\n\t\t{{\n\
         \t\t\t\"Steam\"\n\t\t\t{{\n\t\t\t\t\"apps\"\n\t\t\t\t{{\n\
         \t\t\t\t\t\"1088850\"\n\t\t\t\t\t{{\n\t\t\t\t\t\t\"LastPlayed\"\t\t\"1758500000\"\n\
         \t\t\t\t\t\t\"LaunchOptions\"\t\t\"{options}\"\n\t\t\t\t\t}}\n\
         \t\t\t\t}}\n\t\t\t}}\n\t\t}}\n\t}}\n}}\n"
    )
}

/// One account per document, as the walk over `userdata` adds them.
fn accounts(documents: &[&str]) -> Launches {
    let mut launches = Launches::new();
    for text in documents {
        match parse(text) {
            Ok(value) => launches.add_account(&value),
            Err(error) => launches.add_problem(error.describe()),
        }
    }
    launches
}

#[test]
fn the_options_are_read_from_each_account_localconfig() {
    let found = accounts(&[&localconfig(
        r#"PROTON_FORCE_NVAPI=1 WINEDLLOVERRIDES=\"dxgi=n,b\" %command%"#,
    )]);

    assert_eq!(
        found.environment(1_088_850),
        Ok(pairs(&[
            ("PROTON_FORCE_NVAPI", "1"),
            ("WINEDLLOVERRIDES", "dxgi=n,b")
        ]))
    );
    assert_eq!(
        found.environment(570),
        Ok(Vec::new()),
        "no entry, no options"
    );
}

#[test]
fn no_userdata_means_no_launch_options() {
    assert_eq!(accounts(&[]).environment(570), Ok(Vec::new()));
}

#[test]
fn two_accounts_that_disagree_leave_the_options_unknown() {
    let found = accounts(&[
        &localconfig("PROTON_FORCE_NVAPI=1 %command%"),
        &localconfig(""),
    ]);

    assert!(found.environment(1_088_850).is_err());
}

#[test]
fn a_localconfig_that_does_not_parse_leaves_the_options_unknown() {
    let found = accounts(&["\"UserLocalConfigStore\" {"]);

    assert!(found.environment(1_088_850).is_err());
}

#[test]
fn an_app_key_that_is_not_a_number_is_not_an_app() {
    let text = localconfig("PROTON_LOG=1 %command%").replace("1088850", "+1088850x");
    assert_eq!(accounts(&[&text]).environment(1_088_850), Ok(Vec::new()));
    let signed = localconfig("PROTON_LOG=1 %command%").replace("\"1088850\"", "\"+1088850\"");
    assert_eq!(
        accounts(&[&signed]).environment(1_088_850),
        Ok(pairs(&[("PROTON_LOG", "1")])),
        "a leading plus is a number to str::parse"
    );
}

#[test]
fn escapes_inside_double_quotes_keep_what_the_shell_keeps() {
    assert_eq!(
        environment(r#"A="x\"y" B="p\q" %command%"#),
        Ok(pairs(&[("A", "x\"y"), ("B", "p\\q")]))
    );
    assert_eq!(
        environment("A='$HOME' %command%"),
        Ok(pairs(&[("A", "$HOME")])),
        "single quotes expand nothing"
    );
}
