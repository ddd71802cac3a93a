//! What Heroic hands Proton for one game, from its settings files held in
//! memory.

use dxray::file_path::FilePath;
use dxray::heroic::launch::{launch, Launch, NoLaunch};
use dxray::heroic::Store;

const APP: &str = "e0fa47ae79514345823bff209ae29451";
const ROOT: &str = "/home/u/.config/heroic";

fn pairs(values: &[(&str, &str)]) -> Vec<(String, String)> {
    values.iter().map(|(key, value)| ((*key).to_owned(), (*value).to_owned())).collect()
}

/// The game settings file whose settings are `game`, a JSON object body.
fn configured(game: &str) -> Option<Result<String, String>> {
    Some(Ok(format!(r#"{{"{APP}":{{{game}}},"version":"v0","explicit":false}}"#)))
}

fn text(t: &str) -> Option<Result<String, String>> {
    Some(Ok(t.to_owned()))
}

const PROTON: &str = r#""wineVersion":{"bin":"/opt/GE-Proton/proton","name":"GE-Proton","type":"proton"},"winePrefix":"/games/prefix""#;

#[test]
fn a_proton_game_hands_over_its_prefix_options_and_the_switch_heroic_sets() {
    let game = configured(&format!(
        r#"{PROTON},"autoInstallDxvkNvapi":false,"enviromentOptions":[{{"key":"PROTON_DISABLE_NVAPI","value":"0"}},{{"key":"WINEDLLOVERRIDES","value":"\"dxgi=n,b\""}}]"#
    ));
    let umu = text(&format!(r#"{{"legendary_{APP}":"umu-752590"}}"#));

    assert_eq!(
        launch(&FilePath::parse(ROOT), Store::Epic, APP, game, None, umu),
        Ok(Launch {
            prefix: FilePath::parse("/games/prefix"),
            environment: pairs(&[
                ("PROTON_DISABLE_NVAPI", "0"),
                ("WINEDLLOVERRIDES", "dxgi=n,b"),
                ("PROTON_DISABLE_NVAPI", "1"),
            ]),
            appid: Ok("752590".to_owned()),
        })
    );
}

#[test]
fn a_setting_the_game_leaves_out_comes_from_the_defaults() {
    let game = configured(r#""winePrefix":"/games/prefix""#);
    let defaults = text(
        r#"{"defaultSettings":{"wineVersion":{"bin":"/p/proton","name":"P","type":"proton"},"autoInstallDxvkNvapi":false,"disableUMU":true},"version":"v0"}"#,
    );

    let launch = launch(&FilePath::parse(ROOT), Store::Epic, APP, game, defaults, None).expect("a Proton launch");

    assert_eq!(launch.environment, pairs(&[("PROTON_DISABLE_NVAPI", "1")]));
    assert_eq!(launch.appid, Ok("0".to_owned()), "without umu Heroic passes 0");
}

#[test]
fn with_no_nvapi_setting_anywhere_heroic_enables_it() {
    let umu = text(&format!(r#"{{"legendary_{APP}":null}}"#));

    let launch = launch(&FilePath::parse(ROOT), Store::Epic, APP, configured(PROTON), None, umu)
        .expect("a Proton launch");

    assert_eq!(
        launch.environment,
        pairs(&[("PROTON_ENABLE_NVAPI", "1"), ("DXVK_NVAPI_ALLOW_OTHER_DRIVERS", "1")])
    );
    assert_eq!(launch.appid, Ok("0".to_owned()), "measured: with no umu id Heroic passes GAMEID=umu-0");
}

#[test]
fn a_game_heroic_never_looked_up_in_umu_has_no_known_appid() {
    let launch = launch(&FilePath::parse(ROOT), Store::Gog, APP, configured(PROTON), None, None)
        .expect("a Proton launch");

    assert!(launch.appid.is_err(), "{:?}", launch.appid);
}

#[test]
fn another_runner_is_not_proton_and_missing_settings_are_not_guessed() {
    let wine = configured(r#""wineVersion":{"bin":"/usr/bin/wine","name":"Wine","type":"wine"},"winePrefix":"/p""#);
    assert_eq!(
        launch(&FilePath::parse(ROOT), Store::Epic, APP, wine, None, None),
        Err(NoLaunch::NotProton("wine".to_owned()))
    );

    assert!(matches!(
        launch(&FilePath::parse("/tmp/dxray-heroic-bare"), Store::Epic, APP, None, None, None),
        Err(NoLaunch::Unknown(_))
    ));
}

#[test]
fn a_prefix_under_a_tilde_starts_at_the_home_the_configuration_sits_in() {
    let game = Some(Ok(format!(
        r#"{{"{APP}":{{"wineVersion":{{"bin":"/p/proton","name":"P","type":"proton"}},"winePrefix":"~/Games/Heroic/Prefixes/Game","disableUMU":true}}}}"#
    )));

    let launch = launch(&FilePath::parse("/home/u/.config/heroic"), Store::Epic, APP, game, None, None)
        .expect("a Proton launch");

    assert_eq!(launch.prefix, FilePath::parse("/home/u/Games/Heroic/Prefixes/Game"));
}

#[test]
fn a_settings_file_that_cannot_be_parsed_is_named_in_the_refusal() {
    let refused = launch(&FilePath::parse(ROOT), Store::Epic, APP, text("{"), None, None);

    match refused {
        Err(NoLaunch::Unknown(why)) => {
            assert!(why.starts_with(&format!("{ROOT}/GamesConfig/{APP}.json: ")), "{why}")
        }
        other => panic!("expected a refusal, got {other:?}"),
    }
}

#[test]
fn a_prefix_outside_any_known_home_is_refused_rather_than_guessed() {
    let game = configured(r#""wineVersion":{"type":"proton"},"winePrefix":"~/Prefixes/Game""#);

    assert_eq!(
        launch(&FilePath::parse("/opt/heroic"), Store::Epic, APP, game, None, None),
        Err(NoLaunch::Unknown("the prefix starts at a home this configuration does not name".to_owned()))
    );
}
