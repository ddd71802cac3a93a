//! What the launcher model must keep: only Steam games can be asked a Proton
//! question.

use dxray::file_path::FilePath;
use dxray::heroic::{self, Store};
use dxray::launcher::{Game, Identity, Origin};
use dxray::proton::{compatdata, Answer};
use dxray::steam;

fn steam_game(appid: u32) -> Game {
    Game {
        identity: Identity::SteamApp(appid),
        name: "Dota 2".to_owned(),
        install_dir: FilePath::parse("/steam/steamapps/common/dota 2 beta"),
        origin: steam::origin(),
    }
}

fn heroic_game(id: &str) -> Game {
    Game {
        identity: Identity::Native(id.to_owned()),
        name: "Hades".to_owned(),
        install_dir: FilePath::parse("/games/Hades"),
        origin: Store::Gog.origin(),
    }
}

#[test]
fn a_steam_game_can_still_be_asked_for_a_proton_policy() {
    // The half of the capability that is easy to lose by accident: unify two
    // types by the fields they share and the appid is the field that goes.
    let game = steam_game(570);
    assert_eq!(
        game.identity.steam_appid(),
        Some(570),
        "the appid must survive the unification"
    );
    assert_eq!(
        compatdata(&FilePath::parse("/steam"), game.identity.steam_appid().unwrap()),
        FilePath::parse("/steam/steamapps/compatdata/570"),
        "the prefix path is reachable from the unified game and the library it was found in"
    );
    assert!(Answer::without_prefix(&game).is_none(), "its prefix is the one to read");
}

#[test]
fn a_heroic_game_is_told_the_proton_question_does_not_apply_rather_than_answered() {
    let answer = Answer::without_prefix(&heroic_game("hades-gog")).expect("a refusal");

    assert_eq!(
        answer.available, None,
        "a launcher with no Steam AppID must not colour a word either way"
    );
    assert!(
        answer.verdict.starts_with("not applicable:"),
        "the refusal must be worded as a refusal: {}",
        answer.verdict
    );
    assert!(
        answer.verdict.contains("Heroic / GOG"),
        "the sentence names the launcher it is refusing for: {}",
        answer.verdict
    );
    assert!(
        answer.script.is_none(),
        "there is no build behind a refusal"
    );
}

#[test]
fn a_heroic_id_cannot_become_a_steam_appid_even_when_it_is_all_digits() {
    // A numeric GOG id must never become a Steam appid.
    let game = heroic_game("1207658691");
    assert_eq!(
        game.identity.steam_appid(),
        None,
        "an all-digit launcher id is still not a Steam application id"
    );
    assert!(
        Answer::without_prefix(&game)
            .expect("a refusal")
            .verdict
            .starts_with("not applicable:"),
        "and asking anyway gets the refusal, not somebody else's policy"
    );
}

#[test]
fn zero_is_a_steam_appid_like_any_other_and_not_a_marker_for_absence() {
    assert_eq!(steam_game(0).identity.steam_appid(), Some(0));
    assert_eq!(heroic_game("0").identity.steam_appid(), None);
    assert_ne!(
        Identity::SteamApp(0),
        Identity::Native("0".to_owned()),
        "the two are different facts and must not compare equal"
    );
}

#[test]
fn every_heroic_backend_reports_one_launcher_key_and_its_own_label() {
    // Both the scanner that found a directory and the shop it came from.
    for store in [Store::Epic, Store::Gog, Store::Amazon] {
        assert_eq!(
            store.origin().key(),
            heroic::origin().key(),
            "{} must dedup as Heroic",
            store.name()
        );
    }
    assert_eq!(Store::Gog.origin().label(), "Heroic / GOG");
    assert_eq!(steam::origin().key(), "steam");
    assert_ne!(
        steam::origin().key(),
        heroic::origin().key(),
        "two launchers finding the same directory are two findings, not one"
    );
}

#[test]
fn an_origin_prints_its_label_and_an_identity_prints_what_the_launcher_calls_it() {
    assert_eq!(Origin::new("steam", "Steam").describe(), "Steam");
    assert_eq!(Identity::SteamApp(570).describe(), "570");
    assert_eq!(
        Identity::Native("hades-gog".to_owned()).describe(),
        "hades-gog",
        "printed verbatim"
    );
}
