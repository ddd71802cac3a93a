//! Heroic's cache files as they are written, held in memory: which of the
//! install directories they name are there is said by each test.

use dxray::file_path::FilePath;
use dxray::heroic::json::{parse, MAX_DEPTH};
use dxray::heroic::{cache_files, install_candidates, scan_documents, Document, Error, Scan, Store};

const ROOT: &str = "/config/heroic";

/// The scan of a configuration holding `files` (relative path and text),
/// where the directories in `dirs` exist.
fn games(files: &[(&str, &str)], dirs: &[&str]) -> Scan {
    let docs: Vec<Document> = cache_files()
        .into_iter()
        .map(|(relative, store, cache)| Document {
            path: FilePath::parse(&format!("{ROOT}/{relative}")),
            store,
            cache,
            text: files
                .iter()
                .find(|(name, _)| *name == relative)
                .map(|(_, text)| Ok((*text).to_owned())),
        })
        .collect();
    let existing: Vec<FilePath> = install_candidates(&docs)
        .into_iter()
        .filter(|path| dirs.iter().any(|dir| FilePath::parse(dir) == *path))
        .collect();
    scan_documents(&docs, &existing)
}

#[test]
fn scans_the_current_legendary_cache_shape_and_ignores_bookkeeping() {
    let install = "/games/star-rail";
    let text = format!(
        r#"{{"game-id":{{"game":{{"title":"Honkai: Star Rail"}},"install":{{"install_path":"{install}"}}}},"__timestamp":{{"game-id":1}}}}"#
    );
    let scan = games(&[("store_cache/legendary_install_info.json", &text)], &[install]);
    assert!(scan.problems.is_empty(), "{:?}", scan.problems);
    assert_eq!(scan.games.len(), 1);
    assert_eq!(scan.games[0].name, "Honkai: Star Rail");
    assert_eq!(scan.games[0].origin, Store::Epic.origin());
    assert_eq!(scan.games[0].install_dir, FilePath::parse(install));
}

#[test]
fn a_stale_record_for_a_game_another_cache_supplied_is_a_note_not_a_problem() {
    // A stale record moved the exit code while the game itself was found from
    // another cache.
    let install = "/games/fortnite";
    let map = format!(
        r#"{{"Fortnite":{{"game":{{"title":"Fortnite"}},"install":{{"install_path":"{install}"}}}}}}"#
    );
    let scan = games(
        &[
            ("store_cache/legendary_install_info.json", &map),
            (
                "store_cache/legendary_library.json",
                r#"{"library":[{"app_name":"Fortnite","title":"Fortnite","is_installed":true}]}"#,
            ),
        ],
        &[install],
    );

    assert_eq!(scan.games.len(), 1, "the game is found: {:?}", scan.games);
    assert!(
        scan.problems.is_empty(),
        "nothing was lost, so nothing moves the exit code, got {:?}",
        scan.problems
    );
    let note = scan.notes.first().expect("the record is still reported");
    assert!(
        note.contains("has no install_path") && note.contains("another source"),
        "and the note says both halves: {note:?}"
    );
}

#[test]
fn legendary_own_install_list_supplies_a_game_the_cache_lost() {
    let install = "/games/rocketleague";
    let installed = format!(
        r#"{{"Sugar":{{"app_name":"Sugar","install_path":"{0}","is_dlc":false,"platform":"Windows","title":"Rocket League®","version":"1"}},"SugarPack":{{"app_name":"SugarPack","install_path":"{0}","is_dlc":true,"title":"A DLC","version":"1"}}}}"#,
        install
    );
    let scan = games(
        &[
            (
                "store_cache/legendary_install_info.json",
                r#"{"Sugar":{"game":{"title":"Rocket League®"},"install":null}}"#,
            ),
            ("legendaryConfig/legendary/installed.json", &installed),
        ],
        &[install],
    );

    assert!(scan.problems.is_empty(), "{:?}", scan.problems);
    assert_eq!(scan.games.len(), 1, "a DLC is not a game: {:?}", scan.games);
    assert_eq!(scan.games[0].name, "Rocket League®");
    assert_eq!(scan.games[0].origin, Store::Epic.origin());
    assert_eq!(scan.games[0].install_dir, FilePath::parse(install));
    assert!(
        scan.notes.iter().any(|note| note.contains("another source")),
        "the cache record is still reported, got {:?}",
        scan.notes
    );
}

#[test]
fn a_different_record_that_merely_shares_a_title_does_not_excuse_a_lost_game() {
    let install = "/games/epic-hades";
    let map = format!(
        r#"{{"Hades":{{"game":{{"title":"Hades"}},"install":{{"install_path":"{install}"}}}}}}"#
    );
    let scan = games(
        &[
            ("store_cache/legendary_install_info.json", &map),
            (
                "store_cache/gog_library.json",
                r#"{"library":[{"app_name":"1207658691","title":"Hades","is_installed":true}]}"#,
            ),
        ],
        &[install],
    );

    assert_eq!(scan.games.len(), 1, "only one of them resolved");
    assert!(
        scan.notes.is_empty(),
        "a namesake is not the same record, got {:?}",
        scan.notes
    );
    assert!(
        scan.problems.iter().any(
            |problem| matches!(problem, Error::NoInstallPath { id, .. } if id == "1207658691")
        ),
        "the GOG record still costs the exit code it earned, got {:?}",
        scan.problems
    );
}

#[test]
fn a_record_with_no_install_path_for_a_game_nothing_else_supplied_stays_a_problem() {
    let scan = games(
        &[(
            "store_cache/legendary_library.json",
            r#"{"library":[{"app_name":"Fortnite","title":"Fortnite","is_installed":true}]}"#,
        )],
        &[],
    );

    assert!(scan.games.is_empty());
    assert!(scan.notes.is_empty(), "got {:?}", scan.notes);
    assert!(
        scan.problems
            .iter()
            .any(|problem| matches!(problem, Error::NoInstallPath { .. })),
        "got {:?}",
        scan.problems
    );
}

#[test]
fn nesting_is_accepted_up_to_the_limit_and_refused_one_level_past_it() {
    // Tests the bound, not the overflow. The value is pinned as a literal too,
    // since the fixture is built from it.
    assert_eq!(MAX_DEPTH, 64);

    let brackets = |levels: usize| format!("{}{}", "[".repeat(levels), "]".repeat(levels));

    assert!(
        parse(&brackets(MAX_DEPTH)).is_ok(),
        "a document nested exactly {MAX_DEPTH} deep is within the bound"
    );
    let error = parse(&brackets(MAX_DEPTH + 1)).expect_err("one level past it is refused");
    assert!(
        error.contains(&format!("nested past {MAX_DEPTH} levels")),
        "and it has to say why, got {error:?}"
    );

    let braces = |levels: usize| {
        let mut text = String::new();
        for _ in 0..levels {
            text.push_str("{\"k\":");
        }
        text.push('1');
        for _ in 0..levels {
            text.push('}');
        }
        text
    };
    assert!(
        parse(&braces(MAX_DEPTH)).is_ok(),
        "objects are bounded on the same counter as arrays"
    );
    assert!(parse(&braces(MAX_DEPTH + 1)).is_err(), "and refused on it too");
}

#[test]
fn a_pathologically_nested_cache_file_is_a_reported_problem_not_a_dead_scan() {
    let deep = "[".repeat(MAX_DEPTH * 4);
    let scan = games(&[("store_cache/legendary_library.json", &deep)], &[]);

    assert!(scan.games.is_empty());
    assert!(
        scan.problems
            .iter()
            .any(|problem| matches!(problem, Error::Json { .. })),
        "the file has to come back as a parse failure, got {:?}",
        scan.problems
    );
}

#[test]
fn missing_or_relative_installs_are_reported_not_invented() {
    let scan = games(
        &[(
            "store_cache/gog_install_info.json",
            r#"{"gone":{"game":{"title":"Gone"},"install":{"install_path":"/dxray-no-game"}},"relative":{"game":{"title":"Relative"},"install":{"install_path":"games/relative"}}}"#,
        )],
        &[],
    );
    assert!(scan.games.is_empty());
    assert_eq!(scan.problems.len(), 2, "{:?}", scan.problems);
}

#[test]
fn empty_backend_caches_are_not_reported_as_bad_records() {
    let scan = games(
        &[
            ("store_cache/legendary_library.json", "{}"),
            ("store_cache/gog_library.json", "{}"),
        ],
        &[],
    );
    assert!(scan.games.is_empty());
    assert!(scan.problems.is_empty(), "{:?}", scan.problems);
}

#[test]
fn preserves_utf8_titles_and_json_escapes() {
    let install = "/games/pokemon";
    let text = format!(
        r#"{{"id":{{"game":{{"title":"Pokémon \u0026 Friends"}},"install":{{"install_path":"{install}"}}}}}}"#
    );
    let scan = games(&[("store_cache/nile_install_info.json", &text)], &[install]);
    assert!(scan.problems.is_empty(), "{:?}", scan.problems);
    assert_eq!(scan.games[0].name, "Pokémon & Friends");
}

#[test]
fn scans_an_installed_library_record_when_install_info_is_absent() {
    let install = "/games/library-game";
    let text = format!(
        r#"{{"library":[{{"app_name":"library-id","title":"Library Game","is_installed":true,"install":{{"install_path":"{0}"}}}},{{"app_name":"owned-only","title":"Owned only","is_installed":false,"install":{{"install_path":"{0}"}}}}]}}"#,
        install
    );
    let scan = games(&[("store_cache/legendary_library.json", &text)], &[install]);
    assert!(scan.problems.is_empty(), "{:?}", scan.problems);
    assert_eq!(scan.games.len(), 1);
    assert_eq!(scan.games[0].identity.describe(), "library-id");
    assert_eq!(scan.games[0].origin, Store::Epic.origin());
}

#[test]
fn games_array_and_surrogate_pairs_are_supported() {
    let install = "/games/rocket";
    let text = format!(
        r#"{{"games":[{{"app_name":"rocket","title":"Rocket \uD83D\uDE80","is_installed":true,"install":{{"install_path":"{install}"}}}}]}}"#
    );
    let scan = games(&[("store_cache/gog_library.json", &text)], &[install]);
    assert!(scan.problems.is_empty(), "{:?}", scan.problems);
    assert_eq!(scan.games[0].name, "Rocket 🚀");
    assert_eq!(scan.games[0].origin, Store::Gog.origin());
}

#[test]
fn json_errors_name_what_went_wrong() {
    assert_eq!(parse("[1, 2").err(), Some("expected ','".to_owned()));
    assert_eq!(parse("{\"a\" 1}").err(), Some("expected ':'".to_owned()));
    assert_eq!(parse("\"\\x\"").err(), Some("bad escape 120".to_owned()));
    assert_eq!(parse("\"\\ud800\"").err(), Some("unpaired high surrogate".to_owned()));
    assert_eq!(parse("\"\\udc00\"").err(), Some("invalid unicode scalar".to_owned()));
    assert_eq!(parse("\"\\u12").err(), Some("short unicode escape".to_owned()));
    assert_eq!(parse("\"\\u+041\"").ok().and_then(|v| v.text().map(str::to_owned)), Some("A".to_owned()));
    assert_eq!(parse("[] x").err(), Some("trailing data".to_owned()));
    assert_eq!(parse("tru").err(), Some("invalid literal".to_owned()));
}
