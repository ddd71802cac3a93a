//! Steam's library index and app manifests, held in memory: each test says
//! which files a library holds and what they contain.

use dxray::file_path::FilePath;
use dxray::launcher::{Game, Identity, Resolver};
use dxray::steam::library::{
    dedup_paths, index_files, is_manifest_name, libraries_of, read_index, read_manifest,
    unix_home_roots, Index, Error, Note, Scan,
};
use dxray::steam::origin;

const ROOT: &str = "/games/steam";

/// Where a test install keeps its index.
fn index_path() -> FilePath {
    FilePath::parse(&format!("{ROOT}/steamapps/libraryfolders.vdf"))
}

/// The index of the test install, read from `contents`.
fn index(contents: &str) -> Result<Index, Error> {
    read_index(&index_path(), contents)
}

/// The libraries the test install reports: its root first, then what the
/// index declares, one entry per resolved directory. `resolved` gives the
/// directory each spelling resolves to, where that differs from its
/// spelling.
fn libraries(declared: Index, resolved: &[(&str, &str)]) -> Vec<FilePath> {
    let mut spellings = vec![ROOT.to_owned()];
    spellings.extend(declared.libraries);
    let keys: Vec<String> = spellings
        .iter()
        .map(|p| {
            resolved
                .iter()
                .find(|(from, _)| from == p)
                .map_or_else(|| p.clone(), |(_, to)| (*to).to_owned())
        })
        .collect();
    let paths = spellings.iter().map(|p| FilePath::parse(p)).collect();
    dedup_paths(paths, &keys)
}

/// A well-formed manifest, so that each test can break exactly one thing.
fn manifest(appid: u32, name: &str, installdir: &str) -> String {
    format!(
        "\"AppState\"\n{{\n\t\"appid\"\t\t\"{appid}\"\n\t\"name\"\t\t\"{name}\"\n\
         \t\"installdir\"\t\t\"{installdir}\"\n\t\"StateFlags\"\t\t\"4\"\n}}\n"
    )
}

fn manifest_with_appid(appid: &str) -> String {
    format!(
        "\"AppState\"\n{{\n\t\"appid\"\t\"{appid}\"\n\t\"name\"\t\"X\"\n\
         \t\"installdir\"\t\"X\"\n}}\n"
    )
}

fn manifest_with_download_type(
    appid: u32,
    name: &str,
    install_dir: &str,
    download_type: &str,
) -> String {
    format!(
        "\"AppState\"\n{{\n\t\"appid\"\t\"{appid}\"\n\t\"name\"\t\"{name}\"\n\
         \t\"installdir\"\t\"{install_dir}\"\n\t\"DownloadType\"\t\"{download_type}\"\n}}\n"
    )
}

/// The scan of the test install's library holding the manifests `files`
/// (appid and text), read in file-name order.
fn games(files: &[(u32, String)]) -> Scan {
    let library = FilePath::parse(ROOT);
    let mut named: Vec<(String, &String)> = files
        .iter()
        .map(|(appid, text)| (format!("appmanifest_{appid}.acf"), text))
        .collect();
    named.sort();
    let mut scan = Scan::new();
    for (name, text) in named {
        assert!(is_manifest_name(&name));
        let path = FilePath::parse(&format!("{ROOT}/steamapps/{name}"));
        scan.add(&path, Ok(text.clone()), &library);
    }
    scan.finish()
}

/// Scans one manifest and returns its only reported problem.
fn only_problem(appid: u32, text: &str) -> Error {
    let mut scan = games(&[(appid, text.to_owned())]);
    assert_eq!(scan.problems.len(), 1, "expected exactly one bad manifest, got {:?}", scan.problems);
    scan.problems.remove(0)
}

fn install_dir(name: &str) -> FilePath {
    FilePath::parse(&format!("{ROOT}/steamapps/common/{name}"))
}

#[test]
fn the_current_library_schema_maps_each_index_to_a_block_with_a_path() {
    let found = index(
        "\"libraryfolders\"\n{\n\
         \t\"0\"\n\t{\n\t\t\"path\"\t\t\"/home/u/.local/share/Steam\"\n\
         \t\t\"apps\"\n\t\t{\n\t\t\t\"570\"\t\t\"12345678\"\n\t\t}\n\t}\n\
         \t\"1\"\n\t{\n\t\t\"path\"\t\t\"/mnt/games/SteamLibrary\"\n\t}\n}\n",
    )
    .expect("a well-formed index parses");

    assert!(found.notes.is_empty(), "a healthy index needs no caveat");
    assert_eq!(
        libraries(found, &[]),
        [
            FilePath::parse(ROOT),
            FilePath::parse("/home/u/.local/share/Steam"),
            FilePath::parse("/mnt/games/SteamLibrary"),
        ],
        "the root leads, then the declared libraries in file order"
    );
}

#[test]
fn the_old_library_schema_maps_each_index_straight_to_a_path_string() {
    let found = index(
        "\"LibraryFolders\"\n{\n\
         \t\"TimeNextStatsReport\"\t\t\"1580000000\"\n\
         \t\"ContentStatsID\"\t\t\"-1234567890123456789\"\n\
         \t\"1\"\t\t\"/mnt/games/SteamLibrary\"\n\
         \t\"2\"\t\t\"D:\\\\SteamLibrary\"\n}\n",
    )
    .expect("the old schema parses");

    assert!(found.notes.is_empty(), "entries were declared, so no caveat");
    assert_eq!(
        found.libraries,
        ["/mnt/games/SteamLibrary".to_owned(), r"D:\SteamLibrary".to_owned()],
        "the non-numeric keys are not libraries, and the escaped path unescapes"
    );
}

#[test]
fn a_library_declared_on_a_drive_that_is_not_mounted_is_still_reported() {
    let found = index("\"libraryfolders\" { \"0\" { \"path\" \"/dxray-no-such-library\" } }")
        .expect("parses");
    assert!(
        found.libraries.contains(&"/dxray-no-such-library".to_owned()),
        "a declared library is reported as declared, got {found:?}"
    );

    let error = Error::Io {
        path: FilePath::parse("/dxray-no-such-library/steamapps"),
        source: "No such file or directory (os error 2)".to_owned(),
    };
    assert!(error.describe().contains("/dxray-no-such-library"), "naming the path, got {error:?}");
}

#[test]
fn a_root_that_is_also_listed_in_its_own_index_is_not_scanned_twice() {
    let found = index(&format!("\"libraryfolders\" {{ \"0\" {{ \"path\" \"{ROOT}\" }} }}"))
        .expect("parses");

    let listed = libraries(found, &[]);
    assert_eq!(listed.len(), 1, "one library, not two, got {listed:?}");
}

#[test]
fn a_library_reached_by_a_symlink_is_the_same_library_as_its_target() {
    let found = index("\"libraryfolders\" { \"0\" { \"path\" \"/games/real\" } }").expect("parses");

    let listed = libraries(found, &[(ROOT, "/games/real")]);
    assert_eq!(listed.len(), 1, "the link and its target are one library, got {listed:?}");
    assert_eq!(listed[0], FilePath::parse(ROOT), "the first spelling is the one kept");
}

#[test]
fn a_truncated_index_is_a_failure_and_not_a_machine_with_one_library() {
    let error = index("\"libraryfolders\"\n{\n\t\"0\"\n\t{\n\t\t\"path\"\t\"/mnt/g\"\n")
        .expect_err("truncation must not parse");

    assert!(matches!(error, Error::Vdf { .. }), "reported as a parse failure, got {error:?}");
    assert!(error.describe().contains("libraryfolders.vdf"), "naming the file, got {error:?}");
}

#[test]
fn an_index_file_that_exists_and_says_nothing_is_a_failure() {
    for contents in ["", "   \n\t\n", "// everything was lost\n"] {
        let error = index(contents)
            .expect_err(&format!("an index of {contents:?} must not read as success"));

        assert!(matches!(error, Error::NoLibraries { .. }), "got {error:?}");
    }
}

#[test]
fn an_index_block_with_no_entries_at_all_is_a_failure() {
    let error = index("\"libraryfolders\"\n{\n}\n").expect_err("an empty block is not one library");

    assert!(matches!(error, Error::NoLibraries { .. }), "got {error:?}");
}

#[test]
fn an_index_that_declares_no_entries_is_told_apart_from_one_that_declares_some() {
    let noted = index("\"libraryfolders\" { \"contentstatsid\" \"-123456789\" }")
        .expect("it parses; it is just thin");
    let clean = index(&format!("\"libraryfolders\" {{ \"0\" {{ \"path\" \"{ROOT}\" }} }}"))
        .expect("parses");

    assert_eq!(noted.notes.len(), 1, "an index that declared nothing must say so");
    assert!(matches!(noted.notes[0], Note::NoLibraryEntries { .. }), "got {:?}", noted.notes);
    assert!(clean.notes.is_empty(), "an index that declared an entry must NOT be noted, got {:?}", clean.notes);

    assert_eq!(libraries(noted, &[]), [FilePath::parse(ROOT)]);
}

#[test]
fn the_note_names_the_file_and_claims_nothing_about_which_case_it_is() {
    let note = Note::NoLibraryEntries {
        path: FilePath::parse("/s/steamapps/libraryfolders.vdf"),
    };
    let text = note.describe();

    assert!(text.contains("/s/steamapps/libraryfolders.vdf"), "{text}");
    assert!(
        text.contains("only the Steam root is being scanned"),
        "it must say what the consequence is, got {text}"
    );
    assert!(
        text.contains("normal") && text.contains("lost its entries"),
        "both readings must be offered, neither chosen, got {text}"
    );
}

#[test]
fn an_old_schema_index_with_only_stats_keys_is_a_healthy_one_library_machine() {
    let found = index(
        "\"LibraryFolders\"\n{\n\t\"TimeNextStatsReport\"\t\"1580000000\"\n\
         \t\"ContentStatsID\"\t\"-1\"\n}\n",
    )
    .expect("this is a normal file, not a failure");

    assert!(
        matches!(found.notes.as_slice(), [Note::NoLibraryEntries { .. }]),
        "the install keeps working and sees a caveat, got {:?}",
        found.notes
    );
    assert_eq!(libraries(found, &[]), [FilePath::parse(ROOT)], "the root library, and no error");
}

#[test]
fn a_repeated_index_key_costs_no_library() {
    let found = index(
        "\"libraryfolders\"\n{\n\
         \t\"1\"\t{ \"path\" \"/mnt/a\" }\n\
         \t\"1\"\t{ \"path\" \"/mnt/b\" }\n}\n",
    )
    .expect("parses");

    assert!(
        found.libraries.contains(&"/mnt/a".to_owned()) && found.libraries.contains(&"/mnt/b".to_owned()),
        "both entries must survive, got {found:?}"
    );
}

#[test]
fn a_numbered_library_entry_with_no_path_key_is_a_failure() {
    let error = index("\"libraryfolders\" { \"0\" { \"label\" \"games\" } }")
        .expect_err("a library needs a path");

    assert!(matches!(error, Error::MissingKey { key: "path", .. }), "got {error:?}");
}

#[test]
fn an_empty_library_path_is_rejected_rather_than_read_as_the_working_directory() {
    let error = index("\"libraryfolders\" { \"0\" { \"path\" \"\" } }").expect_err("an empty path");

    assert!(matches!(error, Error::BadValue { key: "path", .. }), "got {error:?}");
}

#[test]
fn manifests_become_games_with_their_install_directory_resolved() {
    let scan = games(&[
        (570, manifest(570, "Dota 2", "dota 2 beta")),
        (220, manifest(220, "Half-Life 2", "Half-Life 2")),
    ]);

    assert!(scan.problems.is_empty(), "nothing was wrong with either file");
    assert_eq!(
        scan.games,
        [
            Game {
                identity: Identity::SteamApp(220),
                name: "Half-Life 2".to_owned(),
                install_dir: install_dir("Half-Life 2"),
                origin: origin(),
            },
            Game {
                identity: Identity::SteamApp(570),
                name: "Dota 2".to_owned(),
                install_dir: install_dir("dota 2 beta"),
                origin: origin(),
            },
        ],
        "ordered by appid so two scans can be diffed against each other"
    );
}

#[test]
fn every_download_type_is_listed_because_the_field_does_not_mean_what_it_looks_like() {
    let scan = games(&[
        (10, manifest_with_download_type(10, "Game", "game", "3")),
        (20, manifest_with_download_type(20, "Tool", "tool", "1")),
        (30, manifest_with_download_type(30, "Shared", "shared", "0")),
        (40, manifest(40, "Legacy Game", "legacy")),
    ]);
    assert!(scan.problems.is_empty(), "{:?}", scan.problems);
    assert_eq!(
        scan.games.iter().map(|game| game.identity.clone()).collect::<Vec<_>>(),
        vec![
            Identity::SteamApp(10),
            Identity::SteamApp(20),
            Identity::SteamApp(30),
            Identity::SteamApp(40),
        ],
        "the tool, the shared content and the manifest with no DownloadType \
         at all are installed applications like any other"
    );
}

#[test]
fn a_manifest_missing_the_keys_a_game_needs_fails_and_names_the_file() {
    let error = only_problem(570, "\"AppState\"\n{\n\t\"appid\"\t\"570\"\n\t\"name\"\t\"Dota 2\"\n}\n");

    assert!(matches!(error, Error::MissingKey { key: "installdir", .. }), "got {error:?}");
    assert!(
        error.describe().contains("appmanifest_570.acf"),
        "naming the file, or a person searches several hundred of them: {error:?}"
    );
}

#[test]
fn a_manifest_with_an_empty_installdir_is_rejected_rather_than_joined() {
    let error = only_problem(570, &manifest(570, "Dota 2", ""));

    assert!(matches!(error, Error::BadValue { key: "installdir", .. }), "got {error:?}");
}

#[test]
fn an_installdir_that_climbs_out_of_the_library_is_rejected() {
    let scan = games(&[(1, manifest(1, "Up", "../../../etc")), (2, manifest(2, "Absolute", "/etc"))]);

    assert!(scan.games.is_empty(), "neither is a game, got {:?}", scan.games);
    assert_eq!(scan.problems.len(), 2, "both are reported, not just the first");
    assert!(
        scan.problems.iter().all(|p| matches!(p, Error::BadValue { key: "installdir", .. })),
        "got {:?}",
        scan.problems
    );
}

#[test]
fn one_corrupt_manifest_does_not_cost_the_user_every_other_game() {
    let scan = games(&[
        (570, manifest(570, "Dota 2", "dota 2 beta")),
        (220, manifest(220, "Half-Life 2", "Half-Life 2")),
        (999, "\"AppState\"\n{\n\t\"appid\"\t\"999\"\n\t\"name\"\t\"Trunc".to_owned()),
    ]);

    assert_eq!(
        scan.games.iter().map(|g| g.identity.clone()).collect::<Vec<_>>(),
        [Identity::SteamApp(220), Identity::SteamApp(570)],
        "the readable games survive"
    );
    assert_eq!(scan.problems.len(), 1, "and the broken one is still named");
    assert!(
        scan.problems[0].describe().contains("appmanifest_999.acf"),
        "got {}",
        scan.problems[0].describe()
    );
}

#[test]
fn a_manifest_whose_appid_is_not_a_number_fails_rather_than_becoming_zero() {
    let error = only_problem(570, &manifest_with_appid("not a number"));

    assert!(matches!(error, Error::BadValue { key: "appid", .. }), "got {error:?}");
    assert!(error.describe().ends_with("unusable \"appid\" value \"not a number\""), "{}", error.describe());
}

#[test]
fn an_appid_with_white_space_around_it_is_still_the_number() {
    let scan = games(&[(7, manifest_with_appid(" 7\t"))]);

    assert!(scan.problems.is_empty(), "{:?}", scan.problems);
    assert_eq!(scan.games[0].identity, Identity::SteamApp(7));
}

#[test]
fn a_long_rejected_value_is_quoted_only_in_part() {
    let long = "x".repeat(70);
    let error = only_problem(1, &manifest_with_appid(&long));

    let expected = format!("unusable \"appid\" value \"{}\"...", "x".repeat(60));
    assert!(error.describe().ends_with(&expected), "{}", error.describe());
}

#[test]
fn a_truncated_manifest_is_a_failure_and_not_a_library_with_no_games() {
    let error = only_problem(570, "\"AppState\"\n{\n\t\"appid\"\t\"570\"\n\t\"name\"\t\"Dot");

    assert!(matches!(error, Error::Vdf { .. }), "got {error:?}");
}

#[test]
fn a_manifest_that_cannot_be_read_is_a_problem_naming_it() {
    let library = FilePath::parse(ROOT);
    let path = FilePath::parse(&format!("{ROOT}/steamapps/appmanifest_5.acf"));
    let mut scan = Scan::new();
    scan.add(&path, Err("permission denied".to_owned()), &library);
    let scan = scan.finish();

    assert!(scan.games.is_empty());
    assert_eq!(
        scan.problems[0].describe(),
        format!("{ROOT}/steamapps/appmanifest_5.acf: permission denied")
    );
}

#[test]
fn files_in_steamapps_that_are_not_manifests_are_ignored() {
    assert!(is_manifest_name("appmanifest_570.acf"));
    assert!(is_manifest_name("AppManifest_570.ACF"), "matched without regard to case");
    assert!(!is_manifest_name("libraryfolders.vdf"));
    assert!(!is_manifest_name("common"));
    assert!(!is_manifest_name("downloading"));
    assert!(!is_manifest_name("appmanifest_570.acf.tmp"));
    assert!(!is_manifest_name("appmanifest_"));
}

#[test]
fn the_unix_candidates_are_built_under_the_home_that_was_given() {
    let found = unix_home_roots(&FilePath::parse("/home/u"), None);

    assert_eq!(
        found,
        [
            FilePath::parse("/home/u/.steam/steam"),
            FilePath::parse("/home/u/.steam/root"),
            FilePath::parse("/home/u/.local/share/Steam"),
            FilePath::parse("/home/u/.var/app/com.valvesoftware.Steam/.local/share/Steam"),
            FilePath::parse("/home/u/.var/app/com.valvesoftware.Steam/data/Steam"),
            FilePath::parse("/home/u/snap/steam/common/.local/share/Steam"),
        ]
    );

    let with_data = unix_home_roots(&FilePath::parse("/home/u"), Some(&FilePath::parse("/data")));
    assert_eq!(with_data.len(), 7);
    assert_eq!(with_data[6], FilePath::parse("/data/Steam"), "the data home comes last");
}

/// Resolves every path to itself.
struct AsWritten;

impl Resolver for AsWritten {
    fn identity(&self, path: &FilePath) -> String {
        path.display()
    }
}

const CURRENT_INDEX: &str = r#""libraryfolders"
{
    "0" { "path" "/games/steam" }
    "1" { "path" "/mnt/big/SteamLibrary" }
}"#;

fn displayed(paths: &[FilePath]) -> Vec<String> {
    paths.iter().map(|p| p.display()).collect()
}

#[test]
fn the_index_is_looked_for_in_steamapps_then_in_config() {
    let files = index_files(&FilePath::parse(ROOT));
    assert_eq!(
        displayed(&files),
        [
            "/games/steam/steamapps/libraryfolders.vdf",
            "/games/steam/config/libraryfolders.vdf"
        ]
    );
}

#[test]
fn the_root_comes_first_and_the_first_index_found_is_the_one_read() {
    let reads = vec![None, Some(Ok(CURRENT_INDEX.to_owned()))];
    let (paths, notes) =
        libraries_of(&FilePath::parse(ROOT), true, &reads, &AsWritten).expect("index reads");
    assert_eq!(displayed(&paths), ["/games/steam", "/mnt/big/SteamLibrary"]);
    assert!(notes.is_empty());

    let shadowed = vec![Some(Ok("\"libraryfolders\" { \"0\" \"/games/steam\" }".to_owned())), Some(Ok(CURRENT_INDEX.to_owned()))];
    let (paths, _) =
        libraries_of(&FilePath::parse(ROOT), false, &shadowed, &AsWritten).expect("index reads");
    assert_eq!(displayed(&paths), ["/games/steam"]);
}

#[test]
fn a_root_with_no_index_is_its_own_library_only_when_it_has_steamapps() {
    let (paths, notes) =
        libraries_of(&FilePath::parse(ROOT), true, &vec![None, None], &AsWritten).expect("no index");
    assert_eq!(displayed(&paths), ["/games/steam"]);
    assert!(notes.is_empty());
    let (paths, _) =
        libraries_of(&FilePath::parse(ROOT), false, &vec![None, None], &AsWritten).expect("no index");
    assert!(paths.is_empty());
}

#[test]
fn an_index_that_cannot_be_read_fails_naming_it() {
    let reads = vec![Some(Err("permission denied".to_owned())), None];
    match libraries_of(&FilePath::parse(ROOT), true, &reads, &AsWritten) {
        Err(Error::Io { path, source }) => {
            assert_eq!(path.display(), "/games/steam/steamapps/libraryfolders.vdf");
            assert_eq!(source, "permission denied");
        }
        other => panic!("expected an unreadable index, got {other:?}"),
    }
}
