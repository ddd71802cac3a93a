//! Where launchers are looked for: the container-home scan driven over a
//! directory tree held in memory, the Steam fallback, and the candidate
//! lists built from the values the environment would give.

use std::collections::BTreeSet;

use dxray::file_path::FilePath;
use dxray::heroic::{candidates_from, configured_candidates};
use dxray::inspect::{is_incomplete_error, ReadFailure};
use dxray::paths::{parse_container_homes, HomeEvent, HomeProbe, HomeScan};
use dxray::steam::library::{host_roots, steam_candidates, unix_home_roots, SteamRoots};

/// A machine whose only contents are these directories.
struct Tree(BTreeSet<String>);

impl Tree {
    fn new(dirs: &[&str]) -> Self {
        let mut all = BTreeSet::new();
        for dir in dirs {
            let mut at = String::new();
            for part in dir.trim_start_matches('/').split('/') {
                at.push('/');
                at.push_str(part);
                all.insert(at.clone());
            }
        }
        Tree(all)
    }

    fn children(&self, dir: &str) -> Option<Vec<FilePath>> {
        if !self.0.contains(dir) {
            return None;
        }
        let prefix = format!("{dir}/");
        Some(
            self.0
                .iter()
                .filter(|p| p.starts_with(&prefix) && !p[prefix.len()..].contains('/'))
                .map(|p| FilePath::parse(p))
                .collect(),
        )
    }
}

/// Runs the scan over `tree`, recording every probe it made.
fn scan(tree: &Tree, mounts: &[&str]) -> (Vec<String>, Vec<String>) {
    let mut scan = HomeScan::new(mounts.iter().map(|m| FilePath::parse(m)).collect());
    let mut probes = Vec::new();
    let mut event = None;
    loop {
        match scan.next(event) {
            HomeProbe::Done => break,
            HomeProbe::List(base) => {
                probes.push(format!("list {}", base.display()));
                event = Some(HomeEvent::Listed(tree.children(&base.display())));
            }
            HomeProbe::Check(candidate) => {
                let at = candidate.display();
                probes.push(format!("check {at}"));
                event = Some(HomeEvent::Checked {
                    is_dir: tree.0.contains(&at),
                    identity: at,
                });
            }
        }
    }
    let homes = scan.homes().iter().map(|h| h.display()).collect();
    (homes, probes)
}

#[test]
fn direct_distrobox_homes_are_found_without_a_recursive_walk() {
    let tree = Tree::new(&["/mnt/vol/data/distrobox/gaming/home", "/mnt/vol/data/distrobox/gaming/deep/er"]);
    let (found, probes) = scan(&tree, &["/mnt/vol"]);
    assert!(found.contains(&"/mnt/vol/data/distrobox/gaming".to_owned()));
    assert!(found.contains(&"/mnt/vol/data/distrobox/gaming/home".to_owned()));
    assert!(
        probes.iter().all(|p| !p.contains("deep")),
        "nothing below a home's own directories is read: {probes:?}"
    );
    assert_eq!(
        probes.iter().filter(|p| p.starts_with("list")).collect::<Vec<_>>(),
        ["list /mnt/vol/data/distrobox", "list /mnt/vol/distrobox"]
    );
}

#[test]
fn explicit_empty_container_home_list_disables_the_mount_fallback() {
    assert_eq!(parse_container_homes(Some(Vec::new())), Some(Vec::new()));
}

#[test]
fn an_unset_container_home_list_leaves_the_mounts_to_be_scanned() {
    assert_eq!(parse_container_homes(None), None);
}

#[test]
fn a_container_home_list_is_split_at_colons() {
    assert_eq!(
        parse_container_homes(Some(b"/a/home:/b::/c".to_vec())),
        Some(vec![b"/a/home".to_vec(), b"/b".to_vec(), Vec::new(), b"/c".to_vec()])
    );
}

#[test]
fn a_home_reached_twice_is_kept_once_and_files_are_not_homes() {
    let tree = Tree::new(&["/mnt/v/distrobox/box/root", "/mnt/v/data/distrobox"]);
    let (found, _) = scan(&tree, &["/mnt/v", "/mnt/v"]);
    assert_eq!(found, ["/mnt/v/distrobox/box", "/mnt/v/distrobox/box/root"]);
}

#[test]
fn the_candidate_list_is_not_empty_and_has_no_repeats() {
    let home = unix_home_roots(&FilePath::parse("/home/u"), None);
    let candidates: Vec<String> = steam_candidates(home, Vec::new()).iter().map(|c| c.display()).collect();
    assert!(!candidates.is_empty(), "somewhere has to be searched");
    let unique: BTreeSet<&String> = candidates.iter().collect();
    assert_eq!(unique.len(), candidates.len(), "got {candidates:?}");
}

#[test]
fn configured_steam_roots_come_after_the_conventional_ones() {
    let home = vec![FilePath::parse("/home/u/.steam/steam")];
    let extra = vec![FilePath::parse("/opt/steam")];
    let candidates: Vec<String> = steam_candidates(home, extra).iter().map(|c| c.display()).collect();
    assert_eq!(candidates, ["/home/u/.steam/steam", "/usr/local/games/Steam", "/opt/steam"]);
}

#[test]
fn the_host_steam_stays_authoritative_and_containers_are_only_a_fallback() {
    assert!(matches!(host_roots(Vec::new(), &Vec::new()), SteamRoots::ScanContainers));
    let present = vec![FilePath::parse("/home/u/.steam/steam"), FilePath::parse("/home/u/.steam/root")];
    let keys = vec!["/home/u/.local/share/Steam".to_owned(), "/home/u/.local/share/Steam".to_owned()];
    match host_roots(present, &keys) {
        SteamRoots::Found(found) => {
            assert_eq!(found.iter().map(|f| f.display()).collect::<Vec<_>>(), ["/home/u/.steam/steam"]);
        }
        SteamRoots::ScanContainers => panic!("a host root was found"),
    }
}

#[test]
fn heroic_always_looks_in_container_homes_after_the_host() {
    let configured = configured_candidates(
        Some(FilePath::parse("/home/u/.config")),
        Some(FilePath::parse("/home/u")),
        vec![FilePath::parse("/srv/heroic")],
    );
    let all: Vec<String> = candidates_from(configured, &vec![FilePath::parse("/mnt/v/data/distrobox/box")])
        .iter()
        .map(|c| c.display())
        .collect();
    assert_eq!(
        all,
        [
            "/home/u/.config/heroic",
            "/home/u/.config/heroic",
            "/home/u/.var/app/com.heroicgameslauncher.hgl/config/heroic",
            "/srv/heroic",
            "/mnt/v/data/distrobox/box/.config/heroic",
            "/mnt/v/data/distrobox/box/.var/app/com.heroicgameslauncher.hgl/config/heroic",
        ]
    );
}

#[test]
fn a_game_directory_that_is_not_there_does_not_make_a_scan_incomplete() {
    assert!(!is_incomplete_error(ReadFailure::NotFound));
    assert!(is_incomplete_error(ReadFailure::Other));
}
