//! Whole install layouts, held in memory and ranked end to end by driving
//! the walk the way a caller that reads the disk does. The assertions are
//! about order.

use std::collections::{BTreeMap, BTreeSet};

use dxray::analysis::{analyse, Evidence, Verdict};
use dxray::evidence::{image_names, Library, LibraryCache};
use dxray::file_path::FilePath;
use dxray::game::{Candidate, Note, Reason, Survey};
use dxray::install::{
    directory_verdict, executables, observe, Listing, Walk, MAX_DEPTH, MAX_EXECUTABLES,
    MAX_LOCAL_LIBRARIES,
};

/// An install directory: its files with their bytes, and its directories.
/// A directory in `closed` cannot be listed.
struct Tree {
    root: String,
    files: BTreeMap<String, Vec<u8>>,
    dirs: BTreeSet<String>,
    closed: BTreeSet<String>,
}

impl Tree {
    fn new(tag: &str) -> Self {
        let root = format!("/tmp/dxray-core-{tag}-4242-0");
        let mut dirs = BTreeSet::new();
        dirs.insert(root.clone());
        Self { root, files: BTreeMap::new(), dirs, closed: BTreeSet::new() }
    }

    fn add_parents(&mut self, rel: &str) {
        let mut at = self.root.clone();
        let parts: Vec<&str> = rel.split('/').collect();
        for part in &parts[..parts.len() - 1] {
            at = format!("{at}/{part}");
            self.dirs.insert(at.clone());
        }
    }

    fn image(&mut self, rel: &str, imports: &[&str], delayed: &[&str]) {
        self.add_parents(rel);
        self.files.insert(format!("{}/{rel}", self.root), image(imports, delayed, None));
    }

    fn write(&mut self, rel: &str, contents: &str) {
        self.add_parents(rel);
        self.files.insert(format!("{}/{rel}", self.root), contents.as_bytes().to_vec());
    }

    fn dir(&mut self, rel: &str) {
        self.add_parents(&format!("{rel}/x"));
    }

    /// The names directly in `dir`, split by kind and sorted; `None` when it
    /// cannot be listed.
    fn listing(&self, dir: &str) -> Option<Listing> {
        if !self.dirs.contains(dir) || self.closed.contains(dir) {
            return None;
        }
        let prefix = format!("{dir}/");
        let direct = |p: &&String| p.starts_with(&prefix) && !p[prefix.len()..].contains('/');
        let files = self.files.keys().filter(direct).map(|p| p[prefix.len()..].to_owned()).collect();
        let directories = self.dirs.iter().filter(direct).map(|p| p[prefix.len()..].to_owned()).collect();
        Some(Listing { path: FilePath::parse(dir), files, directories })
    }
}

/// Reads every executable in one directory and ranks it.
fn rank(walk: &mut Walk, tree: &Tree, root: &FilePath, listing: &Listing, game_name: Option<&str>, directory_name: Option<&str>) {
    let names = executables(listing);
    if names.is_empty() {
        return;
    }
    let directory = directory_verdict(listing);
    let mut links = LibraryCache::new();
    for name in names {
        if !walk.room_for_one() {
            return;
        }
        let at = format!("{}/{name}", listing.path.display());
        let path = FilePath::parse(&at);
        match image_names(&tree.files[&at]) {
            Ok((imports, delay_imports)) => {
                links.enter(&listing.path);
                let plan = links.follow_plan(&imports, &delay_imports, &listing.files);
                for (key, file) in &plan {
                    if let Some(file) = file {
                        let bytes = &tree.files[&format!("{}/{file}", listing.path.display())];
                        links.remember(key.clone(), Library::from_bytes(bytes, file));
                    }
                }
                let linked = links.linked(&plan, &imports, &delay_imports);
                let own = analyse(&Evidence { imports, delay_imports, neighbours: Vec::new(), linked });
                let observed = observe(root, &path, listing, own, directory.clone());
                walk.record(&observed, None, game_name, directory_name);
            }
            Err(error) => {
                let observed = observe(root, &path, listing, Verdict::default(), directory.clone());
                walk.record(&observed, Some(error.describe()), game_name, directory_name);
            }
        }
    }
}

/// Every executable under the tree's root, ranked best-first.
fn candidates(tree: &Tree, game_name: Option<&str>) -> Survey {
    let root = FilePath::parse(&tree.root);
    let directory_name = root.file_name();
    let mut walk = Walk::new(root.clone());
    let mut current = (tree.listing(&tree.root).expect("the root lists"), 0usize);
    'walk: loop {
        let (listing, depth) = current;
        walk.begin(&listing, depth);
        rank(&mut walk, tree, &root, &listing, game_name, directory_name.as_deref());
        if walk.is_stopped() {
            break;
        }
        loop {
            match walk.next_directory() {
                None => break 'walk,
                Some((path, depth)) => match tree.listing(&path.display()) {
                    Some(listing) => {
                        current = (listing, depth);
                        break;
                    }
                    None => walk.unreadable(path, "Permission denied (os error 13)".to_owned()),
                },
            }
        }
    }
    walk.wrap_up();
    walk.finish()
}

/// The ranking, as `name: score`, best first.
fn order(survey: &Survey) -> Vec<String> {
    survey
        .candidates
        .iter()
        .map(|c| format!("{}: {}", c.path.file_name().unwrap_or_default(), c.score()))
        .collect()
}

fn reasons_for(survey: &Survey, name: &str) -> Vec<Reason> {
    let found = survey.candidates.iter().find(|c| c.path.file_name().as_deref() == Some(name));
    match found {
        Some(candidate) => candidate.reasons.clone(),
        None => panic!("{name} is missing from {:?}", order(survey)),
    }
}

fn has_note(survey: &Survey, wanted: fn(&Note) -> bool) -> bool {
    survey.notes.iter().any(wanted)
}

#[test]
fn an_unreal_install_ranks_the_shipping_binary_above_the_launcher_that_starts_it() {
    let mut dir = Tree::new("unreal");
    dir.image("Satisfactory.exe", &["KERNEL32.dll"], &[]);
    dir.image("FactoryGame/Binaries/Win64/FactoryGame-Win64-Shipping.exe", &["KERNEL32.dll", "d3d12.dll"], &[]);
    dir.image("Engine/Binaries/Win64/CrashReportClient.exe", &["KERNEL32.dll"], &[]);
    dir.write("FactoryGame/Binaries/Win64/nvngx_dlss.dll", "x");

    let survey = candidates(&dir, Some("Satisfactory"));

    assert_eq!(
        order(&survey),
        ["FactoryGame-Win64-Shipping.exe: 220", "Satisfactory.exe: 30", "CrashReportClient.exe: 0"],
        "shipping binary, then launcher, then the engine's own tool"
    );
    assert!(
        !reasons_for(&survey, "CrashReportClient.exe")
            .iter()
            .any(|r| matches!(r, Reason::UnrealBinariesDirectory { .. })),
        "Engine/Binaries/Win64 is the engine's, not the game's"
    );
}

#[test]
fn the_upscaler_beside_the_shipping_binary_is_not_credited_to_the_launcher_at_the_root() {
    let mut dir = Tree::new("perdir");
    dir.image("Launcher.exe", &["KERNEL32.dll"], &[]);
    dir.image("Game/Binaries/Win64/Game-Win64-Shipping.exe", &["d3d12.dll"], &[]);
    dir.write("Game/Binaries/Win64/nvngx_dlss.dll", "x");

    let survey = candidates(&dir, None);

    assert!(
        reasons_for(&survey, "Game-Win64-Shipping.exe")
            .iter()
            .any(|r| matches!(r, Reason::ShipsGraphicsLibraries { .. })),
        "the binary in that directory gets the credit"
    );
    assert!(
        !reasons_for(&survey, "Launcher.exe").iter().any(|r| matches!(r, Reason::ShipsGraphicsLibraries { .. })),
        "and the one four directories above it does not"
    );
}

#[test]
fn a_unity_game_outranks_its_own_crash_handler_in_the_same_directory() {
    let mut dir = Tree::new("unity");
    dir.image("MyGame.exe", &["UnityPlayer.dll", "KERNEL32.dll"], &[]);
    dir.image("UnityPlayer.dll", &["d3d11.dll", "d3d12.dll"], &[]);
    dir.image("UnityCrashHandler64.exe", &["KERNEL32.dll"], &[]);
    dir.dir("MyGame_Data");
    dir.write("nvngx_dlss.dll", "x");

    let survey = candidates(&dir, Some("My Game"));

    assert_eq!(
        order(&survey),
        ["MyGame.exe: 215", "UnityCrashHandler64.exe: 15"],
        "the handler keeps the directory's credit and it is nowhere near enough"
    );
    let reasons: Vec<String> = reasons_for(&survey, "MyGame.exe").iter().map(Reason::describe).collect();
    assert!(
        reasons.iter().any(|r| r.contains("through UnityPlayer.dll")),
        "the renderer behind the stub is named, got {reasons:?}"
    );
}

#[test]
fn a_directory_holding_only_redistributables_reports_them_and_says_it_found_nothing() {
    let mut dir = Tree::new("redist");
    dir.image("_CommonRedist/vcredist/vcredist_x64.exe", &["KERNEL32.dll"], &[]);
    dir.image("_CommonRedist/DirectX/DXSETUP.exe", &["KERNEL32.dll"], &[]);

    let survey = candidates(&dir, Some("Some Game"));

    assert_eq!(order(&survey), ["DXSETUP.exe: 0", "vcredist_x64.exe: 0"]);
    assert!(!survey.has_evidence(), "nothing here argues for being the game");
    assert!(survey.best().is_some(), "and the files are still reported rather than hidden");
}

#[test]
fn a_lone_executable_that_imports_nothing_at_all_is_ranked_and_declared_unevidenced() {
    let mut dir = Tree::new("silent");
    dir.image("thing.exe", &[], &[]);

    let survey = candidates(&dir, None);

    assert_eq!(order(&survey), ["thing.exe: 0"]);
    assert!(!survey.has_evidence());
    assert!(
        has_note(&survey, |n| matches!(n, Note::NoRendererImported { .. })),
        "and that no import table backed any of it, got {:?}",
        survey.notes.iter().map(Note::describe).collect::<Vec<_>>()
    );
}

#[test]
fn a_java_game_is_ranked_on_structure_and_the_listing_says_that_is_all_it_had() {
    let mut dir = Tree::new("java");
    dir.image("ProjectZomboid64.exe", &["KERNEL32.dll"], &[]);
    dir.image("ProjectZomboid32.exe", &["KERNEL32.dll"], &[]);
    dir.image("jre64/bin/java.exe", &["KERNEL32.dll", "jli.dll"], &[]);

    let survey = candidates(&dir, Some("Project Zomboid"));

    assert_eq!(
        order(&survey),
        ["ProjectZomboid32.exe: 15", "ProjectZomboid64.exe: 15", "java.exe: 0"],
        "both builds survive; neither is picked over the other"
    );
    let note = survey
        .notes
        .iter()
        .find(|n| matches!(n, Note::NoRendererImported { .. }))
        .map(Note::describe)
        .expect("a structure-only ranking has to declare itself");
    assert!(note.contains("structure alone"), "got {note:?}");
}

#[test]
fn a_game_that_ties_with_an_unrelated_program_says_so_instead_of_winning_on_the_alphabet() {
    let mut dir = Tree::new("tie");
    dir.image("Fortress.exe", &["KERNEL32.dll", "d3d9.dll", "dxgi.dll"], &[]);
    dir.image("hlgame.exe", &["KERNEL32.dll", "d3d9.dll"], &[]);

    let survey = candidates(&dir, None);

    assert_eq!(order(&survey), ["Fortress.exe: 100", "hlgame.exe: 100"], "the alphabet decided this, and that is the problem");
    let note = survey
        .notes
        .iter()
        .find(|n| matches!(n, Note::TiedAtTheTop { .. }))
        .map(Note::describe)
        .expect("the tie has to be declared");
    assert!(note.contains("does not choose between them"), "got {note:?}");
}

#[test]
fn a_binary_below_the_depth_limit_is_reported_missing_rather_than_silently_dropped() {
    let mut dir = Tree::new("deep");
    let mut path = String::new();
    for _ in 0..=MAX_DEPTH {
        path.push_str("down/");
    }
    dir.image(&format!("{path}buried.exe"), &["d3d12.dll"], &[]);
    dir.image("top.exe", &["KERNEL32.dll"], &[]);

    let survey = candidates(&dir, None);

    assert_eq!(order(&survey), ["top.exe: 0"], "the buried one was not reached");
    let note = survey
        .notes
        .iter()
        .find(|n| matches!(n, Note::DepthLimited { .. }))
        .map(Note::describe)
        .expect("the truncation has to be reported");
    assert!(note.contains("missing from this list"), "got {note:?}");
    assert!(survey.is_incomplete(), "and it has to be incomplete to every caller");
}

#[test]
fn a_directory_with_more_executables_than_the_budget_stops_and_says_where() {
    let mut dir = Tree::new("many");
    for i in 0..=MAX_EXECUTABLES {
        dir.write(&format!("f{i:04}.exe"), "not a pe image");
    }

    let survey = candidates(&dir, None);

    assert_eq!(survey.candidates.len(), MAX_EXECUTABLES, "the budget is a hard stop");
    assert!(has_note(&survey, |n| matches!(n, Note::ExecutableLimited { .. })), "and it is declared");
}

#[test]
fn an_executable_that_cannot_be_parsed_stays_in_the_list_with_the_reason_attached() {
    let mut dir = Tree::new("broken");
    dir.write("broken.exe", "MZ but nothing else");
    dir.image("Game.exe", &["d3d11.dll"], &[]);

    let survey = candidates(&dir, None);

    assert_eq!(order(&survey), ["Game.exe: 100", "broken.exe: 0"]);
    assert!(
        has_note(&survey, |n| matches!(n, Note::Unparsed { .. })),
        "the failure is reported beside the answer, got {:?}",
        survey.notes.iter().map(Note::describe).collect::<Vec<_>>()
    );
}

#[test]
fn a_subdirectory_that_cannot_be_read_costs_itself_and_no_other_part_of_the_tree() {
    let mut dir = Tree::new("unreadable");
    dir.image("Game.exe", &["d3d12.dll"], &[]);
    dir.dir("closed");
    dir.image("closed/inner.exe", &["KERNEL32.dll"], &[]);
    let closed = format!("{}/closed", dir.root);
    dir.closed.insert(closed);

    let survey = candidates(&dir, None);

    assert_eq!(order(&survey), ["Game.exe: 100"]);
    assert!(
        has_note(&survey, |n| matches!(n, Note::Unreadable { .. })),
        "the folder that could not be opened is named, got {:?}",
        survey.notes.iter().map(Note::describe).collect::<Vec<_>>()
    );
}

#[test]
fn the_name_of_the_directory_is_used_when_the_caller_supplies_no_name_at_all() {
    let mut dir = Tree::new("named");
    let stem = FilePath::parse(&dir.root).file_name().expect("a name");
    dir.image(&format!("{stem}.exe"), &["KERNEL32.dll"], &[]);

    let survey = candidates(&dir, None);

    assert!(
        survey.candidates.first().is_some_and(Candidate::has_evidence),
        "the directory named it, got {:?}",
        order(&survey)
    );
}

#[test]
fn the_walk_budgets_are_the_numbers_they_are_documented_to_be() {
    assert_eq!(MAX_DEPTH, 32);
    assert_eq!(MAX_EXECUTABLES, 512);
    assert_eq!(MAX_LOCAL_LIBRARIES, 16);
}

// ---------------------------------------------------------------------------
// A 64-bit PE image with nothing in it but the two import tables and, when
// asked for, a version resource.

const PE_SIGNATURE: usize = 0x80;
const COFF: usize = PE_SIGNATURE + 4;
const OPTIONAL: usize = COFF + 20;
const DIR_IMPORT: usize = 1;
const DIR_DELAY_IMPORT: usize = 13;
const DIR_RESOURCE: usize = 2;
const RDATA_RVA: u32 = 0x1000;
const RDATA_RAW: usize = 0x400;
const RSRC_RVA: u32 = 0x2000;
const RSRC_RAW: usize = 0x800;
const RT_VERSION: u32 = 16;
const FIXED_INFO_SIGNATURE: u32 = 0xFEEF_04BD;
const HIGH_BIT: u32 = 0x8000_0000;
const DELAY_AT: usize = 0x100;
const NAMES_AT: usize = 0x200;

fn image(imports: &[&str], delayed: &[&str], version: Option<([u16; 4], [u16; 4])>) -> Vec<u8> {
    let mut buf = vec![0u8; RSRC_RAW];
    buf[0] = b'M';
    buf[1] = b'Z';
    put32(&mut buf, 0x3c, PE_SIGNATURE as u32);
    buf[PE_SIGNATURE..PE_SIGNATURE + 4].copy_from_slice(&[b'P', b'E', 0, 0]);

    let count_at = OPTIONAL + 108;
    let dirs = count_at + 4;
    let optional_size = dirs + 16 * 8 - OPTIONAL;

    put16(&mut buf, COFF, 0x8664);
    put16(&mut buf, COFF + 2, 1 + u16::from(version.is_some()));
    put16(&mut buf, COFF + 16, optional_size as u16);
    put16(&mut buf, OPTIONAL, 0x20b);
    put32(&mut buf, count_at, 16);

    let section = OPTIONAL + optional_size;
    buf[section..section + 6].copy_from_slice(b".rdata");
    put32(&mut buf, section + 8, 0x400);
    put32(&mut buf, section + 12, RDATA_RVA);
    put32(&mut buf, section + 16, 0x400);
    put32(&mut buf, section + 20, RDATA_RAW as u32);

    let rsrc = version.map(|(file, product)| resource_section(file, product));
    if let Some(rsrc) = &rsrc {
        put32(&mut buf, dirs + DIR_RESOURCE * 8, RSRC_RVA);
        put32(&mut buf, dirs + DIR_RESOURCE * 8 + 4, rsrc.len() as u32);
        let at = section + 40;
        buf[at..at + 5].copy_from_slice(b".rsrc");
        put32(&mut buf, at + 8, rsrc.len() as u32);
        put32(&mut buf, at + 12, RSRC_RVA);
        put32(&mut buf, at + 16, rsrc.len() as u32);
        put32(&mut buf, at + 20, RSRC_RAW as u32);
    }

    let mut names = NAMES_AT;
    if !imports.is_empty() {
        put32(&mut buf, dirs + DIR_IMPORT * 8, RDATA_RVA);
        put32(&mut buf, dirs + DIR_IMPORT * 8 + 4, 20);
        for (i, name) in imports.iter().enumerate() {
            let rva = push_name(&mut buf, &mut names, name);
            put32(&mut buf, RDATA_RAW + i * 20 + 12, rva);
        }
    }
    if !delayed.is_empty() {
        let rva = RDATA_RVA + DELAY_AT as u32;
        put32(&mut buf, dirs + DIR_DELAY_IMPORT * 8, rva);
        put32(&mut buf, dirs + DIR_DELAY_IMPORT * 8 + 4, 32);
        for (i, name) in delayed.iter().enumerate() {
            let name_rva = push_name(&mut buf, &mut names, name);
            put32(&mut buf, RDATA_RAW + DELAY_AT + i * 32 + 4, name_rva);
        }
    }
    if let Some(rsrc) = &rsrc {
        buf.extend_from_slice(rsrc);
    }
    buf
}

fn resource_section(file: [u16; 4], product: [u16; 4]) -> Vec<u8> {
    const LEVEL: usize = 24;
    let data_entry = LEVEL * 3;
    let blob_at = data_entry + 16;
    let mut section = vec![0u8; blob_at];
    for (i, (id, target)) in [
        (RT_VERSION, LEVEL | (HIGH_BIT as usize)),
        (1, (LEVEL * 2) | (HIGH_BIT as usize)),
        (1033, data_entry),
    ]
    .into_iter()
    .enumerate()
    {
        put16(&mut section, i * LEVEL + 14, 1);
        put32(&mut section, i * LEVEL + 16, id);
        put32(&mut section, i * LEVEL + 20, target as u32);
    }
    let blob = version_blob(file, product);
    put32(&mut section, data_entry, RSRC_RVA + blob_at as u32);
    put32(&mut section, data_entry + 4, blob.len() as u32);
    section.extend_from_slice(&blob);
    section
}

fn version_blob(file: [u16; 4], product: [u16; 4]) -> Vec<u8> {
    let mut blob = Vec::new();
    blob.extend_from_slice(&0u16.to_le_bytes());
    blob.extend_from_slice(&52u16.to_le_bytes());
    blob.extend_from_slice(&0u16.to_le_bytes());
    for c in "VS_VERSION_INFO".chars() {
        blob.extend_from_slice(&(c as u16).to_le_bytes());
    }
    blob.extend_from_slice(&0u16.to_le_bytes());
    while blob.len() % 4 != 0 {
        blob.push(0);
    }
    let mut fixed = vec![0u8; 52];
    put32(&mut fixed, 0, FIXED_INFO_SIGNATURE);
    put32(&mut fixed, 4, 0x0001_0000);
    put32(&mut fixed, 8, pack(file[0], file[1]));
    put32(&mut fixed, 12, pack(file[2], file[3]));
    put32(&mut fixed, 16, pack(product[0], product[1]));
    put32(&mut fixed, 20, pack(product[2], product[3]));
    blob.extend_from_slice(&fixed);
    let len = blob.len() as u16;
    put16(&mut blob, 0, len);
    blob
}

const fn pack(high: u16, low: u16) -> u32 {
    ((high as u32) << 16) | low as u32
}

fn push_name(buf: &mut [u8], cursor: &mut usize, name: &str) -> u32 {
    let at = RDATA_RAW + *cursor;
    buf[at..at + name.len()].copy_from_slice(name.as_bytes());
    let rva = RDATA_RVA + *cursor as u32;
    *cursor += name.len() + 1;
    rva
}

fn put16(buf: &mut [u8], at: usize, v: u16) {
    buf[at..at + 2].copy_from_slice(&v.to_le_bytes());
}

fn put32(buf: &mut [u8], at: usize, v: u32) {
    buf[at..at + 4].copy_from_slice(&v.to_le_bytes());
}
