//! Which libraries beside an executable are read, what each read answers,
//! and that a directory's files are read once however many executables in
//! it ask. The directories are held in memory; the images in them are real
//! PE bytes.

use std::collections::BTreeMap;

use dxray::analysis::{analyse, Evidence, FileVersion, Linked, Source, Verdict};
use dxray::evidence::{image_names, Library, LibraryCache, MAX_LOCAL_LIBRARIES};
use dxray::file_path::FilePath;
use dxray::pe::version::{Version, VersionInfo};

/// One directory and the bytes of each file in it.
struct Dir {
    path: String,
    files: BTreeMap<String, Vec<u8>>,
}

impl Dir {
    fn new(tag: &str) -> Self {
        Self { path: format!("/games/{tag}"), files: BTreeMap::new() }
    }

    fn image(&mut self, name: &str, imports: &[&str], delayed: &[&str]) -> String {
        self.files.insert(name.to_owned(), image(imports, delayed, None));
        name.to_owned()
    }

    fn versioned_image(&mut self, name: &str, imports: &[&str], file: [u16; 4], product: [u16; 4]) -> String {
        self.files.insert(name.to_owned(), image(imports, &[], Some((file, product))));
        name.to_owned()
    }

    fn write(&mut self, name: &str, contents: &str) -> String {
        self.files.insert(name.to_owned(), contents.as_bytes().to_vec());
        name.to_owned()
    }

    fn remove(&mut self, name: &str) {
        self.files.remove(name).expect("remove the fixture");
    }

    /// The file names in the directory, sorted.
    fn listing(&self) -> Vec<String> {
        self.files.keys().cloned().collect()
    }

    fn location(&self) -> FilePath {
        FilePath::parse(&self.path)
    }
}

/// The neighbours of `exe`, listing the directory into `cache` once.
fn neighbours(cache: &mut LibraryCache, dir: &Dir, exe: &str) -> Vec<String> {
    cache.enter(&dir.location());
    if cache.needs_listing() {
        cache.keep_listing(dir.listing());
    }
    cache.neighbours(Some(exe))
}

/// The fresh neighbours of `exe`, with no cache kept.
fn neighbours_of(dir: &Dir, exe: &str) -> Vec<String> {
    neighbours(&mut LibraryCache::new(), dir, exe)
}

/// Reads every file a plan names and the cache has not read.
fn read_into(cache: &mut LibraryCache, dir: &Dir, plan: &[(String, Option<String>)]) {
    for (key, file) in plan {
        if let Some(file) = file {
            let library = match dir.files.get(file) {
                Some(bytes) => Library::from_bytes(bytes, file),
                None => Library::unreadable(),
            };
            cache.remember(key.clone(), library);
        }
    }
}

/// Follows an image's imports one step into the libraries beside it.
fn follow(cache: &mut LibraryCache, dir: &Dir, imports: &[String], delayed: &[String], neighbours: &[String]) -> Vec<Linked> {
    cache.enter(&dir.location());
    let plan = cache.follow_plan(&imports.to_vec(), &delayed.to_vec(), &neighbours.to_vec());
    read_into(cache, dir, &plan);
    cache.linked(&plan, &imports.to_vec(), &delayed.to_vec())
}

/// Fills in the versions of the files a verdict names; a path with no
/// directory beside it stamps nothing.
fn stamp(cache: &mut LibraryCache, verdict: &Verdict, dir: Option<&Dir>, neighbours: &[String]) -> Verdict {
    match dir {
        None => verdict.clone(),
        Some(dir) => {
            cache.enter(&dir.location());
            let plan = cache.stamp_plan(verdict, &neighbours.to_vec());
            read_into(cache, dir, &plan);
            cache.stamp(verdict)
        }
    }
}

/// Reads `exe` as a PE image and gathers what sits beside it.
fn from_executable(dir: &Dir, exe: &str) -> Result<Evidence, dxray::pe::Error> {
    let (imports, delay_imports) = image_names(&dir.files[exe])?;
    let neighbours = neighbours_of(dir, exe);
    let linked = follow(&mut LibraryCache::new(), dir, &imports, &delay_imports, &neighbours);
    Ok(Evidence { imports, delay_imports, neighbours, linked })
}

/// Reads `exe` and stamps its verdict.
fn verdict_for(dir: &Dir, exe: &str) -> Verdict {
    let evidence = from_executable(dir, exe).expect("a readable image");
    let verdict = analyse(&evidence);
    stamp(&mut LibraryCache::new(), &verdict, Some(dir), &evidence.neighbours)
}

fn version_of(verdict: &Verdict, library: &str) -> FileVersion {
    for finding in verdict
        .renderers
        .iter()
        .chain(&verdict.infrastructure)
        .chain(&verdict.features)
        .chain(&verdict.local_overrides)
    {
        for signal in &finding.signals {
            if signal.library.eq_ignore_ascii_case(library) {
                return signal.version;
            }
        }
    }
    panic!("{library} is behind none of the findings");
}

const fn parts(v: [u16; 4]) -> Version {
    Version { major: v[0], minor: v[1], patch: v[2], build: v[3] }
}

/// An analysis of a directory's names alone, with nothing read.
fn unread_verdict(neighbours: Vec<String>, imports: Vec<String>, linked: Vec<Linked>) -> Verdict {
    analyse(&Evidence { imports, delay_imports: Vec::new(), neighbours, linked })
}

#[test]
fn the_executable_itself_is_not_one_of_its_own_neighbours() {
    let mut dir = Dir::new("self");
    let exe = dir.write("dxgi.dll", "");
    dir.write("version.dll", "");

    assert_eq!(
        neighbours_of(&dir, &exe),
        ["version.dll"],
        "the file under inspection must not appear beside itself"
    );
}

#[test]
fn a_directory_that_cannot_be_listed_yields_no_neighbours_rather_than_an_error() {
    let mut cache = LibraryCache::new();
    cache.enter(&FilePath::parse("/dxray-no-such-directory-anywhere"));
    cache.keep_listing(Vec::new());

    assert!(
        cache.neighbours(Some("game.exe")).is_empty(),
        "an unlistable directory is silence, not failure"
    );
}

#[test]
fn a_file_that_is_not_a_pe_image_fails_as_invalid_data() {
    let mut dir = Dir::new("notpe");
    let path = dir.write("notes.txt", "");

    assert!(from_executable(&dir, &path).is_err(), "not a PE image");
}

#[test]
fn a_renderer_reached_through_a_local_library_is_in_the_verdict() {
    let mut dir = Dir::new("linked");
    let exe = dir.image("StarRail.exe", &["KERNEL32.dll", "UnityPlayer.dll"], &[]);
    dir.image("UnityPlayer.dll", &["d3d11.dll", "dxgi.dll"], &[]);

    let evidence = from_executable(&dir, &exe).expect("the stub is a readable PE");
    let verdict = analyse(&evidence);

    assert!(!verdict.renderers.is_empty(), "a Unity stub reaches its renderer one link on");
    let finding = &verdict.renderers[0];
    assert_eq!(finding.name, "Direct3D 11");
    assert_eq!(finding.signals[0].source, Source::Linked);
    assert_eq!(finding.signals[0].library, "UnityPlayer.dll");
}

#[test]
fn a_library_in_the_directory_that_the_executable_does_not_import_is_not_followed() {
    let mut dir = Dir::new("unimported");
    let exe = dir.image("launcher.exe", &["KERNEL32.dll"], &[]);
    dir.image("UnityPlayer.dll", &["d3d11.dll"], &[]);

    let verdict = analyse(&from_executable(&dir, &exe).expect("readable"));

    assert!(verdict.renderers.is_empty(), "only imported libraries are followed, got {:?}", verdict.renderers);
}

#[test]
fn a_direct_import_outranks_the_same_api_reached_through_a_library() {
    let mut dir = Dir::new("both");
    let exe = dir.image("game.exe", &["d3d11.dll", "Engine.dll"], &[]);
    dir.image("Engine.dll", &["d3d11.dll"], &[]);

    let verdict = analyse(&from_executable(&dir, &exe).expect("readable"));

    let d3d11 = verdict.renderers.iter().find(|f| f.name == "Direct3D 11").expect("found either way");
    assert_eq!(d3d11.signals[0].source, Source::Import);
}

#[test]
fn exactly_the_local_library_budget_is_followed_and_no_more() {
    let mut dir = Dir::new("budget");
    let names: Vec<String> = (0..=MAX_LOCAL_LIBRARIES).map(|i| format!("engine{i:02}.dll")).collect();
    for name in &names {
        dir.image(name, &["d3d11.dll"], &[]);
    }
    let exe = dir.image("game.exe", &["KERNEL32.dll"], &[]);

    let neighbours = neighbours_of(&dir, &exe);
    let linked = follow(&mut LibraryCache::new(), &dir, &names, &[], &neighbours);

    assert_eq!(
        linked.len(),
        MAX_LOCAL_LIBRARIES,
        "every library up to the budget is read, and the one past it is not"
    );
}

#[test]
fn an_unreadable_local_library_is_skipped_rather_than_failing_the_read() {
    let mut dir = Dir::new("badlib");
    let exe = dir.image("game.exe", &["KERNEL32.dll", "Broken.dll"], &[]);
    dir.write("Broken.dll", "not a PE image at all");

    let evidence = from_executable(&dir, &exe).expect("the executable is still readable");

    assert!(evidence.linked.is_empty(), "an unparsable library is skipped");
}

#[test]
fn a_name_that_is_not_a_dll_is_not_followed_and_costs_no_budget() {
    let mut dir = Dir::new("exe-beside");
    dir.image("other.exe", &["d3d11.dll"], &[]);
    dir.image("Engine.dll", &["d3d12.dll"], &[]);
    let exe = dir.image("game.exe", &["other.exe", "engine.DLL"], &[]);

    let evidence = from_executable(&dir, &exe).expect("readable");

    assert_eq!(evidence.linked.len(), 1, "{:?}", evidence.linked);
    assert_eq!(evidence.linked[0].library, "engine.DLL", "spelled as the importing image spelled it");
}

#[test]
fn a_shipped_dlss_runtime_reports_which_build_it_is() {
    let mut dir = Dir::new("dlss");
    let exe = dir.image("game.exe", &["KERNEL32.dll"], &[]);
    dir.versioned_image("nvngx_dlss.dll", &[], [310, 2, 1, 0], [310, 2, 1, 0]);

    let verdict = verdict_for(&dir, &exe);

    assert_eq!(
        version_of(&verdict, "nvngx_dlss.dll"),
        FileVersion::Stamped(VersionInfo { file: parts([310, 2, 1, 0]), product: parts([310, 2, 1, 0]) }),
        "the build number has to reach the verdict, not stop at the parser"
    );
}

#[test]
fn a_version_resource_of_all_zeroes_is_a_version_and_not_a_missing_one() {
    let mut dir = Dir::new("zeroes");
    let exe = dir.image("game.exe", &["KERNEL32.dll"], &[]);
    dir.versioned_image("nvngx_dlss.dll", &[], [0, 0, 0, 0], [0, 0, 0, 0]);

    let version = version_of(&verdict_for(&dir, &exe), "nvngx_dlss.dll");

    assert_eq!(version.state(), "stamped", "all zeroes is still stamped");
    assert_eq!(version.label().as_deref(), Some("0.0.0.0"), "and it renders as the number it is");
}

#[test]
fn a_local_file_with_no_version_is_not_the_same_as_a_name_windows_resolves() {
    let mut dir = Dir::new("states");
    let exe = dir.image("game.exe", &["d3d12.dll"], &[]);
    dir.image("nvngx_dlss.dll", &[], &[]);

    let verdict = verdict_for(&dir, &exe);

    assert_eq!(version_of(&verdict, "nvngx_dlss.dll"), FileVersion::Unstamped, "the file is there and says nothing");
    assert_eq!(version_of(&verdict, "d3d12.dll"), FileVersion::Elsewhere, "no file of that name is here at all");
}

#[test]
fn a_file_that_is_not_a_pe_image_is_unreadable_rather_than_unversioned() {
    let mut dir = Dir::new("placeholder");
    let exe = dir.image("game.exe", &["KERNEL32.dll"], &[]);
    dir.write("nvngx_dlss.dll", "");

    assert_eq!(version_of(&verdict_for(&dir, &exe), "nvngx_dlss.dll"), FileVersion::Unreadable);
}

#[test]
fn a_proxy_dll_shadowing_a_system_name_is_versioned_because_it_is_what_loads() {
    let mut dir = Dir::new("proxy");
    let exe = dir.image("game.exe", &["KERNEL32.dll"], &[]);
    dir.versioned_image("dxgi.dll", &[], [6, 3, 5, 0], [6, 3, 5, 0]);

    let verdict = verdict_for(&dir, &exe);

    assert_eq!(version_of(&verdict, "dxgi.dll").label().as_deref(), Some("6.3.5.0"));
}

#[test]
fn a_library_is_matched_against_the_directory_spelling_not_the_import_table() {
    let mut dir = Dir::new("case");
    let exe = dir.image("StarRail.exe", &["KERNEL32.dll", "UNITYPLAYER.DLL"], &[]);
    dir.versioned_image("UnityPlayer.dll", &["d3d11.dll"], [2022, 3, 21, 4], [2022, 3, 21, 4]);

    let verdict = verdict_for(&dir, &exe);

    assert_eq!(
        version_of(&verdict, "UNITYPLAYER.DLL").label().as_deref(),
        Some("2022.3.21.4"),
        "the engine version is the one number that identifies a Unity build"
    );
}

#[test]
fn one_file_named_by_two_findings_carries_the_same_version_under_both() {
    let mut dir = Dir::new("shared");
    let exe = dir.image("StarRail.exe", &["KERNEL32.dll", "UnityPlayer.dll"], &[]);
    dir.versioned_image("UnityPlayer.dll", &["d3d11.dll", "dxgi.dll"], [2022, 3, 21, 4], [2022, 3, 21, 4]);

    let verdict = verdict_for(&dir, &exe);

    let renderer = verdict.renderers[0].signals[0].version;
    let shared = verdict.infrastructure[0].signals[0].version;
    assert_eq!(renderer.label().as_deref(), Some("2022.3.21.4"));
    assert_eq!(renderer, shared, "the same file must not get two different answers");
}

#[test]
fn a_verdict_nobody_stamped_says_so_rather_than_claiming_the_file_is_elsewhere() {
    let verdict = unread_verdict(vec!["nvngx_dlss.dll".to_owned()], Vec::new(), Vec::new());

    assert_eq!(
        verdict.features[0].signals[0].version,
        FileVersion::Unread,
        "the pure half never claims to know a version"
    );
}

#[test]
fn a_signal_reads_as_one_sentence_with_the_version_inside_the_provenance() {
    let mut dir = Dir::new("describe");
    let exe = dir.image("game.exe", &["d3d12.dll"], &[]);
    dir.versioned_image("nvngx_dlssg.dll", &[], [310, 2, 1, 0], [310, 2, 1, 0]);

    let verdict = verdict_for(&dir, &exe);

    assert_eq!(verdict.features[0].signals[0].describe(), "nvngx_dlssg.dll (neighbour, 310.2.1.0)");
    assert_eq!(
        verdict.renderers[0].signals[0].describe(),
        "d3d12.dll (import, no local copy)",
        "and a name with no file behind it says so"
    );
}

#[test]
fn an_unstamped_file_and_an_unreadable_one_word_themselves_differently() {
    assert_eq!(FileVersion::Unstamped.label().as_deref(), Some("no version"));
    assert_eq!(FileVersion::Unreadable.label().as_deref(), Some("version unreadable"));
    assert_eq!(
        FileVersion::Elsewhere.label().as_deref(),
        Some("no local copy"),
        "no file of that name is here, which is a fact and not a blank"
    );
    assert_eq!(FileVersion::Unread.label(), None, "the one state with nothing to say");
}

#[test]
fn a_library_already_read_for_one_executable_is_not_read_again_for_the_next() {
    let mut dir = Dir::new("cached");
    let first = dir.image("first.exe", &["KERNEL32.dll"], &[]);
    let second = dir.image("second.exe", &["KERNEL32.dll"], &[]);
    dir.versioned_image("nvngx_dlss.dll", &[], [310, 2, 1, 0], [310, 2, 1, 0]);

    let mut cache = LibraryCache::new();
    let neighbours = neighbours_of(&dir, &first);
    let one = stamp(&mut cache, &unread_verdict(neighbours.clone(), Vec::new(), Vec::new()), Some(&dir), &neighbours);
    assert_eq!(one.features[0].signals[0].version.label().as_deref(), Some("310.2.1.0"));

    dir.remove("nvngx_dlss.dll");

    let _ = second;
    let two = stamp(&mut cache, &unread_verdict(neighbours.clone(), Vec::new(), Vec::new()), Some(&dir), &neighbours);

    assert_eq!(
        two.features[0].signals[0].version.label().as_deref(),
        Some("310.2.1.0"),
        "the second executable must be answered from the first one's read"
    );
}

#[test]
fn one_read_answers_both_the_link_chase_and_the_version() {
    let mut dir = Dir::new("onemore");
    let exe = dir.image("StarRail.exe", &["KERNEL32.dll", "UnityPlayer.dll"], &[]);
    dir.versioned_image("UnityPlayer.dll", &["d3d11.dll"], [2022, 3, 21, 4], [2022, 3, 21, 4]);

    let mut cache = LibraryCache::new();
    let neighbours = neighbours_of(&dir, &exe);
    let linked = follow(&mut cache, &dir, &["UnityPlayer.dll".to_owned()], &[], &neighbours);
    assert_eq!(linked.len(), 1, "the link was followed");

    dir.remove("UnityPlayer.dll");

    let verdict = unread_verdict(neighbours.clone(), vec!["UnityPlayer.dll".to_owned()], linked);
    let verdict = stamp(&mut cache, &verdict, Some(&dir), &neighbours);

    assert_eq!(
        verdict.renderers[0].signals[0].version.label().as_deref(),
        Some("2022.3.21.4"),
        "the version was already in hand from the read the chase did"
    );
}

#[test]
fn the_directory_is_listed_once_however_many_files_in_it_are_inspected() {
    let mut dir = Dir::new("listing");
    let first = dir.image("first.exe", &["KERNEL32.dll"], &[]);
    let second = dir.image("second.exe", &["KERNEL32.dll"], &[]);

    let mut cache = LibraryCache::new();
    let before = neighbours(&mut cache, &dir, &first);
    assert!(before.contains(&"second.exe".to_owned()), "the first listing sees what is there, got {before:?}");

    dir.write("appeared-later.dll", "");

    let after = neighbours(&mut cache, &dir, &second);
    assert!(
        !after.contains(&"appeared-later.dll".to_owned()),
        "the second file is answered from the first one's listing, got {after:?}"
    );
    assert!(!after.contains(&"second.exe".to_owned()), "and each file is still left out of its own neighbours");
    assert!(after.contains(&"first.exe".to_owned()));
}

#[test]
fn a_cache_that_moves_to_another_directory_forgets_the_first_one() {
    let mut one = Dir::new("dir-one");
    let exe_one = one.image("game.exe", &["KERNEL32.dll"], &[]);
    one.versioned_image("nvngx_dlss.dll", &[], [310, 2, 1, 0], [310, 2, 1, 0]);

    let mut two = Dir::new("dir-two");
    let exe_two = two.image("game.exe", &["KERNEL32.dll"], &[]);
    two.versioned_image("nvngx_dlss.dll", &[], [3, 7, 20, 0], [3, 7, 20, 0]);

    let mut cache = LibraryCache::new();
    for (dir, exe, expected) in [(&one, &exe_one, "310.2.1.0"), (&two, &exe_two, "3.7.20.0")] {
        let neighbours = neighbours(&mut cache, dir, exe);
        let verdict = unread_verdict(neighbours.clone(), Vec::new(), Vec::new());
        let verdict = stamp(&mut cache, &verdict, Some(dir), &neighbours);
        assert_eq!(
            verdict.features[0].signals[0].version.label().as_deref(),
            Some(expected),
            "each directory answers for its own file"
        );
    }
}

#[test]
fn a_path_with_no_directory_beside_it_leaves_every_version_unread() {
    let verdict = unread_verdict(vec!["nvngx_dlss.dll".to_owned()], Vec::new(), Vec::new());
    let verdict = stamp(&mut LibraryCache::new(), &verdict, None, &["nvngx_dlss.dll".to_owned()]);

    assert_eq!(verdict.features[0].signals[0].version, FileVersion::Unread);
}

// ---------------------------------------------------------------------------
// A 64-bit PE image with nothing in it but the two import tables and, when
// asked for, a version resource.

const PE_SIGNATURE: usize = 0x80;
const COFF: usize = PE_SIGNATURE + 4;
const OPTIONAL: usize = COFF + 20;
const DIR_IMPORT: usize = 1;
const DIR_DELAY_IMPORT: usize = 13;
const DIR_RESOURCE: usize = 2;
const RDATA_RVA: u32 = 0x1000;
const RDATA_RAW: usize = 0x400;
const RSRC_RVA: u32 = 0x2000;
const RSRC_RAW: usize = 0x800;
const RT_VERSION: u32 = 16;
const FIXED_INFO_SIGNATURE: u32 = 0xFEEF_04BD;
const HIGH_BIT: u32 = 0x8000_0000;
const DELAY_AT: usize = 0x100;
const NAMES_AT: usize = 0x200;

fn image(imports: &[&str], delayed: &[&str], version: Option<([u16; 4], [u16; 4])>) -> Vec<u8> {
    let mut buf = vec![0u8; RSRC_RAW];
    buf[0] = b'M';
    buf[1] = b'Z';
    put32(&mut buf, 0x3c, PE_SIGNATURE as u32);
    buf[PE_SIGNATURE..PE_SIGNATURE + 4].copy_from_slice(&[b'P', b'E', 0, 0]);

    let count_at = OPTIONAL + 108;
    let dirs = count_at + 4;
    let optional_size = dirs + 16 * 8 - OPTIONAL;

    put16(&mut buf, COFF, 0x8664);
    put16(&mut buf, COFF + 2, 1 + u16::from(version.is_some()));
    put16(&mut buf, COFF + 16, optional_size as u16);
    put16(&mut buf, OPTIONAL, 0x20b);
    put32(&mut buf, count_at, 16);

    let section = OPTIONAL + optional_size;
    buf[section..section + 6].copy_from_slice(b".rdata");
    put32(&mut buf, section + 8, 0x400);
    put32(&mut buf, section + 12, RDATA_RVA);
    put32(&mut buf, section + 16, 0x400);
    put32(&mut buf, section + 20, RDATA_RAW as u32);

    let rsrc = version.map(|(file, product)| resource_section(file, product));
    if let Some(rsrc) = &rsrc {
        put32(&mut buf, dirs + DIR_RESOURCE * 8, RSRC_RVA);
        put32(&mut buf, dirs + DIR_RESOURCE * 8 + 4, rsrc.len() as u32);
        let at = section + 40;
        buf[at..at + 5].copy_from_slice(b".rsrc");
        put32(&mut buf, at + 8, rsrc.len() as u32);
        put32(&mut buf, at + 12, RSRC_RVA);
        put32(&mut buf, at + 16, rsrc.len() as u32);
        put32(&mut buf, at + 20, RSRC_RAW as u32);
    }

    let mut names = NAMES_AT;
    if !imports.is_empty() {
        put32(&mut buf, dirs + DIR_IMPORT * 8, RDATA_RVA);
        put32(&mut buf, dirs + DIR_IMPORT * 8 + 4, 20);
        for (i, name) in imports.iter().enumerate() {
            let rva = push_name(&mut buf, &mut names, name);
            put32(&mut buf, RDATA_RAW + i * 20 + 12, rva);
        }
    }
    if !delayed.is_empty() {
        let rva = RDATA_RVA + DELAY_AT as u32;
        put32(&mut buf, dirs + DIR_DELAY_IMPORT * 8, rva);
        put32(&mut buf, dirs + DIR_DELAY_IMPORT * 8 + 4, 32);
        for (i, name) in delayed.iter().enumerate() {
            let name_rva = push_name(&mut buf, &mut names, name);
            put32(&mut buf, RDATA_RAW + DELAY_AT + i * 32 + 4, name_rva);
        }
    }
    if let Some(rsrc) = &rsrc {
        buf.extend_from_slice(rsrc);
    }
    buf
}

fn resource_section(file: [u16; 4], product: [u16; 4]) -> Vec<u8> {
    const LEVEL: usize = 24;
    let data_entry = LEVEL * 3;
    let blob_at = data_entry + 16;
    let mut section = vec![0u8; blob_at];
    for (i, (id, target)) in [
        (RT_VERSION, LEVEL | (HIGH_BIT as usize)),
        (1, (LEVEL * 2) | (HIGH_BIT as usize)),
        (1033, data_entry),
    ]
    .into_iter()
    .enumerate()
    {
        put16(&mut section, i * LEVEL + 14, 1);
        put32(&mut section, i * LEVEL + 16, id);
        put32(&mut section, i * LEVEL + 20, target as u32);
    }
    let blob = version_blob(file, product);
    put32(&mut section, data_entry, RSRC_RVA + blob_at as u32);
    put32(&mut section, data_entry + 4, blob.len() as u32);
    section.extend_from_slice(&blob);
    section
}

fn version_blob(file: [u16; 4], product: [u16; 4]) -> Vec<u8> {
    let mut blob = Vec::new();
    blob.extend_from_slice(&0u16.to_le_bytes());
    blob.extend_from_slice(&52u16.to_le_bytes());
    blob.extend_from_slice(&0u16.to_le_bytes());
    for c in "VS_VERSION_INFO".chars() {
        blob.extend_from_slice(&(c as u16).to_le_bytes());
    }
    blob.extend_from_slice(&0u16.to_le_bytes());
    while blob.len() % 4 != 0 {
        blob.push(0);
    }
    let mut fixed = vec![0u8; 52];
    put32(&mut fixed, 0, FIXED_INFO_SIGNATURE);
    put32(&mut fixed, 4, 0x0001_0000);
    put32(&mut fixed, 8, pack(file[0], file[1]));
    put32(&mut fixed, 12, pack(file[2], file[3]));
    put32(&mut fixed, 16, pack(product[0], product[1]));
    put32(&mut fixed, 20, pack(product[2], product[3]));
    blob.extend_from_slice(&fixed);
    let len = blob.len() as u16;
    put16(&mut blob, 0, len);
    blob
}

const fn pack(high: u16, low: u16) -> u32 {
    ((high as u32) << 16) | low as u32
}

fn push_name(buf: &mut [u8], cursor: &mut usize, name: &str) -> u32 {
    let at = RDATA_RAW + *cursor;
    buf[at..at + name.len()].copy_from_slice(name.as_bytes());
    let rva = RDATA_RVA + *cursor as u32;
    *cursor += name.len() + 1;
    rva
}

fn put16(buf: &mut [u8], at: usize, v: u16) {
    buf[at..at + 2].copy_from_slice(&v.to_le_bytes());
}

fn put32(buf: &mut [u8], at: usize, v: u32) {
    buf[at..at + 4].copy_from_slice(&v.to_le_bytes());
}
