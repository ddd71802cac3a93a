//! The walk over every launcher: the order it announces things in, and the
//! libraries it will not visit twice. The launchers here are fakes whose
//! whole machine is supplied.

use std::sync::{Arc, Mutex};

use dxray::file_path::FilePath;
use dxray::heroic;
use dxray::launcher::{
    root_plan, walk, Announcement, Catalogue, Flow, Inventory, Launcher, Libraries, Origin,
    Resolver, Visitor,
};
use dxray::steam::library::{read_index, read_manifest, to_catalogue, to_libraries, Error, Scan};

/// Resolves every path to itself: no symlinks on this machine.
struct AsWritten;

impl Resolver for AsWritten {
    fn identity(&self, path: &FilePath) -> String {
        path.display()
    }
}

/// The one sequence the visitor and the fake launcher both record into, so a
/// read's position among the visitor calls is observable.
#[derive(Clone, Default)]
struct Log(Arc<Mutex<Vec<String>>>);

impl Log {
    fn push(&self, event: String) {
        self.0.lock().expect("no test panics holding this").push(event);
    }

    fn events(&self) -> Vec<String> {
        self.0.lock().expect("no test panics holding this").clone()
    }
}

/// Records what the walk announced, in order, flat.
#[derive(Default)]
struct Transcript {
    log: Log,
    /// How many visits are left before the visitor asks the walk to stop.
    /// `None` never stops.
    budget: Option<usize>,
}

impl Transcript {
    fn record(&mut self, event: String) -> Flow {
        self.log.push(event);
        match &mut self.budget {
            None => Flow::Continue,
            Some(0) => Flow::Break,
            Some(left) => {
                *left -= 1;
                Flow::Continue
            }
        }
    }

    fn events(&self) -> Vec<String> {
        self.log.events()
    }
}

impl Visitor for Transcript {
    fn root(&mut self, origin: Origin, root: &FilePath) -> Flow {
        self.record(format!("root {} {}", origin.key(), root.display()))
    }

    fn note(&mut self, origin: Origin, note: &str) -> Flow {
        self.record(format!("note {} {note}", origin.key()))
    }

    fn problem(&mut self, origin: Origin, problem: &str) -> Flow {
        self.record(format!("problem {} {problem}", origin.key()))
    }

    fn library(&mut self, origin: Origin, library: &FilePath) -> Flow {
        self.record(format!("library {} {}", origin.key(), library.display()))
    }

    fn catalogue(&mut self, origin: Origin, _library: &FilePath, catalogue: Catalogue) -> Flow {
        self.record(format!("catalogue {} {}", origin.key(), catalogue.games.len()))
    }
}

/// A launcher whose whole machine is supplied.
struct Fake {
    origin: Origin,
    roots: Vec<FilePath>,
    libraries: Vec<FilePath>,
    notes: Vec<String>,
    problems: Vec<String>,
    log: Log,
}

impl Fake {
    fn new(key: &'static str, roots: &[&str], transcript: &Transcript) -> Self {
        Self {
            origin: Origin::new(key, key),
            roots: roots.iter().map(|r| FilePath::parse(r)).collect(),
            libraries: Vec::new(),
            notes: Vec::new(),
            problems: Vec::new(),
            log: transcript.log.clone(),
        }
    }

    fn holding(mut self, libraries: &[&str]) -> Self {
        self.libraries = libraries.iter().map(|l| FilePath::parse(l)).collect();
        self
    }
}

impl Launcher for Fake {
    fn origin(&self) -> Origin {
        self.origin
    }

    fn roots(&self) -> Vec<FilePath> {
        self.roots.clone()
    }

    fn candidate_roots(&self) -> Vec<FilePath> {
        self.roots.clone()
    }

    fn libraries(&self, root: &FilePath) -> Libraries {
        Libraries {
            paths: if self.libraries.is_empty() { vec![root.clone()] } else { self.libraries.clone() },
            notes: self.notes.clone(),
            problems: self.problems.clone(),
        }
    }

    fn games(&self, library: &FilePath) -> Catalogue {
        self.log.push(format!("read {} {}", self.origin.key(), library.display()));
        Catalogue::default()
    }
}

#[test]
fn the_walk_announces_a_library_before_it_reads_it() {
    let mut transcript = Transcript::default();
    let launcher = Fake::new("only", &["/dxray-walk-root"], &transcript);

    let outcome = walk(&vec![launcher], &mut transcript, &AsWritten);

    assert_eq!(outcome, Flow::Continue);
    assert_eq!(
        transcript.events(),
        [
            "root only /dxray-walk-root",
            "library only /dxray-walk-root",
            "read only /dxray-walk-root",
            "catalogue only 0",
        ],
        "the library is named, then read, then handed over"
    );
}

#[test]
fn notes_and_problems_are_announced_before_the_libraries_they_qualify() {
    let mut transcript = Transcript::default();
    let mut launcher = Fake::new("only", &["/dxray-walk-noted"], &transcript);
    launcher.notes.push("its index declared no library".to_owned());
    launcher.problems.push("a second index could not be read".to_owned());

    assert_eq!(walk(&vec![launcher], &mut transcript, &AsWritten), Flow::Continue);

    assert_eq!(
        transcript.events(),
        [
            "root only /dxray-walk-noted",
            "note only its index declared no library",
            "problem only a second index could not be read",
            "library only /dxray-walk-noted",
            "read only /dxray-walk-noted",
            "catalogue only 0",
        ]
    );
}

#[test]
fn one_library_named_by_two_installs_is_walked_once_and_both_installs_are_kept() {
    let mut transcript = Transcript::default();
    let first = Fake::new("first", &["/dxray-walk-a"], &transcript).holding(&["/dxray-walk-shared"]);
    let second = Fake::new("second", &["/dxray-walk-b"], &transcript).holding(&["/dxray-walk-shared"]);

    assert_eq!(walk(&vec![first, second], &mut transcript, &AsWritten), Flow::Continue);

    let events = transcript.events();
    assert_eq!(
        events.iter().filter(|event| event.starts_with("library ")).count(),
        1,
        "the shared library is walked once: {events:?}"
    );
    assert_eq!(
        events.iter().filter(|event| event.starts_with("read ")).count(),
        1,
        "and read once, which is the cost the deduplication is for: {events:?}"
    );
    assert_eq!(
        events.iter().filter(|event| event.starts_with("root ")).count(),
        2,
        "and both installs are still announced: {events:?}"
    );
}

#[test]
fn a_visitor_that_breaks_stops_the_walk_where_it_asked_to() {
    let mut transcript = Transcript { budget: Some(1), ..Transcript::default() };
    let first = Fake::new("first", &["/dxray-walk-first"], &transcript);
    let second = Fake::new("second", &["/dxray-walk-second"], &transcript);

    let outcome = walk(&vec![first, second], &mut transcript, &AsWritten);

    assert_eq!(outcome, Flow::Break, "the walk reports that it did not finish");
    assert_eq!(
        transcript.events(),
        ["root first /dxray-walk-first", "library first /dxray-walk-first"],
        "and nothing past the break was looked at: {:?}",
        transcript.events()
    );
}

#[test]
fn the_walk_names_no_launcher_and_gains_one_without_being_edited() {
    let mut transcript = Transcript::default();
    let newcomer = Fake::new("newcomer", &["/dxray-walk-new"], &transcript);

    assert_eq!(walk(&vec![newcomer], &mut transcript, &AsWritten), Flow::Continue);

    let events = transcript.events();
    assert!(
        events.iter().all(|event| event.contains("newcomer")),
        "every event carries the launcher that raised it: {events:?}"
    );
}

struct ReportingFixture {
    root: FilePath,
}

impl Launcher for ReportingFixture {
    fn origin(&self) -> Origin {
        Origin::new("fixture", "Fixture")
    }

    fn roots(&self) -> Vec<FilePath> {
        vec![self.root.clone()]
    }

    fn candidate_roots(&self) -> Vec<FilePath> {
        vec![self.root.clone()]
    }

    fn libraries(&self, root: &FilePath) -> Libraries {
        Libraries {
            paths: vec![FilePath::parse(&format!("{}/library", root.display()))],
            notes: vec!["index caveat".to_owned()],
            problems: vec!["index problem".to_owned()],
        }
    }

    fn games(&self, _library: &FilePath) -> Catalogue {
        Catalogue {
            notes: vec!["catalogue caveat".to_owned()],
            problems: vec!["catalogue problem".to_owned()],
            ..Catalogue::default()
        }
    }
}

#[test]
fn inventory_keeps_root_and_catalogue_diagnostics_at_their_real_locations() {
    let fixture = ReportingFixture { root: FilePath::parse("/dxray-inventory-diagnostics") };
    let root = fixture.root.clone();
    let inventory = Inventory::collect(&vec![fixture], &AsWritten);
    let library = FilePath::parse("/dxray-inventory-diagnostics/library");

    assert_eq!(inventory.notes.len(), 2);
    assert_eq!(inventory.notes[0].root, Some(root.clone()));
    assert_eq!(inventory.notes[0].library, None);
    assert_eq!(inventory.notes[0].message, "index caveat");
    assert_eq!(inventory.notes[1].root, Some(root.clone()));
    assert_eq!(inventory.notes[1].library, Some(library.clone()));
    assert_eq!(inventory.notes[1].message, "catalogue caveat");

    assert_eq!(inventory.problems.len(), 2);
    assert_eq!(inventory.problems[0].root, Some(root.clone()));
    assert_eq!(inventory.problems[0].library, None);
    assert_eq!(inventory.problems[0].message, "index problem");
    assert_eq!(inventory.problems[1].root, Some(root));
    assert_eq!(inventory.problems[1].library, Some(library));
    assert_eq!(inventory.problems[1].message, "catalogue problem");
}

#[test]
fn a_heroic_root_reports_itself_as_its_one_library() {
    let root = FilePath::parse("/config/heroic");
    let libraries = heroic::libraries(&root);
    assert_eq!(
        libraries,
        Libraries { paths: vec![root], notes: Vec::new(), problems: Vec::new() },
        "one library, no notes, and nothing that can fail"
    );
}

#[test]
fn a_steam_root_that_cannot_be_read_yields_no_libraries_and_one_problem() {
    let index = FilePath::parse("/steam/steamapps/libraryfolders.vdf");
    let read = read_index(&index, "\"libraryfolders\"\n{\n}\n").map(|d| (Vec::new(), d.notes));

    let libraries = to_libraries(read);
    assert!(libraries.paths.is_empty(), "an unusable index is not a machine with one library");
    assert_eq!(libraries.problems.len(), 1, "{:?}", libraries.problems);
    assert!(
        libraries.problems[0].contains("library index is empty"),
        "the worded problem keeps the sentence the typed error rendered to: {}",
        libraries.problems[0]
    );
}

#[test]
fn a_library_that_is_not_there_is_a_problem_and_never_an_empty_catalogue() {
    let missing = FilePath::parse("/definitely/not/a/steam/library/steamapps");
    let catalogue = to_catalogue(Err(Error::Io {
        path: missing,
        source: "No such file or directory (os error 2)".to_owned(),
    }));
    assert!(catalogue.games.is_empty());
    assert_eq!(catalogue.problems.len(), 1, "the wholesale failure survives as a problem: {:?}", catalogue.problems);
}

#[test]
fn a_steam_library_comes_back_through_the_trait_with_its_appids_intact() {
    let library = FilePath::parse("/steam");
    let path = FilePath::parse("/steam/steamapps/appmanifest_570.acf");
    let text = "\"AppState\"\n{\n\t\"appid\"\t\"570\"\n\t\"name\"\t\"Dota 2\"\n\t\"installdir\"\t\"dota 2 beta\"\n}\n";
    assert!(read_manifest(&path, text, &library).is_ok());
    let mut scan = Scan::new();
    scan.add(&path, Ok(text.to_owned()), &library);

    let catalogue = to_catalogue(Ok(scan.finish()));
    assert!(catalogue.problems.is_empty(), "{:?}", catalogue.problems);
    assert_eq!(catalogue.games.len(), 1);
    assert_eq!(catalogue.games[0].identity, dxray::launcher::Identity::SteamApp(570));
    assert_eq!(catalogue.games[0].origin, dxray::steam::origin());
}

#[test]
fn a_root_plan_announces_notes_then_problems_then_each_unlisted_library_once() {
    let mut listed = vec!["/a".to_owned()];
    let index = Libraries {
        paths: vec![FilePath::parse("/a"), FilePath::parse("/b"), FilePath::parse("/b-link")],
        notes: vec!["thin index".to_owned()],
        problems: vec!["unreadable".to_owned()],
    };
    let keys = vec!["/a".to_owned(), "/b".to_owned(), "/b".to_owned()];

    let plan = root_plan(&mut listed, &index, &keys);

    assert_eq!(
        plan,
        [
            Announcement::Note("thin index".to_owned()),
            Announcement::Problem("unreadable".to_owned()),
            Announcement::Library(FilePath::parse("/b")),
        ]
    );
    assert_eq!(listed, ["/a", "/b"]);
}
