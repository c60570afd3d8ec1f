use sid::files::{is_hidden, resolve_files, skips_dir, EntryKind, Scan, ScanAction, ScanInput};
use sid::path::{comes_first, FilePath};

/// A file system in memory: each directory with its entries, `true` for a directory.
struct Disk {
    dirs: Vec<(&'static str, Vec<(&'static str, bool)>)>,
}

impl Disk {
    fn list(&self, dir: &str) -> Option<Vec<(&'static str, bool)>> {
        self.dirs.iter().find(|d| d.0 == dir).map(|d| d.1.clone())
    }

    fn scan(&self, mut scan: Scan) -> Result<Vec<FilePath>, String> {
        let mut open: Vec<(String, Vec<(&'static str, bool)>)> = Vec::new();
        let mut last = false;
        loop {
            let input = match scan.next_action() {
                ScanAction::OpenDir(p) => match self.list(&p.display()) {
                    Some(mut entries) => {
                        entries.reverse();
                        open.push((p.display(), entries));
                        ScanInput::Opened
                    }
                    None => ScanInput::OpenFailed,
                },
                ScanAction::NextEntry => match open.last_mut().unwrap().1.pop() {
                    Some((name, is_dir)) => {
                        last = is_dir;
                        ScanInput::Entry(name.as_bytes().to_vec())
                    }
                    None => {
                        open.pop();
                        ScanInput::NoMoreEntries
                    }
                },
                ScanAction::Check(_) => {
                    ScanInput::Is(if last { EntryKind::Dir } else { EntryKind::File })
                }
                ScanAction::Finish => return scan.finish(),
            };
            scan.collect_files(input);
        }
    }
}

fn paths(names: &[&str]) -> Vec<FilePath> {
    names.iter().map(|n| FilePath::from_text(n)).collect()
}

#[test]
fn discovers_nested_files_skips_hidden_and_target() {
    let disk = Disk {
        dirs: vec![
            (
                "root",
                vec![
                    ("target", true),
                    ("src", true),
                    (".git", true),
                    ("README.md", false),
                    (".hidden", false),
                ],
            ),
            ("root/src", vec![("main.rs", false)]),
            ("root/target", vec![("debug", true)]),
            ("root/target/debug", vec![("sid", false)]),
            ("root/.git", vec![("config", false)]),
        ],
    };
    let files = disk.scan(Scan::new(FilePath::from_text("root"))).unwrap();
    let names: Vec<String> = files
        .iter()
        .map(|p| p.display().strip_prefix("root/").unwrap().to_string())
        .collect();
    assert!(names.contains(&"README.md".to_string()));
    assert!(names.contains(&"src/main.rs".to_string()));
    assert!(!names.iter().any(|p| p.starts_with("target")));
    assert!(!names.iter().any(|p| p.split('/').any(|c| c.starts_with('.'))));
    assert_eq!(names, vec!["README.md", "src/main.rs"]);
}

#[test]
fn explicit_list_unchanged() {
    let files =
        resolve_files(vec![FilePath::from_text("a.txt"), FilePath::from_text("b.txt")]).unwrap();
    assert_eq!(files, vec![FilePath::from_text("a.txt"), FilePath::from_text("b.txt")]);
}

#[test]
fn explicit_list_keeps_its_order() {
    let files = resolve_files(paths(&["z", ".hidden", "a", "z"])).unwrap();
    assert_eq!(files, paths(&["z", ".hidden", "a", "z"]));
}

#[test]
fn no_list_scans_the_current_directory() {
    let disk = Disk {
        dirs: vec![
            (".", vec![("b-c", false), ("b", true), ("a", false), ("dist", true)]),
            ("./b", vec![("z", false), ("a", true)]),
            ("./b/a", vec![("build", true), ("x", false)]),
        ],
    };
    let scan = resolve_files(Vec::new()).unwrap_err();
    assert_eq!(
        disk.scan(scan).unwrap(),
        paths(&["./a", "./b/a/x", "./b/z", "./b-c"])
    );
}

#[test]
fn names() {
    let bytes = |name: &str| name.as_bytes().to_vec();
    for name in ["target", "node_modules", "__pycache__", "dist", "build", ".git"] {
        assert!(skips_dir(&bytes(name)), "{name}");
    }
    for name in ["a", "target2", "targe", "Target", "distant", "", "é"] {
        assert!(!skips_dir(&bytes(name)), "{name}");
    }
    for name in [".", ".x", ".git"] {
        assert!(is_hidden(&bytes(name)), "{name}");
    }
    for name in ["", "a", "a.b", "build"] {
        assert!(!is_hidden(&bytes(name)), "{name}");
    }
    assert!(!is_hidden(&vec![0xff, b'a']));
}

#[test]
fn files_named_like_build_directories_are_listed() {
    let disk = Disk {
        dirs: vec![
            (".", vec![("build", false), ("dist", true), ("sub", true), ("target", false)]),
            ("./dist", vec![("x", false)]),
            ("./sub", vec![("node_modules", false), ("build", true)]),
            ("./sub/build", vec![("y", false)]),
        ],
    };
    let scan = resolve_files(Vec::new()).unwrap_err();
    assert_eq!(
        disk.scan(scan).unwrap(),
        paths(&["./build", "./sub/node_modules", "./target"])
    );
}

#[test]
fn names_that_are_not_text_are_listed() {
    let mut scan = Scan::new(FilePath::from_text("d"));
    scan.collect_files(ScanInput::Opened);
    scan.collect_files(ScanInput::Entry(vec![0xff]));
    scan.collect_files(ScanInput::Is(EntryKind::File));
    scan.collect_files(ScanInput::NoMoreEntries);
    assert_eq!(scan.finish().unwrap(), vec![FilePath { bytes: vec![b'd', b'/', 0xff] }]);
}

#[test]
fn the_order_of_listing_does_not_matter() {
    let listing = |turned: bool| {
        let mut top = vec![("b", true), ("a", false), ("b-c", false)];
        let mut sub = vec![("z", false), ("y", false)];
        if turned {
            top.reverse();
            sub.reverse();
        }
        Disk { dirs: vec![("r", top), ("r/b", sub)] }
    };
    let one = listing(false).scan(Scan::new(FilePath::from_text("r"))).unwrap();
    let other = listing(true).scan(Scan::new(FilePath::from_text("r"))).unwrap();
    assert_eq!(one, other);
    assert_eq!(one, paths(&["r/a", "r/b/y", "r/b/z", "r/b-c"]));
}

#[test]
fn entries_that_are_neither_are_left_out() {
    let mut scan = Scan::new(FilePath::from_text("d"));
    scan.collect_files(ScanInput::Opened);
    scan.collect_files(ScanInput::Entry(b"link".to_vec()));
    scan.collect_files(ScanInput::Is(EntryKind::Other));
    scan.collect_files(ScanInput::NoMoreEntries);
    assert!(matches!(scan.next_action(), ScanAction::Finish));
    assert_eq!(scan.finish().unwrap(), Vec::new());
}

#[test]
fn scan_failures() {
    let mut scan = Scan::new(FilePath::from_text("d"));
    scan.collect_files(ScanInput::OpenFailed);
    assert_eq!(scan.finish().unwrap_err(), "reading directory d");

    let mut scan = Scan::new(FilePath::from_text("d"));
    scan.collect_files(ScanInput::Opened);
    scan.collect_files(ScanInput::EntryFailed);
    assert_eq!(scan.finish().unwrap_err(), "reading entry in d");

    let mut scan = Scan::new(FilePath::from_text("d"));
    scan.collect_files(ScanInput::Opened);
    scan.collect_files(ScanInput::Entry(b"f".to_vec()));
    scan.collect_files(ScanInput::CheckFailed);
    assert_eq!(scan.finish().unwrap_err(), "stat d/f");

    let mut scan = Scan::new(FilePath::from_text("d"));
    scan.collect_files(ScanInput::Opened);
    scan.collect_files(ScanInput::Entry(b"target".to_vec()));
    scan.collect_files(ScanInput::CheckFailed);
    scan.collect_files(ScanInput::NoMoreEntries);
    assert_eq!(scan.finish().unwrap(), Vec::new());
}

#[test]
fn path_order_is_by_parts() {
    let first = |a: &str, b: &str| comes_first(&FilePath::from_text(a), &FilePath::from_text(b));
    assert!(first("a", "b"));
    assert!(!first("b", "a"));
    assert!(first("a/z", "a-b"));
    assert!(!first("a-b", "a/z"));
    assert!(first("a", "a/b"));
    assert!(first("same", "same"));
    for (a, b) in [("./a/b", "./a.b"), ("x/y", "x y"), ("m", "n/o"), ("a/b/c", "a/b")] {
        assert_eq!(first(a, b), std::path::Path::new(a) <= std::path::Path::new(b), "{a} {b}");
    }
}

#[test]
fn path_parts() {
    assert!(FilePath::from_text("/usr/bin/sed").is_absolute());
    assert!(!FilePath::from_text("sed").is_absolute());
    for p in ["sed", "./sed", "bin/sed", "/sed", "a//b/", "a/./b", "", "..", "./.", "/"] {
        assert_eq!(
            FilePath::from_text(p).component_count(),
            std::path::Path::new(p).components().count(),
            "{p}"
        );
    }
    let joined = FilePath::from_text("dir").join(&b"name".to_vec());
    assert_eq!(joined, FilePath::from_text("dir/name"));
    let joined = FilePath::from_text("/").join(&b"name".to_vec());
    assert_eq!(joined, FilePath::from_text("/name"));
}

#[test]
fn path_shown_with_replacement() {
    let p = FilePath { bytes: vec![b'a', 0xff, b'b'] };
    assert_eq!(p.display(), "a\u{FFFD}b");
    assert_eq!(FilePath::from_text("a/é.txt").display(), "a/é.txt");
}
