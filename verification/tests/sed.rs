use sid::path::FilePath;
use sid::sed::{
    apply_error, filter_output, resolve_sed_bin, run_apply, sed_not_found, spawn_error,
    stdin_args, switch_text, SedBin, SedExit,
};

fn exit(code: Option<i32>, stdout: &[u8], stderr: &[u8]) -> SedExit {
    SedExit {
        success: code == Some(0),
        code,
        stdout: stdout.to_vec(),
        stderr: stderr.to_vec(),
    }
}

fn args(words: &[&str]) -> Vec<Vec<u8>> {
    words.iter().map(|w| w.as_bytes().to_vec()).collect()
}

#[test]
fn filter_arguments() {
    assert_eq!(stdin_args("s/é/b/"), args(&["-e", "s/é/b/"]));
}

#[test]
fn apply_arguments() {
    let files = vec![FilePath::from_text("sample.txt"), FilePath { bytes: vec![0xff] }];
    let mut plain = args(&["-i", "-e", "s/foo/baz/", "--", "sample.txt"]);
    plain.push(vec![0xff]);
    assert_eq!(run_apply("s/foo/baz/", &files, &None), Ok(plain.clone()));
    assert_eq!(run_apply("s/foo/baz/", &files, &Some(String::new())), Ok(plain.clone()));
    plain[0] = b"-i.bak".to_vec();
    assert_eq!(run_apply("s/foo/baz/", &files, &Some(".bak".to_string())), Ok(plain));
}

#[test]
fn nothing_to_apply() {
    let files = vec![FilePath::from_text("f")];
    for blank in ["", " ", "\t\n\u{a0}\u{2003}\u{3000}"] {
        assert_eq!(run_apply(blank, &files, &None), Err("empty sed expression".to_string()));
        assert_eq!(run_apply(blank, &Vec::new(), &None), Err("empty sed expression".to_string()));
    }
    assert_eq!(run_apply("p", &Vec::new(), &None), Err("no files to apply".to_string()));
}

#[test]
fn switches() {
    assert_eq!(switch_text(&None), "-i");
    assert_eq!(switch_text(&Some("~".to_string())), "-i~");
}

#[test]
fn filter_outcomes() {
    assert_eq!(filter_output(exit(Some(0), b"hello rust\n", b"x")), Ok("hello rust\n".to_string()));
    assert_eq!(
        filter_output(exit(Some(0), &[0xff], b"")),
        Err("sed stdout was not valid UTF-8".to_string())
    );
    assert_eq!(
        filter_output(exit(Some(1), b"", b"  sed: -e expression \xff\n")),
        Err("sed exited 1: sed: -e expression \u{FFFD}".to_string())
    );
    assert_eq!(filter_output(exit(None, b"", b"")), Err("sed exited -1: ".to_string()));
}

#[test]
fn apply_outcomes() {
    assert_eq!(apply_error(&exit(Some(0), b"", b"warning")), None);
    assert_eq!(
        apply_error(&exit(Some(4), b"", "\u{2028}couldn't open\n".as_bytes())),
        Some("sed apply failed (4): couldn't open".to_string())
    );
    assert_eq!(apply_error(&exit(None, b"", b"")), Some("sed apply failed (-1): ".to_string()));
    assert_eq!(
        apply_error(&exit(Some(-2147483648), b"", b"")),
        Some("sed apply failed (-2147483648): ".to_string())
    );
}

#[test]
fn sed_that_does_not_start() {
    assert_eq!(spawn_error(&FilePath::from_text("/no/sed")), "failed to spawn /no/sed");
    assert_eq!(sed_not_found(&FilePath::from_text("gsed")), "sed binary not found: gsed");
}

#[test]
fn where_sed_is() {
    for p in ["/usr/bin/sed", "bin/sed", "./sed", "/", "../sed"] {
        assert!(matches!(resolve_sed_bin(FilePath::from_text(p)), SedBin::At(q) if q.display() == p));
    }
    for p in ["sed", "gsed", "sed/", ""] {
        assert!(
            matches!(resolve_sed_bin(FilePath::from_text(p)), SedBin::Search(q) if q.display() == p)
        );
    }
}
