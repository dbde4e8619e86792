use rendergit::classify::{
    collect_files, decide_file, is_binary_extension, is_git_path, looks_binary, ScannedFile,
};

fn scanned(rel: &str, size: u64, probe: Option<Vec<u8>>) -> ScannedFile {
    ScannedFile { path: format!("/tmp/{}", rel), rel: rel.to_string(), size, probe }
}

#[test]
fn test_looks_binary() {
    assert!(is_binary_extension(".png"));
    assert!(is_binary_extension(".exe"));
}

#[test]
fn test_binary_extension_set() {
    assert!(is_binary_extension(".woff2"));
    assert!(is_binary_extension(".7z"));
    assert!(!is_binary_extension(".rs"));
    assert!(!is_binary_extension("png"));
}

#[test]
fn test_nul_byte_means_binary() {
    // A NUL byte in the probe marks the file binary whatever its extension.
    assert!(looks_binary("notes.txt", &Some(vec![b'a', 0, b'b'])));
    assert!(looks_binary("x", &Some(vec![0])));
}

#[test]
fn test_invalid_utf8_means_binary() {
    assert!(looks_binary("notes.txt", &Some(vec![0xff, 0xfe, 0x01])));
    assert!(!looks_binary("notes.txt", &Some(b"hello world".to_vec())));
}

#[test]
fn test_known_extension_means_binary() {
    // The extension decides even when the content is valid UTF-8 text.
    assert!(looks_binary("img.png", &Some(b"plain text".to_vec())));
    assert!(looks_binary("UPPER.PNG", &Some(b"plain text".to_vec())));
    assert!(looks_binary("archive.tar.gz", &None));
    assert!(!looks_binary("main.rs", &Some(b"fn main() {}".to_vec())));
    // An unreadable probe falls through to not-binary.
    assert!(!looks_binary("mystery", &None));
}

#[test]
fn test_git_paths() {
    assert!(is_git_path(".git/config"));
    assert!(is_git_path("vendor/.git/HEAD"));
    assert!(is_git_path("a/b/.git/objects/x"));
    assert!(!is_git_path(".github/workflows/ci.yml"));
    assert!(!is_git_path("src/git.rs"));
    assert!(!is_git_path(".git"));
}

#[test]
fn test_decide_precedence_ignored() {
    let f = scanned(".git/config", 5, Some(b"[core]".to_vec()));
    let info = decide_file(&f, 10);
    assert!(!info.decision.included);
    assert_eq!(info.decision.reason, "ignored");
}

#[test]
fn test_decide_precedence_too_large() {
    // Too-large wins over binary content.
    let f = scanned("big.png", 100, Some(vec![0u8; 4]));
    let info = decide_file(&f, 10);
    assert!(!info.decision.included);
    assert_eq!(info.decision.reason, "too_large");
}

#[test]
fn test_decide_binary_and_ok() {
    let b = decide_file(&scanned("img.png", 4, None), 10);
    assert_eq!(b.decision.reason, "binary");
    assert!(!b.decision.included);
    let ok = decide_file(&scanned("a.md", 4, Some(b"# Hi".to_vec())), 10);
    assert_eq!(ok.decision.reason, "ok");
    assert!(ok.decision.included);
}

#[test]
fn test_collect_files_sorted() {
    let files = vec![
        scanned("z.txt", 1, Some(b"z".to_vec())),
        scanned("a/b.txt", 1, Some(b"b".to_vec())),
        scanned("m.txt", 1, Some(b"m".to_vec())),
        scanned("a.txt", 1, Some(b"a".to_vec())),
    ];
    let infos = collect_files(&files, 100);
    let rels: Vec<&str> = infos.iter().map(|f| f.rel.as_str()).collect();
    assert_eq!(rels, vec!["a.txt", "a/b.txt", "m.txt", "z.txt"]);
    for w in infos.windows(2) {
        assert!(w[0].rel < w[1].rel);
    }
}
