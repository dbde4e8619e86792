use rendergit::classify::{collect_files, ScannedFile};
use rendergit::html::{build_html, files_with_reason, render_skip_list, rendered_files, toc_html};
use rendergit::tree::TreeEntry;

fn scanned(rel: &str, size: u64, probe: Option<Vec<u8>>) -> ScannedFile {
    ScannedFile { path: format!("/repo/{}", rel), rel: rel.to_string(), size, probe }
}

fn dir(name: &str, children: Vec<TreeEntry>) -> TreeEntry {
    TreeEntry { name: name.to_string(), is_dir: true, children }
}

fn file(name: &str) -> TreeEntry {
    TreeEntry { name: name.to_string(), is_dir: false, children: Vec::new() }
}

fn sample_tree() -> TreeEntry {
    dir(
        "repo",
        vec![file("a.md"), file("b.py"), file("big.txt"), file("img.png")],
    )
}

fn sample_infos() -> Vec<rendergit::classify::FileInfo> {
    // A markdown file, a code file, a binary-signature image and an
    // oversized file, against a 50-byte threshold.
    let png_sig = vec![0x89, b'P', b'N', b'G', 0x0d, 0x0a, 0x1a, 0x0a];
    let files = vec![
        scanned("img.png", 8, Some(png_sig)),
        scanned("big.txt", 100, Some(b"xxxxx".to_vec())),
        scanned("b.py", 8, Some(b"print(1)".to_vec())),
        scanned("a.md", 4, Some(b"# Hi".to_vec())),
    ];
    collect_files(&files, 50)
}

#[test]
fn test_round_trip_classification() {
    let infos = sample_infos();
    let rels: Vec<&str> = infos.iter().map(|f| f.rel.as_str()).collect();
    assert_eq!(rels, vec!["a.md", "b.py", "big.txt", "img.png"]);
    assert_eq!(infos[0].decision.reason, "ok");
    assert_eq!(infos[1].decision.reason, "ok");
    assert_eq!(infos[2].decision.reason, "too_large");
    assert_eq!(infos[3].decision.reason, "binary");
    let rendered = rendered_files(&infos);
    let binaries = files_with_reason(&infos, "binary");
    let larges = files_with_reason(&infos, "too_large");
    let ignored = files_with_reason(&infos, "ignored");
    assert_eq!(rendered.len() + binaries.len() + larges.len() + ignored.len(), 4);
    assert_eq!(rendered.len(), 2);
    assert_eq!(binaries.len() + larges.len(), 2);
}

#[test]
fn test_round_trip_page() {
    let infos = sample_infos();
    let contents = vec![Ok("# Hi".to_string()), Ok("print(1)".to_string())];
    let tree = sample_tree();
    let html = build_html("https://example.com/owner/repo", "abcdef12", &tree, &infos, &contents);
    // Counts in the metadata block.
    assert!(html.contains("<strong>Total files:</strong> 4"));
    assert!(html.contains("<strong>Rendered:</strong> 2"));
    assert!(html.contains("<strong>Skipped:</strong> 2"));
    // The markdown file is rendered as a heading, the code file highlighted.
    assert!(html.contains("<h1>Hi</h1>"));
    assert!(html.contains("<div class=\"highlight\"><pre>"));
    // Skipped files stand in the skip lists, not in the table of contents.
    assert!(html.contains("Skipped binaries (1)"));
    assert!(html.contains("Skipped large files (1)"));
    assert!(html.contains("<li><code>img.png</code>"));
    assert!(!html.contains("<a href=\"#file-img-png\">"));
    assert!(!html.contains("<a href=\"#file-big-txt\">"));
    // The rendered files are in the table of contents and the machine view.
    assert!(html.contains("<a href=\"#file-a-md\">"));
    assert!(html.contains("<a href=\"#file-b-py\">"));
    assert!(html.contains("&lt;document index=\"1\"&gt;"));
    assert!(html.contains("&lt;source&gt;a.md&lt;/source&gt;"));
    assert!(!html.contains("&lt;source&gt;img.png&lt;/source&gt;"));
}

#[test]
fn test_page_idempotent() {
    let infos = sample_infos();
    let contents = vec![Ok("# Hi".to_string()), Ok("print(1)".to_string())];
    let tree = sample_tree();
    let h1 = build_html("https://example.com/r", "rev1", &tree, &infos, &contents);
    let h2 = build_html("https://example.com/r", "rev1", &tree, &infos, &contents);
    assert_eq!(h1, h2);
    let c1 = rendergit::cxml::generate_cxml(&infos, &contents);
    let c2 = rendergit::cxml::generate_cxml(&infos, &contents);
    assert_eq!(c1, c2);
}

#[test]
fn test_skip_list_markup() {
    let infos = sample_infos();
    let larges = files_with_reason(&infos, "too_large");
    let markup = render_skip_list("Skipped large files", &larges);
    assert_eq!(
        markup,
        "<details open><summary>Skipped large files (1)</summary><ul class='skip-list'>\n<li><code>big.txt</code> <span class='muted'>(100 B)</span></li>\n</ul></details>"
    );
    let empty = render_skip_list("Skipped binaries", &Vec::new());
    assert_eq!(empty, "");
}

#[test]
fn test_toc_markup() {
    let infos = sample_infos();
    let rendered = rendered_files(&infos);
    let toc = toc_html(&rendered);
    assert_eq!(
        toc,
        "<li><a href=\"#file-a-md\">a.md</a> <span class=\"muted\">(4 B)</span></li>\n<li><a href=\"#file-b-py\">b.py</a> <span class=\"muted\">(8 B)</span></li>"
    );
}

#[test]
fn test_git_files_silently_excluded() {
    let files = vec![
        scanned(".git/config", 3, Some(b"abc".to_vec())),
        scanned("a.txt", 3, Some(b"abc".to_vec())),
    ];
    let infos = collect_files(&files, 50);
    assert_eq!(infos[0].decision.reason, "ignored");
    let contents = vec![Ok("abc".to_string())];
    let tree = dir("repo", vec![file("a.txt")]);
    let html = build_html("url", "rev", &tree, &infos, &contents);
    // Ignored files appear in no skip list, no section and no count but
    // the total.
    assert!(html.contains("<strong>Total files:</strong> 2"));
    assert!(html.contains("<strong>Rendered:</strong> 1"));
    assert!(html.contains("<strong>Skipped:</strong> 0"));
    assert!(!html.contains("<li><code>.git/config</code>"));
    assert!(!html.contains("<a href=\"#file--git-config\">"));
}
