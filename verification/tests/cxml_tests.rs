use rendergit::classify::{FileInfo, RenderDecision};
use rendergit::cxml::generate_cxml;

fn info(rel: &str, size: u64, included: bool, reason: &str) -> FileInfo {
    FileInfo {
        path: rel.to_string(),
        rel: rel.to_string(),
        size,
        decision: RenderDecision { included, reason: reason.to_string() },
    }
}

#[test]
fn test_generate_cxml() {
    let files = vec![info("test.txt", 100, true, "ok")];
    let contents = vec![Err("No such file or directory (os error 2)".to_string())];
    let content = generate_cxml(&files, &contents);
    assert!(content.contains("<documents>"));
    assert!(content.contains("<source>test.txt</source>"));
    assert!(content.contains("</documents>"));
}

#[test]
fn test_generate_cxml_exact() {
    let files = vec![info("a.txt", 5, true, "ok")];
    let contents = vec![Ok("hello".to_string())];
    let content = generate_cxml(&files, &contents);
    assert_eq!(
        content,
        "<documents>\n<document index=\"1\">\n<source>a.txt</source>\n<document_content>\nhello\n</document_content>\n</document>\n</documents>"
    );
}

#[test]
fn test_cxml_indexes_follow_record_order() {
    // Indexes run 1..N over the rendered files only, in record order.
    let files = vec![
        info("a.md", 4, true, "ok"),
        info("b.py", 8, true, "ok"),
        info("img.png", 4, false, "binary"),
        info("z.txt", 3, true, "ok"),
    ];
    let contents = vec![
        Ok("alpha".to_string()),
        Ok("beta".to_string()),
        Ok("gamma".to_string()),
    ];
    let content = generate_cxml(&files, &contents);
    let i1 = content.find("<document index=\"1\">\n<source>a.md</source>").unwrap();
    let i2 = content.find("<document index=\"2\">\n<source>b.py</source>").unwrap();
    let i3 = content.find("<document index=\"3\">\n<source>z.txt</source>").unwrap();
    assert!(i1 < i2 && i2 < i3);
    assert!(!content.contains("img.png"));
    assert!(!content.contains("<document index=\"4\">"));
}

#[test]
fn test_cxml_read_failure_placeholder() {
    let files = vec![info("gone.txt", 1, true, "ok")];
    let contents = vec![Err("gone".to_string())];
    let content = generate_cxml(&files, &contents);
    assert!(content.contains("<document_content>\nFailed to read: gone\n</document_content>"));
}
