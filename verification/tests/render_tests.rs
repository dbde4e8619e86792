use rendergit::render::{highlight_code, is_markdown, render_file_body, render_markdown};

#[test]
fn test_render_markdown_heading() {
    let html = render_markdown("# Hi");
    assert!(html.contains("<h1>Hi</h1>"));
}

#[test]
fn test_render_markdown_not_identity() {
    let html = render_markdown("*emph*");
    assert!(html.contains("<em>emph</em>"));
    assert_ne!(html, "*emph*");
}

#[test]
fn test_is_markdown_lowercases() {
    assert!(is_markdown("README.md"));
    assert!(is_markdown("A.MD"));
    assert!(is_markdown("notes.MkDn"));
    assert!(is_markdown("x.markdown"));
    assert!(!is_markdown("main.rs"));
    assert!(!is_markdown("mdfile.txt"));
}

#[test]
fn test_highlight_code_python() {
    let html = highlight_code("print(1)\n", "b.py");
    assert!(html.starts_with("<div class=\"highlight\"><pre>"));
    assert!(html.ends_with("</pre></div>"));
    assert!(html.contains("<span"));
    assert!(html.contains("print"));
}

#[test]
fn test_highlight_escapes_content() {
    // The plain-text fallback still escapes markup in the source.
    let html = highlight_code("a < b && c > d\n", "data.weirdext");
    assert!(html.contains("&lt;"));
    assert!(html.contains("&gt;"));
    assert!(!html.contains("a < b"));
}

#[test]
fn test_render_file_body_read_failure() {
    let body = render_file_body("gone.rs", &Err("boom".to_string()));
    assert_eq!(body, "<pre class=\"error\">Failed to read: boom</pre>");
}

#[test]
fn test_render_file_body_dispatch() {
    let md = render_file_body("a.md", &Ok("# Hi".to_string()));
    assert!(md.contains("<h1>Hi</h1>"));
    let code = render_file_body("b.py", &Ok("print(1)\n".to_string()));
    assert!(code.starts_with("<div class=\"highlight\"><pre>"));
}
