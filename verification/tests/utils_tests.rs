use rendergit::utils::{bytes_human, derive_repo_name, html_escape, slugify, u64_to_dec};

#[test]
fn test_bytes_human() {
    assert_eq!(bytes_human(512), "512 B");
    assert_eq!(bytes_human(1024), "1.0 KiB");
    assert_eq!(bytes_human(1536), "1.5 KiB");
    assert_eq!(bytes_human(1048576), "1.0 MiB");
}

#[test]
fn test_bytes_human_edges() {
    assert_eq!(bytes_human(0), "0 B");
    assert_eq!(bytes_human(1023), "1023 B");
    assert_eq!(bytes_human(1073741824), "1.0 GiB");
    assert_eq!(bytes_human(1099511627776), "1.0 TiB");
}

#[test]
fn test_derive_repo_name() {
    assert_eq!(derive_repo_name("https://github.com/owner/repo"), "repo");
    assert_eq!(derive_repo_name("https://github.com/owner/repo.git"), "repo");
}

#[test]
fn test_derive_repo_name_edges() {
    assert_eq!(derive_repo_name("https://github.com/owner/repo/"), "repo");
    assert_eq!(derive_repo_name("plain"), "repo");
    assert_eq!(derive_repo_name("a/b"), "b");
}

#[test]
fn test_slugify() {
    assert_eq!(slugify("src/main.rs"), "src-main-rs");
    assert_eq!(slugify("README.md"), "README-md");
}

#[test]
fn test_html_escape() {
    assert_eq!(html_escape("a<b&c>d"), "a&lt;b&amp;c&gt;d");
    assert_eq!(html_escape("plain"), "plain");
    assert_eq!(html_escape(""), "");
}

#[test]
fn test_u64_to_dec() {
    assert_eq!(u64_to_dec(0), "0");
    assert_eq!(u64_to_dec(90210), "90210");
    assert_eq!(u64_to_dec(u64::MAX), "18446744073709551615");
}
