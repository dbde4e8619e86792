use rendergit::source::{detect_source, RepoSource};

#[test]
fn test_detect_source_urls() {
    match detect_source("https://github.com/owner/repo", false) {
        RepoSource::Remote(u) => assert_eq!(u, "https://github.com/owner/repo"),
        RepoSource::Local(_) => panic!("expected a remote source"),
    }
    match detect_source("git@github.com:owner/repo.git", false) {
        RepoSource::Remote(u) => assert_eq!(u, "git@github.com:owner/repo.git"),
        RepoSource::Local(_) => panic!("expected a remote source"),
    }
}

#[test]
fn test_detect_source_local() {
    match detect_source("https://github.com/owner/repo", true) {
        RepoSource::Local(p) => assert_eq!(p, "https://github.com/owner/repo"),
        RepoSource::Remote(_) => panic!("an existing directory is local"),
    }
    match detect_source("some/relative/path", false) {
        RepoSource::Local(p) => assert_eq!(p, "some/relative/path"),
        RepoSource::Remote(_) => panic!("a non-URL input is tried as local"),
    }
}
