use vstd::prelude::*;

use crate::utils::str_eq;

verus! {

broadcast use vstd::string::group_string_axioms;

/// Which revision of a remote repository the run works on.
#[derive(Debug, Clone)]
pub enum GitRef {
    Branch(String),
    Tag(String),
    Commit(String),
    Default,
}

/// Where the tree comes from: a directory already on disk, or a remote
/// repository to fetch first.
pub enum RepoSource {
    Local(String),
    Remote(String),
}

/// `p` is a prefix of `s`.
pub open spec fn starts_with(s: Seq<char>, p: Seq<char>) -> bool {
    p.len() <= s.len() && s.take(p.len() as int) == p
}

pub fn str_starts_with(s: &str, p: &str) -> (r: bool)
    ensures
        r == starts_with(s@, p@),
{
    let slen = s.unicode_len();
    let plen = p.unicode_len();
    if plen > slen {
        return false;
    }
    let prefix = s.substring_char(0, plen);
    proof {
        assert(prefix@ =~= s@.take(plen as int));
    }
    str_eq(prefix, p)
}

/// The input names a remote repository: an HTTP, HTTPS or SSH-style URL.
pub open spec fn is_remote_url(s: Seq<char>) -> bool {
    starts_with(s, "http://"@) || starts_with(s, "https://"@) || starts_with(s, "git@"@)
}

/// Decide whether an input string names a local directory or a remote
/// repository. `exists_as_dir` says whether the input, taken as a path,
/// is a directory on disk: an existing directory is always local; otherwise
/// a URL shape makes the input remote, and anything else is tried as a
/// local path.
pub fn detect_source(input: &str, exists_as_dir: bool) -> (r: RepoSource)
    ensures
        match r {
            RepoSource::Local(p) => p@ == input@ && (exists_as_dir || !is_remote_url(input@)),
            RepoSource::Remote(u) => u@ == input@ && !exists_as_dir && is_remote_url(input@),
        },
{
    if exists_as_dir {
        RepoSource::Local(String::from_str(input))
    } else if str_starts_with(input, "http://") || str_starts_with(input, "https://")
        || str_starts_with(input, "git@") {
        RepoSource::Remote(String::from_str(input))
    } else {
        RepoSource::Local(String::from_str(input))
    }
}

} // verus!
