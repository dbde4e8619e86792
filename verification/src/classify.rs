use vstd::prelude::*;

use crate::utils::{last_char_pos, last_pos, lex_le, lower_of, lowercase, str_eq, str_le};

verus! {

broadcast use vstd::string::group_string_axioms;

/// Whether a file's content is rendered, and why or why not.
pub struct RenderDecision {
    pub included: bool,
    pub reason: String,
}

/// Ghost form of a `RenderDecision`.
pub ghost struct RenderDecisionV {
    pub included: bool,
    pub reason: Seq<char>,
}

impl View for RenderDecision {
    type V = RenderDecisionV;

    open spec fn view(&self) -> RenderDecisionV {
        RenderDecisionV { included: self.included, reason: self.reason@ }
    }
}

/// One classified file of the tree.
pub struct FileInfo {
    /// Location on disk, used only to fetch content later.
    pub path: String,
    /// Slash-separated path relative to the tree root; the sort key.
    pub rel: String,
    /// Size in bytes at scan time.
    pub size: u64,
    pub decision: RenderDecision,
}

/// Ghost form of a `FileInfo`.
pub ghost struct FileInfoV {
    pub path: Seq<char>,
    pub rel: Seq<char>,
    pub size: u64,
    pub decision: RenderDecisionV,
}

impl View for FileInfo {
    type V = FileInfoV;

    open spec fn view(&self) -> FileInfoV {
        FileInfoV {
            path: self.path@,
            rel: self.rel@,
            size: self.size,
            decision: self.decision@,
        }
    }
}

/// One file as the walk of the tree hands it in, before classification:
/// its paths, its size, and the first bytes of its content (`None` when
/// the file could not be opened for the probe).
pub struct ScannedFile {
    pub path: String,
    pub rel: String,
    pub size: u64,
    pub probe: Option<Vec<u8>>,
}

/// Ghost form of a `ScannedFile`.
pub ghost struct ScannedFileV {
    pub path: Seq<char>,
    pub rel: Seq<char>,
    pub size: u64,
    pub probe: Option<Seq<u8>>,
}

impl View for ScannedFile {
    type V = ScannedFileV;

    open spec fn view(&self) -> ScannedFileV {
        ScannedFileV {
            path: self.path@,
            rel: self.rel@,
            size: self.size,
            probe: match self.probe {
                Some(v) => Some(v@),
                None => None,
            },
        }
    }
}

/// How many bytes of a file the binary probe reads at most.
pub const PROBE_LEN: usize = 8192;

/// The relative path starts with a `.git/` segment or contains one.
pub open spec fn has_git_segment(rel: Seq<char>) -> bool {
    (rel.len() >= 5 && rel.take(5) == ".git/"@) || (exists|i: int|
        0 <= i && i + 6 <= rel.len() && #[trigger] rel.subrange(i, i + 6) == "/.git/"@)
}

/// Decide whether a relative path falls under a `.git` directory.
pub fn is_git_path(rel: &str) -> (r: bool)
    ensures
        r == has_git_segment(rel@),
{
    let len = rel.unicode_len();
    if len >= 5 {
        let prefix = rel.substring_char(0, 5);
        proof {
            assert(prefix@ =~= rel@.take(5));
        }
        if str_eq(prefix, ".git/") {
            return true;
        }
    }
    if len < 6 {
        return false;
    }
    let mut i: usize = 0;
    while i <= len - 6
        invariant
            len == rel@.len(),
            len >= 6,
            i <= len,
            forall|j: int| 0 <= j < i ==> #[trigger] rel@.subrange(j, j + 6) != "/.git/"@,
        decreases len - i,
    {
        let sub = rel.substring_char(i, i + 6);
        if str_eq(sub, "/.git/") {
            proof {
                assert(rel@.subrange(i as int, i + 6) == "/.git/"@);
            }
            return true;
        }
        i += 1;
    }
    false
}

/// The file-name part of a relative path: what follows the last `/`.
pub open spec fn file_name_of(rel: Seq<char>) -> Seq<char> {
    rel.skip(last_pos(rel, '/') + 1)
}

/// The extension of a file name: what follows the last `.`, provided that
/// dot is neither absent nor the first character of the name.
pub open spec fn extension_of(rel: Seq<char>) -> Option<Seq<char>> {
    let name = file_name_of(rel);
    let j = last_pos(name, '.');
    if j > 0 {
        Some(name.skip(j + 1))
    } else {
        None
    }
}

/// Extract the extension of the file a relative path points at.
pub fn extension_str(rel: &str) -> (r: Option<String>)
    ensures
        match r {
            Some(e) => extension_of(rel@) == Some(e@),
            None => extension_of(rel@) is None,
        },
{
    let len = rel.unicode_len();
    let start: usize = match last_char_pos(rel, '/') {
        Some(k) => k + 1,
        None => 0,
    };
    let name = rel.substring_char(start, len);
    proof {
        assert(name@ =~= file_name_of(rel@));
    }
    match last_char_pos(name, '.') {
        Some(j) => {
            if j > 0 {
                let nlen = name.unicode_len();
                let ext = name.substring_char(j + 1, nlen);
                proof {
                    assert(ext@ =~= file_name_of(rel@).skip(j + 1));
                }
                Some(String::from_str(ext))
            } else {
                None
            }
        },
        None => None,
    }
}

/// The fixed set of file extensions always taken as binary, each in its
/// dotted lowercase form.
pub open spec fn is_binary_ext(e: Seq<char>) -> bool {
    ||| e == ".png"@
    ||| e == ".jpg"@
    ||| e == ".jpeg"@
    ||| e == ".gif"@
    ||| e == ".webp"@
    ||| e == ".bmp"@
    ||| e == ".svg"@
    ||| e == ".ico"@
    ||| e == ".pdf"@
    ||| e == ".zip"@
    ||| e == ".tar"@
    ||| e == ".gz"@
    ||| e == ".bz2"@
    ||| e == ".xz"@
    ||| e == ".7z"@
    ||| e == ".rar"@
    ||| e == ".mp3"@
    ||| e == ".mp4"@
    ||| e == ".mov"@
    ||| e == ".avi"@
    ||| e == ".mkv"@
    ||| e == ".wav"@
    ||| e == ".ogg"@
    ||| e == ".flac"@
    ||| e == ".ttf"@
    ||| e == ".otf"@
    ||| e == ".eot"@
    ||| e == ".woff"@
    ||| e == ".woff2"@
    ||| e == ".so"@
    ||| e == ".dll"@
    ||| e == ".dylib"@
    ||| e == ".class"@
    ||| e == ".jar"@
    ||| e == ".exe"@
    ||| e == ".bin"@
}

/// Membership in the known-binary extension set.
pub fn is_binary_extension(e: &str) -> (r: bool)
    ensures
        r == is_binary_ext(e@),
{
    str_eq(e, ".png") || str_eq(e, ".jpg") || str_eq(e, ".jpeg") || str_eq(e, ".gif") || str_eq(
        e,
        ".webp",
    ) || str_eq(e, ".bmp") || str_eq(e, ".svg") || str_eq(e, ".ico") || str_eq(e, ".pdf") || str_eq(
        e,
        ".zip",
    ) || str_eq(e, ".tar") || str_eq(e, ".gz") || str_eq(e, ".bz2") || str_eq(e, ".xz") || str_eq(
        e,
        ".7z",
    ) || str_eq(e, ".rar") || str_eq(e, ".mp3") || str_eq(e, ".mp4") || str_eq(e, ".mov") || str_eq(
        e,
        ".avi",
    ) || str_eq(e, ".mkv") || str_eq(e, ".wav") || str_eq(e, ".ogg") || str_eq(e, ".flac")
        || str_eq(e, ".ttf") || str_eq(e, ".otf") || str_eq(e, ".eot") || str_eq(e, ".woff")
        || str_eq(e, ".woff2") || str_eq(e, ".so") || str_eq(e, ".dll") || str_eq(e, ".dylib")
        || str_eq(e, ".class") || str_eq(e, ".jar") || str_eq(e, ".exe") || str_eq(e, ".bin")
}

/// Relies on `core::str::from_utf8`: it returns `Ok` exactly when the bytes
/// are valid UTF-8, as `vstd::utf8::valid_utf8` states it.
#[verifier::external_body]
fn bytes_are_utf8(b: &[u8]) -> (r: bool)
    ensures
        r == vstd::utf8::valid_utf8(b@),
{
    core::str::from_utf8(b).is_ok()
}

/// Some byte of the probe is NUL.
pub open spec fn has_nul(p: Seq<u8>) -> bool {
    exists|i: int| 0 <= i < p.len() && p[i] == 0
}

/// A file looks binary when its dotted lowercase extension is in the known
/// set, or when the probe of its first bytes was readable and holds a NUL
/// byte or is not valid UTF-8.
pub open spec fn looks_binary_of(rel: Seq<char>, probe: Option<Seq<u8>>) -> bool {
    (match extension_of(rel) {
        Some(e) => is_binary_ext("."@ + lower_of(e)),
        None => false,
    }) || (match probe {
        Some(p) => has_nul(p) || !vstd::utf8::valid_utf8(p),
        None => false,
    })
}

/// Check whether a file looks binary, from its relative path and the probe
/// of its first bytes.
pub fn looks_binary(rel: &str, probe: &Option<Vec<u8>>) -> (r: bool)
    ensures
        r == looks_binary_of(
            rel@,
            match probe {
                Some(v) => Some(v@),
                None => None,
            },
        ),
{
    match extension_str(rel) {
        Some(e) => {
            let lowered = lowercase(e.as_str());
            let mut dotted = String::from_str(".");
            dotted.append(lowered.as_str());
            proof {
                assert(dotted@ =~= "."@ + lower_of(e@));
            }
            if is_binary_extension(dotted.as_str()) {
                return true;
            }
        },
        None => {},
    }
    match probe {
        Some(bytes) => probe_is_binary(bytes),
        None => false,
    }
}

/// A readable probe marks a file binary when it holds a NUL byte or is not
/// valid UTF-8.
pub fn probe_is_binary(bytes: &Vec<u8>) -> (r: bool)
    ensures
        r == (has_nul(bytes@) || !vstd::utf8::valid_utf8(bytes@)),
{
    let mut i: usize = 0;
    let n = bytes.len();
    while i < n
        invariant
            n == bytes@.len(),
            i <= n,
            forall|j: int| 0 <= j < i ==> bytes@[j] != 0,
        decreases n - i,
    {
        if bytes[i] == 0 {
            proof {
                assert(has_nul(bytes@));
            }
            return true;
        }
        i += 1;
    }
    !bytes_are_utf8(bytes.as_slice())
}

/// The decision for one file, in the classifier's order of precedence:
/// a `.git` path is ignored; then a file over the size threshold is too
/// large; then a binary-looking file is binary; everything else is rendered.
pub open spec fn spec_decision(
    rel: Seq<char>,
    size: u64,
    max_bytes: int,
    probe: Option<Seq<u8>>,
) -> RenderDecisionV {
    if has_git_segment(rel) {
        RenderDecisionV { included: false, reason: "ignored"@ }
    } else if size > max_bytes {
        RenderDecisionV { included: false, reason: "too_large"@ }
    } else if looks_binary_of(rel, probe) {
        RenderDecisionV { included: false, reason: "binary"@ }
    } else {
        RenderDecisionV { included: true, reason: "ok"@ }
    }
}

/// The record that classification makes of one scanned file.
pub open spec fn spec_decide(s: ScannedFileV, max_bytes: int) -> FileInfoV {
    FileInfoV {
        path: s.path,
        rel: s.rel,
        size: s.size,
        decision: spec_decision(s.rel, s.size, max_bytes, s.probe),
    }
}

/// A reason string is one of the four the classifier can give.
pub open spec fn valid_reason(r: Seq<char>) -> bool {
    r == "ok"@ || r == "binary"@ || r == "too_large"@ || r == "ignored"@
}

/// A decision is well formed: its reason is one of the four, and the file
/// is rendered exactly when the reason is `ok`.
pub open spec fn decision_wf(d: RenderDecisionV) -> bool {
    valid_reason(d.reason) && (d.included <==> d.reason == "ok"@)
}

/// Every decision the classifier makes is well formed.
pub proof fn lemma_decision_wf(rel: Seq<char>, size: u64, max_bytes: int, probe: Option<Seq<u8>>)
    ensures
        decision_wf(spec_decision(rel, size, max_bytes, probe)),
{
    reveal_strlit("ok");
    reveal_strlit("binary");
    reveal_strlit("too_large");
    reveal_strlit("ignored");
    assert("ok"@.len() == 2);
    assert("binary"@.len() == 6);
    assert("too_large"@.len() == 9);
    assert("ignored"@.len() == 7);
}

/// Classify one scanned file against the size threshold.
pub fn decide_file(file: &ScannedFile, max_bytes: usize) -> (r: FileInfo)
    ensures
        r@ == spec_decide(file@, max_bytes as int),
{
    let rel = file.rel.clone();
    let path = file.path.clone();
    let size = file.size;
    if is_git_path(rel.as_str()) {
        FileInfo {
            path,
            rel,
            size,
            decision: RenderDecision { included: false, reason: String::from_str("ignored") },
        }
    } else if size > max_bytes as u64 {
        FileInfo {
            path,
            rel,
            size,
            decision: RenderDecision { included: false, reason: String::from_str("too_large") },
        }
    } else if looks_binary(rel.as_str(), &file.probe) {
        FileInfo {
            path,
            rel,
            size,
            decision: RenderDecision { included: false, reason: String::from_str("binary") },
        }
    } else {
        FileInfo {
            path,
            rel,
            size,
            decision: RenderDecision { included: true, reason: String::from_str("ok") },
        }
    }
}

/// Order of two records: by relative path.
pub open spec fn file_le(a: FileInfoV, b: FileInfoV) -> bool {
    lex_le(a.rel, b.rel)
}

/// Where insertion sort puts one record into an already handled sequence.
pub open spec fn insert_sorted(x: FileInfoV, s: Seq<FileInfoV>) -> Seq<FileInfoV>
    decreases s.len(),
{
    if s.len() == 0 {
        seq![x]
    } else if file_le(x, s[0]) {
        seq![x] + s
    } else {
        seq![s[0]] + insert_sorted(x, s.drop_first())
    }
}

/// Insertion sort of the records, record by record from the left.
pub open spec fn sort_files(s: Seq<FileInfoV>) -> Seq<FileInfoV>
    decreases s.len(),
{
    if s.len() == 0 {
        s
    } else {
        insert_sorted(s.last(), sort_files(s.drop_last()))
    }
}

proof fn lemma_insert_sorted_at(x: FileInfoV, s: Seq<FileInfoV>, j: int)
    requires
        0 <= j <= s.len(),
        forall|k: int| 0 <= k < j ==> !file_le(x, s[k]),
        j < s.len() ==> file_le(x, s[j]),
    ensures
        insert_sorted(x, s) == s.take(j) + seq![x] + s.skip(j),
    decreases j,
{
    if j == 0 {
        if s.len() == 0 {
            assert(insert_sorted(x, s) =~= s.take(0) + seq![x] + s.skip(0));
        } else {
            assert(file_le(x, s[0]));
            assert(seq![x] + s =~= s.take(0) + seq![x] + s.skip(0));
        }
    } else {
        assert(!file_le(x, s[0]));
        let rest = s.drop_first();
        assert(forall|k: int| 0 <= k < j - 1 ==> !file_le(x, rest[k]));
        lemma_insert_sorted_at(x, rest, j - 1);
        assert(seq![s[0]] + (rest.take(j - 1) + seq![x] + rest.skip(j - 1)) =~= s.take(j) + seq![x]
            + s.skip(j));
    }
}

/// Views of the records a vector holds.
pub open spec fn views_of(v: Seq<FileInfo>) -> Seq<FileInfoV> {
    v.map_values(|f: FileInfo| f@)
}

fn insert_file(acc: &mut Vec<FileInfo>, x: FileInfo)
    ensures
        views_of(final(acc)@) == insert_sorted(x@, views_of(old(acc)@)),
{
    let ghost s = views_of(acc@);
    let mut j: usize = 0;
    while j < acc.len() && !str_le(x.rel.as_str(), acc[j].rel.as_str())
        invariant
            s == views_of(acc@),
            j <= acc.len(),
            forall|k: int| 0 <= k < j ==> !file_le(x@, s[k]),
        decreases acc.len() - j,
    {
        j += 1;
    }
    proof {
        lemma_insert_sorted_at(x@, s, j as int);
    }
    acc.insert(j, x);
    proof {
        assert(views_of(acc@) =~= s.take(j as int) + seq![x@] + s.skip(j as int));
    }
}

/// The classified views of a sequence of scanned files.
pub open spec fn decided_views(files: Seq<ScannedFile>, max_bytes: int) -> Seq<FileInfoV> {
    Seq::new(files.len(), |i: int| spec_decide(files[i]@, max_bytes))
}

/// Classify every scanned file and return the records sorted by relative
/// path.
pub fn collect_files(files: &Vec<ScannedFile>, max_bytes: usize) -> (r: Vec<FileInfo>)
    ensures
        views_of(r@) == sort_files(decided_views(files@, max_bytes as int)),
{
    let mut acc: Vec<FileInfo> = Vec::new();
    let n = files.len();
    proof {
        assert(views_of(acc@) =~= sort_files(decided_views(files@.take(0), max_bytes as int)));
    }
    let mut i: usize = 0;
    while i < n
        invariant
            n == files@.len(),
            i <= n,
            views_of(acc@) == sort_files(decided_views(files@.take(i as int), max_bytes as int)),
        decreases n - i,
    {
        let info = decide_file(&files[i], max_bytes);
        insert_file(&mut acc, info);
        proof {
            let prev = decided_views(files@.take(i as int), max_bytes as int);
            let cur = decided_views(files@.take(i + 1), max_bytes as int);
            assert(cur.drop_last() =~= prev);
            assert(cur.last() == spec_decide(files@[i as int]@, max_bytes as int));
        }
        i += 1;
    }
    proof {
        assert(files@.take(n as int) =~= files@);
    }
    acc
}

/// The subsequence of records whose files are rendered, in order.
pub open spec fn included_of(s: Seq<FileInfoV>) -> Seq<FileInfoV>
    decreases s.len(),
{
    if s.len() == 0 {
        Seq::empty()
    } else if s[0].decision.included {
        seq![s[0]] + included_of(s.drop_first())
    } else {
        included_of(s.drop_first())
    }
}

pub proof fn lemma_included_concat(a: Seq<FileInfoV>, b: Seq<FileInfoV>)
    ensures
        included_of(a + b) == included_of(a) + included_of(b),
    decreases a.len(),
{
    if a.len() == 0 {
        assert(a + b =~= b);
        assert(included_of(a) + included_of(b) =~= included_of(b));
    } else {
        assert((a + b).drop_first() =~= a.drop_first() + b);
        assert((a + b)[0] == a[0]);
        lemma_included_concat(a.drop_first(), b);
        if a[0].decision.included {
            assert(seq![a[0]] + (included_of(a.drop_first()) + included_of(b)) =~= (seq![a[0]]
                + included_of(a.drop_first())) + included_of(b));
        }
    }
}

pub proof fn lemma_included_singleton(v: FileInfoV)
    ensures
        included_of(seq![v]) == if v.decision.included {
            seq![v]
        } else {
            Seq::<FileInfoV>::empty()
        },
{
    reveal_with_fuel(included_of, 2);
    assert(seq![v][0] == v);
    assert(seq![v].drop_first() =~= Seq::<FileInfoV>::empty());
    if v.decision.included {
        assert(included_of(seq![v]) =~= seq![v]);
    }
}

/// The records are in non-strict order of relative path.
pub open spec fn sorted_le_files(s: Seq<FileInfoV>) -> bool {
    forall|i: int, j: int| 0 <= i < j < s.len() ==> file_le(s[i], s[j])
}

/// The records are in strictly increasing order of relative path.
pub open spec fn strictly_sorted_files(s: Seq<FileInfoV>) -> bool {
    forall|i: int, j: int|
        0 <= i < j < s.len() ==> crate::utils::lex_lt(s[i].rel, s[j].rel)
}

/// The relative paths of a sequence of records.
pub open spec fn rels_of(s: Seq<FileInfoV>) -> Seq<Seq<char>> {
    s.map_values(|f: FileInfoV| f.rel)
}

proof fn lemma_insert_sorted_elems(x: FileInfoV, s: Seq<FileInfoV>, y: FileInfoV)
    requires
        insert_sorted(x, s).contains(y),
    ensures
        y == x || s.contains(y),
    decreases s.len(),
{
    if s.len() == 0 {
    } else if file_le(x, s[0]) {
        let t = seq![x] + s;
        let i = choose|i: int| 0 <= i < t.len() && t[i] == y;
        if i > 0 {
            assert(s[i - 1] == y);
        }
    } else {
        let t = seq![s[0]] + insert_sorted(x, s.drop_first());
        let i = choose|i: int| 0 <= i < t.len() && t[i] == y;
        if i == 0 {
            assert(s[0] == y);
        } else {
            assert(insert_sorted(x, s.drop_first())[i - 1] == y);
            assert(insert_sorted(x, s.drop_first()).contains(y));
            lemma_insert_sorted_elems(x, s.drop_first(), y);
            if s.drop_first().contains(y) {
                let k = choose|k: int| 0 <= k < s.drop_first().len() && s.drop_first()[k] == y;
                assert(s[k + 1] == y);
            }
        }
    }
}

proof fn lemma_insert_sorted_sorted(x: FileInfoV, s: Seq<FileInfoV>)
    requires
        sorted_le_files(s),
    ensures
        sorted_le_files(insert_sorted(x, s)),
    decreases s.len(),
{
    if s.len() == 0 {
    } else if file_le(x, s[0]) {
        let t = seq![x] + s;
        assert forall|i: int, j: int| 0 <= i < j < t.len() implies file_le(t[i], t[j]) by {
            if i == 0 {
                assert(t[j] == s[j - 1]);
                if j == 1 {
                } else {
                    assert(file_le(s[0], s[j - 1]));
                    crate::utils::lemma_lex_le_trans(x.rel, s[0].rel, s[j - 1].rel);
                }
            } else {
                assert(t[i] == s[i - 1]);
                assert(t[j] == s[j - 1]);
            }
        }
    } else {
        let rest = s.drop_first();
        let ins = insert_sorted(x, rest);
        lemma_insert_sorted_sorted(x, rest);
        crate::utils::lemma_lex_le_total(x.rel, s[0].rel);
        let t = seq![s[0]] + ins;
        assert forall|i: int, j: int| 0 <= i < j < t.len() implies file_le(t[i], t[j]) by {
            if i == 0 {
                let y = t[j];
                assert(ins[j - 1] == y);
                assert(ins.contains(y));
                lemma_insert_sorted_elems(x, rest, y);
                if y == x {
                    assert(file_le(s[0], x));
                } else {
                    let k = choose|k: int| 0 <= k < rest.len() && rest[k] == y;
                    assert(s[k + 1] == y);
                    assert(file_le(s[0], s[k + 1]));
                }
            } else {
                assert(t[i] == ins[i - 1]);
                assert(t[j] == ins[j - 1]);
            }
        }
    }
}

/// Insertion keeps, as a multiset, the relative paths plus the new one.
proof fn lemma_insert_sorted_rels(x: FileInfoV, s: Seq<FileInfoV>)
    ensures
        rels_of(insert_sorted(x, s)).to_multiset() == rels_of(s).to_multiset().insert(x.rel),
    decreases s.len(),
{
    broadcast use vstd::seq_lib::group_to_multiset_ensures;

    if s.len() == 0 {
        assert(rels_of(seq![x]) =~= Seq::<Seq<char>>::empty().push(x.rel));
        assert(rels_of(s) =~= Seq::<Seq<char>>::empty());
    } else if file_le(x, s[0]) {
        let t = seq![x] + s;
        assert(rels_of(t) =~= seq![x.rel] + rels_of(s));
        vstd::seq_lib::lemma_multiset_commutative(seq![x.rel], rels_of(s));
        assert(seq![x.rel] =~= Seq::<Seq<char>>::empty().push(x.rel));
        assert(rels_of(t).to_multiset() =~= rels_of(s).to_multiset().insert(x.rel));
    } else {
        let rest = s.drop_first();
        let ins = insert_sorted(x, rest);
        lemma_insert_sorted_rels(x, rest);
        let t = seq![s[0]] + ins;
        assert(rels_of(t) =~= seq![s[0].rel] + rels_of(ins));
        vstd::seq_lib::lemma_multiset_commutative(seq![s[0].rel], rels_of(ins));
        assert(rels_of(s) =~= seq![s[0].rel] + rels_of(rest));
        vstd::seq_lib::lemma_multiset_commutative(seq![s[0].rel], rels_of(rest));
        assert(seq![s[0].rel] =~= Seq::<Seq<char>>::empty().push(s[0].rel));
        assert(rels_of(t).to_multiset() =~= rels_of(s).to_multiset().insert(x.rel));
    }
}

proof fn lemma_insert_sorted_multiset(x: FileInfoV, s: Seq<FileInfoV>)
    ensures
        insert_sorted(x, s).to_multiset() == s.to_multiset().insert(x),
    decreases s.len(),
{
    broadcast use vstd::seq_lib::group_to_multiset_ensures;

    if s.len() == 0 {
        assert(seq![x] =~= Seq::<FileInfoV>::empty().push(x));
    } else if file_le(x, s[0]) {
        vstd::seq_lib::lemma_multiset_commutative(seq![x], s);
        assert(seq![x] =~= Seq::<FileInfoV>::empty().push(x));
        assert((seq![x] + s).to_multiset() =~= s.to_multiset().insert(x));
    } else {
        let rest = s.drop_first();
        let ins = insert_sorted(x, rest);
        lemma_insert_sorted_multiset(x, rest);
        vstd::seq_lib::lemma_multiset_commutative(seq![s[0]], ins);
        assert(s =~= seq![s[0]] + rest);
        vstd::seq_lib::lemma_multiset_commutative(seq![s[0]], rest);
        assert(seq![s[0]] =~= Seq::<FileInfoV>::empty().push(s[0]));
        assert((seq![s[0]] + ins).to_multiset() =~= s.to_multiset().insert(x));
    }
}

/// Sorting permutes the records: the classified list is complete, holding
/// exactly the decided records, as a multiset.
pub proof fn lemma_sort_files_permutes(s: Seq<FileInfoV>)
    ensures
        sort_files(s).to_multiset() == s.to_multiset(),
    decreases s.len(),
{
    broadcast use vstd::seq_lib::group_to_multiset_ensures;

    if s.len() > 0 {
        let head = s.drop_last();
        lemma_sort_files_permutes(head);
        lemma_insert_sorted_multiset(s.last(), sort_files(head));
        assert(s =~= head.push(s.last()));
    }
}

/// Sorting permutes the relative paths: the same multiset comes out.
pub proof fn lemma_sort_files_rels(s: Seq<FileInfoV>)
    ensures
        rels_of(sort_files(s)).to_multiset() == rels_of(s).to_multiset(),
    decreases s.len(),
{
    broadcast use vstd::seq_lib::group_to_multiset_ensures;

    if s.len() == 0 {
    } else {
        let head = s.drop_last();
        lemma_sort_files_rels(head);
        lemma_insert_sorted_rels(s.last(), sort_files(head));
        assert(rels_of(s) =~= rels_of(head).push(s.last().rel));
    }
}

/// Sorting leaves the records in non-strict order of relative path.
pub proof fn lemma_sort_files_sorted(s: Seq<FileInfoV>)
    ensures
        sorted_le_files(sort_files(s)),
    decreases s.len(),
{
    if s.len() > 0 {
        lemma_sort_files_sorted(s.drop_last());
        lemma_insert_sorted_sorted(s.last(), sort_files(s.drop_last()));
    }
}

/// The record list that classification returns is sorted strictly by
/// relative path, with no duplicates, whenever the scanned paths were
/// pairwise distinct.
pub proof fn lemma_records_strictly_sorted(s: Seq<FileInfoV>)
    requires
        rels_of(s).no_duplicates(),
    ensures
        strictly_sorted_files(sort_files(s)),
        rels_of(sort_files(s)).no_duplicates(),
{
    lemma_sort_files_sorted(s);
    lemma_sort_files_rels(s);
    rels_of(s).lemma_multiset_has_no_duplicates();
    rels_of(sort_files(s)).lemma_multiset_has_no_duplicates_conv();
    let t = sort_files(s);
    assert forall|i: int, j: int|
        0 <= i < j < t.len() implies crate::utils::lex_lt(t[i].rel, t[j].rel) by {
        assert(file_le(t[i], t[j]));
        assert(rels_of(t)[i] == t[i].rel);
        assert(rels_of(t)[j] == t[j].rel);
    }
}

/// A file under a `.git` segment is recorded as ignored and not rendered.
pub proof fn lemma_git_files_ignored(
    rel: Seq<char>,
    size: u64,
    max_bytes: int,
    probe: Option<Seq<u8>>,
)
    requires
        has_git_segment(rel),
    ensures
        spec_decision(rel, size, max_bytes, probe).reason == "ignored"@,
        !spec_decision(rel, size, max_bytes, probe).included,
{
}

/// Outside `.git`, a file over the threshold is too large; one at or under
/// the threshold that does not look binary is rendered with reason `ok`.
pub proof fn lemma_size_policy(rel: Seq<char>, size: u64, max_bytes: int, probe: Option<Seq<u8>>)
    requires
        !has_git_segment(rel),
    ensures
        size > max_bytes ==> spec_decision(rel, size, max_bytes, probe).reason == "too_large"@,
        size <= max_bytes && !looks_binary_of(rel, probe) ==> spec_decision(
            rel,
            size,
            max_bytes,
            probe,
        ).reason == "ok"@ && spec_decision(rel, size, max_bytes, probe).included,
{
}

/// A NUL byte anywhere in the probe marks the file binary, whatever its
/// extension, provided the earlier rules (ignored, too large) do not fire.
pub proof fn lemma_nul_means_binary(
    rel: Seq<char>,
    size: u64,
    max_bytes: int,
    probe: Seq<u8>,
    i: int,
)
    requires
        !has_git_segment(rel),
        size <= max_bytes,
        0 <= i < probe.len(),
        probe[i] == 0,
    ensures
        spec_decision(rel, size, max_bytes, Some(probe)).reason == "binary"@,
{
    assert(has_nul(probe));
}

/// An extension in the known-binary set marks the file binary even when its
/// content is valid UTF-8, provided the earlier rules do not fire.
pub proof fn lemma_known_extension_means_binary(
    rel: Seq<char>,
    size: u64,
    max_bytes: int,
    probe: Option<Seq<u8>>,
    e: Seq<char>,
)
    requires
        !has_git_segment(rel),
        size <= max_bytes,
        extension_of(rel) == Some(e),
        is_binary_ext("."@ + lower_of(e)),
    ensures
        spec_decision(rel, size, max_bytes, probe).reason == "binary"@,
{
}

} // verus!
