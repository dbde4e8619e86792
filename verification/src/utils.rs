use vstd::prelude::*;

verus! {

broadcast use vstd::string::group_string_axioms;

/// Relies on `String::push`: appends one character at the end of the string.
#[verifier::external_body]
fn push_char(s: &mut String, c: char)
    ensures
        final(s)@ == old(s)@.push(c),
{
    s.push(c);
}

/// The decimal digit `d` as a character.
pub open spec fn digit_char(d: int) -> char {
    if d == 0 {
        '0'
    } else if d == 1 {
        '1'
    } else if d == 2 {
        '2'
    } else if d == 3 {
        '3'
    } else if d == 4 {
        '4'
    } else if d == 5 {
        '5'
    } else if d == 6 {
        '6'
    } else if d == 7 {
        '7'
    } else if d == 8 {
        '8'
    } else {
        '9'
    }
}

/// The usual decimal rendering of a natural number, most significant digit first.
pub open spec fn dec_of(n: int) -> Seq<char>
    decreases n,
{
    if n < 10 {
        seq![digit_char(n)]
    } else {
        dec_of(n / 10).push(digit_char(n % 10))
    }
}

fn digit_to_char(d: u64) -> (c: char)
    requires
        d < 10,
    ensures
        c == digit_char(d as int),
{
    if d == 0 {
        '0'
    } else if d == 1 {
        '1'
    } else if d == 2 {
        '2'
    } else if d == 3 {
        '3'
    } else if d == 4 {
        '4'
    } else if d == 5 {
        '5'
    } else if d == 6 {
        '6'
    } else if d == 7 {
        '7'
    } else if d == 8 {
        '8'
    } else {
        '9'
    }
}

/// Render a number in decimal.
pub fn u64_to_dec(n: u64) -> (r: String)
    ensures
        r@ == dec_of(n as int),
    decreases n,
{
    if n < 10 {
        let mut s = String::new();
        push_char(&mut s, digit_to_char(n));
        s
    } else {
        let mut s = u64_to_dec(n / 10);
        push_char(&mut s, digit_to_char(n % 10));
        s
    }
}

/// What one character of text becomes under HTML escaping.
pub open spec fn escape_char(c: char) -> Seq<char> {
    if c == '&' {
        "&amp;"@
    } else if c == '<' {
        "&lt;"@
    } else if c == '>' {
        "&gt;"@
    } else {
        seq![c]
    }
}

/// HTML escaping of a whole text, character by character.
pub open spec fn escape_chars(s: Seq<char>) -> Seq<char>
    decreases s.len(),
{
    if s.len() == 0 {
        Seq::empty()
    } else {
        escape_char(s[0]) + escape_chars(s.drop_first())
    }
}

pub proof fn lemma_escape_chars_concat(a: Seq<char>, b: Seq<char>)
    ensures
        escape_chars(a + b) == escape_chars(a) + escape_chars(b),
    decreases a.len(),
{
    if a.len() == 0 {
        assert(a + b =~= b);
        assert(escape_chars(a) + escape_chars(b) =~= escape_chars(b));
    } else {
        assert((a + b).drop_first() =~= a.drop_first() + b);
        assert((a + b)[0] == a[0]);
        lemma_escape_chars_concat(a.drop_first(), b);
        assert(escape_char(a[0]) + (escape_chars(a.drop_first()) + escape_chars(b)) =~= (
        escape_char(a[0]) + escape_chars(a.drop_first())) + escape_chars(b));
    }
}

/// Escape a string so that it can stand inside HTML text content:
/// `&`, `<` and `>` are replaced by their character references.
pub fn html_escape(s: &str) -> (r: String)
    ensures
        r@ == escape_chars(s@),
{
    let mut out = String::new();
    for c in it: s.chars()
        invariant
            out@ == escape_chars(it.seq().take(it.index() as int)),
            it.seq() == s@,
    {
        proof {
            let i = it.index() as int;
            assert(it.seq().take(i + 1) =~= it.seq().take(i) + seq![it.seq()[i]]);
            lemma_escape_chars_concat(it.seq().take(i), seq![it.seq()[i]]);
            assert(escape_chars(seq![it.seq()[i]]) =~= escape_char(it.seq()[i]) + escape_chars(
                Seq::empty(),
            )) by {
                assert(seq![it.seq()[i]].drop_first() =~= Seq::<char>::empty());
            }
            assert(escape_char(it.seq()[i]) + escape_chars(Seq::empty()) =~= escape_char(
                it.seq()[i],
            ));
        }
        if c == '&' {
            out.append("&amp;");
        } else if c == '<' {
            out.append("&lt;");
        } else if c == '>' {
            out.append("&gt;");
        } else {
            push_char(&mut out, c);
        }
        proof {
            assert(out@ =~= escape_chars(it.seq().take(it.index() as int)) + escape_char(
                it.seq()[it.index() as int],
            ));
        }
    }
    proof {
        assert(s@.take(s@.len() as int) =~= s@);
    }
    out
}

/// Two strings are equal exactly when their character sequences are.
pub fn str_eq(a: &str, b: &str) -> (r: bool)
    ensures
        r == (a@ == b@),
{
    let alen = a.unicode_len();
    let blen = b.unicode_len();
    if alen != blen {
        proof {
            assert(a@ != b@);
        }
        return false;
    }
    let mut i: usize = 0;
    while i < alen
        invariant
            alen == a@.len(),
            blen == b@.len(),
            alen == blen,
            i <= alen,
            forall|j: int| 0 <= j < i ==> a@[j] == b@[j],
        decreases alen - i,
    {
        if a.get_char(i) != b.get_char(i) {
            return false;
        }
        i += 1;
    }
    proof {
        assert(a@ =~= b@);
    }
    true
}

/// Position of the last occurrence of `c` in `s`, or `-1` if there is none.
pub open spec fn last_pos(s: Seq<char>, c: char) -> int
    decreases s.len(),
{
    if s.len() == 0 {
        -1
    } else if s.last() == c {
        s.len() - 1
    } else {
        last_pos(s.drop_last(), c)
    }
}

pub proof fn lemma_last_pos_found(s: Seq<char>, c: char, k: int)
    requires
        0 <= k < s.len(),
        s[k] == c,
        forall|j: int| k < j < s.len() ==> s[j] != c,
    ensures
        last_pos(s, c) == k,
    decreases s.len(),
{
    if k == s.len() - 1 {
    } else {
        assert(s.last() != c);
        lemma_last_pos_found(s.drop_last(), c, k);
    }
}

pub proof fn lemma_last_pos_none(s: Seq<char>, c: char)
    requires
        forall|j: int| 0 <= j < s.len() ==> s[j] != c,
    ensures
        last_pos(s, c) == -1,
    decreases s.len(),
{
    if s.len() > 0 {
        lemma_last_pos_none(s.drop_last(), c);
    }
}

/// Find the last occurrence of a character, scanning from the end.
pub fn last_char_pos(s: &str, c: char) -> (r: Option<usize>)
    ensures
        match r {
            Some(k) => last_pos(s@, c) == k as int && k < s@.len(),
            None => last_pos(s@, c) == -1,
        },
{
    let len = s.unicode_len();
    let mut i: usize = len;
    while i > 0
        invariant
            len == s@.len(),
            i <= len,
            forall|j: int| i <= j < len ==> s@[j] != c,
        decreases i,
    {
        if s.get_char(i - 1) == c {
            proof {
                lemma_last_pos_found(s@, c, i - 1);
            }
            return Some(i - 1);
        }
        i -= 1;
    }
    proof {
        lemma_last_pos_none(s@, c);
    }
    None
}

/// `t` is a suffix of `s`.
pub open spec fn ends_with(s: Seq<char>, t: Seq<char>) -> bool {
    t.len() <= s.len() && s.skip(s.len() - t.len()) == t
}

pub fn str_ends_with(s: &str, t: &str) -> (r: bool)
    ensures
        r == ends_with(s@, t@),
{
    let slen = s.unicode_len();
    let tlen = t.unicode_len();
    if tlen > slen {
        return false;
    }
    let off = slen - tlen;
    let mut i: usize = 0;
    while i < tlen
        invariant
            slen == s@.len(),
            tlen == t@.len(),
            tlen <= slen,
            off == slen - tlen,
            i <= tlen,
            forall|j: int| 0 <= j < i ==> s@[off + j] == t@[j],
        decreases tlen - i,
    {
        if s.get_char(off + i) != t.get_char(i) {
            proof {
                assert(s@.skip(off as int)[i as int] == s@[off + i]);
            }
            return false;
        }
        i += 1;
    }
    proof {
        assert(s@.skip(off as int) =~= t@);
    }
    true
}

/// Lexicographic order on character sequences, by code point.
/// On valid strings it agrees with Rust's byte-wise `str` order.
pub open spec fn lex_le(a: Seq<char>, b: Seq<char>) -> bool
    decreases a.len(),
{
    if a.len() == 0 {
        true
    } else if b.len() == 0 {
        false
    } else if a[0] == b[0] {
        lex_le(a.drop_first(), b.drop_first())
    } else {
        (a[0] as u32) < (b[0] as u32)
    }
}

/// Strict lexicographic order.
pub open spec fn lex_lt(a: Seq<char>, b: Seq<char>) -> bool {
    lex_le(a, b) && a != b
}

pub proof fn lemma_lex_le_total(a: Seq<char>, b: Seq<char>)
    ensures
        lex_le(a, b) || lex_le(b, a),
    decreases a.len(),
{
    if a.len() != 0 && b.len() != 0 {
        if a[0] == b[0] {
            lemma_lex_le_total(a.drop_first(), b.drop_first());
        } else {
            assert((a[0] as u32) != (b[0] as u32)) by {
                vstd::utf8::char_u32_cast(a[0], a[0] as u32);
                vstd::utf8::char_u32_cast(b[0], b[0] as u32);
            }
        }
    }
}

pub proof fn lemma_lex_le_trans(a: Seq<char>, b: Seq<char>, c: Seq<char>)
    requires
        lex_le(a, b),
        lex_le(b, c),
    ensures
        lex_le(a, c),
    decreases a.len(),
{
    if a.len() != 0 {
        if a[0] == b[0] && b[0] == c[0] {
            lemma_lex_le_trans(a.drop_first(), b.drop_first(), c.drop_first());
        }
    }
}

/// Compare two strings in lexicographic order.
pub fn str_le(a: &str, b: &str) -> (r: bool)
    ensures
        r == lex_le(a@, b@),
{
    let alen = a.unicode_len();
    let blen = b.unicode_len();
    let mut i: usize = 0;
    proof {
        assert(a@.skip(0) =~= a@);
        assert(b@.skip(0) =~= b@);
    }
    loop
        invariant
            alen == a@.len(),
            blen == b@.len(),
            i <= alen,
            i <= blen,
            forall|j: int| 0 <= j < i ==> a@[j] == b@[j],
            lex_le(a@, b@) == lex_le(a@.skip(i as int), b@.skip(i as int)),
        decreases alen - i,
    {
        if i >= alen {
            return true;
        }
        if i >= blen {
            return false;
        }
        let ca = a.get_char(i);
        let cb = b.get_char(i);
        if ca != cb {
            proof {
                assert(a@.skip(i as int)[0] == ca);
                assert(b@.skip(i as int)[0] == cb);
            }
            return (ca as u32) < (cb as u32);
        }
        proof {
            assert(a@.skip(i as int)[0] == b@.skip(i as int)[0]);
            assert(a@.skip(i as int).drop_first() =~= a@.skip(i + 1));
            assert(b@.skip(i as int).drop_first() =~= b@.skip(i + 1));
        }
        i += 1;
    }
}

/// Whether a character counts as alphanumeric under Unicode.
/// The result of `char::is_alphanumeric`, a function of the character alone.
pub uninterp spec fn is_unicode_alnum(c: char) -> bool;

/// Relies on `char::is_alphanumeric`: Unicode letter or number, decided by
/// the character alone.
#[verifier::external_body]
fn char_is_alnum(c: char) -> (r: bool)
    ensures
        r == is_unicode_alnum(c),
{
    c.is_alphanumeric()
}

/// What one path character becomes in an anchor slug.
pub open spec fn slug_char(c: char) -> char {
    if is_unicode_alnum(c) || c == '-' || c == '_' {
        c
    } else {
        '-'
    }
}

/// Turn a relative path into an HTML anchor: every character that is not
/// alphanumeric, `-` or `_` becomes `-`. The mapping is not injective;
/// two paths that differ only in punctuation may share a slug.
pub fn slugify(path_str: &str) -> (r: String)
    ensures
        r@ == path_str@.map_values(|c: char| slug_char(c)),
{
    let mut out = String::new();
    for c in it: path_str.chars()
        invariant
            out@ == it.seq().take(it.index() as int).map_values(|c: char| slug_char(c)),
            it.seq() == path_str@,
    {
        let keep = if c == '-' || c == '_' {
            true
        } else {
            char_is_alnum(c)
        };
        if keep {
            push_char(&mut out, c);
        } else {
            push_char(&mut out, '-');
        }
        proof {
            let i = it.index() as int;
            assert(out@ =~= it.seq().take(i + 1).map_values(|c: char| slug_char(c)));
        }
    }
    proof {
        assert(path_str@.take(path_str@.len() as int) =~= path_str@);
    }
    out
}

/// The lowercase form of a string, as `str::to_lowercase` computes it:
/// a function of the characters alone.
pub uninterp spec fn lower_of(s: Seq<char>) -> Seq<char>;

/// Relies on `str::to_lowercase`: the result depends on the characters alone.
#[verifier::external_body]
pub(crate) fn lowercase(s: &str) -> (r: String)
    ensures
        r@ == lower_of(s@),
{
    s.to_lowercase()
}

/// The input without its trailing `/` characters.
pub open spec fn trim_trailing_slashes(s: Seq<char>) -> Seq<char>
    decreases s.len(),
{
    if s.len() > 0 && s.last() == '/' {
        trim_trailing_slashes(s.drop_last())
    } else {
        s
    }
}

/// The repository name that a URL or path denotes: the part after the last
/// `/` once trailing slashes are removed, without a `.git` suffix; `repo`
/// when there is no `/` at all.
pub open spec fn repo_name_of(s: Seq<char>) -> Seq<char> {
    let t = trim_trailing_slashes(s);
    if last_pos(t, '/') >= 0 {
        let name = t.skip(last_pos(t, '/') + 1);
        if ends_with(name, ".git"@) {
            name.take(name.len() - 4)
        } else {
            name
        }
    } else {
        "repo"@
    }
}

/// Derive a repository name from a URL or path.
pub fn derive_repo_name(repo_url: &str) -> (r: String)
    ensures
        r@ == repo_name_of(repo_url@),
{
    let len = repo_url.unicode_len();
    let mut end: usize = len;
    proof {
        assert(repo_url@.take(len as int) =~= repo_url@);
    }
    while end > 0 && repo_url.get_char(end - 1) == '/'
        invariant
            len == repo_url@.len(),
            end <= len,
            trim_trailing_slashes(repo_url@) == trim_trailing_slashes(repo_url@.take(end as int)),
        decreases end,
    {
        proof {
            assert(repo_url@.take(end as int).drop_last() =~= repo_url@.take(end - 1));
        }
        end -= 1;
    }
    let trimmed = repo_url.substring_char(0, end);
    proof {
        assert(repo_url@.take(end as int) =~= repo_url@.subrange(0, end as int));
        if end > 0 {
            assert(trim_trailing_slashes(trimmed@) == trimmed@);
        }
        assert(trimmed@ == trim_trailing_slashes(repo_url@));
    }
    match last_char_pos(trimmed, '/') {
        Some(k) => {
            let tlen = trimmed.unicode_len();
            let name = trimmed.substring_char(k + 1, tlen);
            proof {
                assert(name@ =~= trimmed@.skip(k + 1));
            }
            if str_ends_with(name, ".git") {
                let nlen = name.unicode_len();
                proof {
                    assert(".git"@.len() == 4) by {
                        reveal_strlit(".git");
                    }
                }
                let shortened = name.substring_char(0, nlen - 4);
                proof {
                    assert(shortened@ =~= name@.take(name@.len() - 4));
                }
                String::from_str(shortened)
            } else {
                proof {
                    assert(".git"@.len() == 4) by {
                        reveal_strlit(".git");
                    }
                }
                String::from_str(name)
            }
        },
        None => String::from_str("repo"),
    }
}

/// The binary unit used for a byte count: the largest of B, KiB, MiB, GiB,
/// TiB at which the scaled value is at least one, capped at TiB.
pub open spec fn byte_unit(n: u64) -> int {
    if n < 1024 {
        0
    } else if n < 1048576 {
        1
    } else if n < 1073741824 {
        2
    } else if n < 1099511627776 {
        3
    } else {
        4
    }
}

pub open spec fn byte_unit_name(k: int) -> Seq<char> {
    if k == 0 {
        "B"@
    } else if k == 1 {
        "KiB"@
    } else if k == 2 {
        "MiB"@
    } else if k == 3 {
        "GiB"@
    } else {
        "TiB"@
    }
}

pub open spec fn byte_unit_div(k: int) -> int {
    if k == 1 {
        1024
    } else if k == 2 {
        1048576
    } else if k == 3 {
        1073741824
    } else {
        1099511627776
    }
}

/// `a / d` rounded to the nearest integer, ties to the even neighbour —
/// the rounding used when a binary fraction is shown with one decimal digit.
pub open spec fn round_half_even(a: int, d: int) -> int {
    let q = a / d;
    let r = a % d;
    if 2 * r > d || (2 * r == d && q % 2 == 1) {
        q + 1
    } else {
        q
    }
}

/// Byte counts in human-readable form: plain integers at the byte unit,
/// one decimal digit at every larger unit.
pub open spec fn bytes_human_of(n: u64) -> Seq<char> {
    let k = byte_unit(n);
    if k == 0 {
        dec_of(n as int) + " B"@
    } else {
        let t = round_half_even(10 * n, byte_unit_div(k));
        dec_of(t / 10) + "."@ + dec_of(t % 10) + " "@ + byte_unit_name(k)
    }
}

fn scale_tenths(n: u64, d: u128) -> (t: u64)
    requires
        1024 <= d <= 1099511627776,
    ensures
        t == round_half_even(10 * n, d as int),
{
    let a: u128 = (n as u128) * 10;
    let q: u128 = a / d;
    let r: u128 = a % d;
    proof {
        assert(a / d <= a / 1024) by {
            vstd::arithmetic::div_mod::lemma_div_is_ordered_by_denominator(a as int, 1024, d as int);
        }
        assert(a / 1024 < 0x10000000000000000) by {
            assert(a < 0x4000000000000000000);
        }
    }
    if 2 * r > d || (2 * r == d && q % 2 == 1) {
        (q + 1) as u64
    } else {
        q as u64
    }
}

/// Convert a byte count to a human-readable string with binary units.
pub fn bytes_human(n: u64) -> (r: String)
    ensures
        r@ == bytes_human_of(n),
{
    if n < 1024 {
        let mut s = u64_to_dec(n);
        s.append(" B");
        proof {
            assert(s@ =~= dec_of(n as int) + " B"@);
        }
        s
    } else {
        let d: u128 = if n < 1048576 {
            1024
        } else if n < 1073741824 {
            1048576
        } else if n < 1099511627776 {
            1073741824
        } else {
            1099511627776
        };
        let t = scale_tenths(n, d);
        let mut s = u64_to_dec(t / 10);
        s.append(".");
        let frac = u64_to_dec(t % 10);
        s.append(frac.as_str());
        s.append(" ");
        if n < 1048576 {
            s.append("KiB");
        } else if n < 1073741824 {
            s.append("MiB");
        } else if n < 1099511627776 {
            s.append("GiB");
        } else {
            s.append("TiB");
        }
        proof {
            assert(s@ =~= bytes_human_of(n));
        }
        s
    }
}

} // verus!
