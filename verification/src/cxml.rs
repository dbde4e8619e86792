use vstd::prelude::*;

use crate::classify::{included_of, lemma_included_concat, views_of, FileInfo, FileInfoV};
use crate::utils::{dec_of, u64_to_dec};

verus! {

broadcast use vstd::string::group_string_axioms;

/// What stands between the content markers for one file: its text when the
/// read succeeded, or the failure placeholder with the reader's message.
pub open spec fn content_text(c: Result<String, String>) -> Seq<char> {
    match c {
        Ok(s) => s@,
        Err(e) => "Failed to read: "@ + e@,
    }
}

/// One document of the machine view: markers carrying its one-based index
/// and its relative path as source, enclosing the file's text.
pub open spec fn cxml_document(idx: int, rel: Seq<char>, text: Seq<char>) -> Seq<char> {
    "\n<document index=\""@ + dec_of(idx) + "\">\n<source>"@ + rel
        + "</source>\n<document_content>\n"@ + text + "\n</document_content>\n</document>"@
}

/// The documents for the rendered records from position `i` on; the one at
/// position `i` carries index `i + 1`.
pub open spec fn cxml_documents(
    inc: Seq<FileInfoV>,
    contents: Seq<Result<String, String>>,
    i: int,
) -> Seq<char>
    decreases inc.len() - i,
{
    if i < 0 || i >= inc.len() {
        Seq::empty()
    } else {
        cxml_document(i + 1, inc[i].rel, content_text(contents[i])) + cxml_documents(
            inc,
            contents,
            i + 1,
        )
    }
}

/// The whole machine view: an outer document-list marker around the
/// documents of all rendered files, in record order.
pub open spec fn cxml_text_of(s: Seq<FileInfoV>, contents: Seq<Result<String, String>>) -> Seq<
    char,
> {
    "<documents>"@ + cxml_documents(included_of(s), contents, 0) + "\n</documents>"@
}

/// Generate the flat machine-view text for the rendered files of the record
/// list. `contents` holds, in record order, the outcome of reading each
/// rendered file.
pub fn generate_cxml(infos: &Vec<FileInfo>, contents: &Vec<Result<String, String>>) -> (r: String)
    requires
        contents@.len() == included_of(views_of(infos@)).len(),
    ensures
        r@ == cxml_text_of(views_of(infos@), contents@),
{
    let ghost views = views_of(infos@);
    let ghost inc = included_of(views);
    let mut out = String::from_str("<documents>");
    let n = infos.len();
    let m = contents.len();
    let mut i: usize = 0;
    let mut c: usize = 0;
    proof {
        assert(views.take(0) =~= Seq::<FileInfoV>::empty());
        assert(included_of(views.take(0)) =~= inc.take(0));
    }
    while i < n
        invariant
            n == infos@.len(),
            m == contents@.len(),
            views == views_of(infos@),
            inc == included_of(views),
            contents@.len() == inc.len(),
            i <= n,
            c <= inc.len(),
            included_of(views.take(i as int)) == inc.take(c as int),
            out@ + cxml_documents(inc, contents@, c as int) == "<documents>"@ + cxml_documents(
                inc,
                contents@,
                0,
            ),
        decreases n - i,
    {
        proof {
            assert(views[i as int] == infos@[i as int]@);
            assert(views.take(i + 1) =~= views.take(i as int) + seq![views[i as int]]);
            lemma_included_concat(views.take(i as int), seq![views[i as int]]);
            assert(seq![views[i as int]].drop_first() =~= Seq::<FileInfoV>::empty());
            assert(seq![views[i as int]][0] == views[i as int]);
            crate::classify::lemma_included_singleton(views[i as int]);
            assert(views =~= views.take(i as int) + views.skip(i as int));
            lemma_included_concat(views.take(i as int), views.skip(i as int));
        }
        if infos[i].decision.included {
            proof {
                assert(included_of(seq![views[i as int]]) =~= seq![views[i as int]]);
                assert(included_of(views.take(i + 1)) =~= inc.take(c as int).push(
                    views[i as int],
                ));
                assert(included_of(views.take(i + 1)).len() <= inc.len()) by {
                    assert(inc =~= included_of(views.take(i + 1)) + included_of(
                        views.skip(i + 1),
                    )) by {
                        assert(views =~= views.take(i + 1) + views.skip(i + 1));
                        lemma_included_concat(views.take(i + 1), views.skip(i + 1));
                    }
                }
                assert(c < inc.len());
                assert(inc.take(c + 1) =~= included_of(views.take(i + 1)));
                assert(inc[c as int] == views[i as int]);
            }
            out.append("\n<document index=\"");
            let idx = u64_to_dec((c as u64) + 1);
            out.append(idx.as_str());
            out.append("\">\n<source>");
            out.append(infos[i].rel.as_str());
            out.append("</source>\n<document_content>\n");
            match &contents[c] {
                Ok(s) => out.append(s.as_str()),
                Err(e) => {
                    out.append("Failed to read: ");
                    out.append(e.as_str());
                },
            }
            out.append("\n</document_content>\n</document>");
            proof {
                assert(out@ + cxml_documents(inc, contents@, c + 1) == "<documents>"@
                    + cxml_documents(inc, contents@, 0)) by {
                    assert(cxml_documents(inc, contents@, c as int) == cxml_document(
                        c + 1,
                        inc[c as int].rel,
                        content_text(contents@[c as int]),
                    ) + cxml_documents(inc, contents@, c + 1));
                }
            }
            c += 1;
        } else {
            proof {
                assert(included_of(seq![views[i as int]]) =~= Seq::<FileInfoV>::empty());
                assert(included_of(views.take(i + 1)) =~= inc.take(c as int));
            }
        }
        i += 1;
    }
    proof {
        assert(views.take(n as int) =~= views);
        assert(inc.take(c as int) =~= inc);
        assert(c == inc.len());
        assert(cxml_documents(inc, contents@, c as int) =~= Seq::<char>::empty());
    }
    out.append("\n</documents>");
    proof {
        assert(out@ =~= cxml_text_of(views, contents@));
    }
    out
}

} // verus!
