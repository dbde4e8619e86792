use vstd::prelude::*;

use crate::classify::{included_of, views_of, FileInfo, FileInfoV};
use crate::cxml::cxml_text_of;
use crate::utils::{
    bytes_human, bytes_human_of, dec_of, escape_chars, html_escape, slug_char, slugify, str_eq,
    u64_to_dec,
};

verus! {

broadcast use vstd::string::group_string_axioms;

/// The subsequence of records with the given reason, in order.
pub open spec fn with_reason(s: Seq<FileInfoV>, reason: Seq<char>) -> Seq<FileInfoV>
    decreases s.len(),
{
    if s.len() == 0 {
        Seq::empty()
    } else if s[0].decision.reason == reason {
        seq![s[0]] + with_reason(s.drop_first(), reason)
    } else {
        with_reason(s.drop_first(), reason)
    }
}

pub proof fn lemma_with_reason_concat(a: Seq<FileInfoV>, b: Seq<FileInfoV>, reason: Seq<char>)
    ensures
        with_reason(a + b, reason) == with_reason(a, reason) + with_reason(b, reason),
    decreases a.len(),
{
    if a.len() == 0 {
        assert(a + b =~= b);
        assert(with_reason(a, reason) + with_reason(b, reason) =~= with_reason(b, reason));
    } else {
        assert((a + b).drop_first() =~= a.drop_first() + b);
        assert((a + b)[0] == a[0]);
        lemma_with_reason_concat(a.drop_first(), b, reason);
        if a[0].decision.reason == reason {
            assert(seq![a[0]] + (with_reason(a.drop_first(), reason) + with_reason(b, reason)) =~= (
            seq![a[0]] + with_reason(a.drop_first(), reason)) + with_reason(b, reason));
        }
    }
}

proof fn lemma_with_reason_singleton(v: FileInfoV, reason: Seq<char>)
    ensures
        with_reason(seq![v], reason) == if v.decision.reason == reason {
            seq![v]
        } else {
            Seq::<FileInfoV>::empty()
        },
{
    reveal_with_fuel(with_reason, 2);
    assert(seq![v][0] == v);
    assert(seq![v].drop_first() =~= Seq::<FileInfoV>::empty());
    if v.decision.reason == reason {
        assert(with_reason(seq![v], reason) =~= seq![v]);
    }
}

fn copy_info(f: &FileInfo) -> (r: FileInfo)
    ensures
        r@ == f@,
{
    FileInfo {
        path: f.path.clone(),
        rel: f.rel.clone(),
        size: f.size,
        decision: crate::classify::RenderDecision {
            included: f.decision.included,
            reason: f.decision.reason.clone(),
        },
    }
}

/// The records whose files are rendered, in order.
pub fn rendered_files(infos: &Vec<FileInfo>) -> (r: Vec<FileInfo>)
    ensures
        views_of(r@) == included_of(views_of(infos@)),
{
    let ghost views = views_of(infos@);
    let mut acc: Vec<FileInfo> = Vec::new();
    let n = infos.len();
    proof {
        assert(views.take(0) =~= Seq::<FileInfoV>::empty());
        assert(views_of(acc@) =~= included_of(views.take(0)));
    }
    let mut i: usize = 0;
    while i < n
        invariant
            n == infos@.len(),
            views == views_of(infos@),
            i <= n,
            views_of(acc@) == included_of(views.take(i as int)),
        decreases n - i,
    {
        proof {
            assert(views[i as int] == infos@[i as int]@);
            assert(views.take(i + 1) =~= views.take(i as int) + seq![views[i as int]]);
            crate::classify::lemma_included_concat(views.take(i as int), seq![views[i as int]]);
            crate::classify::lemma_included_singleton(views[i as int]);
        }
        if infos[i].decision.included {
            let info = copy_info(&infos[i]);
            acc.push(info);
            proof {
                assert(views_of(acc@) =~= included_of(views.take(i + 1)));
            }
        } else {
            proof {
                assert(views_of(acc@) =~= included_of(views.take(i + 1)));
            }
        }
        i += 1;
    }
    proof {
        assert(views.take(n as int) =~= views);
    }
    acc
}

/// The records with the given reason, in order.
pub fn files_with_reason(infos: &Vec<FileInfo>, reason: &str) -> (r: Vec<FileInfo>)
    ensures
        views_of(r@) == with_reason(views_of(infos@), reason@),
{
    let ghost views = views_of(infos@);
    let mut acc: Vec<FileInfo> = Vec::new();
    let n = infos.len();
    proof {
        assert(views.take(0) =~= Seq::<FileInfoV>::empty());
        assert(views_of(acc@) =~= with_reason(views.take(0), reason@));
    }
    let mut i: usize = 0;
    while i < n
        invariant
            n == infos@.len(),
            views == views_of(infos@),
            i <= n,
            views_of(acc@) == with_reason(views.take(i as int), reason@),
        decreases n - i,
    {
        proof {
            assert(views[i as int] == infos@[i as int]@);
            assert(views.take(i + 1) =~= views.take(i as int) + seq![views[i as int]]);
            lemma_with_reason_concat(views.take(i as int), seq![views[i as int]], reason@);
            lemma_with_reason_singleton(views[i as int], reason@);
        }
        if str_eq(infos[i].decision.reason.as_str(), reason) {
            let info = copy_info(&infos[i]);
            acc.push(info);
            proof {
                assert(views_of(acc@) =~= with_reason(views.take(i + 1), reason@));
            }
        } else {
            proof {
                assert(views_of(acc@) =~= with_reason(views.take(i + 1), reason@));
            }
        }
        i += 1;
    }
    proof {
        assert(views.take(n as int) =~= views);
    }
    acc
}

/// The first `i` parts joined by newlines.
pub open spec fn join_nl(parts: Seq<Seq<char>>, i: int) -> Seq<char>
    decreases i,
{
    if i <= 0 {
        Seq::empty()
    } else if i == 1 {
        parts[0]
    } else {
        join_nl(parts, i - 1) + "\n"@ + parts[i - 1]
    }
}

proof fn lemma_join_nl_congruent(p1: Seq<Seq<char>>, p2: Seq<Seq<char>>, i: int)
    requires
        forall|j: int| 0 <= j < i ==> p1[j] == p2[j],
    ensures
        join_nl(p1, i) == join_nl(p2, i),
    decreases i,
{
    if i > 1 {
        lemma_join_nl_congruent(p1, p2, i - 1);
    }
}

/// One table-of-contents entry: anchor, escaped path, human-readable size.
pub open spec fn toc_item_of(f: FileInfoV) -> Seq<char> {
    "<li><a href=\"#file-"@ + f.rel.map_values(|c: char| slug_char(c)) + "\">"@ + escape_chars(
        f.rel,
    ) + "</a> <span class=\"muted\">("@ + bytes_human_of(f.size) + ")</span></li>"@
}

/// The table of contents for the rendered records, one entry per record, in
/// record order.
pub open spec fn toc_html_of(inc: Seq<FileInfoV>) -> Seq<char> {
    join_nl(Seq::new(inc.len(), |i: int| toc_item_of(inc[i])), inc.len() as int)
}

/// Build the table-of-contents markup for the rendered records.
pub fn toc_html(rendered: &Vec<FileInfo>) -> (r: String)
    ensures
        r@ == toc_html_of(views_of(rendered@)),
{
    let ghost inc = views_of(rendered@);
    let ghost parts = Seq::new(inc.len(), |i: int| toc_item_of(inc[i]));
    let mut out = String::new();
    let n = rendered.len();
    let mut i: usize = 0;
    while i < n
        invariant
            n == rendered@.len(),
            inc == views_of(rendered@),
            parts == Seq::new(inc.len(), |i: int| toc_item_of(inc[i])),
            i <= n,
            out@ == join_nl(parts, i as int),
        decreases n - i,
    {
        if i > 0 {
            out.append("\n");
        }
        out.append("<li><a href=\"#file-");
        let slug = slugify(rendered[i].rel.as_str());
        out.append(slug.as_str());
        out.append("\">");
        let esc = html_escape(rendered[i].rel.as_str());
        out.append(esc.as_str());
        out.append("</a> <span class=\"muted\">(");
        let size = bytes_human(rendered[i].size);
        out.append(size.as_str());
        out.append(")</span></li>");
        proof {
            assert(inc[i as int] == rendered@[i as int]@);
            assert(slug@ =~= inc[i as int].rel.map_values(|c: char| slug_char(c)));
            assert(out@ =~= join_nl(parts, i as int) + (if i == 0 {
                Seq::<char>::empty()
            } else {
                "\n"@
            }) + toc_item_of(inc[i as int]));
            assert(out@ =~= join_nl(parts, i + 1));
        }
        i += 1;
    }
    out
}

/// One skip-list entry: escaped path in code markup, human-readable size.
pub open spec fn skip_item_of(f: FileInfoV) -> Seq<char> {
    "<li><code>"@ + escape_chars(f.rel) + "</code> <span class='muted'>("@ + bytes_human_of(f.size)
        + ")</span></li>"@
}

/// A disclosure list of skipped records under a title with their count;
/// empty when there are no such records.
pub open spec fn skip_list_of(title: Seq<char>, items: Seq<FileInfoV>) -> Seq<char> {
    if items.len() == 0 {
        Seq::empty()
    } else {
        "<details open><summary>"@ + escape_chars(title) + " ("@ + dec_of(items.len() as int)
            + ")</summary><ul class='skip-list'>\n"@ + join_nl(
            Seq::new(items.len(), |i: int| skip_item_of(items[i])),
            items.len() as int,
        ) + "\n</ul></details>"@
    }
}

/// Render one skip list.
pub fn render_skip_list(title: &str, items: &Vec<FileInfo>) -> (r: String)
    ensures
        r@ == skip_list_of(title@, views_of(items@)),
{
    let ghost iv = views_of(items@);
    let ghost parts = Seq::new(iv.len(), |i: int| skip_item_of(iv[i]));
    if items.len() == 0 {
        let out = String::new();
        return out;
    }
    let mut out = String::from_str("<details open><summary>");
    let esc_title = html_escape(title);
    out.append(esc_title.as_str());
    out.append(" (");
    let count = u64_to_dec(items.len() as u64);
    out.append(count.as_str());
    out.append(")</summary><ul class='skip-list'>\n");
    let ghost header = out@;
    let n = items.len();
    let mut i: usize = 0;
    while i < n
        invariant
            n == items@.len(),
            iv == views_of(items@),
            parts == Seq::new(iv.len(), |i: int| skip_item_of(iv[i])),
            i <= n,
            out@ == header + join_nl(parts, i as int),
        decreases n - i,
    {
        if i > 0 {
            out.append("\n");
        }
        out.append("<li><code>");
        let esc = html_escape(items[i].rel.as_str());
        out.append(esc.as_str());
        out.append("</code> <span class='muted'>(");
        let size = bytes_human(items[i].size);
        out.append(size.as_str());
        out.append(")</span></li>");
        proof {
            assert(iv[i as int] == items@[i as int]@);
            assert(out@ =~= header + (join_nl(parts, i as int) + (if i == 0 {
                Seq::<char>::empty()
            } else {
                "\n"@
            }) + skip_item_of(iv[i as int])));
            assert(out@ =~= header + join_nl(parts, i + 1));
        }
        i += 1;
    }
    out.append("\n</ul></details>");
    proof {
        assert(out@ =~= skip_list_of(title@, iv));
    }
    out
}

/// One rendered file's section: an anchored heading with the escaped path
/// and size, the body markup, and a way back to the top.
pub open spec fn section_of(f: FileInfoV, body: Seq<char>) -> Seq<char> {
    "\n<section class=\"file-section\" id=\"file-"@ + f.rel.map_values(|c: char| slug_char(c))
        + "\">\n  <h2>"@ + escape_chars(f.rel) + " <span class=\"muted\">("@ + bytes_human_of(
        f.size,
    ) + ")</span></h2>\n  <div class=\"file-body\">"@ + body
        + "</div>\n  <div class=\"back-top\"><a href=\"#top\">\u{2191} Back to top</a></div>\n</section>\n"@
}

/// The sections of all rendered records, joined by newlines, in record
/// order, with the given bodies.
pub open spec fn sections_html_of(inc: Seq<FileInfoV>, bodies: Seq<Seq<char>>) -> Seq<char> {
    join_nl(Seq::new(inc.len(), |i: int| section_of(inc[i], bodies[i])), inc.len() as int)
}

/// Render the section of every rendered record, from the outcome of reading
/// it, and return the joined markup together with the bodies used.
fn render_sections(rendered: &Vec<FileInfo>, contents: &Vec<Result<String, String>>) -> (res: (
    String,
    Ghost<Seq<Seq<char>>>,
))
    requires
        contents@.len() == rendered@.len(),
    ensures
        res.1@.len() == rendered@.len(),
        forall|j: int|
            0 <= j < rendered@.len() ==> crate::render::body_html_ok(
                views_of(rendered@)[j].rel,
                contents@[j],
                res.1@[j],
            ),
        res.0@ == sections_html_of(views_of(rendered@), res.1@),
{
    let ghost inc = views_of(rendered@);
    let mut out = String::new();
    let ghost mut bodies: Seq<Seq<char>> = Seq::empty();
    let n = rendered.len();
    let mut i: usize = 0;
    while i < n
        invariant
            n == rendered@.len(),
            inc == views_of(rendered@),
            contents@.len() == rendered@.len(),
            i <= n,
            bodies.len() == i,
            forall|j: int|
                0 <= j < i ==> crate::render::body_html_ok(inc[j].rel, contents@[j], bodies[j]),
            out@ == join_nl(Seq::new(i as nat, |j: int| section_of(inc[j], bodies[j])), i as int),
        decreases n - i,
    {
        let ghost old_bodies = bodies;
        if i > 0 {
            out.append("\n");
        }
        out.append("\n<section class=\"file-section\" id=\"file-");
        let slug = slugify(rendered[i].rel.as_str());
        out.append(slug.as_str());
        out.append("\">\n  <h2>");
        let esc = html_escape(rendered[i].rel.as_str());
        out.append(esc.as_str());
        out.append(" <span class=\"muted\">(");
        let size = bytes_human(rendered[i].size);
        out.append(size.as_str());
        out.append(")</span></h2>\n  <div class=\"file-body\">");
        let body = crate::render::render_file_body(rendered[i].rel.as_str(), &contents[i]);
        out.append(body.as_str());
        out.append(
            "</div>\n  <div class=\"back-top\"><a href=\"#top\">\u{2191} Back to top</a></div>\n</section>\n",
        );
        proof {
            bodies = bodies.push(body@);
            assert(inc[i as int] == rendered@[i as int]@);
            assert(slug@ =~= inc[i as int].rel.map_values(|c: char| slug_char(c)));
            let p_old = Seq::new(i as nat, |j: int| section_of(inc[j], old_bodies[j]));
            let p_new = Seq::new((i + 1) as nat, |j: int| section_of(inc[j], bodies[j]));
            lemma_join_nl_congruent(p_old, p_new, i as int);
            assert(p_new[i as int] == section_of(inc[i as int], body@));
            assert(out@ =~= join_nl(p_new, i as int) + (if i == 0 {
                Seq::<char>::empty()
            } else {
                "\n"@
            }) + section_of(inc[i as int], body@));
            assert(out@ =~= join_nl(p_new, i + 1));
        }
        i += 1;
    }
    proof {
        assert(Seq::new(n as nat, |j: int| section_of(inc[j], bodies[j])) =~= Seq::new(
            inc.len(),
            |j: int| section_of(inc[j], bodies[j]),
        ));
    }
    (out, Ghost(bodies))
}


/// The inline style sheet of the human view.
pub open spec fn css_text() -> Seq<char> {
    r#"
  body {
    font-family: -apple-system, BlinkMacSystemFont, 'Segoe UI', Roboto, Helvetica, Arial, 'Apple Color Emoji','Segoe UI Emoji';
    margin: 0; padding: 0; line-height: 1.45;
  }
  .container { max-width: 1100px; margin: 0 auto; padding: 0 1rem; }
  .meta small { color: #666; }
  .counts { margin-top: 0.25rem; color: #333; }
  .muted { color: #777; font-weight: normal; font-size: 0.9em; }

  /* Layout with sidebar */
  .page { display: grid; grid-template-columns: 320px minmax(0,1fr); gap: 0; }
  #sidebar {
    position: sticky; top: 0; align-self: start;
    height: 100vh; overflow: auto;
    border-right: 1px solid #eee; background: #fafbfc;
  }
  #sidebar .sidebar-inner { padding: 0.75rem; }
  #sidebar h2 { margin: 0 0 0.5rem 0; font-size: 1rem; }

  .toc { list-style: none; padding-left: 0; margin: 0; overflow-x: auto; }
  .toc li { padding: 0.15rem 0; white-space: nowrap; }
  .toc a { text-decoration: none; color: #0366d6; display: inline-block; text-decoration: none; }
  .toc a:hover { text-decoration: underline; }

  main.container { padding-top: 1rem; }

  pre { background: #f6f8fa; padding: 0.75rem; overflow: auto; border-radius: 6px; }
  code { font-family: ui-monospace, SFMono-Regular, Menlo, Monaco, Consolas, 'Liberation Mono','Courier New', monospace; }
  .highlight { overflow-x: auto; }
  .file-section { padding: 1rem; border-top: 1px solid #eee; }
  .file-section h2 { margin: 0 0 0.5rem 0; font-size: 1.1rem; }
  .file-body { margin-bottom: 0.5rem; }
  .back-top { font-size: 0.9rem; }
  .skip-list code { background: #f6f8fa; padding: 0.1rem 0.3rem; border-radius: 4px; }
  .error { color: #b00020; background: #fff3f3; }

  /* Hide duplicate top TOC on wide screens */
  .toc-top { display: block; }
  @media (min-width: 1000px) { .toc-top { display: none; } }

  :target { scroll-margin-top: 8px; }

  /* View toggle */
  .view-toggle {
    margin: 1rem 0;
    display: flex;
    gap: 0.5rem;
    align-items: center;
  }
  .toggle-btn {
    padding: 0.5rem 1rem;
    border: 1px solid #d1d9e0;
    background: white;
    cursor: pointer;
    border-radius: 6px;
    font-size: 0.9rem;
  }
  .toggle-btn.active {
    background: #0366d6;
    color: white;
    border-color: #0366d6;
  }
  .toggle-btn:hover:not(.active) {
    background: #f6f8fa;
  }

  /* LLM view */
  #llm-view { display: none; }
  #llm-text {
    width: 100%;
    height: 70vh;
    font-family: ui-monospace, SFMono-Regular, Menlo, Monaco, Consolas, monospace;
    font-size: 0.85em;
    border: 1px solid #d1d9e0;
    border-radius: 6px;
    padding: 1rem;
    resize: vertical;
  }
  .copy-hint {
    margin-top: 0.5rem;
    color: #666;
    font-size: 0.9em;
  }

  /* Syntax highlighting */
  .highlight pre {
    margin: 0;
    background: #f6f8fa;
  }
"#@
}

/// The style sheet embedded in the page.
pub fn generate_css() -> (r: &'static str)
    ensures
        r@ == css_text(),
{
    r#"
  body {
    font-family: -apple-system, BlinkMacSystemFont, 'Segoe UI', Roboto, Helvetica, Arial, 'Apple Color Emoji','Segoe UI Emoji';
    margin: 0; padding: 0; line-height: 1.45;
  }
  .container { max-width: 1100px; margin: 0 auto; padding: 0 1rem; }
  .meta small { color: #666; }
  .counts { margin-top: 0.25rem; color: #333; }
  .muted { color: #777; font-weight: normal; font-size: 0.9em; }

  /* Layout with sidebar */
  .page { display: grid; grid-template-columns: 320px minmax(0,1fr); gap: 0; }
  #sidebar {
    position: sticky; top: 0; align-self: start;
    height: 100vh; overflow: auto;
    border-right: 1px solid #eee; background: #fafbfc;
  }
  #sidebar .sidebar-inner { padding: 0.75rem; }
  #sidebar h2 { margin: 0 0 0.5rem 0; font-size: 1rem; }

  .toc { list-style: none; padding-left: 0; margin: 0; overflow-x: auto; }
  .toc li { padding: 0.15rem 0; white-space: nowrap; }
  .toc a { text-decoration: none; color: #0366d6; display: inline-block; text-decoration: none; }
  .toc a:hover { text-decoration: underline; }

  main.container { padding-top: 1rem; }

  pre { background: #f6f8fa; padding: 0.75rem; overflow: auto; border-radius: 6px; }
  code { font-family: ui-monospace, SFMono-Regular, Menlo, Monaco, Consolas, 'Liberation Mono','Courier New', monospace; }
  .highlight { overflow-x: auto; }
  .file-section { padding: 1rem; border-top: 1px solid #eee; }
  .file-section h2 { margin: 0 0 0.5rem 0; font-size: 1.1rem; }
  .file-body { margin-bottom: 0.5rem; }
  .back-top { font-size: 0.9rem; }
  .skip-list code { background: #f6f8fa; padding: 0.1rem 0.3rem; border-radius: 4px; }
  .error { color: #b00020; background: #fff3f3; }

  /* Hide duplicate top TOC on wide screens */
  .toc-top { display: block; }
  @media (min-width: 1000px) { .toc-top { display: none; } }

  :target { scroll-margin-top: 8px; }

  /* View toggle */
  .view-toggle {
    margin: 1rem 0;
    display: flex;
    gap: 0.5rem;
    align-items: center;
  }
  .toggle-btn {
    padding: 0.5rem 1rem;
    border: 1px solid #d1d9e0;
    background: white;
    cursor: pointer;
    border-radius: 6px;
    font-size: 0.9rem;
  }
  .toggle-btn.active {
    background: #0366d6;
    color: white;
    border-color: #0366d6;
  }
  .toggle-btn:hover:not(.active) {
    background: #f6f8fa;
  }

  /* LLM view */
  #llm-view { display: none; }
  #llm-text {
    width: 100%;
    height: 70vh;
    font-family: ui-monospace, SFMono-Regular, Menlo, Monaco, Consolas, monospace;
    font-size: 0.85em;
    border: 1px solid #d1d9e0;
    border-radius: 6px;
    padding: 1rem;
    resize: vertical;
  }
  .copy-hint {
    margin-top: 0.5rem;
    color: #666;
    font-size: 0.9em;
  }

  /* Syntax highlighting */
  .highlight pre {
    margin: 0;
    background: #f6f8fa;
  }
"#
}

/// The client-side script that switches between the two views.
pub open spec fn js_text() -> Seq<char> {
    r#"
function showHumanView() {
  document.getElementById('human-view').style.display = 'block';
  document.getElementById('llm-view').style.display = 'none';
  document.querySelectorAll('.toggle-btn').forEach(btn => btn.classList.remove('active'));
  event.target.classList.add('active');
}

function showLLMView() {
  document.getElementById('human-view').style.display = 'none';
  document.getElementById('llm-view').style.display = 'block';
  document.querySelectorAll('.toggle-btn').forEach(btn => btn.classList.remove('active'));
  event.target.classList.add('active');

  // Auto-select all text when switching to LLM view for easy copying
  setTimeout(() => {
    const textArea = document.getElementById('llm-text');
    textArea.focus();
    textArea.select();
  }, 100);
}
"#@
}

/// The script embedded in the page.
pub fn get_javascript() -> (r: &'static str)
    ensures
        r@ == js_text(),
{
    r#"
function showHumanView() {
  document.getElementById('human-view').style.display = 'block';
  document.getElementById('llm-view').style.display = 'none';
  document.querySelectorAll('.toggle-btn').forEach(btn => btn.classList.remove('active'));
  event.target.classList.add('active');
}

function showLLMView() {
  document.getElementById('human-view').style.display = 'none';
  document.getElementById('llm-view').style.display = 'block';
  document.querySelectorAll('.toggle-btn').forEach(btn => btn.classList.remove('active'));
  event.target.classList.add('active');

  // Auto-select all text when switching to LLM view for easy copying
  setTimeout(() => {
    const textArea = document.getElementById('llm-text');
    textArea.focus();
    textArea.select();
  }, 100);
}
"#
}


/// The Total count of the metadata block: the sum over the rendered,
/// binary, too-large and ignored sublists — every record considered.
pub open spec fn total_count(s: Seq<FileInfoV>) -> int {
    included_of(s).len() as int + with_reason(s, "binary"@).len() + with_reason(s, "too_large"@).len()
        + with_reason(s, "ignored"@).len()
}

/// The Skipped count of the metadata block: binary and too-large records
/// only. Ignored records join no count but the total.
pub open spec fn skipped_count(s: Seq<FileInfoV>) -> int {
    with_reason(s, "binary"@).len() as int + with_reason(s, "too_large"@).len()
}

/// The whole human-view page, given the escaped metadata, the tree text,
/// the record list, the read outcomes and the rendered bodies.
pub open spec fn html_doc_of(
    url: Seq<char>,
    head: Seq<char>,
    tree_text: Seq<char>,
    s: Seq<FileInfoV>,
    contents: Seq<Result<String, String>>,
    bodies: Seq<Seq<char>>,
) -> Seq<char> {
    let inc = included_of(s);
    let total = total_count(s);
    let skipped = skipped_count(s);
    let toc = toc_html_of(inc);
    let u = escape_chars(url);
    let skips = skip_list_of("Skipped binaries"@, with_reason(s, "binary"@)) + skip_list_of(
        "Skipped large files"@,
        with_reason(s, "too_large"@),
    );
    "<!DOCTYPE html>\n<html lang=\"en\">\n<head>\n<meta charset=\"utf-8\" />\n<meta name=\"viewport\" content=\"width=device-width, initial-scale=1\" />\n<title>Flattened repo \u{2013} "@ + u + "</title>\n<style>\n"@ + css_text() + "\n</style>\n</head>\n<body>\n<a id=\"top\"></a>\n\n<div class=\"page\">\n  <nav id=\"sidebar\"><div class=\"sidebar-inner\">\n      <h2>Contents ("@ + dec_of(inc.len() as int) + ")</h2>\n      <ul class=\"toc toc-sidebar\">\n        <li><a href=\"#top\">\u{2191} Back to top</a></li>\n        "@ + toc + "\n      </ul>\n  </div></nav>\n\n  <main class=\"container\">\n\n    <section>\n        <div class=\"meta\">\n        <div><strong>Repository:</strong> <a href=\""@ + u + "\">"@ + u + "</a></div>\n        <small><strong>HEAD commit:</strong> "@ + escape_chars(head) + "</small>\n        <div class=\"counts\">\n            <strong>Total files:</strong> "@ + dec_of(total) + " \u{b7} <strong>Rendered:</strong> "@ + dec_of(inc.len() as int) + " \u{b7} <strong>Skipped:</strong> "@ + dec_of(skipped) + "\n        </div>\n        </div>\n    </section>\n\n    <div class=\"view-toggle\">\n      <strong>View:</strong>\n      <button class=\"toggle-btn active\" onclick=\"showHumanView()\">\u{1f464} Human</button>\n      <button class=\"toggle-btn\" onclick=\"showLLMView()\">\u{1f916} LLM</button>\n    </div>\n\n    <div id=\"human-view\">\n      <section>\n        <h2>Directory tree</h2>\n        <pre>"@ + escape_chars(tree_text) + "</pre>\n      </section>\n\n      <section class=\"toc-top\">\n        <h2>Table of contents ("@ + dec_of(inc.len() as int) + ")</h2>\n        <ul class=\"toc\">"@ + toc + "</ul>\n      </section>\n\n      <section>\n        <h2>Skipped items</h2>\n        "@ + skips + "\n      </section>\n\n      "@ + sections_html_of(inc, bodies) + "\n    </div>\n\n    <div id=\"llm-view\">\n      <section>\n        <h2>\u{1f916} LLM View - CXML Format</h2>\n        <p>Copy the text below and paste it to an LLM for analysis:</p>\n        <textarea id=\"llm-text\" readonly>"@ + escape_chars(cxml_text_of(s, contents)) + "</textarea>\n        <div class=\"copy-hint\">\n          \u{1f4a1} <strong>Tip:</strong> Click in the text area and press Ctrl+A (Cmd+A on Mac) to select all, then Ctrl+C (Cmd+C) to copy.\n        </div>\n      </section>\n    </div>\n  </main>\n</div>\n\n<script>\n"@ + js_text() + "\n</script>\n</body>\n</html>\n"@
}


/// Well-formed decisions partition the records: every record stands in
/// exactly one of the rendered, binary, too-large and ignored sublists, so
/// the total shown in the metadata block is the number of records.
pub proof fn lemma_reason_partition(s: Seq<FileInfoV>)
    requires
        forall|i: int|
            0 <= i < s.len() ==> crate::classify::decision_wf(#[trigger] s[i].decision),
    ensures
        total_count(s) == s.len(),
    decreases s.len(),
{
    reveal_strlit("ok");
    reveal_strlit("binary");
    reveal_strlit("too_large");
    reveal_strlit("ignored");
    assert("ok"@.len() == 2);
    assert("binary"@.len() == 6);
    assert("too_large"@.len() == 9);
    assert("ignored"@.len() == 7);
    if s.len() > 0 {
        let rest = s.drop_first();
        assert(forall|i: int|
            0 <= i < rest.len() ==> crate::classify::decision_wf(#[trigger] rest[i].decision))
            by {
            assert(forall|i: int| 0 <= i < rest.len() ==> rest[i] == s[i + 1]);
        }
        lemma_reason_partition(rest);
        assert(crate::classify::decision_wf(s[0].decision));
    }
}

/// The bodies fit the record list: one per rendered record, each the markup
/// that `body_html_ok` allows for that record and its read outcome.
pub open spec fn bodies_ok(
    s: Seq<FileInfoV>,
    contents: Seq<Result<String, String>>,
    bodies: Seq<Seq<char>>,
) -> bool {
    bodies.len() == included_of(s).len() && (forall|j: int|
        0 <= j < bodies.len() ==> crate::render::body_html_ok(
            included_of(s)[j].rel,
            contents[j],
            bodies[j],
        ))
}

/// Build the complete HTML page for a classified tree: metadata, sidebar
/// and in-page tables of contents, the directory tree, the skip lists, one
/// section per rendered file, and the machine view behind a client-side
/// toggle. `contents` holds, in record order, the outcome of reading each
/// rendered file.
pub fn build_html(
    repo_url: &str,
    head_commit: &str,
    root: &crate::tree::TreeEntry,
    infos: &Vec<FileInfo>,
    contents: &Vec<Result<String, String>>,
) -> (r: String)
    requires
        contents@.len() == included_of(views_of(infos@)).len(),
        forall|i: int|
            0 <= i < infos@.len() ==> crate::classify::decision_wf(
                #[trigger] infos@[i]@.decision,
            ),
    ensures
        exists|bodies: Seq<Seq<char>>|
            #[trigger] bodies_ok(views_of(infos@), contents@, bodies) && r@ == html_doc_of(
                repo_url@,
                head_commit@,
                crate::tree::tree_text_of(*root),
                views_of(infos@),
                contents@,
                bodies,
            ),
{
    let ghost s = views_of(infos@);
    let n_infos = infos.len();
    let rendered = rendered_files(infos);
    let skipped_binary = files_with_reason(infos, "binary");
    let skipped_large = files_with_reason(infos, "too_large");
    let skipped_ignored = files_with_reason(infos, "ignored");

    let tree_string = crate::tree::generate_tree(root);
    let cxml_string = crate::cxml::generate_cxml(infos, contents);

    let url_esc = html_escape(repo_url);
    let head_esc = html_escape(head_commit);
    let tree_esc = html_escape(tree_string.as_str());
    let cxml_esc = html_escape(cxml_string.as_str());

    proof {
        assert(forall|i: int|
            0 <= i < s.len() ==> crate::classify::decision_wf(#[trigger] s[i].decision)) by {
            assert(forall|i: int| 0 <= i < s.len() ==> s[i] == infos@[i]@);
        }
        lemma_reason_partition(s);
        assert(rendered@.len() == included_of(s).len()) by {
            assert(views_of(rendered@).len() == rendered@.len());
        }
        assert(skipped_binary@.len() == with_reason(s, "binary"@).len()) by {
            assert(views_of(skipped_binary@).len() == skipped_binary@.len());
        }
        assert(skipped_large@.len() == with_reason(s, "too_large"@).len()) by {
            assert(views_of(skipped_large@).len() == skipped_large@.len());
        }
        assert(skipped_ignored@.len() == with_reason(s, "ignored"@).len()) by {
            assert(views_of(skipped_ignored@).len() == skipped_ignored@.len());
        }
        assert(s.len() == infos@.len());
        assert(rendered@.len() + skipped_binary@.len() + skipped_large@.len()
            + skipped_ignored@.len() == n_infos as int);
    }
    let rendered_dec = u64_to_dec(rendered.len() as u64);
    let total_u64 = rendered.len() as u64 + skipped_binary.len() as u64 + skipped_large.len()
        as u64 + skipped_ignored.len() as u64;
    let skipped_u64 = skipped_binary.len() as u64 + skipped_large.len() as u64;
    proof {
        assert(total_u64 == total_count(s));
        assert(skipped_u64 == skipped_count(s));
    }
    let total_dec = u64_to_dec(total_u64);
    let skipped_dec = u64_to_dec(skipped_u64);

    let toc = toc_html(&rendered);
    let mut skipped_html = render_skip_list("Skipped binaries", &skipped_binary);
    let large_list = render_skip_list("Skipped large files", &skipped_large);
    skipped_html.append(large_list.as_str());

    proof {
        assert(contents@.len() == rendered@.len());
    }
    let (sections_text, bodies_g) = render_sections(&rendered, contents);

    let mut out = String::new();
    out.append("<!DOCTYPE html>\n<html lang=\"en\">\n<head>\n<meta charset=\"utf-8\" />\n<meta name=\"viewport\" content=\"width=device-width, initial-scale=1\" />\n<title>Flattened repo \u{2013} ");
    out.append(url_esc.as_str());
    out.append("</title>\n<style>\n");
    out.append(generate_css());
    out.append("\n</style>\n</head>\n<body>\n<a id=\"top\"></a>\n\n<div class=\"page\">\n  <nav id=\"sidebar\"><div class=\"sidebar-inner\">\n      <h2>Contents (");
    out.append(rendered_dec.as_str());
    out.append(")</h2>\n      <ul class=\"toc toc-sidebar\">\n        <li><a href=\"#top\">\u{2191} Back to top</a></li>\n        ");
    out.append(toc.as_str());
    out.append("\n      </ul>\n  </div></nav>\n\n  <main class=\"container\">\n\n    <section>\n        <div class=\"meta\">\n        <div><strong>Repository:</strong> <a href=\"");
    out.append(url_esc.as_str());
    out.append("\">");
    out.append(url_esc.as_str());
    out.append("</a></div>\n        <small><strong>HEAD commit:</strong> ");
    out.append(head_esc.as_str());
    out.append("</small>\n        <div class=\"counts\">\n            <strong>Total files:</strong> ");
    out.append(total_dec.as_str());
    out.append(" \u{b7} <strong>Rendered:</strong> ");
    out.append(rendered_dec.as_str());
    out.append(" \u{b7} <strong>Skipped:</strong> ");
    out.append(skipped_dec.as_str());
    out.append("\n        </div>\n        </div>\n    </section>\n\n    <div class=\"view-toggle\">\n      <strong>View:</strong>\n      <button class=\"toggle-btn active\" onclick=\"showHumanView()\">\u{1f464} Human</button>\n      <button class=\"toggle-btn\" onclick=\"showLLMView()\">\u{1f916} LLM</button>\n    </div>\n\n    <div id=\"human-view\">\n      <section>\n        <h2>Directory tree</h2>\n        <pre>");
    out.append(tree_esc.as_str());
    out.append("</pre>\n      </section>\n\n      <section class=\"toc-top\">\n        <h2>Table of contents (");
    out.append(rendered_dec.as_str());
    out.append(")</h2>\n        <ul class=\"toc\">");
    out.append(toc.as_str());
    out.append("</ul>\n      </section>\n\n      <section>\n        <h2>Skipped items</h2>\n        ");
    out.append(skipped_html.as_str());
    out.append("\n      </section>\n\n      ");
    out.append(sections_text.as_str());
    out.append("\n    </div>\n\n    <div id=\"llm-view\">\n      <section>\n        <h2>\u{1f916} LLM View - CXML Format</h2>\n        <p>Copy the text below and paste it to an LLM for analysis:</p>\n        <textarea id=\"llm-text\" readonly>");
    out.append(cxml_esc.as_str());
    out.append("</textarea>\n        <div class=\"copy-hint\">\n          \u{1f4a1} <strong>Tip:</strong> Click in the text area and press Ctrl+A (Cmd+A on Mac) to select all, then Ctrl+C (Cmd+C) to copy.\n        </div>\n      </section>\n    </div>\n  </main>\n</div>\n\n<script>\n");
    out.append(get_javascript());
    out.append("\n</script>\n</body>\n</html>\n");
    proof {
        let bodies = bodies_g@;
        assert(bodies_ok(s, contents@, bodies));
        assert(out@ =~= html_doc_of(
            repo_url@,
            head_commit@,
            crate::tree::tree_text_of(*root),
            s,
            contents@,
            bodies,
        ));
    }
    out
}


proof fn lemma_with_reason_elems(s: Seq<FileInfoV>, reason: Seq<char>)
    ensures
        forall|i: int|
            0 <= i < with_reason(s, reason).len() ==> #[trigger] with_reason(
                s,
                reason,
            )[i].decision.reason == reason,
    decreases s.len(),
{
    if s.len() > 0 {
        lemma_with_reason_elems(s.drop_first(), reason);
        assert forall|i: int| 0 <= i < with_reason(s, reason).len() implies (
        #[trigger] with_reason(s, reason)[i]).decision.reason == reason by {
            if s[0].decision.reason == reason {
                if i == 0 {
                    assert(with_reason(s, reason)[0] == s[0]);
                } else {
                    assert(with_reason(s, reason)[i] == with_reason(s.drop_first(), reason)[i
                        - 1]);
                }
            } else {
                assert(with_reason(s, reason)[i] == with_reason(s.drop_first(), reason)[i]);
            }
        }
    }
}

proof fn lemma_included_elems(s: Seq<FileInfoV>)
    ensures
        forall|i: int|
            0 <= i < included_of(s).len() ==> (#[trigger] included_of(s)[i]).decision.included,
    decreases s.len(),
{
    if s.len() > 0 {
        lemma_included_elems(s.drop_first());
        assert forall|i: int| 0 <= i < included_of(s).len() implies (#[trigger] included_of(
            s,
        )[i]).decision.included by {
            if s[0].decision.included {
                if i == 0 {
                    assert(included_of(s)[0] == s[0]);
                } else {
                    assert(included_of(s)[i] == included_of(s.drop_first())[i - 1]);
                }
            } else {
                assert(included_of(s)[i] == included_of(s.drop_first())[i]);
            }
        }
    }
}

/// An ignored record never stands in a skip list nor among the rendered
/// sections: the two skip lists hold only binary and too-large records, and
/// every rendered record has reason `ok`.
pub proof fn lemma_ignored_absent(s: Seq<FileInfoV>)
    requires
        forall|i: int|
            0 <= i < s.len() ==> crate::classify::decision_wf(#[trigger] s[i].decision),
    ensures
        forall|i: int|
            0 <= i < with_reason(s, "binary"@).len() ==> #[trigger] with_reason(
                s,
                "binary"@,
            )[i].decision.reason != "ignored"@,
        forall|i: int|
            0 <= i < with_reason(s, "too_large"@).len() ==> #[trigger] with_reason(
                s,
                "too_large"@,
            )[i].decision.reason != "ignored"@,
        forall|i: int|
            0 <= i < included_of(s).len() ==> (#[trigger] included_of(s)[i]).decision.reason
                != "ignored"@,
{
    reveal_strlit("ok");
    reveal_strlit("binary");
    reveal_strlit("too_large");
    reveal_strlit("ignored");
    assert("ok"@.len() == 2);
    assert("binary"@.len() == 6);
    assert("too_large"@.len() == 9);
    assert("ignored"@.len() == 7);
    lemma_with_reason_elems(s, "binary"@);
    lemma_with_reason_elems(s, "too_large"@);
    lemma_included_elems(s);
    lemma_included_wf(s);
}

proof fn lemma_included_wf(s: Seq<FileInfoV>)
    requires
        forall|i: int|
            0 <= i < s.len() ==> crate::classify::decision_wf(#[trigger] s[i].decision),
    ensures
        forall|i: int|
            0 <= i < included_of(s).len() ==> crate::classify::decision_wf(
                (#[trigger] included_of(s)[i]).decision,
            ),
    decreases s.len(),
{
    if s.len() > 0 {
        let rest = s.drop_first();
        assert(forall|i: int|
            0 <= i < rest.len() ==> crate::classify::decision_wf(#[trigger] rest[i].decision))
            by {
            assert(forall|i: int| 0 <= i < rest.len() ==> rest[i] == s[i + 1]);
        }
        lemma_included_wf(rest);
        assert forall|i: int| 0 <= i < included_of(s).len() implies crate::classify::decision_wf(
            (#[trigger] included_of(s)[i]).decision,
        ) by {
            if s[0].decision.included {
                if i == 0 {
                    assert(included_of(s)[0] == s[0]);
                } else {
                    assert(included_of(s)[i] == included_of(rest)[i - 1]);
                }
            } else {
                assert(included_of(s)[i] == included_of(rest)[i]);
            }
        }
    }
}

/// The relative paths of the table of contents, in entry order.
pub open spec fn toc_paths(s: Seq<FileInfoV>) -> Seq<Seq<char>> {
    Seq::new(included_of(s).len(), |i: int| included_of(s)[i].rel)
}

/// The machine view follows the table of contents element for element: the
/// document at position `i` carries the one-based index `i + 1` and the
/// path of the `i`-th table-of-contents entry, and the entry itself is made
/// of that same record.
pub proof fn lemma_machine_view_follows_toc(
    s: Seq<FileInfoV>,
    contents: Seq<Result<String, String>>,
    i: int,
)
    requires
        0 <= i < included_of(s).len(),
    ensures
        crate::cxml::cxml_documents(included_of(s), contents, i) == crate::cxml::cxml_document(
            i + 1,
            toc_paths(s)[i],
            crate::cxml::content_text(contents[i]),
        ) + crate::cxml::cxml_documents(included_of(s), contents, i + 1),
        toc_paths(s)[i] == included_of(s)[i].rel,
{
}

/// The bodies of the rendered sections are determined by the records and
/// the read outcomes alone: any two body sequences the contracts allow for
/// the same inputs are equal.
pub proof fn lemma_bodies_unique(
    s: Seq<FileInfoV>,
    contents: Seq<Result<String, String>>,
    b1: Seq<Seq<char>>,
    b2: Seq<Seq<char>>,
)
    requires
        bodies_ok(s, contents, b1),
        bodies_ok(s, contents, b2),
    ensures
        b1 == b2,
{
    assert forall|j: int| 0 <= j < b1.len() implies b1[j] == b2[j] by {
        assert(crate::render::body_html_ok(included_of(s)[j].rel, contents[j], b1[j]));
        assert(crate::render::body_html_ok(included_of(s)[j].rel, contents[j], b2[j]));
    }
    assert(b1 =~= b2);
}

/// Byte-identical output: runs over the same classified tree, metadata and
/// read outcomes produce the same page and the same machine view, whatever
/// body sequences their contracts allowed.
pub proof fn lemma_outputs_deterministic(
    url: Seq<char>,
    head: Seq<char>,
    tree_text: Seq<char>,
    s: Seq<FileInfoV>,
    contents: Seq<Result<String, String>>,
    bodies1: Seq<Seq<char>>,
    bodies2: Seq<Seq<char>>,
    h1: Seq<char>,
    h2: Seq<char>,
    c1: Seq<char>,
    c2: Seq<char>,
)
    requires
        bodies_ok(s, contents, bodies1),
        bodies_ok(s, contents, bodies2),
        h1 == html_doc_of(url, head, tree_text, s, contents, bodies1),
        h2 == html_doc_of(url, head, tree_text, s, contents, bodies2),
        c1 == cxml_text_of(s, contents),
        c2 == cxml_text_of(s, contents),
    ensures
        h1 == h2,
        c1 == c2,
{
    lemma_bodies_unique(s, contents, bodies1, bodies2);
}

} // verus!
