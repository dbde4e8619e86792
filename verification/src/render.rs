use vstd::prelude::*;

use crate::classify::extension_of;
use crate::utils::{ends_with, escape_chars, lower_of, lowercase, str_ends_with};

use syntect::easy::HighlightLines;
use syntect::highlighting::ThemeSet;
use syntect::html::{styled_line_to_highlighted_html, IncludeBackground};
use syntect::parsing::SyntaxSet;
use syntect::util::LinesWithEndings;

verus! {

broadcast use vstd::string::group_string_axioms;

/// What the CommonMark conversion makes of a markdown text: a function of
/// the text alone.
pub uninterp spec fn markdown_html_of(s: Seq<char>) -> Seq<char>;

/// Relies on `pulldown_cmark::Parser::new` and `pulldown_cmark::html::push_html`:
/// the markdown-to-HTML conversion of the text, decided by the text alone.
#[verifier::external_body]
fn markdown_to_html(content: &str) -> (r: String)
    ensures
        r@ == markdown_html_of(content@),
{
    let parser = pulldown_cmark::Parser::new(content);
    let mut html_output = String::new();
    pulldown_cmark::html::push_html(&mut html_output, parser);
    html_output
}

/// What syntect's highlighting makes of a text under its bundled default
/// syntaxes and `InspiredGitHub` theme, for a given extension: inline-styled,
/// HTML-escaped markup, decided by the text and the extension alone.
pub uninterp spec fn highlighted_of(content: Seq<char>, ext: Seq<char>) -> Seq<char>;

/// Whether syntect's highlighting of a text succeeds, for a given
/// extension: like its result, decided by the text and the extension alone.
pub uninterp spec fn highlight_ok(content: Seq<char>, ext: Seq<char>) -> bool;

/// Relies on syntect: `SyntaxSet::load_defaults_newlines` and
/// `ThemeSet::load_defaults` (bundled constants of the crate),
/// `find_syntax_by_extension` with the plain-text fallback,
/// `HighlightLines::highlight_line` over the lines of the content, and
/// `styled_line_to_highlighted_html`. Whether the call succeeds, and what a
/// successful call returns, are functions of the content and the extension
/// alone.
#[verifier::external_body]
fn syntect_highlight(content: &str, ext: &str) -> (r: Result<String, String>)
    ensures
        r is Ok == highlight_ok(content@, ext@),
        r is Ok ==> r->Ok_0@ == highlighted_of(content@, ext@),
{
    let ss = SyntaxSet::load_defaults_newlines();
    let ts = ThemeSet::load_defaults();
    let theme = ts.themes.get("InspiredGitHub").ok_or("theme not found".to_string())?;
    let syntax = ss.find_syntax_by_extension(ext).unwrap_or_else(|| ss.find_syntax_plain_text());
    let mut highlighter = HighlightLines::new(syntax, theme);
    let mut out = String::new();
    for line in LinesWithEndings::from(content) {
        let ranges = highlighter.highlight_line(line, &ss).map_err(|e| e.to_string())?;
        let html = styled_line_to_highlighted_html(&ranges[..], IncludeBackground::No).map_err(|e| e.to_string())?;
        out.push_str(&html);
    }
    Ok(out)
}

/// A file name ends, lowercased, in one of the markdown extensions.
pub open spec fn is_markdown_name(filename: Seq<char>) -> bool {
    ||| ends_with(lower_of(filename), ".md"@)
    ||| ends_with(lower_of(filename), ".markdown"@)
    ||| ends_with(lower_of(filename), ".mdown"@)
    ||| ends_with(lower_of(filename), ".mkd"@)
    ||| ends_with(lower_of(filename), ".mkdn"@)
}

/// Decide from the file name whether a file is rendered as markdown.
pub fn is_markdown(filename: &str) -> (r: bool)
    ensures
        r == is_markdown_name(filename@),
{
    let lowered = lowercase(filename);
    str_ends_with(lowered.as_str(), ".md") || str_ends_with(lowered.as_str(), ".markdown")
        || str_ends_with(lowered.as_str(), ".mdown") || str_ends_with(lowered.as_str(), ".mkd")
        || str_ends_with(lowered.as_str(), ".mkdn")
}

/// Convert a markdown text to embeddable HTML.
pub fn render_markdown(content: &str) -> (r: String)
    ensures
        r@ == markdown_html_of(content@),
{
    markdown_to_html(content)
}

/// The extension handed to the highlighter: the file's own, or `txt` when
/// it has none.
pub open spec fn highlight_ext_of(rel: Seq<char>) -> Seq<char> {
    match extension_of(rel) {
        Some(e) => e,
        None => "txt"@,
    }
}

/// A highlighted code body, wrapped in the highlight block.
pub open spec fn code_block_of(inner: Seq<char>) -> Seq<char> {
    "<div class=\"highlight\"><pre>"@ + inner + "</pre></div>"@
}

/// The inline message shown in place of a body that could not be produced.
pub open spec fn error_block_of(msg: Seq<char>) -> Seq<char> {
    "<pre class=\"error\">"@ + escape_chars(msg) + "</pre>"@
}

/// Wrap a highlighting outcome: the highlight block around a successful
/// result, the inline error message otherwise.
pub fn code_body_from(outcome: Result<String, String>) -> (r: String)
    ensures
        r@ == match outcome {
            Ok(inner) => code_block_of(inner@),
            Err(msg) => error_block_of(msg@),
        },
{
    match outcome {
        Ok(inner) => {
            let mut out = String::from_str("<div class=\"highlight\"><pre>");
            out.append(inner.as_str());
            out.append("</pre></div>");
            proof {
                assert(out@ =~= code_block_of(inner@));
            }
            out
        },
        Err(msg) => {
            let mut out = String::from_str("<pre class=\"error\">");
            let escaped = crate::utils::html_escape(msg.as_str());
            out.append(escaped.as_str());
            out.append("</pre>");
            proof {
                assert(out@ =~= error_block_of(msg@));
            }
            out
        },
    }
}

/// Highlight one file's content as HTML code markup. When the highlighting
/// call succeeds — which its inputs alone decide — the result is the
/// highlighted block; otherwise it degrades to a fixed inline error message.
pub fn highlight_code(content: &str, filename: &str) -> (r: String)
    ensures
        r@ == (if highlight_ok(content@, highlight_ext_of(filename@)) {
            code_block_of(highlighted_of(content@, highlight_ext_of(filename@)))
        } else {
            error_block_of("Failed to highlight content"@)
        }),
{
    let outcome = match crate::classify::extension_str(filename) {
        Some(e) => syntect_highlight(content, e.as_str()),
        None => syntect_highlight(content, "txt"),
    };
    match outcome {
        Ok(inner) => code_body_from(Ok(inner)),
        Err(_) => code_body_from(Err(String::from_str("Failed to highlight content"))),
    }
}

/// What the body of one rendered file's section is: the markdown conversion
/// for a markdown file; the wrapped highlighting of the content otherwise,
/// or the fixed inline error when highlighting fails; and the inline
/// read-failure message when the content could not be read at all. Every
/// case is determined by the record and the read outcome.
pub open spec fn body_html_ok(rel: Seq<char>, content: Result<String, String>, out: Seq<char>) -> bool {
    match content {
        Ok(text) => {
            if is_markdown_name(rel) {
                out == markdown_html_of(text@)
            } else if highlight_ok(text@, highlight_ext_of(rel)) {
                out == code_block_of(highlighted_of(text@, highlight_ext_of(rel)))
            } else {
                out == error_block_of("Failed to highlight content"@)
            }
        },
        Err(msg) => out == error_block_of("Failed to read: "@ + msg@),
    }
}

/// Render the body markup for one file from the outcome of reading it.
pub fn render_file_body(rel: &str, content: &Result<String, String>) -> (r: String)
    ensures
        body_html_ok(rel@, *content, r@),
{
    match content {
        Ok(text) => {
            if is_markdown(rel) {
                render_markdown(text.as_str())
            } else {
                highlight_code(text.as_str(), rel)
            }
        },
        Err(msg) => {
            let mut full = String::from_str("Failed to read: ");
            full.append(msg.as_str());
            let r = code_body_from(Err(full));
            proof {
                assert(r@ == error_block_of("Failed to read: "@ + msg@));
            }
            r
        },
    }
}

} // verus!
