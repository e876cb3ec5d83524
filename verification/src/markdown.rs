//! Markdown to HTML.
use vstd::prelude::*;

verus! {

/// The HTML that `comrak::markdown_to_html` writes for a Markdown text, with
/// these options set and every other option at its default.
pub uninterp spec fn comrak_html(
    markdown: Seq<char>,
    strikethrough: bool,
    tagfilter: bool,
    table: bool,
    autolink: bool,
    tasklist: bool,
    superscript: bool,
    raw_html: bool,
    hardbreaks: bool,
) -> Seq<char>;

/// `comrak::markdown_to_html`. The HTML is a function of the text and of the
/// options, named `comrak_html`; nothing else is stated of it.
#[verifier::external_body]
fn render(
    markdown: &str,
    strikethrough: bool,
    tagfilter: bool,
    table: bool,
    autolink: bool,
    tasklist: bool,
    superscript: bool,
    raw_html: bool,
    hardbreaks: bool,
) -> (r: String)
    ensures
        r@ == comrak_html(
            markdown@,
            strikethrough,
            tagfilter,
            table,
            autolink,
            tasklist,
            superscript,
            raw_html,
            hardbreaks,
        ),
{
    let mut options = comrak::Options::default();
    options.extension.strikethrough = strikethrough;
    options.extension.tagfilter = tagfilter;
    options.extension.table = table;
    options.extension.autolink = autolink;
    options.extension.tasklist = tasklist;
    options.extension.superscript = superscript;
    options.render.unsafe_ = raw_html;
    options.render.hardbreaks = hardbreaks;
    comrak::markdown_to_html(markdown, &options)
}

/// The HTML of a note: strikethrough, the tag filter, tables, automatic links,
/// task lists and superscripts are on, raw HTML is let through, and each line
/// break is kept.
pub open spec fn markdown_html(markdown: Seq<char>) -> Seq<char> {
    comrak_html(markdown, true, true, true, true, true, true, true, true)
}

/// Renders the text of a note.
pub fn md_to_html(markdown: &str) -> (r: String)
    ensures
        r@ == markdown_html(markdown@),
        r@ == comrak_html(markdown@, true, true, true, true, true, true, true, true),
{
    render(markdown, true, true, true, true, true, true, true, true)
}

} // verus!
