//! The main page, and the page without an editor.
use crate::scan::{chars_of, extend, find_at, replace_each, text_of};
use crate::text::{find, find_from, replace};
use vstd::prelude::*;
use vstd::slice::slice_subrange;
use vstd::string::StringExecFns;

verus! {

/// The character for six bits in Base64.
pub open spec fn base64_char(n: int) -> char {
    "ABCDEFGHIJKLMNOPQRSTUVWXYZabcdefghijklmnopqrstuvwxyz0123456789+/"@[n]
}

/// Base64 with padding: four characters for each three bytes, and `=` for what
/// is missing at the end.
pub open spec fn base64_text(b: Seq<u8>) -> Seq<char>
    decreases b.len(),
{
    let x = b[0] as int;
    let y = b[1] as int;
    let z = b[2] as int;
    if b.len() == 0 {
        seq![]
    } else if b.len() == 1 {
        seq![base64_char(x / 4), base64_char(x % 4 * 16), '=', '=']
    } else if b.len() == 2 {
        seq![base64_char(x / 4), base64_char(x % 4 * 16 + y / 16), base64_char(y % 16 * 4), '=']
    } else {
        seq![
            base64_char(x / 4),
            base64_char(x % 4 * 16 + y / 16),
            base64_char(y % 16 * 4 + z / 64),
            base64_char(z % 64),
        ] + base64_text(b.skip(3))
    }
}

/// `base64::display::Base64Display` with the engine `STANDARD`: the standard
/// alphabet, with padding, as `base64_text` says.
#[verifier::external_body]
fn base64_display(bytes: &[u8]) -> (r: String)
    ensures
        r@ == base64_text(bytes@),
{
    base64::display::Base64Display::new(bytes, &base64::engine::general_purpose::STANDARD).to_string()
}

/// The icon as a URL that holds it.
pub open spec fn favicon_url(favicon: Seq<u8>) -> Seq<char> {
    "data:image/svg+xml;base64,"@ + base64_text(favicon)
}

/// The main page: the template with the icon, then the shortcuts, then the keys
/// that save a note put in their places.
pub open spec fn rendered_page(
    template: Seq<char>,
    favicon: Seq<u8>,
    shortcuts: Seq<char>,
    save: Seq<char>,
) -> Seq<char> {
    replace(
        replace(
            replace(template, "{{FAVICON}}"@, favicon_url(favicon)),
            "{{SHORTCUTS_CONFIG}}"@,
            shortcuts,
        ),
        "{{SAVE_SHORTCUT_DISPLAY}}"@,
        save,
    )
}

/// Fills in the template of the main page. `shortcuts` is the JSON of the
/// shortcuts, `save` the keys that save a note.
pub fn render_page(template: &str, favicon: &[u8], shortcuts: &str, save: &str) -> (r: String)
    ensures
        r@ == rendered_page(template@, favicon@, shortcuts@, save@),
{
    proof {
        reveal_strlit("{{FAVICON}}");
        reveal_strlit("{{SHORTCUTS_CONFIG}}");
        reveal_strlit("{{SAVE_SHORTCUT_DISPLAY}}");
    }
    let mut url = "data:image/svg+xml;base64,".to_string();
    let icon = base64_display(favicon);
    url.append(icon.as_str());
    let page = replace_each(
        chars_of(template).as_slice(),
        chars_of("{{FAVICON}}").as_slice(),
        chars_of(url.as_str()).as_slice(),
    );
    let page = replace_each(
        page.as_slice(),
        chars_of("{{SHORTCUTS_CONFIG}}").as_slice(),
        chars_of(shortcuts).as_slice(),
    );
    let page = replace_each(
        page.as_slice(),
        chars_of("{{SAVE_SHORTCUT_DISPLAY}}").as_slice(),
        chars_of(save).as_slice(),
    );
    text_of(page.as_slice())
}

/// `s` without what stands from `from` to `to`.
pub open spec fn cut(s: Seq<char>, from: int, to: int) -> Seq<char> {
    s.take(from) + s.skip(to)
}

/// The part of a page that is the editor: from the start of its text area to
/// the end of the box with the submit button, or to the end of the text area
/// where no such box follows.
pub open spec fn editor_span(html: Seq<char>) -> Option<(int, int)> {
    match find(html, "<textarea id=\"editor\""@) {
        Some(start) => match find_from(html, "</textarea>"@, start) {
            Some(close) => {
                let end = close + "</textarea>"@.len();
                match find_from(html, "<div id=\"submitContainer\""@, end) {
                    Some(submit) => match find_from(html, "</div>"@, submit) {
                        Some(last) => Some((start, last + "</div>"@.len())),
                        None => Some((start, end)),
                    },
                    None => Some((start, end)),
                }
            },
            None => None,
        },
        None => None,
    }
}

/// A page without its editor.
pub open spec fn without_editor(html: Seq<char>) -> Seq<char> {
    match editor_span(html) {
        Some((from, to)) => cut(html, from, to),
        None => html,
    }
}

/// A page without its editor and without the links that delete a note.
pub open spec fn read_only_page(html: Seq<char>) -> Seq<char> {
    replace(
        without_editor(html),
        "[<a href=\"#\" onclick=\"deleteNote(${i})\">delete</a>]"@,
        ""@,
    )
}

/// Finds the editor in a page.
fn find_editor(html: &[char]) -> (r: Option<(usize, usize)>)
    ensures
        match r {
            Some((from, to)) => editor_span(html@) == Some((from as int, to as int)) && from <= to
                <= html@.len(),
            None => editor_span(html@) is None,
        },
{
    let open = chars_of("<textarea id=\"editor\"");
    let close = chars_of("</textarea>");
    let submit = chars_of("<div id=\"submitContainer\"");
    let last = chars_of("</div>");
    assert(html@.len() == html.len());
    let start = match find_at(html, open.as_slice(), 0) {
        Some(i) => i,
        None => return None,
    };
    let end = match find_at(html, close.as_slice(), start) {
        Some(i) => i + close.len(),
        None => return None,
    };
    match find_at(html, submit.as_slice(), end) {
        Some(i) => match find_at(html, last.as_slice(), i) {
            Some(j) => Some((start, j + last.len())),
            None => Some((start, end)),
        },
        None => Some((start, end)),
    }
}

/// Makes the page without an editor of the main page.
pub fn render_read_only_page(html: &str) -> (r: String)
    ensures
        r@ == read_only_page(html@),
{
    proof {
        reveal_strlit("[<a href=\"#\" onclick=\"deleteNote(${i})\">delete</a>]");
    }
    let chars = chars_of(html);
    let mut rest: Vec<char> = Vec::new();
    match find_editor(chars.as_slice()) {
        Some((from, to)) => {
            extend(&mut rest, slice_subrange(chars.as_slice(), 0, from));
            extend(&mut rest, slice_subrange(chars.as_slice(), to, chars.len()));
            assert(rest@ =~= cut(html@, from as int, to as int));
        },
        None => {
            extend(&mut rest, chars.as_slice());
            assert(rest@ =~= html@);
        },
    }
    let delete = chars_of("[<a href=\"#\" onclick=\"deleteNote(${i})\">delete</a>]");
    text_of(replace_each(rest.as_slice(), delete.as_slice(), chars_of("").as_slice()).as_slice())
}

} // verus!
