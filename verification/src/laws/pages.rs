//! The main page, and the page without an editor.
use crate::laws::texts::{
    law_replace_at_first, law_replace_nothing, law_stands_at, lemma_replace_keeps_front,
    lemma_stands_between,
};
use crate::page::{
    base64_char, base64_text, cut, editor_span, favicon_url, read_only_page, rendered_page,
    without_editor,
};
use crate::text::{find, find_from, lemma_find_from, matches_at, replace};
use vstd::prelude::*;

verus! {

/// A match with none between it and the start of the search is what is found.
proof fn lemma_found(s: Seq<char>, pat: Seq<char>, from: int, at: int)
    requires
        0 <= from <= at,
        matches_at(s, pat, at),
        forall|j: int| from <= j < at ==> !#[trigger] matches_at(s, pat, j),
    ensures
        find_from(s, pat, from) == Some(at),
{
    lemma_find_from(s, pat, from);
}

/// The cut begins where the text area does, and ends right behind the first
/// `</div>` from the submit box on: all that stands behind it is kept, and all
/// that stands before the text area.
pub proof fn law_editor_is_cut_out(
    a: Seq<char>,
    x: Seq<char>,
    y: Seq<char>,
    z: Seq<char>,
    rest: Seq<char>,
    html: Seq<char>,
)
    requires
        html == a + "<textarea id=\"editor\""@ + x + "</textarea>"@ + y
            + "<div id=\"submitContainer\""@ + z + "</div>"@ + rest,
        forall|j: int|
            0 <= j < a.len() ==> !#[trigger] matches_at(html, "<textarea id=\"editor\""@, j),
        forall|j: int|
            a.len() <= j < a.len() + "<textarea id=\"editor\""@.len() + x.len()
                ==> !#[trigger] matches_at(html, "</textarea>"@, j),
        forall|j: int|
            0 <= j - (a + "<textarea id=\"editor\""@ + x + "</textarea>"@).len() < y.len()
                ==> !#[trigger] matches_at(html, "<div id=\"submitContainer\""@, j),
        forall|j: int|
            0 <= j - (a + "<textarea id=\"editor\""@ + x + "</textarea>"@ + y).len()
                < "<div id=\"submitContainer\""@.len() + z.len() ==> !#[trigger] matches_at(
                html,
                "</div>"@,
                j,
            ),
    ensures
        without_editor(html) == a + rest,
        read_only_page(html) == replace(
            a + rest,
            "[<a href=\"#\" onclick=\"deleteNote(${i})\">delete</a>]"@,
            Seq::<char>::empty(),
        ),
{
    reveal_strlit("");
    let o = "<textarea id=\"editor\""@;
    let c = "</textarea>"@;
    let s = "<div id=\"submitContainer\""@;
    let d = "</div>"@;
    let start = a.len() as int;
    let close = (a + o + x).len() as int;
    let submit = (a + o + x + c + y).len() as int;
    let last = (a + o + x + c + y + s + z).len() as int;
    assert(html =~= a + o + (x + c + y + s + z + d + rest));
    lemma_stands_between(a, o, x + c + y + s + z + d + rest);
    lemma_found(html, o, 0, start);
    assert(html =~= (a + o + x) + c + (y + s + z + d + rest));
    lemma_stands_between(a + o + x, c, y + s + z + d + rest);
    lemma_found(html, c, start, close);
    assert(html =~= (a + o + x + c + y) + s + (z + d + rest));
    lemma_stands_between(a + o + x + c + y, s, z + d + rest);
    lemma_found(html, s, close + c.len(), submit);
    assert(html =~= (a + o + x + c + y + s + z) + d + rest);
    lemma_stands_between(a + o + x + c + y + s + z, d, rest);
    lemma_found(html, d, submit, last);
    assert(editor_span(html) == Some((start, last + d.len())));
    assert(cut(html, start, last + d.len()) =~= a + rest);
    assert(""@ =~= Seq::<char>::empty());
}

/// Where no submit box follows the text area, or its box is not closed, the text
/// area alone is cut out.
pub proof fn law_text_area_is_cut_out(
    a: Seq<char>,
    x: Seq<char>,
    rest: Seq<char>,
    html: Seq<char>,
)
    requires
        html == a + "<textarea id=\"editor\""@ + x + "</textarea>"@ + rest,
        forall|j: int|
            0 <= j < a.len() ==> !#[trigger] matches_at(html, "<textarea id=\"editor\""@, j),
        forall|j: int|
            a.len() <= j < a.len() + "<textarea id=\"editor\""@.len() + x.len()
                ==> !#[trigger] matches_at(html, "</textarea>"@, j),
        forall|i: int, j: int|
            (a + "<textarea id=\"editor\""@ + x + "</textarea>"@).len() <= i <= j
                && #[trigger] matches_at(html, "<div id=\"submitContainer\""@, i)
                ==> !#[trigger] matches_at(html, "</div>"@, j),
    ensures
        without_editor(html) == a + rest,
        read_only_page(html) == replace(
            a + rest,
            "[<a href=\"#\" onclick=\"deleteNote(${i})\">delete</a>]"@,
            Seq::<char>::empty(),
        ),
{
    assert(""@ =~= Seq::<char>::empty()) by {
        reveal_strlit("");
    }
    let o = "<textarea id=\"editor\""@;
    let c = "</textarea>"@;
    let s = "<div id=\"submitContainer\""@;
    let start = a.len() as int;
    let close = (a + o + x).len() as int;
    let end = close + c.len();
    assert(html =~= a + o + (x + c + rest));
    lemma_stands_between(a, o, x + c + rest);
    lemma_found(html, o, 0, start);
    lemma_stands_between(a + o + x, c, rest);
    lemma_found(html, c, start, close);
    lemma_find_from(html, s, end);
    match find_from(html, s, end) {
        Some(submit) => {
            lemma_find_from(html, "</div>"@, submit);
        },
        None => {},
    }
    assert(editor_span(html) == Some((start, end)));
    assert(cut(html, start, end) =~= a + rest);
}

/// A page without a text area for the editor, or with one that is not closed, is
/// kept whole.
pub proof fn law_page_without_editor_is_kept(html: Seq<char>)
    requires
        forall|i: int, j: int|
            0 <= i <= j && #[trigger] matches_at(html, "<textarea id=\"editor\""@, i)
                ==> !#[trigger] matches_at(html, "</textarea>"@, j),
    ensures
        without_editor(html) == html,
        read_only_page(html) == replace(
            html,
            "[<a href=\"#\" onclick=\"deleteNote(${i})\">delete</a>]"@,
            Seq::<char>::empty(),
        ),
{
    assert(""@ =~= Seq::<char>::empty()) by {
        reveal_strlit("");
    }
    lemma_find_from(html, "<textarea id=\"editor\""@, 0);
    match find(html, "<textarea id=\"editor\""@) {
        Some(start) => {
            lemma_find_from(html, "</textarea>"@, start);
        },
        None => {},
    }
}

/// Of a page without an editor, each link that deletes a note is dropped, and
/// nothing else.
pub proof fn law_delete_links_are_dropped(a: Seq<char>, b: Seq<char>)
    requires
        forall|j: int|
            !#[trigger] matches_at(
                a + "[<a href=\"#\" onclick=\"deleteNote(${i})\">delete</a>]"@ + b,
                "<textarea id=\"editor\""@,
                j,
            ),
        forall|j: int|
            0 <= j < a.len() ==> !#[trigger] matches_at(
                a + "[<a href=\"#\" onclick=\"deleteNote(${i})\">delete</a>]"@ + b,
                "[<a href=\"#\" onclick=\"deleteNote(${i})\">delete</a>]"@,
                j,
            ),
    ensures
        read_only_page(a + "[<a href=\"#\" onclick=\"deleteNote(${i})\">delete</a>]"@ + b) == a
            + read_only_page(b),
        (forall|j: int|
            !#[trigger] matches_at(
                b,
                "[<a href=\"#\" onclick=\"deleteNote(${i})\">delete</a>]"@,
                j,
            )) ==> read_only_page(b) == b,
{
    let link = "[<a href=\"#\" onclick=\"deleteNote(${i})\">delete</a>]"@;
    let open = "<textarea id=\"editor\""@;
    let s = a + link + b;
    let n = (a + link).len() as int;
    assert(link.len() > 0 && ""@ =~= Seq::<char>::empty()) by {
        reveal_strlit("[<a href=\"#\" onclick=\"deleteNote(${i})\">delete</a>]");
        reveal_strlit("");
    }
    law_page_without_editor_is_kept(s);
    assert forall|j: int| !#[trigger] matches_at(b, open, j) by {
        if matches_at(b, open, j) {
            assert(s.subrange(n + j, n + j + open.len()) =~= b.subrange(j, j + open.len()));
            assert(matches_at(s, open, n + j));
        }
    }
    law_page_without_editor_is_kept(b);
    law_replace_at_first(a, link, b, ""@);
    assert(a + ""@ + replace(b, link, ""@) =~= a + replace(b, link, ""@));
    if forall|j: int| !#[trigger] matches_at(b, link, j) {
        law_replace_nothing(b, link, ""@);
    }
}

/// What a text must not do so that no mark of the template begins in it: hold
/// two braces in a row, or end with one.
pub open spec fn unmarked(a: Seq<char>) -> bool {
    &&& forall|i: int| 0 <= i < a.len() - 1 ==> !(#[trigger] a[i] == '{' && a[i + 1] == '{')
    &&& a.len() > 0 ==> a.last() != '{'
}

/// No mark begins in a text that is unmarked.
proof fn lemma_unmarked(a: Seq<char>, t: Seq<char>, mark: Seq<char>, with: Seq<char>)
    requires
        unmarked(a),
        mark.len() > 1,
        mark[0] == '{',
        mark[1] == '{',
    ensures
        replace(a + t, mark, with) == a + replace(t, mark, with),
{
    let s = a + t;
    assert forall|j: int| 0 <= j < a.len() implies !#[trigger] matches_at(s, mark, j) by {
        law_stands_at(s, mark, j);
        if matches_at(s, mark, j) {
            assert(mark[0] == s[j + 0] && mark[1] == s[j + 1]);
            assert(a[j] == '{');
            if j + 1 < a.len() {
                assert(s[j + 1] == a[j + 1]);
            }
        }
    }
    lemma_replace_keeps_front(a, t, mark, with);
}

/// One mark does not begin in another.
proof fn lemma_other_mark(mark: Seq<char>, t: Seq<char>, other: Seq<char>, with: Seq<char>)
    requires
        mark.len() > 3,
        other.len() > 3,
        other[0] == '{',
        other[1] == '{',
        mark.take(4) != other.take(4),
        forall|i: int| 2 <= i < mark.len() ==> #[trigger] mark[i] != '{',
    ensures
        replace(mark + t, other, with) == mark + replace(t, other, with),
{
    let s = mark + t;
    assert forall|j: int| 0 <= j < mark.len() implies !#[trigger] matches_at(s, other, j) by {
        law_stands_at(s, other, j);
        if matches_at(s, other, j) {
            assert(other[0] == s[j + 0] && other[1] == s[j + 1]);
            if j == 0 {
                assert(other[2] == s[j + 2] && other[3] == s[j + 3]);
                assert(mark.take(4) =~= other.take(4));
            } else if j == 1 {
                assert(s[2] == mark[2]);
            } else {
                assert(s[j] == mark[j]);
            }
        }
    }
    lemma_replace_keeps_front(mark, t, other, with);
}

/// The first characters of the marks.
proof fn lemma_marks()
    ensures
        "{{FAVICON}}"@.len() > 3,
        "{{SHORTCUTS_CONFIG}}"@.len() > 3,
        "{{SAVE_SHORTCUT_DISPLAY}}"@.len() > 3,
        "{{FAVICON}}"@[0] == '{' && "{{FAVICON}}"@[1] == '{',
        "{{SHORTCUTS_CONFIG}}"@[0] == '{' && "{{SHORTCUTS_CONFIG}}"@[1] == '{',
        "{{SAVE_SHORTCUT_DISPLAY}}"@[0] == '{' && "{{SAVE_SHORTCUT_DISPLAY}}"@[1] == '{',
        forall|i: int| 2 <= i < "{{FAVICON}}"@.len() ==> #[trigger] "{{FAVICON}}"@[i] != '{',
        forall|i: int|
            2 <= i < "{{SHORTCUTS_CONFIG}}"@.len() ==> #[trigger] "{{SHORTCUTS_CONFIG}}"@[i]
                != '{',
        forall|i: int|
            2 <= i < "{{SAVE_SHORTCUT_DISPLAY}}"@.len()
                ==> #[trigger] "{{SAVE_SHORTCUT_DISPLAY}}"@[i] != '{',
        "{{FAVICON}}"@.take(4) != "{{SHORTCUTS_CONFIG}}"@.take(4),
        "{{FAVICON}}"@.take(4) != "{{SAVE_SHORTCUT_DISPLAY}}"@.take(4),
        "{{SHORTCUTS_CONFIG}}"@.take(4) != "{{SAVE_SHORTCUT_DISPLAY}}"@.take(4),
{
    reveal_strlit("{{FAVICON}}");
    reveal_strlit("{{SHORTCUTS_CONFIG}}");
    reveal_strlit("{{SAVE_SHORTCUT_DISPLAY}}");
    assert("{{FAVICON}}"@.take(4)[2] == 'F');
    assert("{{SHORTCUTS_CONFIG}}"@.take(4)[2] == 'S');
    assert("{{SHORTCUTS_CONFIG}}"@.take(4)[3] == 'H');
    assert("{{SAVE_SHORTCUT_DISPLAY}}"@.take(4)[2] == 'S');
    assert("{{SAVE_SHORTCUT_DISPLAY}}"@.take(4)[3] == 'A');
}

/// A replacing that begins with the mark itself.
proof fn lemma_mark_first(mark: Seq<char>, t: Seq<char>, with: Seq<char>)
    requires
        mark.len() > 0,
    ensures
        replace(mark + t, mark, with) == with + replace(t, mark, with),
{
    let none = Seq::<char>::empty();
    law_replace_at_first(none, mark, t, with);
    assert(none + mark + t =~= mark + t);
    assert(none + with + replace(t, mark, with) =~= with + replace(t, mark, with));
}

/// No character of the icon's URL is a brace.
proof fn lemma_favicon_url(favicon: Seq<u8>)
    ensures
        unmarked("data:image/svg+xml;base64,"@ + base64_text(favicon)),
{
    reveal_strlit("data:image/svg+xml;base64,");
    lemma_base64_text(favicon);
    let url = "data:image/svg+xml;base64,"@ + base64_text(favicon);
    let n = "data:image/svg+xml;base64,"@.len() as int;
    assert forall|i: int| 0 <= i < url.len() implies #[trigger] url[i] != '{' by {
        if i >= n {
            assert(url[i] == base64_text(favicon)[i - n]);
        }
    }
}

proof fn lemma_base64_char(n: int)
    requires
        0 <= n < 64,
    ensures
        base64_char(n) != '{',
{
    reveal_strlit("ABCDEFGHIJKLMNOPQRSTUVWXYZabcdefghijklmnopqrstuvwxyz0123456789+/");
}

/// No character of Base64 is a brace.
proof fn lemma_base64_text(b: Seq<u8>)
    ensures
        forall|i: int| 0 <= i < base64_text(b).len() ==> #[trigger] base64_text(b)[i] != '{',
    decreases b.len(),
{
    assert forall|n: int| 0 <= n < 64 implies #[trigger] base64_char(n) != '{' by {
        lemma_base64_char(n);
    }
    if b.len() >= 3 {
        lemma_base64_text(b.skip(3));
        let s = base64_text(b);
        assert forall|i: int| 0 <= i < s.len() implies #[trigger] s[i] != '{' by {
            if i >= 4 {
                assert(s[i] == base64_text(b.skip(3))[i - 4]);
            }
        }
    }
}

/// The marks are filled in one after the other over the whole page, so that a
/// mark in an earlier value is filled in too.
pub proof fn law_marks_are_filled_in_turn(
    template: Seq<char>,
    favicon: Seq<u8>,
    shortcuts: Seq<char>,
    save: Seq<char>,
    first: Seq<char>,
    second: Seq<char>,
)
    requires
        first == replace(
            template,
            "{{FAVICON}}"@,
            "data:image/svg+xml;base64,"@ + base64_text(favicon),
        ),
        second == replace(first, "{{SHORTCUTS_CONFIG}}"@, shortcuts),
    ensures
        rendered_page(template, favicon, shortcuts, save) == replace(
            second,
            "{{SAVE_SHORTCUT_DISPLAY}}"@,
            save,
        ),
{
}

/// What stands in the template before a mark stays as it is.
pub proof fn law_template_text_stays(
    a: Seq<char>,
    t: Seq<char>,
    favicon: Seq<u8>,
    shortcuts: Seq<char>,
    save: Seq<char>,
)
    requires
        unmarked(a),
    ensures
        rendered_page(a + t, favicon, shortcuts, save) == a + rendered_page(
            t,
            favicon,
            shortcuts,
            save,
        ),
        rendered_page(Seq::<char>::empty(), favicon, shortcuts, save) == Seq::<char>::empty(),
{
    let none = Seq::<char>::empty();
    let url = favicon_url(favicon);
    lemma_marks();
    let p = replace(t, "{{FAVICON}}"@, url);
    let q = replace(p, "{{SHORTCUTS_CONFIG}}"@, shortcuts);
    lemma_unmarked(a, t, "{{FAVICON}}"@, url);
    lemma_unmarked(a, p, "{{SHORTCUTS_CONFIG}}"@, shortcuts);
    lemma_unmarked(a, q, "{{SAVE_SHORTCUT_DISPLAY}}"@, save);
    law_replace_nothing(none, "{{FAVICON}}"@, url);
    law_replace_nothing(none, "{{SHORTCUTS_CONFIG}}"@, shortcuts);
    law_replace_nothing(none, "{{SAVE_SHORTCUT_DISPLAY}}"@, save);
}

/// In the place of its mark stands the icon, as a URL that holds its bytes in
/// Base64.
pub proof fn law_template_gets_icon(
    t: Seq<char>,
    favicon: Seq<u8>,
    shortcuts: Seq<char>,
    save: Seq<char>,
)
    ensures
        rendered_page("{{FAVICON}}"@ + t, favicon, shortcuts, save)
            == "data:image/svg+xml;base64,"@ + base64_text(favicon) + rendered_page(
            t,
            favicon,
            shortcuts,
            save,
        ),
{
    let url = "data:image/svg+xml;base64,"@ + base64_text(favicon);
    lemma_marks();
    lemma_favicon_url(favicon);
    let p = replace(t, "{{FAVICON}}"@, url);
    let q = replace(p, "{{SHORTCUTS_CONFIG}}"@, shortcuts);
    lemma_mark_first("{{FAVICON}}"@, t, url);
    lemma_unmarked(url, p, "{{SHORTCUTS_CONFIG}}"@, shortcuts);
    lemma_unmarked(url, q, "{{SAVE_SHORTCUT_DISPLAY}}"@, save);
}

/// In the place of their mark stand the shortcuts, whatever they are, as long as
/// no mark begins in them.
pub proof fn law_template_gets_shortcuts(
    t: Seq<char>,
    favicon: Seq<u8>,
    shortcuts: Seq<char>,
    save: Seq<char>,
)
    requires
        unmarked(shortcuts),
    ensures
        rendered_page("{{SHORTCUTS_CONFIG}}"@ + t, favicon, shortcuts, save) == shortcuts
            + rendered_page(t, favicon, shortcuts, save),
{
    let mark = "{{SHORTCUTS_CONFIG}}"@;
    let url = favicon_url(favicon);
    lemma_marks();
    let p = replace(t, "{{FAVICON}}"@, url);
    let q = replace(p, mark, shortcuts);
    lemma_other_mark(mark, t, "{{FAVICON}}"@, url);
    lemma_mark_first(mark, p, shortcuts);
    lemma_unmarked(shortcuts, q, "{{SAVE_SHORTCUT_DISPLAY}}"@, save);
}

/// In the place of their mark stand the keys that save a note, whatever they are.
pub proof fn law_template_gets_keys(
    t: Seq<char>,
    favicon: Seq<u8>,
    shortcuts: Seq<char>,
    save: Seq<char>,
)
    ensures
        rendered_page("{{SAVE_SHORTCUT_DISPLAY}}"@ + t, favicon, shortcuts, save) == save
            + rendered_page(t, favicon, shortcuts, save),
{
    let mark = "{{SAVE_SHORTCUT_DISPLAY}}"@;
    let url = favicon_url(favicon);
    lemma_marks();
    let p = replace(t, "{{FAVICON}}"@, url);
    let q = replace(p, "{{SHORTCUTS_CONFIG}}"@, shortcuts);
    lemma_other_mark(mark, t, "{{FAVICON}}"@, url);
    lemma_other_mark(mark, p, "{{SHORTCUTS_CONFIG}}"@, shortcuts);
    lemma_mark_first(mark, q, save);
}

} // verus!
