use textpod::embed::render_embed;
use textpod::note::Note;
use textpod::page::{render_page, render_read_only_page};
use textpod::pod::AppState;

const HEAD: &str = "<!DOCTYPE html><html><head><meta charset=\"utf-8\">\n<meta name=\"color-scheme\" content=\"light dark\" />\n<style>.note{margin-bottom:1.75em;padding-top:0.25em}.note .noteMetadata{font-size:0.9em;font-family:monospace;color:#666}.note img,.note iframe,.note video,.note audio,.note embed,.note svg{max-width:100%}</style></head><body>\n<div id=\"notes\">\n";
const TAIL: &str = "</div></body></html>";

fn note(timestamp: &str, content: &str, html: &str) -> Note {
    Note::with_html(timestamp.to_string(), content.to_string(), html.to_string())
}

fn state() -> AppState {
    AppState {
        html: String::new(),
        embed_html: String::new(),
        notes: vec![note("t1", "#Work a", "H1"), note("t2", "b", "H2"), note("t3", "#home #work", "H3")],
        readonly: false,
    }
}

#[test]
fn an_empty_page_has_a_head_and_an_end() {
    assert_eq!(render_embed(&vec![]), format!("{HEAD}{TAIL}"));
}

#[test]
fn the_newest_note_comes_first() {
    let one = "<div class=\"note\">\nH1<div class=\"noteMetadata\">\n<time datetime=\"t1\">t1</time> &nbsp; #work</div></div>\n";
    let two = "<div class=\"note\">\nH2<div class=\"noteMetadata\">\n<time datetime=\"t2\">t2</time></div></div>\n";
    let three = "<div class=\"note\">\nH3<div class=\"noteMetadata\">\n<time datetime=\"t3\">t3</time> &nbsp; #home #work</div></div>\n";
    assert_eq!(state().get_embed_with_query(None), format!("{HEAD}{three}{two}{one}{TAIL}"));
    assert_eq!(state().get_embed_with_query(Some("work")), format!("{HEAD}{three}{one}{TAIL}"));
    assert_eq!(state().get_embed_with_query(Some("HOME")), format!("{HEAD}{three}{TAIL}"));
    assert_eq!(state().get_embed_with_query(Some("none")), format!("{HEAD}{TAIL}"));
    assert_eq!(state().get_embed_with_query(Some("")), format!("{HEAD}{TAIL}"));
}

#[test]
fn a_note_without_the_tag_does_not_reach_the_page() {
    let mut s = state();
    let with = s.get_embed_with_query(Some("work"));
    s.notes.remove(1);
    assert_eq!(s.get_embed_with_query(Some("work")), with);
}

#[test]
fn the_letter_case_of_a_query_does_not_matter() {
    let s = state();
    assert_eq!(s.get_embed_with_query(Some("wOrK")), s.get_embed_with_query(Some("work")));
}

#[test]
fn the_template_is_filled_in() {
    assert_eq!(
        render_page(
            "<{{FAVICON}}|{{SHORTCUTS_CONFIG}}|{{SAVE_SHORTCUT_DISPLAY}}|{{FAVICON}}>",
            b"<svg/>",
            "{\"save\":\"Ctrl+S\"}",
            "Ctrl+S",
        ),
        "<data:image/svg+xml;base64,PHN2Zy8+|{\"save\":\"Ctrl+S\"}|Ctrl+S|data:image/svg+xml;base64,PHN2Zy8+>"
    );
}

#[test]
fn the_icon_is_padded() {
    let page = |bytes: &[u8]| render_page("{{FAVICON}}", bytes, "", "");
    assert_eq!(page(b""), "data:image/svg+xml;base64,");
    assert_eq!(page(b"M"), "data:image/svg+xml;base64,TQ==");
    assert_eq!(page(b"Ma"), "data:image/svg+xml;base64,TWE=");
    assert_eq!(page(b"Man"), "data:image/svg+xml;base64,TWFu");
    assert_eq!(page(&[0xfb, 0xff, 0xbf, 0x00]), "data:image/svg+xml;base64,+/+/AA==");
    let long = page(&[0u8; 769]);
    assert_eq!(long.len(), 26 + 1028);
    assert!(long.ends_with("AA=="));
}

#[test]
fn later_values_are_put_into_earlier_ones() {
    assert_eq!(
        render_page("{{SHORTCUTS_CONFIG}}", b"", "{{SAVE_SHORTCUT_DISPLAY}}", "x"),
        "x"
    );
}

#[test]
fn the_editor_and_the_delete_link_are_cut_out() {
    let page = "<p>a</p><textarea id=\"editor\" x>y</textarea> b <div id=\"submitContainer\"><b>s</b></div>c[<a href=\"#\" onclick=\"deleteNote(${i})\">delete</a>]d";
    assert_eq!(render_read_only_page(page), "<p>a</p>cd");
}

#[test]
fn only_the_text_area_is_cut_where_no_submit_box_follows() {
    assert_eq!(render_read_only_page("a<textarea id=\"editor\"></textarea>b"), "ab");
    assert_eq!(
        render_read_only_page("a<textarea id=\"editor\"></textarea>b<div id=\"submitContainer\">c"),
        "ab<div id=\"submitContainer\">c"
    );
}

#[test]
fn a_page_without_an_editor_stays() {
    assert_eq!(render_read_only_page("abc"), "abc");
    assert_eq!(render_read_only_page("a<textarea id=\"editor\">b"), "a<textarea id=\"editor\">b");
    assert_eq!(
        render_read_only_page("</textarea><textarea id=\"editor\">"),
        "</textarea><textarea id=\"editor\">"
    );
}
