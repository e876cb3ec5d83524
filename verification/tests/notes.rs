use textpod::clock::now;
use textpod::markdown::md_to_html;
use textpod::note::{load_notes, parse_block, render_notes, Note};

fn note(timestamp: &str, content: &str) -> Note {
    Note::new(timestamp.to_string(), content.to_string())
}

#[test]
fn the_clock_gives_a_date_and_a_time() {
    let t: Vec<char> = now().chars().collect();
    assert_eq!(t.len(), 19);
    for (i, c) in t.iter().enumerate() {
        match i {
            4 | 7 => assert_eq!(*c, '-'),
            10 => assert_eq!(*c, ' '),
            13 | 16 => assert_eq!(*c, ':'),
            _ => assert!(c.is_ascii_digit()),
        }
    }
}

#[test]
fn markdown_is_rendered_with_its_extensions() {
    assert_eq!(md_to_html("# a"), "<h1>a</h1>\n");
    assert_eq!(md_to_html("~~a~~"), "<p><del>a</del></p>\n");
    assert_eq!(md_to_html("a^2^"), "<p>a<sup>2</sup></p>\n");
    assert_eq!(md_to_html("a\nb"), "<p>a<br />\nb</p>\n");
    assert_eq!(md_to_html("<b>a</b>"), "<p><b>a</b></p>\n");
    assert_eq!(md_to_html("<title>a"), "&lt;title>a\n");
    assert_eq!(
        md_to_html("http://a.b"),
        "<p><a href=\"http://a.b\">http://a.b</a></p>\n"
    );
    assert!(md_to_html("- [x] a").contains("checkbox"));
    assert!(md_to_html("|a|\n|-|\n|b|").contains("<table>"));
}

#[test]
fn a_note_has_the_html_and_the_tags_of_its_text() {
    let n = note("2024-01-02 03:04:05", "hello #World");
    assert_eq!(n.timestamp, "2024-01-02 03:04:05");
    assert_eq!(n.content, "hello #World");
    assert_eq!(n.html, "<p>hello #World</p>\n");
    assert_eq!(n.tags, vec!["world"]);
    let m = Note::with_html("t".to_string(), "#a".to_string(), "x".to_string());
    assert_eq!((m.html.as_str(), m.tags[0].as_str()), ("x", "a"));
    let c = n.clone();
    assert_eq!(
        (c.timestamp, c.content, c.html, c.tags),
        (n.timestamp, n.content, n.html, n.tags)
    );
}

#[test]
fn entries_are_written_one_behind_the_other() {
    let notes = vec![note("t1", "a\nb"), note("t2", "")];
    assert_eq!(notes[0].entry(), "t1\na\nb\n\n---\n\n");
    assert_eq!(render_notes(&notes), "t1\na\nb\n\n---\n\nt2\n\n\n---\n\n");
    assert_eq!(render_notes(&vec![]), "");
}

#[test]
fn no_file_gives_no_notes() {
    assert!(load_notes(None).is_empty());
    assert!(load_notes(Some("")).is_empty());
    assert!(load_notes(Some(" \n\n---\n\n\t\n")).is_empty());
}

#[test]
fn a_block_is_a_time_and_a_text() {
    let now = || "now".to_string();
    assert_eq!(parse_block(" t \n\n a\nb \n", now()), ("t".to_string(), "a\nb".to_string()));
    assert_eq!(parse_block(" one line ", now()), ("now".to_string(), " one line ".to_string()));
    assert_eq!(parse_block("\na", now()), ("".to_string(), "a".to_string()));
}

#[test]
fn notes_are_read_in_their_order() {
    let notes = load_notes(Some("t1\n#a x\n\n---\n\nt2\nb\nc\n\n---\n\n"));
    assert_eq!(notes.len(), 2);
    assert_eq!(notes[0].timestamp, "t1");
    assert_eq!(notes[0].content, "#a x");
    assert_eq!(notes[0].tags, vec!["a"]);
    assert_eq!(notes[0].html, "<p>#a x</p>\n");
    assert_eq!(notes[1].timestamp, "t2");
    assert_eq!(notes[1].content, "b\nc");
}

#[test]
fn a_block_of_one_line_has_the_present_time() {
    let notes = load_notes(Some(" just text "));
    assert_eq!(notes.len(), 1);
    assert_eq!(notes[0].content, " just text ");
    assert_eq!(notes[0].timestamp.len(), 19);
}

#[test]
fn what_is_written_is_read_back() {
    let notes = vec![note("t1", "a #b\n\nc"), note("t2", "  d "), note("t3", "")];
    let again = load_notes(Some(&render_notes(&notes)));
    assert_eq!(again.len(), 3);
    assert_eq!((again[0].timestamp.as_str(), again[0].content.as_str()), ("t1", "a #b\n\nc"));
    assert_eq!((again[1].timestamp.as_str(), again[1].content.as_str()), ("t2", "d"));
    assert_eq!((again[2].timestamp.as_str(), again[2].content.as_str()), ("t3", ""));
    assert_eq!(again[0].tags, notes[0].tags);
    let third = load_notes(Some(&render_notes(&again)));
    for i in 0..3 {
        assert_eq!(third[i].content, again[i].content);
        assert_eq!(third[i].html, again[i].html);
    }
}

#[test]
fn a_trimmed_note_without_a_rule_comes_back() {
    for content in ["a", "--\n\n--", "# b\n\n- c\n\n\nd", ""] {
        let notes = vec![note("t1", content), note("t2", "last")];
        let again = load_notes(Some(&render_notes(&notes)));
        assert_eq!(again.len(), 2);
        assert_eq!(again[0].timestamp, "t1");
        assert_eq!(again[0].content, content);
    }
}

#[test]
fn entries_and_then_some_text_are_read_one_after_the_other() {
    let notes = vec![note("t1", "a"), note("t2", "b")];
    let again = load_notes(Some(&(render_notes(&notes) + "t3\nc\n\n---\n\nt4\nd")));
    let read: Vec<&str> = again.iter().map(|n| n.content.as_str()).collect();
    assert_eq!(read, vec!["a", "b", "c", "d"]);
}

#[test]
fn a_text_that_ends_like_a_separator_is_not_read_back() {
    let notes = load_notes(Some("t\na\n\n---"));
    assert_eq!(notes.len(), 1);
    assert_eq!(notes[0].content, "a\n\n---");
    let again = load_notes(Some(&render_notes(&notes)));
    assert_eq!(again.len(), 2);
    assert_eq!(again[0].content, "a");
}
