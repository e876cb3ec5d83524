use textpod::draft::prepare_content;
use textpod::note::{load_notes, render_notes, Note};
use textpod::pod::{
    delete_reply, mark_failed_copy, rewrite_last_note, save_reply, AppState,
};
use textpod::status::Status;

fn state(contents: &[&str], readonly: bool) -> AppState {
    AppState {
        html: "full".to_string(),
        embed_html: "embed".to_string(),
        notes: contents
            .iter()
            .map(|c| Note::new("2024-01-02 03:04:05".to_string(), c.to_string()))
            .collect(),
        readonly,
    }
}

fn contents(state: &AppState) -> Vec<String> {
    state.notes.iter().map(|n| n.content.clone()).collect()
}

#[test]
fn the_root_page_depends_on_the_mode() {
    assert_eq!(state(&[], false).index(), "full");
    assert_eq!(state(&[], true).index(), "embed");
}

#[test]
fn notes_are_given_as_they_are() {
    let s = state(&["a", "b"], false);
    let notes = s.get_notes();
    assert_eq!(notes.len(), 2);
    assert_eq!(notes[1].content, "b");
    assert_eq!(s.get_note_by_index(0).unwrap().content, "a");
}

#[test]
fn a_note_that_is_not_there_is_a_bad_request() {
    let s = state(&["a"], false);
    let (status, message) = s.get_note_by_index(12).unwrap_err();
    assert_eq!(status, Status::BadRequest);
    assert_eq!(message, "request for non-existent note #12");
    let (_, message) = s.get_note_by_index(usize::MAX).unwrap_err();
    assert_eq!(message, format!("request for non-existent note #{}", usize::MAX));
}

#[test]
fn a_note_is_removed_and_the_file_written_anew() {
    let mut s = state(&["a", "b", "c"], false);
    let file = s.delete_note_by_index(1).unwrap();
    assert_eq!(contents(&s), vec!["a", "c"]);
    assert_eq!(
        file,
        "2024-01-02 03:04:05\na\n\n---\n\n2024-01-02 03:04:05\nc\n\n---\n\n"
    );
}

#[test]
fn a_removal_is_refused_where_there_is_nothing_to_remove() {
    let mut s = state(&["a"], false);
    let (status, message) = s.delete_note_by_index(1).unwrap_err();
    assert_eq!(status, Status::BadRequest);
    assert_eq!(message, "request for non-existent note #1");
    assert_eq!(contents(&s), vec!["a"]);
}

#[test]
fn nothing_is_written_in_read_only_mode() {
    let mut s = state(&["a"], true);
    assert_eq!(s.save_note("x").unwrap_err(), Status::MethodNotAllowed);
    let (status, message) = s.delete_note_by_index(0).unwrap_err();
    assert_eq!(status, Status::MethodNotAllowed);
    assert_eq!(message, "read-only mode");
    let (status, _) = s.delete_note_by_index(7).unwrap_err();
    assert_eq!(status, Status::MethodNotAllowed);
    assert_eq!(contents(&s), vec!["a"]);
}

#[test]
fn answers_follow_from_what_the_file_system_says() {
    assert_eq!(delete_reply(None), Ok(Status::NoContent));
    assert_eq!(
        delete_reply(Some("disk full".to_string())),
        Err((Status::InternalServerError, "disk full".to_string()))
    );
}

#[test]
fn downloads_start_only_once_the_note_is_in_the_file() {
    let mut s = state(&[], false);
    let saved = s.save_note("+https://a +https://b").unwrap();
    let downloads = save_reply(true, saved).unwrap();
    assert_eq!(downloads.len(), 2);
    assert_eq!(downloads[1].url, "https://b");
    let saved = s.save_note("+https://a").unwrap();
    assert_eq!(save_reply(false, saved).unwrap_err(), Status::InternalServerError);
}

#[test]
fn a_saved_note_comes_last() {
    let mut s = state(&["a"], false);
    let saved = s.save_note_at("b #c", "2025-01-01 00:00:00".to_string()).unwrap();
    assert_eq!(saved.timestamp, "2025-01-01 00:00:00");
    assert_eq!(saved.entry, "2025-01-01 00:00:00\nb #c\n\n---\n\n");
    assert!(saved.downloads.is_empty());
    assert_eq!(contents(&s), vec!["a", "b #c"]);
    assert_eq!(s.notes[1].tags, vec!["c"]);
    assert_eq!(s.notes[1].html, "<p>b #c</p>\n");
}

#[test]
fn appending_an_entry_gives_the_file_of_all_notes() {
    let mut s = state(&["a"], false);
    let before = render_notes(&s.notes);
    let saved = s.save_note("b").unwrap();
    assert_eq!(saved.timestamp.len(), 19);
    assert_eq!(before + &saved.entry, render_notes(&s.notes));
}

#[test]
fn three_dashes_become_a_rule() {
    assert_eq!(prepare_content("a---b").content, "a<hr>b");
    assert_eq!(prepare_content("-----").content, "<hr>--");
    assert_eq!(prepare_content("------").content, "<hr><hr>");
    assert_eq!(prepare_content("--").content, "--");
}

#[test]
fn whatever_is_saved_is_read_back() {
    let mut s = state(&[], false);
    for text in ["x\n\n---\n\ny", "-----", "--", "\n\n---\n\n", "", "+http://a/-----"] {
        s.save_note(text).unwrap();
    }
    let again = load_notes(Some(&render_notes(&s.notes)));
    assert_eq!(again.len(), s.notes.len());
    for (a, b) in again.iter().zip(s.notes.iter()) {
        assert_eq!(a.timestamp, b.timestamp);
        assert_eq!(a.content, b.content.trim());
        assert_eq!(a.tags, b.tags);
    }
}

#[test]
fn plain_text_is_kept_as_it_was_written() {
    let draft = prepare_content(" plain http://a.b text ");
    assert_eq!(draft.content, " plain http://a.b text ");
    assert!(draft.downloads.is_empty());
}

#[test]
fn a_link_gets_a_local_copy() {
    let draft = prepare_content("see +https://a.b/c now");
    assert_eq!(
        draft.content,
        "see https://a.b/c ([local copy](/attachments/webpages/a.b_c.html)) now"
    );
    assert_eq!(draft.downloads.len(), 1);
    assert_eq!(draft.downloads[0].url, "https://a.b/c");
    assert_eq!(draft.downloads[0].path, "attachments/webpages/a.b_c.html");
}

#[test]
fn links_are_replaced_one_after_the_other() {
    let draft = prepare_content("+https://a +https://a/b");
    assert_eq!(
        draft.content,
        "https://a ([local copy](/attachments/webpages/a.html)) \
         https://a ([local copy](/attachments/webpages/a.html))/b"
    );
    assert_eq!(draft.downloads.len(), 2);
    assert_eq!(draft.downloads[1].path, "attachments/webpages/a_b.html");
}

#[test]
fn a_failed_download_is_said_in_the_note() {
    assert_eq!(
        mark_failed_copy("u ([local copy](/p)) v ([local copy](/q))", "p"),
        "u (local copy failed) v ([local copy](/q))"
    );
    let mut s = state(&["x", "#t ([local copy](/p))"], false);
    let text = s.download_failed("p").unwrap();
    assert_eq!(text, "#t (local copy failed)");
    assert_eq!(contents(&s), vec!["x", "#t (local copy failed)"]);
    assert_eq!(s.notes[1].html, "<p>#t (local copy failed)</p>\n");
    assert_eq!(s.notes[1].tags, vec!["t"]);
    assert_eq!(s.notes[1].timestamp, "2024-01-02 03:04:05");
    assert!(state(&[], false).download_failed("p").is_none());
}

#[test]
fn the_last_note_of_a_file_is_rewritten() {
    let s = state(&["a", "b"], false);
    let file = render_notes(&s.notes);
    assert_eq!(
        rewrite_last_note(&file, 2, "t", "new"),
        "2024-01-02 03:04:05\na\n\n---\nt\nnew\n---\n\n\n---\n"
    );
    assert_eq!(rewrite_last_note("x", 1, "t", "new"), "t\nnew\n---\n");
    assert_eq!(rewrite_last_note("x", 5, "t", "new"), "x\n---\n");
}

#[test]
fn a_rewritten_file_is_read_with_its_last_two_notes_as_one() {
    let read = |texts: &[&str], content: &str| {
        let s = state(texts, false);
        let file = render_notes(&s.notes);
        let file = rewrite_last_note(&file, texts.len(), "2024-01-02 03:04:05", content);
        load_notes(Some(&file))
    };
    assert_eq!(read(&["a"], "new").len(), 1);
    assert_eq!(read(&["a", "b"], "new").len(), 1);
    let four = read(&["a", "b", "c", "d"], "new");
    assert_eq!(four.len(), 3);
    assert_eq!(four[0].content, "a");
    assert_eq!(four[1].content, "b");
    assert_eq!(
        four[2].content,
        "c\n\n---\n2024-01-02 03:04:05\nnew\n---\n\n\n---"
    );
    assert_eq!(read(&["a"], "new\n").len(), 2);
    assert_eq!(read(&["a", "b", "c"], "").len(), 3);
}

#[test]
fn the_last_note_can_be_given_another_text() {
    let mut s = state(&["a", "#b"], false);
    s.replace_last("c".to_string(), "h".to_string());
    assert_eq!(contents(&s), vec!["a", "c"]);
    assert_eq!(s.notes[1].html, "h");
    assert_eq!(s.notes[1].tags, vec!["b"]);
    assert_eq!(
        s.push_note(Note::with_html("t".to_string(), "d".to_string(), "".to_string())),
        "t\nd\n\n---\n\n"
    );
    assert_eq!(s.notes.len(), 3);
}
