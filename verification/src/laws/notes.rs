//! Notes: what is made of a text, and what the state keeps.
use crate::clock::clock_text;
use crate::draft::{download_views, Download};
use crate::laws::texts::{law_replace_at_first, law_replace_nothing};
use crate::markdown::{comrak_html, markdown_html};
use crate::note::{note_of, note_views, parsed_block, read_from, Note, NoteView};
use crate::pod::{failed_content, missing_note, AppState};
use crate::tags::tags_of;
use crate::text::{decimal_digits, find, lemma_find_from, lemma_find_is, matches_at, texts, trim};
use vstd::prelude::*;

verus! {

/// The HTML of a note is what comrak makes of its whole text, with the same
/// options for every note; its tags are those of its text.
pub proof fn law_note_of_text(timestamp: Seq<char>, content: Seq<char>)
    ensures
        markdown_html(content) == comrak_html(
            content,
            true,
            true,
            true,
            true,
            true,
            true,
            true,
            true,
        ),
        note_of(timestamp, content).timestamp == timestamp,
        note_of(timestamp, content).content == content,
        note_of(timestamp, content).html == comrak_html(
            content,
            true,
            true,
            true,
            true,
            true,
            true,
            true,
            true,
        ),
        note_of(timestamp, content).tags == tags_of(content),
{
}

/// What a list of notes says is what each of them holds, one by one.
pub proof fn law_note_views(notes: Seq<Note>)
    ensures
        note_views(notes).len() == notes.len(),
        forall|i: int|
            0 <= i < notes.len() ==> {
                let note = #[trigger] note_views(notes)[i];
                &&& note.timestamp == notes[i].timestamp@
                &&& note.content == notes[i].content@
                &&& note.html == notes[i].html@
                &&& note.tags == texts(notes[i].tags@)
            },
{
}

/// What a list of downloads says is what each of them holds, one by one.
pub proof fn law_download_views(downloads: Seq<Download>)
    ensures
        download_views(downloads).len() == downloads.len(),
        forall|i: int|
            0 <= i < downloads.len() ==> {
                let download = #[trigger] download_views(downloads)[i];
                &&& download.url == downloads[i].url@
                &&& download.path == downloads[i].path@
            },
{
}

/// A request that leaves the site as it is changes neither page and keeps the
/// mode, and the notes that the state says it has are those that it holds.
pub proof fn law_same_site(before: AppState, after: AppState)
    ensures
        after.same_site(&before) <==> {
            &&& after.html@ == before.html@
            &&& after.embed_html@ == before.embed_html@
            &&& after.readonly == before.readonly
        },
        before.note_views() == note_views(before.notes@),
{
}

/// The message for a note that is not there ends with the number that was asked
/// for.
pub proof fn law_missing_note(index: usize)
    ensures
        missing_note(index) == "request for non-existent note #"@ + decimal_digits(index as nat),
{
}

/// Where the copy of a page failed, each link to that copy says so, from the
/// left, and the rest of the text stays, links to other copies included.
pub proof fn law_failed_copy_is_marked(a: Seq<char>, path: Seq<char>, b: Seq<char>)
    requires
        forall|j: int|
            0 <= j < a.len() ==> !#[trigger] matches_at(
                a + ("([local copy](/"@ + path + "))"@) + b,
                "([local copy](/"@ + path + "))"@,
                j,
            ),
    ensures
        failed_content(a + ("([local copy](/"@ + path + "))"@) + b, path) == a
            + "(local copy failed)"@ + failed_content(b, path),
        (forall|j: int| !#[trigger] matches_at(b, "([local copy](/"@ + path + "))"@, j))
            ==> failed_content(b, path) == b,
{
    let copy = "([local copy](/"@ + path + "))"@;
    assert(copy.len() > 0) by {
        reveal_strlit("([local copy](/");
    }
    law_replace_at_first(a, copy, b, "(local copy failed)"@);
    if forall|j: int| !#[trigger] matches_at(b, copy, j) {
        law_replace_nothing(b, copy, "(local copy failed)"@);
    }
}

/// The first line break of a block.
proof fn lemma_first_line(head: Seq<char>, tail: Seq<char>)
    requires
        !head.contains('\n'),
    ensures
        find(head + "\n"@ + tail, "\n"@) == Some(head.len() as int),
        (head + "\n"@ + tail).take(head.len() as int) == head,
        (head + "\n"@ + tail).skip(head.len() + 1int) == tail,
{
    reveal_strlit("\n");
    let b = head + "\n"@ + tail;
    let n = head.len() as int;
    assert(b.subrange(n, n + 1) =~= "\n"@);
    assert forall|j: int| 0 <= j < n implies !#[trigger] matches_at(b, "\n"@, j) by {
        if matches_at(b, "\n"@, j) {
            assert(b.subrange(j, j + 1)[0] == head[j]);
            assert(head.contains(head[j]));
        }
    }
    lemma_find_is(b, "\n"@, n);
    assert(b.take(n) =~= head);
    assert(b.skip(n + 1) =~= tail);
}

/// A block whose first line is `head` is read as a note with that line as its
/// time and all other lines as its text, both trimmed, rendered and searched for
/// tags.
pub proof fn law_block_is_read(head: Seq<char>, tail: Seq<char>, note: NoteView, now: Seq<char>)
    requires
        !head.contains('\n'),
    ensures
        read_from(head + "\n"@ + tail, note) <==> {
            &&& note.timestamp == trim(head)
            &&& note.content == trim(tail)
            &&& note.html == comrak_html(trim(tail), true, true, true, true, true, true, true, true)
            &&& note.tags == tags_of(trim(tail))
        },
        parsed_block(head + "\n"@ + tail, now) == (trim(head), trim(tail)),
{
    lemma_first_line(head, tail);
    if note.timestamp == trim(head) && note.content == trim(tail) && note.html == comrak_html(
        trim(tail),
        true,
        true,
        true,
        true,
        true,
        true,
        true,
        true,
    ) && note.tags == tags_of(trim(tail)) {
        assert(note =~= note_of(trim(head), trim(tail)));
    }
}

/// A block of one line is read as a note with that line as its text, untrimmed,
/// and the present time.
pub proof fn law_line_is_read(block: Seq<char>, note: NoteView, now: Seq<char>)
    requires
        !block.contains('\n'),
    ensures
        read_from(block, note) <==> {
            &&& clock_text(note.timestamp)
            &&& note.content == block
            &&& note.html == comrak_html(block, true, true, true, true, true, true, true, true)
            &&& note.tags == tags_of(block)
        },
        parsed_block(block, now) == (now, block),
{
    reveal_strlit("\n");
    lemma_find_from(block, "\n"@, 0);
    if let Some(i) = find(block, "\n"@) {
        assert(block.subrange(i, i + 1)[0] == block[i]);
        assert(block.contains(block[i]));
    }
    if note.content == block && note.html == comrak_html(
        block,
        true,
        true,
        true,
        true,
        true,
        true,
        true,
        true,
    ) && note.tags == tags_of(block) {
        assert(note =~= note_of(note.timestamp, block));
    }
}

} // verus!
