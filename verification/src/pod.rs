//! The server's state, and what each request does to it.
use crate::clock::{clock_text, now};
use crate::draft::{
    download_views, local_copy, local_copy_text, prepare_content, stored_content,
    wanted_downloads, Download,
};
use crate::markdown::{comrak_html, markdown_html, md_to_html};
use crate::note::{
    copy_notes, entry, note_of, note_views, notes_file, render_notes, Note, NoteView,
};
use crate::scan::{char_views, chars_of, decimal, replace_each, split_at_each, text_of};
use crate::status::Status;
use crate::text::{decimal_digits, replace, split};
use vstd::prelude::*;
use vstd::string::StringExecFns;

verus! {

/// The pages that the server shows, and the notes that it keeps.
#[derive(Debug)]
pub struct AppState {
    pub html: String,
    pub embed_html: String,
    pub notes: Vec<Note>,
    pub readonly: bool,
}

/// What is left to do for a note that was accepted.
#[derive(Debug)]
pub struct SavedNote {
    /// When the note was written.
    pub timestamp: String,
    /// What to append to the file.
    pub entry: String,
    /// The pages that the note asks for.
    pub downloads: Vec<Download>,
}

/// The message for a note that is not there.
pub open spec fn missing_note(index: usize) -> Seq<char> {
    "request for non-existent note #"@ + decimal_digits(index as nat)
}

fn missing_note_text(index: usize) -> (r: String)
    ensures
        r@ == missing_note(index),
{
    let mut r = "request for non-existent note #".to_string();
    let n = decimal(index as u64);
    r.append(n.as_str());
    r
}

/// The text of a note whose page could not be downloaded.
pub open spec fn failed_content(content: Seq<char>, path: Seq<char>) -> Seq<char> {
    replace(content, local_copy(path), "(local copy failed)"@)
}

/// Says in the text of a note that the page at `path` could not be downloaded.
pub fn mark_failed_copy(content: &str, path: &str) -> (r: String)
    ensures
        r@ == failed_content(content@, path@),
{
    proof {
        reveal_strlit("([local copy](/");
    }
    let chars = chars_of(content);
    let copy = local_copy_text(path);
    let pattern = chars_of(copy.as_str());
    let failed = chars_of("(local copy failed)");
    text_of(replace_each(chars.as_slice(), pattern.as_slice(), failed.as_slice()).as_slice())
}

/// Texts, each with a line break and a rule behind it.
pub open spec fn ruled_off(pieces: Seq<Seq<char>>) -> Seq<char>
    decreases pieces.len(),
{
    if pieces.len() == 0 {
        seq![]
    } else {
        ruled_off(pieces.drop_last()) + pieces.last() + "\n---\n"@
    }
}

/// The pieces of a file between its rules, with the piece at the place of the
/// last of `count` notes rewritten.
pub open spec fn rewritten_pieces(
    file: Seq<char>,
    count: int,
    timestamp: Seq<char>,
    content: Seq<char>,
) -> Seq<Seq<char>> {
    let pieces = split(file, "\n---\n"@);
    Seq::new(
        pieces.len(),
        |i: int|
            if i == count - 1 {
                timestamp + "\n"@ + content
            } else {
                pieces[i]
            },
    )
}

/// Rewrites the last of `count` notes in a file.
pub fn rewrite_last_note(file: &str, count: usize, timestamp: &str, content: &str) -> (r: String)
    requires
        count > 0,
    ensures
        r@ == ruled_off(rewritten_pieces(file@, count as int, timestamp@, content@)),
{
    proof {
        reveal_strlit("\n---\n");
    }
    let chars = chars_of(file);
    let sep = chars_of("\n---\n");
    let pieces = split_at_each(chars.as_slice(), sep.as_slice());
    let ghost all = rewritten_pieces(file@, count as int, timestamp@, content@);
    assert(all.len() == pieces@.len());
    let mut r = String::new();
    for i in 0..pieces.len()
        invariant
            count > 0,
            char_views(pieces@) == split(file@, "\n---\n"@),
            all == rewritten_pieces(file@, count as int, timestamp@, content@),
            all.len() == pieces@.len(),
            r@ == ruled_off(all.take(i as int)),
    {
        assert(all.take(i + 1).drop_last() =~= all.take(i as int));
        assert(char_views(pieces@)[i as int] == pieces@[i as int]@);
        let ghost before = r@;
        if i == count - 1 {
            r.append(timestamp);
            r.append("\n");
            r.append(content);
            assert(r@ =~= before + all[i as int]);
        } else {
            r.append(text_of(pieces[i].as_slice()).as_str());
            assert(r@ =~= before + all[i as int]);
        }
        r.append("\n---\n");
    }
    assert(all.take(all.len() as int) =~= all);
    r
}

impl AppState {
    /// What the notes say.
    pub open spec fn note_views(&self) -> Seq<NoteView> {
        note_views(self.notes@)
    }

    /// The pages and the mode are those of `other`.
    pub open spec fn same_site(&self, other: &AppState) -> bool {
        &&& self.html@ == other.html@
        &&& self.embed_html@ == other.embed_html@
        &&& self.readonly == other.readonly
    }

    /// The page at the root: the one without an editor where nothing may be
    /// written.
    pub fn index(&self) -> (r: String)
        ensures
            r@ == if self.readonly {
                self.embed_html@
            } else {
                self.html@
            },
    {
        if self.readonly {
            self.embed_html.clone()
        } else {
            self.html.clone()
        }
    }

    /// All notes, the oldest first.
    pub fn get_notes(&self) -> (r: Vec<Note>)
        ensures
            note_views(r@) == self.note_views(),
    {
        copy_notes(&self.notes)
    }

    /// One note.
    pub fn get_note_by_index(&self, index: usize) -> (r: Result<Note, (Status, String)>)
        ensures
            match r {
                Ok(note) => index < self.notes@.len() && note@ == self.note_views()[index as int],
                Err((status, message)) => index >= self.notes@.len() && status
                    == Status::BadRequest && message@ == missing_note(index),
            },
    {
        if index >= self.notes.len() {
            return Err((Status::BadRequest, missing_note_text(index)));
        }
        Ok(self.notes[index].clone())
    }

    /// Removes a note, and gives the file of those that are left.
    pub fn delete_note_by_index(&mut self, index: usize) -> (r: Result<String, (Status, String)>)
        ensures
            final(self).same_site(old(self)),
            match r {
                Ok(file) => {
                    &&& !old(self).readonly
                    &&& index < old(self).notes@.len()
                    &&& final(self).notes@ == old(self).notes@.remove(index as int)
                    &&& file@ == notes_file(final(self).note_views())
                },
                Err((status, message)) => {
                    &&& final(self).notes@ == old(self).notes@
                    &&& if old(self).readonly {
                        status == Status::MethodNotAllowed && message@ == "read-only mode"@
                    } else {
                        index >= old(self).notes@.len() && status == Status::BadRequest && message@
                            == missing_note(index)
                    }
                },
            },
    {
        if self.readonly {
            return Err((Status::MethodNotAllowed, "read-only mode".to_string()));
        }
        if index >= self.notes.len() {
            return Err((Status::BadRequest, missing_note_text(index)));
        }
        self.notes.remove(index);
        Ok(render_notes(&self.notes))
    }

    /// Adds a note, and gives what to append to the file.
    pub fn push_note(&mut self, note: Note) -> (r: String)
        ensures
            final(self).same_site(old(self)),
            final(self).notes@ == old(self).notes@.push(note),
            r@ == entry(note@),
    {
        let r = note.entry();
        self.notes.push(note);
        r
    }

    /// Accepts a note that was written at a given time.
    pub fn save_note_at(&mut self, content: &str, timestamp: String) -> (r: Result<
        SavedNote,
        Status,
    >)
        ensures
            final(self).same_site(old(self)),
            match r {
                Ok(saved) => {
                    &&& !old(self).readonly
                    &&& final(self).note_views() == old(self).note_views().push(
                        note_of(timestamp@, stored_content(content@)),
                    )
                    &&& saved.timestamp@ == timestamp@
                    &&& saved.entry@ == entry(note_of(timestamp@, stored_content(content@)))
                    &&& download_views(saved.downloads@) == wanted_downloads(content@)
                },
                Err(status) => {
                    &&& old(self).readonly
                    &&& status == Status::MethodNotAllowed
                    &&& final(self).notes@ == old(self).notes@
                },
            },
    {
        if self.readonly {
            return Err(Status::MethodNotAllowed);
        }
        let draft = prepare_content(content);
        let note = Note::new(timestamp.clone(), draft.content);
        let entry = self.push_note(note);
        assert(self.note_views() =~= old(self).note_views().push(
            note_of(timestamp@, stored_content(content@)),
        ));
        Ok(SavedNote { timestamp, entry, downloads: draft.downloads })
    }

    /// Accepts a note that is written now.
    pub fn save_note(&mut self, content: &str) -> (r: Result<SavedNote, Status>)
        ensures
            final(self).same_site(old(self)),
            match r {
                Ok(saved) => {
                    &&& !old(self).readonly
                    &&& clock_text(saved.timestamp@)
                    &&& final(self).note_views() == old(self).note_views().push(
                        note_of(saved.timestamp@, stored_content(content@)),
                    )
                    &&& saved.entry@ == entry(note_of(saved.timestamp@, stored_content(content@)))
                    &&& download_views(saved.downloads@) == wanted_downloads(content@)
                },
                Err(status) => {
                    &&& old(self).readonly
                    &&& status == Status::MethodNotAllowed
                    &&& final(self).notes@ == old(self).notes@
                },
            },
    {
        if self.readonly {
            return Err(Status::MethodNotAllowed);
        }
        let timestamp = now();
        self.save_note_at(content, timestamp)
    }

    /// Gives the last note another text and another rendering. Its time and its
    /// tags stay.
    pub fn replace_last(&mut self, content: String, html: String)
        requires
            old(self).notes@.len() > 0,
        ensures
            final(self).same_site(old(self)),
            final(self).note_views() == old(self).note_views().update(
                old(self).notes@.len() - 1,
                (NoteView { content: content@, html: html@, ..old(self).note_views().last() }),
            ),
    {
        if let Some(last) = self.notes.pop() {
            let note = Note { timestamp: last.timestamp, content, html, tags: last.tags };
            self.notes.push(note);
            assert(self.note_views() =~= old(self).note_views().update(
                old(self).notes@.len() - 1,
                (NoteView { content: content@, html: html@, ..old(self).note_views().last() }),
            ));
        }
    }

    /// Says in the last note that the page at `path` could not be downloaded,
    /// and gives the new text; there is none where there are no notes.
    pub fn download_failed(&mut self, path: &str) -> (r: Option<String>)
        ensures
            final(self).same_site(old(self)),
            match r {
                Some(content) => {
                    &&& old(self).notes@.len() > 0
                    &&& final(self).note_views().last().html == comrak_html(
                        content@,
                        true,
                        true,
                        true,
                        true,
                        true,
                        true,
                        true,
                        true,
                    )
                    &&& content@ == failed_content(old(self).note_views().last().content, path@)
                    &&& final(self).note_views() == old(self).note_views().update(
                        old(self).notes@.len() - 1,
                        (NoteView {
                            content: content@,
                            html: markdown_html(content@),
                            ..old(self).note_views().last()
                        }),
                    )
                },
                None => old(self).notes@.len() == 0 && final(self).notes@ == old(self).notes@,
            },
    {
        let n = self.notes.len();
        if n == 0 {
            return None;
        }
        let content = mark_failed_copy(self.notes[n - 1].content.as_str(), path);
        let html = md_to_html(content.as_str());
        self.replace_last(content.clone(), html);
        Some(content)
    }
}

/// What follows once a note that was accepted is appended to the file or not:
/// its downloads start only where it is.
pub fn save_reply(appended: bool, saved: SavedNote) -> (r: Result<Vec<Download>, Status>)
    ensures
        r == if appended {
            Ok::<Vec<Download>, Status>(saved.downloads)
        } else {
            Err(Status::InternalServerError)
        },
{
    if appended {
        Ok(saved.downloads)
    } else {
        Err(Status::InternalServerError)
    }
}

/// The answer to a removal, once the file is written or an error came back.
pub fn delete_reply(error: Option<String>) -> (r: Result<Status, (Status, String)>)
    ensures
        r == match error {
            None => Ok::<Status, (Status, String)>(Status::NoContent),
            Some(message) => Err((Status::InternalServerError, message)),
        },
{
    match error {
        None => Ok(Status::NoContent),
        Some(message) => Err((Status::InternalServerError, message)),
    }
}

} // verus!
