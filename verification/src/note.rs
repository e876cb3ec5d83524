//! Notes, and the file that keeps them.
use crate::clock::{clock_text, now};
use crate::markdown::{comrak_html, markdown_html, md_to_html};
use crate::scan::{char_views, chars_of, find_at, is_blank, split_at_each, text_of, trimmed};
use crate::tags::{extract_tags, tags_of};
use crate::text::{blank, find, split, texts, trim};
use vstd::prelude::*;
use vstd::slice::slice_subrange;
use vstd::string::StringExecFns;

verus! {

/// One note: when it was written, its text, the HTML of the text, its tags.
#[derive(Debug)]
pub struct Note {
    pub timestamp: String,
    pub content: String,
    pub html: String,
    pub tags: Vec<String>,
}

/// What a note says.
#[verifier::ext_equal]
pub struct NoteView {
    pub timestamp: Seq<char>,
    pub content: Seq<char>,
    pub html: Seq<char>,
    pub tags: Seq<Seq<char>>,
}

impl View for Note {
    type V = NoteView;

    open spec fn view(&self) -> NoteView {
        NoteView {
            timestamp: self.timestamp@,
            content: self.content@,
            html: self.html@,
            tags: texts(self.tags@),
        }
    }
}

/// What a list of notes says.
pub open spec fn note_views(notes: Seq<Note>) -> Seq<NoteView> {
    notes.map_values(|n: Note| n@)
}

/// Copies a list of strings.
pub(crate) fn copy_texts(v: &Vec<String>) -> (r: Vec<String>)
    ensures
        texts(r@) == texts(v@),
{
    let mut r: Vec<String> = Vec::new();
    for i in 0..v.len()
        invariant
            texts(r@) == texts(v@).take(i as int),
    {
        let ghost before = r@;
        r.push(v[i].clone());
        assert(texts(r@) =~= texts(before).push(v@[i as int]@));
        assert(texts(r@) =~= texts(v@).take(i + 1));
    }
    assert(texts(v@).take(v@.len() as int) =~= texts(v@));
    r
}

impl Clone for Note {
    fn clone(&self) -> (r: Self)
        ensures
            r@ == self@,
    {
        Note {
            timestamp: self.timestamp.clone(),
            content: self.content.clone(),
            html: self.html.clone(),
            tags: copy_texts(&self.tags),
        }
    }
}

/// Copies a list of notes.
pub(crate) fn copy_notes(v: &Vec<Note>) -> (r: Vec<Note>)
    ensures
        note_views(r@) == note_views(v@),
{
    let mut r: Vec<Note> = Vec::new();
    for i in 0..v.len()
        invariant
            note_views(r@) == note_views(v@).take(i as int),
    {
        let ghost before = r@;
        r.push(v[i].clone());
        assert(note_views(r@) =~= note_views(before).push(v@[i as int]@));
        assert(note_views(r@) =~= note_views(v@).take(i + 1));
    }
    assert(note_views(v@).take(v@.len() as int) =~= note_views(v@));
    r
}

/// The note of a text, written at a given time and rendered as given.
pub open spec fn note_with_html(
    timestamp: Seq<char>,
    content: Seq<char>,
    html: Seq<char>,
) -> NoteView {
    NoteView { timestamp, content, html, tags: tags_of(content) }
}

/// The note of a text, written at a given time.
pub open spec fn note_of(timestamp: Seq<char>, content: Seq<char>) -> NoteView {
    note_with_html(timestamp, content, markdown_html(content))
}

impl Note {
    /// Makes a note of a text that is rendered already.
    pub fn with_html(timestamp: String, content: String, html: String) -> (r: Note)
        ensures
            r@ == note_with_html(timestamp@, content@, html@),
            r.timestamp@ == timestamp@,
            r.content@ == content@,
            r.html@ == html@,
            texts(r.tags@) == tags_of(content@),
    {
        let tags = extract_tags(content.as_str());
        Note { timestamp, content, html, tags }
    }

    /// Makes a note of a text.
    pub fn new(timestamp: String, content: String) -> (r: Note)
        ensures
            r@ == note_of(timestamp@, content@),
            r.timestamp@ == timestamp@,
            r.content@ == content@,
            r.html@ == comrak_html(content@, true, true, true, true, true, true, true, true),
            texts(r.tags@) == tags_of(content@),
    {
        let html = md_to_html(content.as_str());
        Note::with_html(timestamp, content, html)
    }

    /// The note as the file keeps it.
    pub fn entry(&self) -> (r: String)
        ensures
            r@ == entry(self@),
            r@ == self.timestamp@ + "\n"@ + self.content@ + "\n\n---\n\n"@,
    {
        let mut r = self.timestamp.clone();
        r.append("\n");
        r.append(self.content.as_str());
        r.append("\n\n---\n\n");
        r
    }
}

/// What stands between two entries of the file.
pub open spec fn separator() -> Seq<char> {
    "\n\n---\n\n"@
}

/// A note in the file: its time on a line, then its text.
pub open spec fn block(note: NoteView) -> Seq<char> {
    note.timestamp + "\n"@ + note.content
}

/// A note in the file, with the separator that ends it.
pub open spec fn entry(note: NoteView) -> Seq<char> {
    block(note) + separator()
}

/// The file of some notes.
pub open spec fn notes_file(notes: Seq<NoteView>) -> Seq<char>
    decreases notes.len(),
{
    if notes.len() == 0 {
        seq![]
    } else {
        notes_file(notes.drop_last()) + entry(notes.last())
    }
}

/// Writes the file of some notes.
pub fn render_notes(notes: &Vec<Note>) -> (r: String)
    ensures
        r@ == notes_file(note_views(notes@)),
{
    let mut r = String::new();
    let ghost all = note_views(notes@);
    for i in 0..notes.len()
        invariant
            all == note_views(notes@),
            r@ == notes_file(all.take(i as int)),
    {
        assert(all.take(i + 1).drop_last() =~= all.take(i as int));
        assert(all.take(i + 1).last() == notes@[i as int]@);
        let e = notes[i].entry();
        r.append(e.as_str());
    }
    assert(all.take(all.len() as int) =~= all);
    r
}

/// The blocks of a file that hold a note: what stands between the separators
/// and is not blank.
pub open spec fn note_blocks(file: Seq<char>) -> Seq<Seq<char>> {
    split(file, separator()).filter(|b: Seq<char>| !blank(b))
}

/// The time and the text that a block gives. The first line is the time, and
/// what follows it is the text, both without the white space around them. A
/// block of one line is all text, and has the time `now`.
pub open spec fn parsed_block(block: Seq<char>, now: Seq<char>) -> (Seq<char>, Seq<char>) {
    match find(block, "\n"@) {
        Some(i) => (trim(block.take(i)), trim(block.skip(i + 1))),
        None => (now, block),
    }
}

/// `note` is what is read from `block`. Its time comes from the block, or from
/// the clock where the block has none.
pub open spec fn read_from(block: Seq<char>, note: NoteView) -> bool {
    match find(block, "\n"@) {
        Some(i) => note == note_of(trim(block.take(i)), trim(block.skip(i + 1))),
        None => clock_text(note.timestamp) && note == note_of(note.timestamp, block),
    }
}

/// `notes` is what is read from a file: one note for each of its blocks, in
/// their order.
pub open spec fn read_from_file(file: Seq<char>, notes: Seq<NoteView>) -> bool {
    &&& notes.len() == note_blocks(file).len()
    &&& forall|i: int| 0 <= i < notes.len() ==> read_from(note_blocks(file)[i], #[trigger] notes[i])
}

/// Takes the time and the text from a block of the file.
pub fn parse_block(block: &str, now: String) -> (r: (String, String))
    ensures
        (r.0@, r.1@) == parsed_block(block@, now@),
{
    let chars = chars_of(block);
    let newline = chars_of("\n");
    proof {
        reveal_strlit("\n");
    }
    match find_at(chars.as_slice(), newline.as_slice(), 0) {
        Some(i) => {
            assert(chars@.len() == chars.len());
            let head = slice_subrange(chars.as_slice(), 0, i);
            let tail = slice_subrange(chars.as_slice(), i + 1, chars.len());
            assert(head@ =~= block@.take(i as int));
            assert(tail@ =~= block@.skip(i + 1));
            (text_of(trimmed(head)), text_of(trimmed(tail)))
        },
        None => (now, block.to_string()),
    }
}

/// Reads the notes of a file; there are none where there is no file.
pub fn load_notes(file: Option<&str>) -> (r: Vec<Note>)
    ensures
        match file {
            Some(content) => read_from_file(content@, note_views(r@)),
            None => r@.len() == 0,
        },
{
    let mut r: Vec<Note> = Vec::new();
    if let Some(content) = file {
        let chars = chars_of(content);
        let sep = chars_of("\n\n---\n\n");
        proof {
            reveal_strlit("\n\n---\n\n");
        }
        let pieces = split_at_each(chars.as_slice(), sep.as_slice());
        let ghost all = char_views(pieces@);
        let ghost keep = |b: Seq<char>| !blank(b);
        for i in 0..pieces.len()
            invariant
                all == char_views(pieces@),
                keep == (|b: Seq<char>| !blank(b)),
                r@.len() == all.take(i as int).filter(keep).len(),
                forall|j: int|
                    0 <= j < r@.len() ==> read_from(
                        all.take(i as int).filter(keep)[j],
                        #[trigger] note_views(r@)[j],
                    ),
        {
            proof {
                reveal(Seq::filter);
                assert(all.take(i + 1).drop_last() =~= all.take(i as int));
                assert(all.take(i + 1).last() == pieces@[i as int]@);
            }
            if !is_blank(pieces[i].as_slice()) {
                let text = text_of(pieces[i].as_slice());
                let (timestamp, body) = parse_block(text.as_str(), now());
                let note = Note::new(timestamp, body);
                let ghost before = r@;
                r.push(note);
                assert(note_views(r@) =~= note_views(before).push(note@));
                assert(read_from(pieces@[i as int]@, note@));
            }
        }
        assert(all.take(all.len() as int) =~= all);
    }
    r
}

} // verus!
