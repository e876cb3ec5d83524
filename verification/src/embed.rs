//! The page that shows notes on other sites.
use crate::note::{note_of, note_views, Note, NoteView};
use crate::pod::AppState;
use crate::tags::{
    clean_tag, law_ascii_tags_are_clean, law_tags_of_joined_texts, law_word_is_tag,
    lemma_clean_tag, tag_char, tags_of,
};
use crate::text::{lemma_filter_all, lemma_words_blank, texts, words};
use crate::unicode::{ascii_lower, ascii_text, lowercase};
use vstd::prelude::*;
use vstd::string::StringExecFns;

verus! {

/// A note is shown where no tag is asked for, or where it has the tag. Letter
/// case does not matter: tags are kept in lower case.
pub open spec fn selected(note: NoteView, tag: Option<Seq<char>>) -> bool {
    match tag {
        Some(name) => note.tags.contains(lowercase(name)),
        None => true,
    }
}

/// The notes that are shown, in the order in which they are kept.
pub open spec fn selection(notes: Seq<NoteView>, tag: Option<Seq<char>>) -> Seq<NoteView> {
    notes.filter(|note: NoteView| selected(note, tag))
}

/// Tags in a row: each with a `#` before it, and a space between two of them.
pub open spec fn tag_line(tags: Seq<Seq<char>>) -> Seq<char>
    decreases tags.len(),
{
    if tags.len() == 0 {
        seq![]
    } else if tags.len() == 1 {
        "#"@ + tags[0]
    } else {
        tag_line(tags.drop_last()) + " "@ + "#"@ + tags.last()
    }
}

/// The HTML of one note.
pub open spec fn note_html(note: NoteView) -> Seq<char> {
    "<div class=\"note\">\n"@ + note.html + "<div class=\"noteMetadata\">\n"@
        + "<time datetime=\""@ + note.timestamp + "\">"@ + note.timestamp + "</time>"@ + (
    if note.tags.len() > 0 {
        " &nbsp; "@ + tag_line(note.tags)
    } else {
        seq![]
    }) + "</div></div>\n"@
}

/// The HTML of some notes, the newest first.
pub open spec fn notes_html(notes: Seq<NoteView>) -> Seq<char>
    decreases notes.len(),
{
    if notes.len() == 0 {
        seq![]
    } else {
        note_html(notes.last()) + notes_html(notes.drop_last())
    }
}

/// What stands before the notes.
pub open spec fn page_head() -> Seq<char> {
    "<!DOCTYPE html><html><head><meta charset=\"utf-8\">\n"@
        + "<meta name=\"color-scheme\" content=\"light dark\" />\n"@ + "<style>"@
        + ".note{margin-bottom:1.75em;padding-top:0.25em}.note .noteMetadata{font-size:0.9em;font-family:monospace;color:#666}.note img,.note iframe,.note video,.note audio,.note embed,.note svg{max-width:100%}"@
        + "</style></head><body>\n"@ + "<div id=\"notes\">\n"@
}

/// The page that shows some notes.
pub open spec fn embed_page(notes: Seq<NoteView>) -> Seq<char> {
    page_head() + notes_html(notes) + "</div></body></html>"@
}

/// Writes tags in a row.
fn push_tags(out: &mut String, tags: &Vec<String>)
    ensures
        final(out)@ == old(out)@ + tag_line(texts(tags@)),
{
    let ghost before = out@;
    let ghost all = texts(tags@);
    for i in 0..tags.len()
        invariant
            all == texts(tags@),
            out@ == before + tag_line(all.take(i as int)),
    {
        assert(all.take(i + 1).drop_last() =~= all.take(i as int));
        assert(all.take(i + 1).last() == tags@[i as int]@);
        if i > 0 {
            out.append(" ");
        }
        out.append("#");
        out.append(tags[i].as_str());
        assert(out@ =~= before + tag_line(all.take(i + 1)));
    }
    assert(all.take(all.len() as int) =~= all);
}

/// Writes the HTML of one note.
fn push_note_html(out: &mut String, note: &Note)
    ensures
        final(out)@ == old(out)@ + note_html(note@),
{
    let ghost before = out@;
    out.append("<div class=\"note\">\n");
    out.append(note.html.as_str());
    out.append("<div class=\"noteMetadata\">\n");
    out.append("<time datetime=\"");
    out.append(note.timestamp.as_str());
    out.append("\">");
    out.append(note.timestamp.as_str());
    out.append("</time>");
    if note.tags.len() > 0 {
        out.append(" &nbsp; ");
        push_tags(out, &note.tags);
    }
    out.append("</div></div>\n");
    assert(out@ =~= before + note_html(note@));
}

/// Writes the page that shows some notes.
pub fn render_embed(notes: &Vec<Note>) -> (r: String)
    ensures
        r@ == embed_page(note_views(notes@)),
{
    let mut out = String::new();
    out.append("<!DOCTYPE html><html><head><meta charset=\"utf-8\">\n");
    out.append("<meta name=\"color-scheme\" content=\"light dark\" />\n");
    out.append("<style>");
    out.append(
        ".note{margin-bottom:1.75em;padding-top:0.25em}.note .noteMetadata{font-size:0.9em;font-family:monospace;color:#666}.note img,.note iframe,.note video,.note audio,.note embed,.note svg{max-width:100%}",
    );
    out.append("</style></head><body>\n");
    out.append("<div id=\"notes\">\n");
    assert(out@ =~= page_head());
    let ghost all = note_views(notes@);
    let mut i: usize = notes.len();
    assert(all.take(i as int) =~= all);
    while i > 0
        invariant
            all == note_views(notes@),
            i <= notes@.len(),
            out@ + notes_html(all.take(i as int)) == page_head() + notes_html(all),
        decreases i,
    {
        i -= 1;
        let ghost before = out@;
        assert(all.take(i + 1).drop_last() =~= all.take(i as int));
        assert(all.take(i + 1).last() == notes@[i as int]@);
        push_note_html(&mut out, &notes[i]);
        assert(out@ + notes_html(all.take(i as int)) =~= before + notes_html(all.take(i + 1)));
    }
    assert(out@ =~= page_head() + notes_html(all));
    out.append("</div></body></html>");
    out
}

/// Does a note have a tag?
fn has_tag(note: &Note, tag: &String) -> (r: bool)
    ensures
        r == note@.tags.contains(tag@),
{
    for i in 0..note.tags.len()
        invariant
            forall|j: int| 0 <= j < i ==> #[trigger] note@.tags[j] != tag@,
    {
        assert(note@.tags[i as int] == note.tags@[i as int]@);
        if note.tags[i] == *tag {
            return true;
        }
    }
    false
}

impl AppState {
    /// The page for other sites: the notes with the tag that is asked for, the
    /// newest first.
    pub fn get_embed_with_query(&self, tag: Option<&str>) -> (r: String)
        ensures
            r@ == embed_page(
                selection(
                    self.note_views(),
                    match tag {
                        Some(name) => Some(name@),
                        None => None,
                    },
                ),
            ),
    {
        let wanted: Option<String> = match tag {
            Some(name) => Some(name.to_lowercase()),
            None => None,
        };
        let ghost asked: Option<Seq<char>> = match tag {
            Some(name) => Some(name@),
            None => None,
        };
        let ghost all = self.note_views();
        let ghost keep = |note: NoteView| selected(note, asked);
        let mut filtered: Vec<Note> = Vec::new();
        for i in 0..self.notes.len()
            invariant
                all == note_views(self.notes@),
                keep == (|note: NoteView| selected(note, asked)),
                wanted is Some <==> asked is Some,
                asked matches Some(name) ==> wanted->Some_0@ == lowercase(name),
                note_views(filtered@) == all.take(i as int).filter(keep),
        {
            proof {
                reveal(Seq::filter);
                assert(all.take(i + 1).drop_last() =~= all.take(i as int));
                assert(all.take(i + 1).last() == self.notes@[i as int]@);
            }
            let take = match &wanted {
                Some(name) => has_tag(&self.notes[i], name),
                None => true,
            };
            if take {
                let ghost before = filtered@;
                filtered.push(self.notes[i].clone());
                assert(note_views(filtered@) =~= note_views(before).push(all[i as int]));
            }
        }
        assert(all.take(all.len() as int) =~= all);
        render_embed(&filtered)
    }
}

/// Where no tag is asked for, every note is shown.
pub proof fn law_no_tag_shows_all(notes: Seq<NoteView>)
    ensures
        selection(notes, None) == notes,
{
    lemma_filter_all(notes, |note: NoteView| selected(note, None));
}

/// The notes that are shown are those that are kept and selected, and no others.
pub proof fn law_selection(notes: Seq<NoteView>, tag: Option<Seq<char>>, note: NoteView)
    ensures
        selection(notes, tag).contains(note) <==> notes.contains(note) && selected(note, tag),
{
    let keep = |note: NoteView| selected(note, tag);
    if selection(notes, tag).contains(note) {
        notes.lemma_filter_contains_rev(keep, note);
        let shown = selection(notes, tag);
        let i = choose|i: int| 0 <= i < shown.len() && shown[i] == note;
        notes.lemma_filter_pred(keep, i);
    }
    if notes.contains(note) && selected(note, tag) {
        let i = choose|i: int| 0 <= i < notes.len() && notes[i] == note;
        notes.lemma_filter_contains(keep, i);
    }
}

/// A note without the tag that is asked for never reaches the page: with it and
/// without it the page is the same.
pub proof fn law_unselected_note_is_not_shown(
    before: Seq<NoteView>,
    note: NoteView,
    after: Seq<NoteView>,
    tag: Option<Seq<char>>,
)
    requires
        !selected(note, tag),
    ensures
        embed_page(selection(before.push(note) + after, tag)) == embed_page(
            selection(before + after, tag),
        ),
{
    let keep = |note: NoteView| selected(note, tag);
    Seq::filter_distributes_over_add(before.push(note), after, keep);
    Seq::filter_distributes_over_add(before, after, keep);
    before.lemma_filter_push(note, keep);
}

/// The tags of a row of clean tags are those tags.
pub proof fn law_tag_line_is_read_back(tags: Seq<Seq<char>>)
    requires
        forall|i: int| 0 <= i < tags.len() ==> clean_tag(#[trigger] tags[i]),
    ensures
        tags_of(tag_line(tags)) == tags,
    decreases tags.len(),
{
    reveal_strlit(" ");
    if tags.len() == 0 {
        lemma_words_blank(tag_line(tags));
        assert(tags_of(tag_line(tags)) =~= tags);
    } else {
        assert(clean_tag(tags[tags.len() - 1]));
        lemma_clean_tag(tags.last());
        if tags.len() == 1 {
            assert(seq![tags[0]] =~= tags);
        } else {
            let most = tags.drop_last();
            assert forall|i: int| 0 <= i < most.len() implies clean_tag(#[trigger] most[i]) by {
                assert(most[i] == tags[i]);
            }
            law_tag_line_is_read_back(most);
            law_tags_of_joined_texts(tag_line(most), " "@, "#"@ + tags.last());
            assert(tag_line(tags) =~= tag_line(most) + " "@ + ("#"@ + tags.last()));
            assert(most + seq![tags.last()] =~= tags);
        }
    }
}

/// The row of the tags of an ASCII text has the same tags as the text.
pub proof fn law_ascii_tag_line_is_read_back(content: Seq<char>)
    requires
        ascii_text(content),
    ensures
        tags_of(tag_line(tags_of(content))) == tags_of(content),
{
    assert forall|i: int| 0 <= i < tags_of(content).len() implies clean_tag(
        #[trigger] tags_of(content)[i],
    ) by {
        law_ascii_tags_are_clean(content, i);
    }
    law_tag_line_is_read_back(tags_of(content));
}

/// A note is found by each tag that stands in it as a word, in whatever letter
/// case the tag is asked for.
pub proof fn law_tag_finds_note(
    timestamp: Seq<char>,
    content: Seq<char>,
    name: Seq<char>,
    query: Seq<char>,
)
    requires
        words(content).contains("#"@ + name),
        name.len() > 0,
        forall|i: int| 0 <= i < name.len() ==> tag_char(#[trigger] name[i]),
        lowercase(query) == lowercase(name),
    ensures
        selected(note_of(timestamp, content), Some(query)),
{
    law_word_is_tag(content, name);
}

/// Letter case makes no difference between two texts of ASCII characters.
pub proof fn law_ascii_case(a: Seq<char>, b: Seq<char>)
    requires
        ascii_text(a),
        ascii_text(b),
        a.len() == b.len(),
        forall|i: int| 0 <= i < a.len() ==> ascii_lower(#[trigger] a[i]) == ascii_lower(b[i]),
    ensures
        lowercase(a) == lowercase(b),
{
    assert(a.map_values(|c: char| ascii_lower(c)) =~= b.map_values(|c: char| ascii_lower(c)));
}

} // verus!
