//! Which notes the page for other sites shows, and how.
use crate::embed::{
    embed_page, law_no_tag_shows_all, law_selection, notes_html, selected, selection, tag_line,
};
use crate::note::NoteView;
use crate::unicode::lowercase;
use vstd::prelude::*;

verus! {

/// A note is shown for a tag exactly where it is kept and one of its tags is the
/// lower case of that tag. To begin alike is not enough.
pub proof fn law_shown_for_its_tags_only(notes: Seq<NoteView>, name: Seq<char>, note: NoteView)
    ensures
        selection(notes, Some(name)).contains(note) <==> notes.contains(note) && exists|k: int|
            0 <= k < note.tags.len() && #[trigger] note.tags[k] == lowercase(name),
{
    law_selection(notes, Some(name), note);
}

/// A note of which every tag differs from the lower case of the tag that is
/// asked for is not shown, whatever other notes there are.
pub proof fn law_not_shown_without_tag(notes: Seq<NoteView>, name: Seq<char>, note: NoteView)
    requires
        forall|k: int| 0 <= k < note.tags.len() ==> #[trigger] note.tags[k] != lowercase(name),
    ensures
        !selection(notes, Some(name)).contains(note),
{
    law_shown_for_its_tags_only(notes, name, note);
}

/// A single note is the selection of itself where it has the tag, and else the
/// selection is empty.
pub proof fn law_selection_of_one(note: NoteView, name: Seq<char>)
    ensures
        (exists|k: int| 0 <= k < note.tags.len() && #[trigger] note.tags[k] == lowercase(name))
            ==> selection(seq![note], Some(name)) == seq![note],
        (forall|k: int| 0 <= k < note.tags.len() ==> #[trigger] note.tags[k] != lowercase(name))
            ==> selection(seq![note], Some(name)) == Seq::<NoteView>::empty(),
        selection(seq![note], None) == seq![note],
{
    let keep = |note: NoteView| selected(note, Some(name));
    let none = Seq::<NoteView>::empty();
    assert(none.push(note) =~= seq![note]);
    none.lemma_filter_push(note, keep);
    assert(none.filter(keep) =~= none) by {
        reveal(Seq::filter);
    }
    law_no_tag_shows_all(seq![note]);
    if forall|k: int| 0 <= k < note.tags.len() ==> #[trigger] note.tags[k] != lowercase(name) {
        assert(!selected(note, Some(name)));
    }
}

/// The selection of two lists of notes is that of the one and then that of the
/// other: no note moves, and none is shown twice or left out because of another.
pub proof fn law_selection_of_joined_lists(
    a: Seq<NoteView>,
    b: Seq<NoteView>,
    tag: Option<Seq<char>>,
)
    ensures
        selection(a + b, tag) == selection(a, tag) + selection(b, tag),
        selection(Seq::<NoteView>::empty(), tag) == Seq::<NoteView>::empty(),
{
    let keep = |note: NoteView| selected(note, tag);
    Seq::filter_distributes_over_add(a, b, keep);
    assert(Seq::<NoteView>::empty().filter(keep) =~= Seq::<NoteView>::empty()) by {
        reveal(Seq::filter);
    }
}

/// A page without notes is its head and its end.
pub proof fn law_page_without_notes()
    ensures
        embed_page(Seq::<NoteView>::empty())
            == "<!DOCTYPE html><html><head><meta charset=\"utf-8\">\n"@
            + "<meta name=\"color-scheme\" content=\"light dark\" />\n"@ + "<style>"@
            + ".note{margin-bottom:1.75em;padding-top:0.25em}.note .noteMetadata{font-size:0.9em;font-family:monospace;color:#666}.note img,.note iframe,.note video,.note audio,.note embed,.note svg{max-width:100%}"@
            + "</style></head><body>\n"@ + "<div id=\"notes\">\n"@ + "</div></body></html>"@,
{
    assert(embed_page(Seq::<NoteView>::empty())
        =~= "<!DOCTYPE html><html><head><meta charset=\"utf-8\">\n"@
        + "<meta name=\"color-scheme\" content=\"light dark\" />\n"@ + "<style>"@
        + ".note{margin-bottom:1.75em;padding-top:0.25em}.note .noteMetadata{font-size:0.9em;font-family:monospace;color:#666}.note img,.note iframe,.note video,.note audio,.note embed,.note svg{max-width:100%}"@
        + "</style></head><body>\n"@ + "<div id=\"notes\">\n"@ + "</div></body></html>"@);
}

/// What a page shows stands between its head and its end: the page of no notes,
/// cut before its end, then the notes, then that end.
pub proof fn law_page_holds_notes(notes: Seq<NoteView>)
    ensures
        ({
            let none = embed_page(Seq::<NoteView>::empty());
            let at = none.len() - "</div></body></html>"@.len();
            embed_page(notes) == none.take(at) + notes_html(notes) + "</div></body></html>"@
        }),
{
    let none = embed_page(Seq::<NoteView>::empty());
    let at = none.len() - "</div></body></html>"@.len();
    assert(embed_page(notes) =~= none.take(at) + notes_html(notes) + "</div></body></html>"@);
}

/// A newer note stands before all older ones, with its HTML as it is, its time
/// twice and, where it has any, its tags.
pub proof fn law_newest_note_comes_first(older: Seq<NoteView>, note: NoteView)
    ensures
        notes_html(Seq::<NoteView>::empty()) == Seq::<char>::empty(),
        note.tags.len() == 0 ==> notes_html(older.push(note)) == "<div class=\"note\">\n"@
            + note.html + "<div class=\"noteMetadata\">\n"@ + "<time datetime=\""@ + note.timestamp
            + "\">"@ + note.timestamp + "</time>"@ + "</div></div>\n"@ + notes_html(older),
        note.tags.len() > 0 ==> notes_html(older.push(note)) == "<div class=\"note\">\n"@
            + note.html + "<div class=\"noteMetadata\">\n"@ + "<time datetime=\""@ + note.timestamp
            + "\">"@ + note.timestamp + "</time>"@ + " &nbsp; "@ + tag_line(note.tags)
            + "</div></div>\n"@ + notes_html(older),
{
    assert(older.push(note).drop_last() =~= older);
    if note.tags.len() == 0 {
        assert(notes_html(older.push(note)) =~= "<div class=\"note\">\n"@ + note.html
            + "<div class=\"noteMetadata\">\n"@ + "<time datetime=\""@ + note.timestamp + "\">"@
            + note.timestamp + "</time>"@ + "</div></div>\n"@ + notes_html(older));
    } else {
        assert(notes_html(older.push(note)) =~= "<div class=\"note\">\n"@ + note.html
            + "<div class=\"noteMetadata\">\n"@ + "<time datetime=\""@ + note.timestamp + "\">"@
            + note.timestamp + "</time>"@ + " &nbsp; "@ + tag_line(note.tags) + "</div></div>\n"@
            + notes_html(older));
    }
}

/// Each tag of a note stands in its row, in order, with a `#` before it and a
/// space between two of them.
pub proof fn law_tag_line(tags: Seq<Seq<char>>, tag: Seq<char>)
    ensures
        tag_line(Seq::<Seq<char>>::empty()) == Seq::<char>::empty(),
        tags.len() == 0 ==> tag_line(tags.push(tag)) == "#"@ + tag,
        tags.len() > 0 ==> tag_line(tags.push(tag)) == tag_line(tags) + " #"@ + tag,
{
    reveal_strlit(" ");
    reveal_strlit("#");
    reveal_strlit(" #");
    assert(tags.push(tag).drop_last() =~= tags);
    assert(" "@ + "#"@ =~= " #"@);
    if tags.len() > 0 {
        assert(tag_line(tags.push(tag)) =~= tag_line(tags) + (" "@ + "#"@) + tag);
    }
}

} // verus!
