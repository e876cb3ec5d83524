//! The file of notes: how it is written, read and rewritten.
use crate::laws::texts::{law_split_at_first, law_split_without_separator};
use crate::note::{
    entry, note_blocks, notes_file, read_from, read_from_file, separator, NoteView,
};
use crate::pod::{rewritten_pieces, ruled_off};
use crate::text::{blank, matches_at, split};
use crate::unicode::white_space;
use vstd::prelude::*;

verus! {

/// The file of some notes and one more is their file, then the time of that note
/// on a line, its text, an empty line, three dashes and an empty line.
pub proof fn law_note_is_written(notes: Seq<NoteView>, note: NoteView)
    ensures
        notes_file(Seq::<NoteView>::empty()) == Seq::<char>::empty(),
        notes_file(notes.push(note)) == notes_file(notes) + note.timestamp + "\n"@ + note.content
            + "\n\n---\n\n"@,
        entry(note) == note.timestamp + "\n"@ + note.content + "\n\n---\n\n"@,
{
    assert(notes.push(note).drop_last() =~= notes);
    assert(notes_file(notes) + (note.timestamp + "\n"@ + note.content + "\n\n---\n\n"@)
        =~= notes_file(notes) + note.timestamp + "\n"@ + note.content + "\n\n---\n\n"@);
}

/// The blocks of a file of which the first piece is `a`.
proof fn lemma_blocks_at_first(a: Seq<char>, rest: Seq<char>)
    requires
        forall|j: int|
            0 <= j < a.len() ==> !#[trigger] matches_at(
                a + "\n\n---\n\n"@ + rest,
                "\n\n---\n\n"@,
                j,
            ),
    ensures
        note_blocks(a + "\n\n---\n\n"@ + rest) == if blank(a) {
            note_blocks(rest)
        } else {
            seq![a] + note_blocks(rest)
        },
{
    reveal_strlit("\n\n---\n\n");
    let keep = |b: Seq<char>| !blank(b);
    let none = Seq::<Seq<char>>::empty();
    law_split_at_first(a, separator(), rest);
    Seq::filter_distributes_over_add(seq![a], split(rest, separator()), keep);
    none.lemma_filter_push(a, keep);
    assert(none.push(a) =~= seq![a]);
    assert(none.filter(keep) =~= none) by {
        reveal(Seq::filter);
    }
    assert(none + note_blocks(rest) =~= note_blocks(rest));
}

/// A file is read from its front: what stands before the first separator gives
/// the first note where it is more than white space, and none where it is not;
/// the rest of the file gives the others, in their order.
pub proof fn law_file_is_read_from_its_front(
    a: Seq<char>,
    rest: Seq<char>,
    notes: Seq<NoteView>,
)
    requires
        forall|j: int|
            0 <= j < a.len() ==> !#[trigger] matches_at(
                a + "\n\n---\n\n"@ + rest,
                "\n\n---\n\n"@,
                j,
            ),
        read_from_file(a + "\n\n---\n\n"@ + rest, notes),
    ensures
        (forall|i: int| 0 <= i < a.len() ==> white_space(#[trigger] a[i])) ==> read_from_file(
            rest,
            notes,
        ),
        (exists|i: int| 0 <= i < a.len() && !white_space(#[trigger] a[i])) ==> notes.len() > 0
            && read_from(a, notes[0]) && read_from_file(rest, notes.skip(1)),
{
    let file = a + "\n\n---\n\n"@ + rest;
    lemma_blocks_at_first(a, rest);
    if blank(a) {
    } else {
        assert(note_blocks(file)[0] == a);
        assert(read_from(note_blocks(file)[0], notes[0]));
        let others = notes.skip(1);
        assert forall|i: int| 0 <= i < others.len() implies read_from(
            note_blocks(rest)[i],
            #[trigger] others[i],
        ) by {
            assert(note_blocks(file)[i + 1] == note_blocks(rest)[i]);
            assert(read_from(note_blocks(file)[i + 1], notes[i + 1]));
        }
    }
}

/// A file without separators gives one note where it is more than white space,
/// and none where it is not.
pub proof fn law_file_of_one_piece(file: Seq<char>, notes: Seq<NoteView>)
    requires
        forall|j: int| !#[trigger] matches_at(file, "\n\n---\n\n"@, j),
        read_from_file(file, notes),
    ensures
        (forall|i: int| 0 <= i < file.len() ==> white_space(#[trigger] file[i])) ==> notes.len()
            == 0,
        (exists|i: int| 0 <= i < file.len() && !white_space(#[trigger] file[i])) ==> notes.len()
            == 1 && read_from(file, notes[0]),
{
    let keep = |b: Seq<char>| !blank(b);
    let none = Seq::<Seq<char>>::empty();
    law_split_without_separator(file, separator());
    none.lemma_filter_push(file, keep);
    assert(none.push(file) =~= seq![file]);
    assert(none.filter(keep) =~= none) by {
        reveal(Seq::filter);
    }
    if !blank(file) {
        assert(note_blocks(file)[0] == file);
        assert(read_from(note_blocks(file)[0], notes[0]));
    }
}

/// A piece that is set off first.
proof fn lemma_ruled_off_first(piece: Seq<char>, pieces: Seq<Seq<char>>)
    ensures
        ruled_off(seq![piece] + pieces) == piece + "\n---\n"@ + ruled_off(pieces),
    decreases pieces.len(),
{
    let all = seq![piece] + pieces;
    if pieces.len() == 0 {
        assert(all.drop_last() =~= Seq::<Seq<char>>::empty());
        assert(all.last() == piece);
        assert(ruled_off(all.drop_last()) =~= Seq::<char>::empty());
        assert(ruled_off(all) =~= piece + "\n---\n"@ + ruled_off(pieces));
    } else {
        assert(all.drop_last() =~= seq![piece] + pieces.drop_last());
        assert(all.last() == pieces.last());
        lemma_ruled_off_first(piece, pieces.drop_last());
        assert(ruled_off(all) =~= piece + "\n---\n"@ + ruled_off(pieces));
    }
}

/// Rewriting goes piece by piece: the first piece of the file is kept, or is
/// replaced where it is the one that is counted to, and the rest is rewritten
/// with one less to count. Each piece is set off by a rule again.
pub proof fn law_rewriting_goes_by_pieces(
    a: Seq<char>,
    rest: Seq<char>,
    count: int,
    timestamp: Seq<char>,
    content: Seq<char>,
)
    requires
        forall|j: int|
            0 <= j < a.len() ==> !#[trigger] matches_at(a + "\n---\n"@ + rest, "\n---\n"@, j),
    ensures
        ruled_off(rewritten_pieces(a + "\n---\n"@ + rest, count, timestamp, content)) == (if count
            == 1 {
            timestamp + "\n"@ + content
        } else {
            a
        }) + "\n---\n"@ + ruled_off(rewritten_pieces(rest, count - 1, timestamp, content)),
{
    reveal_strlit("\n---\n");
    law_split_at_first(a, "\n---\n"@, rest);
    let first = if count == 1 {
        timestamp + "\n"@ + content
    } else {
        a
    };
    let others = rewritten_pieces(rest, count - 1, timestamp, content);
    assert(rewritten_pieces(a + "\n---\n"@ + rest, count, timestamp, content) =~= seq![first]
        + others);
    lemma_ruled_off_first(first, others);
}

/// A file without rules is one piece, which is kept, or replaced where it is the
/// one that is counted to.
pub proof fn law_rewriting_ends_with_last_piece(
    file: Seq<char>,
    count: int,
    timestamp: Seq<char>,
    content: Seq<char>,
)
    requires
        forall|j: int| !#[trigger] matches_at(file, "\n---\n"@, j),
    ensures
        ruled_off(rewritten_pieces(file, count, timestamp, content)) == (if count == 1 {
            timestamp + "\n"@ + content
        } else {
            file
        }) + "\n---\n"@,
{
    law_split_without_separator(file, "\n---\n"@);
    let first = if count == 1 {
        timestamp + "\n"@ + content
    } else {
        file
    };
    let none = Seq::<Seq<char>>::empty();
    assert(rewritten_pieces(file, count, timestamp, content) =~= seq![first] + none);
    lemma_ruled_off_first(first, none);
    assert(first + "\n---\n"@ + ruled_off(none) =~= first + "\n---\n"@);
}

} // verus!
