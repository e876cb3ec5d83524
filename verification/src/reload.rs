//! What comes back when the notes are written to their file and read again.
use crate::clock::{clock_text, digit};
use crate::draft::{local_copy, stored_content};
use crate::markdown::markdown_html;
use crate::note::{
    block, entry, note_blocks, note_of, notes_file, parsed_block, read_from, read_from_file,
    separator, NoteView,
};
use crate::pod::{failed_content, rewritten_pieces, ruled_off};
use crate::rules::{
    law_stored_content_has_no_rule, lemma_join, lemma_no_dash, lemma_replace, lemma_rule_at,
    no_rule,
};
use crate::tags::tags_of;
use crate::text::{
    blank, ends_with, find, lemma_filter_all, lemma_find_from, lemma_find_is, lemma_occurs_in_part,
    lemma_split_pieces, lemma_trim_none, lemma_trim_not_blank, lemma_trim_part, lemma_trim_twice,
    lemma_words_trim, matches_at, occurs, split, trim,
};
use crate::unicode::white_space;
use vstd::prelude::*;

verus! {

/// The file keeps a note apart from its neighbours: its time is on one line,
/// the first separator in its entry is the one that ends it, and it is not
/// blank.
pub open spec fn storable(note: NoteView) -> bool {
    &&& !note.timestamp.contains('\n')
    &&& find(entry(note), separator()) == Some(block(note).len() as int)
    &&& !blank(block(note))
}

/// What is read back of a note: the time and the text without the white space
/// around them, rendered again.
pub open spec fn reloaded(note: NoteView) -> NoteView {
    note_of(trim(note.timestamp), trim(note.content))
}

/// A note as this program writes it: its time is from the clock, and its text
/// holds no `---`.
pub open spec fn kept(note: NoteView) -> bool {
    &&& clock_text(note.timestamp)
    &&& no_rule(note.content)
}

/// The file of notes begins with the entry of the first.
proof fn lemma_file_front(notes: Seq<NoteView>)
    requires
        notes.len() > 0,
    ensures
        notes_file(notes) == entry(notes[0]) + notes_file(notes.skip(1)),
    decreases notes.len(),
{
    let rest = notes.skip(1);
    if notes.len() == 1 {
        assert(notes.drop_last() =~= Seq::<NoteView>::empty());
        assert(notes_file(notes.drop_last()) =~= Seq::<char>::empty());
        assert(notes_file(rest) =~= Seq::<char>::empty());
        assert(notes_file(notes) =~= entry(notes[0]) + notes_file(rest));
    } else {
        lemma_file_front(notes.drop_last());
        assert(notes.drop_last().skip(1) =~= rest.drop_last());
        assert(notes_file(notes) =~= entry(notes[0]) + notes_file(rest));
    }
}

/// The blocks of some notes.
pub open spec fn blocks(notes: Seq<NoteView>) -> Seq<Seq<char>> {
    notes.map_values(|n: NoteView| block(n))
}

/// Cutting a file that begins with the entries of some notes gives the blocks of
/// the notes first, and then what cutting the rest gives.
proof fn lemma_split_entries(notes: Seq<NoteView>, rest: Seq<char>)
    requires
        forall|i: int| 0 <= i < notes.len() ==> storable(#[trigger] notes[i]),
    ensures
        split(notes_file(notes) + rest, separator()) == blocks(notes) + split(rest, separator()),
    decreases notes.len(),
{
    reveal_strlit("\n\n---\n\n");
    let file = notes_file(notes) + rest;
    let sep = separator();
    if notes.len() == 0 {
        assert(file =~= rest);
        assert(split(file, sep) =~= blocks(notes) + split(rest, sep));
    } else {
        let first = notes[0];
        let others = notes.skip(1);
        let head = entry(first);
        let n = block(first).len() as int;
        lemma_file_front(notes);
        assert(storable(first));
        lemma_find_from(head, sep, 0);
        assert forall|j: int| 0 <= j < n implies !#[trigger] matches_at(file, sep, j) by {
            assert(file.subrange(j, j + sep.len()) =~= head.subrange(j, j + sep.len()));
            assert(!matches_at(head, sep, j));
        }
        assert(file.subrange(n, n + sep.len()) =~= sep);
        lemma_find_is(file, sep, n);
        assert(file.take(n) =~= block(first));
        assert(file.skip(n + sep.len()) =~= notes_file(others) + rest);
        assert forall|i: int| 0 <= i < others.len() implies storable(#[trigger] others[i]) by {
            assert(others[i] == notes[i + 1]);
        }
        lemma_split_entries(others, rest);
        assert(split(file, sep) =~= blocks(notes) + split(rest, sep));
    }
}

/// The blocks of a file that begins with the entries of some notes are the
/// blocks of the notes, and then those of the rest.
proof fn lemma_blocks_of_entries(notes: Seq<NoteView>, rest: Seq<char>)
    requires
        forall|i: int| 0 <= i < notes.len() ==> storable(#[trigger] notes[i]),
    ensures
        note_blocks(notes_file(notes) + rest) == blocks(notes) + note_blocks(rest),
{
    let keep = |b: Seq<char>| !blank(b);
    lemma_split_entries(notes, rest);
    assert forall|i: int| 0 <= i < notes.len() implies keep(#[trigger] blocks(notes)[i]) by {
        assert(storable(notes[i]));
    }
    lemma_filter_all(blocks(notes), keep);
    Seq::filter_distributes_over_add(blocks(notes), split(rest, separator()), keep);
}

/// The blocks that are read from the file of some notes are their blocks.
proof fn lemma_note_blocks(notes: Seq<NoteView>)
    requires
        forall|i: int| 0 <= i < notes.len() ==> storable(#[trigger] notes[i]),
    ensures
        note_blocks(notes_file(notes)) == blocks(notes),
{
    let none = Seq::<char>::empty();
    let keep = |b: Seq<char>| !blank(b);
    lemma_blocks_of_entries(notes, none);
    reveal_strlit("\n\n---\n\n");
    lemma_find_from(none, separator(), 0);
    assert(notes_file(notes) + none =~= notes_file(notes));
    assert(split(none, separator()) =~= seq![none]);
    assert(seq![none].drop_last() =~= Seq::<Seq<char>>::empty());
    reveal_with_fuel(Seq::filter, 2);
    assert(note_blocks(none) =~= Seq::<Seq<char>>::empty());
    assert(blocks(notes) + note_blocks(none) =~= blocks(notes));
}

/// A block whose time is on one line is read back as its time and its text.
proof fn lemma_parsed_block(note: NoteView, now: Seq<char>)
    requires
        !note.timestamp.contains('\n'),
    ensures
        find(block(note), "\n"@) == Some(note.timestamp.len() as int),
        parsed_block(block(note), now) == (trim(note.timestamp), trim(note.content)),
{
    reveal_strlit("\n");
    let b = block(note);
    let n = note.timestamp.len() as int;
    assert(b.subrange(n, n + 1) =~= "\n"@);
    assert forall|j: int| 0 <= j < n implies !#[trigger] matches_at(b, "\n"@, j) by {
        assert(b.subrange(j, j + 1)[0] == note.timestamp[j]);
    }
    lemma_find_is(b, "\n"@, n);
    assert(b.take(n) =~= note.timestamp);
    assert(b.skip(n + 1) =~= note.content);
}

/// Writing notes to their file and reading it gives them back: as many, in the
/// same order, each with its time and its text, but for the white space around
/// the two.
pub proof fn law_reload(notes: Seq<NoteView>, again: Seq<NoteView>)
    requires
        forall|i: int| 0 <= i < notes.len() ==> storable(#[trigger] notes[i]),
        read_from_file(notes_file(notes), again),
    ensures
        again == notes.map_values(|n: NoteView| reloaded(n)),
{
    lemma_note_blocks(notes);
    assert forall|i: int| 0 <= i < again.len() implies #[trigger] again[i] == reloaded(
        notes[i],
    ) by {
        assert(storable(notes[i]));
        lemma_parsed_block(notes[i], again[i].timestamp);
        assert(read_from(blocks(notes)[i], again[i]));
    }
    assert(again =~= notes.map_values(|n: NoteView| reloaded(n)));
}

/// A file that begins with the entries of some notes is read as those notes, and
/// then as what is read from the rest of it.
pub proof fn law_entries_then_text(
    notes: Seq<NoteView>,
    rest: Seq<char>,
    again: Seq<NoteView>,
)
    requires
        forall|i: int| 0 <= i < notes.len() ==> storable(#[trigger] notes[i]),
        read_from_file(notes_file(notes) + rest, again),
    ensures
        note_blocks(notes_file(notes) + rest) == blocks(notes) + note_blocks(rest),
        again.len() == notes.len() + note_blocks(rest).len(),
        again.take(notes.len() as int) == notes.map_values(|n: NoteView| reloaded(n)),
        read_from_file(rest, again.skip(notes.len() as int)),
{
    let n = notes.len() as int;
    let file = notes_file(notes) + rest;
    lemma_blocks_of_entries(notes, rest);
    let front = again.take(n);
    assert forall|i: int| 0 <= i < n implies #[trigger] front[i] == reloaded(notes[i]) by {
        assert(storable(notes[i]));
        lemma_parsed_block(notes[i], again[i].timestamp);
        assert(note_blocks(file)[i] == block(notes[i]));
        assert(read_from(note_blocks(file)[i], again[i]));
    }
    assert(front =~= notes.map_values(|n: NoteView| reloaded(n)));
    let back = again.skip(n);
    assert forall|i: int| 0 <= i < back.len() implies read_from(
        note_blocks(rest)[i],
        #[trigger] back[i],
    ) by {
        assert(note_blocks(file)[n + i] == note_blocks(rest)[i]);
        assert(read_from(note_blocks(file)[n + i], again[n + i]));
    }
}

/// A note that was read back once comes back as it is from then on.
pub proof fn law_reload_settles(note: NoteView)
    ensures
        reloaded(reloaded(note)) == reloaded(note),
{
    lemma_trim_twice(note.timestamp);
    lemma_trim_twice(note.content);
}

/// A note keeps its tags when it is read back.
pub proof fn law_reload_keeps_tags(note: NoteView)
    ensures
        reloaded(note).tags == tags_of(note.content),
{
    lemma_words_trim(note.content);
}

/// The time from the clock has no white space at its ends, no line break and no
/// `---` in it.
proof fn lemma_clock_text(t: Seq<char>)
    requires
        clock_text(t),
    ensures
        t.len() > 0,
        !t.contains('\n'),
        !white_space(t[0]),
        !white_space(t.last()),
        no_rule(t),
{
    let y = t.len() - 15;
    assert forall|i: int| 0 <= i < t.len() implies t[i] != '\n' by {
        if i >= y {
            assert(i == y || i == y + 1 || i == y + 2 || i == y + 3 || i == y + 4 || i == y + 5 || i
                == y + 6 || i == y + 7 || i == y + 8 || i == y + 9 || i == y + 10 || i == y + 11
                || i == y + 12 || i == y + 13 || i == y + 14);
        }
    }
    assert forall|p: int| !matches_at(t, "---"@, p) by {
        lemma_rule_at(t, p);
        if 0 <= p && p + 3 <= t.len() {
            if p + 1 < y {
                assert(digit(t[p + 1]));
            } else {
                assert(p + 1 == y || p == y || p == y + 1 || p == y + 2 || p == y + 3 || p == y + 4
                    || p == y + 5 || p == y + 6 || p == y + 7 || p == y + 8 || p == y + 9 || p == y
                    + 10 || p == y + 11 || p == y + 12);
            }
        }
    }
}

/// The file keeps apart each note that this program writes, and reads back its
/// time unchanged.
pub proof fn law_kept_note_is_storable(note: NoteView)
    requires
        kept(note),
    ensures
        storable(note),
        reloaded(note).timestamp == note.timestamp,
{
    reveal_strlit("\n\n---\n\n");
    reveal_strlit("\n");
    let t = note.timestamp;
    let b = block(note);
    let e = entry(note);
    let sep = separator();
    let n = b.len() as int;
    lemma_clock_text(t);
    lemma_trim_none(t);
    assert(b[0] == t[0]);
    assert(!"\n"@.contains('-'));
    lemma_no_dash("\n"@);
    lemma_join(t, "\n"@, note.content);
    assert(e.subrange(n, n + 7) =~= sep);
    assert forall|j: int| 0 <= j < n implies !#[trigger] matches_at(e, sep, j) by {
        if matches_at(e, sep, j) {
            let m = e.subrange(j, j + 7);
            assert(m[2] == e[j + 2] && m[3] == e[j + 3] && m[4] == e[j + 4]);
            if j + 5 <= n {
                lemma_rule_at(b, j + 2);
                assert(e[j + 2] == b[j + 2] && e[j + 3] == b[j + 3] && e[j + 4] == b[j + 4]);
            } else {
                assert(e[n] == sep[0] && e[n + 1] == sep[1]);
                assert(j + 2 == n + 1 || j + 2 == n || j + 3 == n || j + 4 == n);
            }
        }
    }
    lemma_find_is(e, sep, n);
}

/// A note that is saved is kept so that it can be read back, whatever was
/// written in it.
pub proof fn law_saved_note_is_kept(timestamp: Seq<char>, content: Seq<char>)
    requires
        clock_text(timestamp),
    ensures
        kept(note_of(timestamp, stored_content(content))),
{
    law_stored_content_has_no_rule(content);
}

/// A download that fails leaves the note in memory such that writing all notes
/// gives a file that is read back.
pub proof fn law_failed_download_is_kept(note: NoteView, path: Seq<char>, html: Seq<char>)
    requires
        kept(note),
    ensures
        kept((NoteView { content: failed_content(note.content, path), html, ..note })),
{
    reveal_strlit("(local copy failed)");
    let with = "(local copy failed)"@;
    assert(!with.contains('-'));
    lemma_no_dash(with);
    lemma_replace(note.content, local_copy(path), with);
}

/// Every note is as this program writes it.
pub open spec fn all_kept(notes: Seq<NoteView>) -> bool {
    forall|i: int| 0 <= i < notes.len() ==> kept(#[trigger] notes[i])
}

/// Saving a note keeps every note in memory such that writing all notes gives a
/// file that is read back.
pub proof fn law_save_keeps_notes(
    notes: Seq<NoteView>,
    timestamp: Seq<char>,
    content: Seq<char>,
)
    requires
        all_kept(notes),
        clock_text(timestamp),
    ensures
        all_kept(notes.push(note_of(timestamp, stored_content(content)))),
{
    law_saved_note_is_kept(timestamp, content);
}

/// Removing a note keeps every other in memory such that writing all notes gives
/// a file that is read back.
pub proof fn law_delete_keeps_notes(notes: Seq<NoteView>, index: int)
    requires
        all_kept(notes),
        0 <= index < notes.len(),
    ensures
        all_kept(notes.remove(index)),
{
}

/// A download that fails keeps every note in memory such that writing all notes
/// gives a file that is read back.
pub proof fn law_failed_download_keeps_notes(notes: Seq<NoteView>, path: Seq<char>)
    requires
        all_kept(notes),
        notes.len() > 0,
    ensures
        all_kept(
            notes.update(
                notes.len() - 1,
                (NoteView {
                    content: failed_content(notes.last().content, path),
                    html: markdown_html(failed_content(notes.last().content, path)),
                    ..notes.last()
                }),
            ),
        ),
{
    assert(kept(notes.last()));
    law_failed_download_is_kept(
        notes.last(),
        path,
        markdown_html(failed_content(notes.last().content, path)),
    );
}

/// The pieces of the file of some notes between its rules. `lead` is what
/// stands before the first note.
spec fn ruled_pieces(lead: Seq<char>, notes: Seq<NoteView>) -> Seq<Seq<char>>
    decreases notes.len(),
{
    if notes.len() == 0 {
        seq![lead]
    } else {
        seq![lead + block(notes[0]) + "\n"@] + ruled_pieces("\n"@, notes.skip(1))
    }
}

/// What the pieces are, by their places.
proof fn lemma_ruled_pieces(lead: Seq<char>, notes: Seq<NoteView>)
    ensures
        ruled_pieces(lead, notes).len() == notes.len() + 1,
        forall|i: int|
            0 <= i < notes.len() ==> #[trigger] ruled_pieces(lead, notes)[i] == (if i == 0 {
                lead
            } else {
                "\n"@
            }) + block(notes[i]) + "\n"@,
    decreases notes.len(),
{
    if notes.len() > 0 {
        let rest = notes.skip(1);
        lemma_ruled_pieces("\n"@, rest);
        assert forall|i: int| 0 <= i < notes.len() implies #[trigger] ruled_pieces(lead, notes)[i]
            == (if i == 0 {
            lead
        } else {
            "\n"@
        }) + block(notes[i]) + "\n"@ by {
            if i > 0 {
                assert(ruled_pieces(lead, notes)[i] == ruled_pieces("\n"@, rest)[i - 1]);
                assert(rest[i - 1] == notes[i]);
            }
        }
    }
}

/// Cutting the file of some notes at its rules gives those pieces.
proof fn lemma_split_at_rules(lead: Seq<char>, notes: Seq<NoteView>)
    requires
        all_kept(notes),
        lead == seq!['\n'] || lead.len() == 0,
    ensures
        split(lead + notes_file(notes), "\n---\n"@) == ruled_pieces(lead, notes),
    decreases notes.len(),
{
    reveal_strlit("\n---\n");
    reveal_strlit("\n\n---\n\n");
    reveal_strlit("\n");
    let rule = "\n---\n"@;
    let file = lead + notes_file(notes);
    if notes.len() == 0 {
        lemma_find_from(file, rule, 0);
        assert(file =~= lead);
    } else {
        let first = notes[0];
        let rest = notes.skip(1);
        let text = lead + block(first);
        let n = text.len() as int;
        let next = "\n"@ + notes_file(rest);
        assert(kept(first));
        lemma_clock_text(first.timestamp);
        lemma_no_dash("\n"@);
        lemma_join(first.timestamp, "\n"@, first.content);
        lemma_file_front(notes);
        assert(file =~= text + "\n"@ + rule + next);
        assert forall|j: int| 0 <= j < n + 1 implies !#[trigger] matches_at(file, rule, j) by {
            if matches_at(file, rule, j) {
                let m = file.subrange(j, j + 5);
                assert(m[1] == file[j + 1] && m[2] == file[j + 2] && m[3] == file[j + 3]);
                assert(file[n] == '\n' && file[n + 1] == '\n');
                if j + 4 <= n {
                    let b = block(first);
                    let k = j + 1 - lead.len();
                    lemma_rule_at(b, k);
                    assert(lead.len() > 0 ==> file[0] == lead[0]);
                    assert(file[j + 1] == b[k] && file[j + 2] == b[k + 1] && file[j + 3] == b[k
                        + 2]);
                } else {
                    assert(j + 1 == n + 1 || j + 1 == n || j + 2 == n || j + 3 == n);
                }
            }
        }
        assert(file.subrange(n + 1, n + 6) =~= rule);
        lemma_find_is(file, rule, n + 1);
        assert(file.take(n + 1) =~= text + "\n"@);
        assert(file.skip(n + 6) =~= next);
        assert forall|i: int| 0 <= i < rest.len() implies kept(#[trigger] rest[i]) by {
            assert(rest[i] == notes[i + 1]);
        }
        assert("\n"@ =~= seq!['\n']);
        lemma_split_at_rules("\n"@, rest);
    }
}

/// Rewriting the last note in the file of all notes replaces the piece that
/// holds that note, and no other.
pub proof fn law_rewrite_hits_last_note(
    notes: Seq<NoteView>,
    timestamp: Seq<char>,
    content: Seq<char>,
)
    requires
        all_kept(notes),
        notes.len() > 0,
    ensures
        split(notes_file(notes), "\n---\n"@).len() == notes.len() + 1,
        split(notes_file(notes), "\n---\n"@)[notes.len() - 1] == (if notes.len() == 1 {
            seq![]
        } else {
            "\n"@
        }) + block(notes.last()) + "\n"@,
        rewritten_pieces(notes_file(notes), notes.len() as int, timestamp, content) == split(
            notes_file(notes),
            "\n---\n"@,
        ).update(notes.len() - 1, timestamp + "\n"@ + content),
{
    let none = Seq::<char>::empty();
    lemma_split_at_rules(none, notes);
    lemma_ruled_pieces(none, notes);
    assert(none + notes_file(notes) =~= notes_file(notes));
    let pieces = split(notes_file(notes), "\n---\n"@);
    assert(pieces[notes.len() - 1] == ruled_pieces(none, notes)[notes.len() - 1]);
    assert(rewritten_pieces(notes_file(notes), notes.len() as int, timestamp, content)
        =~= pieces.update(notes.len() - 1, timestamp + "\n"@ + content));
}

/// The rules cut a file into pieces; set off again, those up to the one of a note
/// are the entries before it, the note, and a separator without its last line
/// break.
proof fn lemma_ruled_off(notes: Seq<NoteView>, k: int)
    requires
        1 <= k <= notes.len(),
    ensures
        ruled_off(ruled_pieces(seq![], notes).take(k)) == notes_file(notes.take(k - 1)) + block(
            notes[k - 1],
        ) + "\n\n---\n"@,
    decreases k,
{
    reveal_strlit("\n");
    reveal_strlit("\n---\n");
    reveal_strlit("\n\n---\n");
    reveal_strlit("\n\n---\n\n");
    let none = Seq::<char>::empty();
    let all = ruled_pieces(none, notes);
    lemma_ruled_pieces(none, notes);
    let pieces = all.take(k);
    assert(pieces.drop_last() =~= all.take(k - 1));
    assert(pieces.last() == all[k - 1]);
    assert("\n"@ + "\n---\n"@ =~= "\n\n---\n"@);
    if k == 1 {
        assert(ruled_off(all.take(0)) =~= none);
        assert(notes_file(notes.take(0)) =~= none);
        assert(ruled_off(pieces) =~= notes_file(notes.take(0)) + block(notes[0])
            + "\n\n---\n"@);
    } else {
        lemma_ruled_off(notes, k - 1);
        assert(notes.take(k - 1).drop_last() =~= notes.take(k - 2));
        assert("\n\n---\n"@ + "\n"@ =~= separator());
        assert(ruled_off(pieces) =~= notes_file(notes.take(k - 2)) + (block(notes[k - 2]) + (
        "\n\n---\n"@ + "\n"@)) + block(notes[k - 1]) + ("\n"@ + "\n---\n"@));
        assert(ruled_off(pieces) =~= notes_file(notes.take(k - 1)) + block(notes[k - 1])
            + "\n\n---\n"@);
    }
}

/// What stands behind a note that was rewritten.
spec fn rewritten_end() -> Seq<char> {
    "\n---\n"@ + "\n"@ + "\n---\n"@
}

/// What stands before a note that was rewritten: nothing, or the note before it
/// and a separator without its last line break.
spec fn rewritten_lead(lead: Seq<char>, before: Seq<char>) -> bool {
    lead.len() == 0 || (no_rule(before) && lead == before + "\n\n---\n"@)
}

/// The blocks of the end of a file whose last note was rewritten: one, and one
/// more where the text of that note is empty or ends with a line break.
proof fn lemma_rewritten_blocks(
    lead: Seq<char>,
    before: Seq<char>,
    timestamp: Seq<char>,
    content: Seq<char>,
)
    requires
        rewritten_lead(lead, before),
        clock_text(timestamp),
        no_rule(content),
    ensures
        note_blocks(lead + (timestamp + "\n"@ + content) + rewritten_end()).len() == if (
        timestamp + "\n"@ + content).last() == '\n' {
            2nat
        } else {
            1nat
        },
{
    reveal_strlit("\n");
    reveal_strlit("\n---\n");
    reveal_strlit("\n\n---\n");
    reveal_strlit("\n\n---\n\n");
    let d = timestamp + "\n"@ + content;
    let x = lead + d + rewritten_end();
    let sep = separator();
    let b = before.len() as int;
    let l = lead.len() as int;
    let w = l + d.len();
    let keep = |p: Seq<char>| !blank(p);
    lemma_clock_text(timestamp);
    assert(!"\n"@.contains('-'));
    lemma_no_dash("\n"@);
    lemma_join(timestamp, "\n"@, content);
    assert(d[0] == timestamp[0]);
    assert(x[l] == d[0]);
    assert(x[w - 1] == d.last());
    assert(x.len() == w + 11);
    assert(x[w] == '\n' && x[w + 1] == '-' && x[w + 2] == '-' && x[w + 3] == '-' && x[w + 4]
        == '\n' && x[w + 5] == '\n' && x[w + 6] == '\n' && x[w + 7] == '-' && x[w + 8] == '-' && x[w
        + 9] == '-' && x[w + 10] == '\n');
    if l > 0 {
        assert(x[b] == '\n' && x[b + 1] == '\n' && x[b + 5] == '\n' && b + 6 == l);
    }
    assert forall|j: int| #[trigger] matches_at(x, sep, j) implies j == w - 1 && d.last()
        == '\n' by {
        lemma_separator_at(x, j);
        if j + 2 < l {
            if j + 5 <= b {
                lemma_rule_at(before, j + 2);
                assert(x[j + 2] == before[j + 2] && x[j + 3] == before[j + 3] && x[j + 4]
                    == before[j + 4]);
            } else {
                assert(j == b - 4 || j == b - 3 || j == b - 2 || j == b - 1 || j == b || j == b + 1
                    || j == b + 2 || j == b + 3);
            }
        } else if j + 5 <= w {
            lemma_rule_at(d, j + 2 - l);
            assert(x[j + 2] == d[j + 2 - l] && x[j + 3] == d[j + 3 - l] && x[j + 4] == d[j + 4
                - l]);
        } else {
            assert(j == w - 4 || j == w - 3 || j == w - 2 || j == w - 1 || j == w || j == w + 1 || j
                == w + 2 || j == w + 3 || j == w + 4);
        }
    }
    lemma_find_from(x, sep, 0);
    assert(seq![x].drop_last() =~= Seq::<Seq<char>>::empty());
    if d.last() == '\n' {
        assert(x.subrange(w - 1, w + 6) =~= sep);
        assert(matches_at(x, sep, w - 1));
        let head = x.take(w - 1);
        let tail = x.skip(w + 6);
        assert(find(x, sep) == Some(w - 1));
        lemma_find_from(tail, sep, 0);
        assert(split(tail, sep) =~= seq![tail]);
        assert(split(x, sep) =~= seq![head, tail]);
        assert(head[l] == timestamp[0]);
        assert(tail[1] == '-');
        assert(keep(head) && keep(tail));
        lemma_filter_all(seq![head, tail], keep);
    } else {
        assert(split(x, sep) =~= seq![x]);
        assert(keep(x));
        lemma_filter_all(seq![x], keep);
    }
}

/// The file whose last note was rewritten: the pieces before that note as they
/// were, the note, and an end.
proof fn lemma_rewritten_text(notes: Seq<NoteView>, timestamp: Seq<char>, content: Seq<char>)
    requires
        all_kept(notes),
        notes.len() > 0,
    ensures
        ruled_off(rewritten_pieces(notes_file(notes), notes.len() as int, timestamp, content))
            == ruled_off(ruled_pieces(seq![], notes).take(notes.len() - 1)) + (timestamp + "\n"@
            + content) + rewritten_end(),
{
    let none = Seq::<char>::empty();
    let n = notes.len() as int;
    let d = timestamp + "\n"@ + content;
    let all = ruled_pieces(none, notes);
    let pieces = rewritten_pieces(notes_file(notes), n, timestamp, content);
    lemma_split_at_rules(none, notes);
    lemma_ruled_pieces(none, notes);
    lemma_last_ruled_piece(none, notes);
    assert(none + notes_file(notes) =~= notes_file(notes));
    let most = pieces.drop_last();
    assert(pieces.last() == "\n"@);
    assert(most.last() == d);
    assert(most.drop_last() =~= all.take(n - 1));
    let front = ruled_off(all.take(n - 1));
    let rule = "\n---\n"@;
    assert(ruled_off(most) == front + d + rule);
    assert(ruled_off(pieces) == ruled_off(most) + "\n"@ + rule);
    assert(front + d + rule + "\n"@ + rule =~= front + d + (rule + "\n"@ + rule));
}

/// What is read from a file whose last note was rewritten after a failed
/// download. The note before the rewritten one and the rewritten one are read as
/// one note, and those before them as they were. Where the new text is empty or
/// ends with a line break, what stands behind it is read as one more note.
pub proof fn law_rewritten_file(
    notes: Seq<NoteView>,
    timestamp: Seq<char>,
    content: Seq<char>,
    again: Seq<NoteView>,
)
    requires
        all_kept(notes),
        notes.len() > 0,
        clock_text(timestamp),
        no_rule(content),
        read_from_file(
            ruled_off(rewritten_pieces(notes_file(notes), notes.len() as int, timestamp, content)),
            again,
        ),
    ensures
        again.len() == (if notes.len() > 1 {
            notes.len() - 1
        } else {
            1
        }) + (if content.len() == 0 || content.last() == '\n' {
            1int
        } else {
            0
        }),
        forall|i: int| 0 <= i < notes.len() - 2 ==> #[trigger] again[i] == reloaded(notes[i]),
{
    reveal_strlit("\n");
    let none = Seq::<char>::empty();
    let n = notes.len() as int;
    let d = timestamp + "\n"@ + content;
    let all = ruled_pieces(none, notes);
    let file = ruled_off(rewritten_pieces(notes_file(notes), n, timestamp, content));
    let front = ruled_off(all.take(n - 1));
    lemma_rewritten_text(notes, timestamp, content);
    assert(content.len() > 0 ==> d.last() == content.last());
    assert(content.len() == 0 ==> d.last() == '\n');
    assert forall|i: int| 0 <= i < notes.len() implies storable(#[trigger] notes[i]) by {
        assert(kept(notes[i]));
        law_kept_note_is_storable(notes[i]);
    }
    if n == 1 {
        assert(front =~= none);
        lemma_rewritten_blocks(none, none, timestamp, content);
    } else {
        let before = block(notes[n - 2]);
        let lead = before + "\n\n---\n"@;
        let rest = lead + d + rewritten_end();
        let whole = notes.take(n - 2);
        lemma_ruled_off(notes, n - 1);
        assert(kept(notes[n - 2]));
        lemma_clock_text(notes[n - 2].timestamp);
        assert(!"\n"@.contains('-'));
        lemma_no_dash("\n"@);
        lemma_join(notes[n - 2].timestamp, "\n"@, notes[n - 2].content);
        lemma_rewritten_blocks(lead, before, timestamp, content);
        assert(file =~= notes_file(whole) + rest);
        lemma_blocks_of_entries(whole, rest);
        assert forall|i: int| 0 <= i < n - 2 implies #[trigger] again[i] == reloaded(notes[i]) by {
            assert(note_blocks(file)[i] == block(notes[i]));
            assert(storable(notes[i]));
            lemma_parsed_block(notes[i], again[i].timestamp);
            assert(read_from(note_blocks(file)[i], again[i]));
        }
    }
}

/// The last piece is a line break, or what stands before the first note where
/// there is none.
proof fn lemma_last_ruled_piece(lead: Seq<char>, notes: Seq<NoteView>)
    ensures
        ruled_pieces(lead, notes).last() == if notes.len() == 0 {
            lead
        } else {
            "\n"@
        },
    decreases notes.len(),
{
    if notes.len() > 0 {
        lemma_last_ruled_piece("\n"@, notes.skip(1));
        lemma_ruled_pieces("\n"@, notes.skip(1));
    }
}

/// Removing the note that was saved last gives back the notes from before, and
/// so their file.
pub proof fn law_delete_undoes_save(notes: Seq<NoteView>, note: NoteView)
    ensures
        notes.push(note).remove(notes.len() as int) == notes,
        notes_file(notes.push(note).remove(notes.len() as int)) == notes_file(notes),
{
    assert(notes.push(note).remove(notes.len() as int) =~= notes);
}

/// Appending the entry of a note to the file of some notes gives the file of
/// all of them.
pub proof fn law_append(notes: Seq<NoteView>, note: NoteView)
    ensures
        notes_file(notes.push(note)) == notes_file(notes) + entry(note),
{
    assert(notes.push(note).drop_last() =~= notes);
}

/// The characters of a text where the separator stands in it.
proof fn lemma_separator_at(e: Seq<char>, j: int)
    requires
        matches_at(e, separator(), j),
    ensures
        separator().len() == 7,
        e[j] == '\n',
        e[j + 1] == '\n',
        e[j + 2] == '-',
        e[j + 3] == '-',
        e[j + 4] == '-',
        e[j + 5] == '\n',
        e[j + 6] == '\n',
{
    reveal_strlit("\n\n---\n\n");
    let m = e.subrange(j, j + 7);
    assert(m[0] == e[j] && m[1] == e[j + 1] && m[2] == e[j + 2] && m[3] == e[j + 3] && m[4] == e[j
        + 4] && m[5] == e[j + 5] && m[6] == e[j + 6]);
}

/// A note is storable if its time holds no line break, and its text holds no
/// separator, does not begin or end with a line break and does not end as a
/// separator begins.
pub proof fn law_note_is_storable(note: NoteView)
    requires
        !note.timestamp.contains('\n'),
        !occurs(note.content, separator()),
        note.content.len() > 0 ==> note.content[0] != '\n' && note.content.last() != '\n',
        !ends_with(note.content, "\n\n---"@),
        !blank(block(note)),
    ensures
        storable(note),
{
    reveal_strlit("\n\n---\n\n");
    reveal_strlit("\n\n---");
    reveal_strlit("\n");
    let t = note.timestamp;
    let c = note.content;
    let e = entry(note);
    let sep = separator();
    let n = block(note).len() as int;
    let from = t.len() + 1int;
    assert(e.subrange(n, n + 7) =~= sep);
    assert(matches_at(e, sep, n));
    assert forall|j: int| 0 <= j < n implies !#[trigger] matches_at(e, sep, j) by {
        if matches_at(e, sep, j) {
            lemma_separator_at(e, j);
            lemma_separator_at(e, n);
            if j < t.len() {
                assert(t[j] == e[j]);
                assert(t.contains('\n'));
            } else if j == t.len() {
                if c.len() > 0 {
                    assert(e[j + 1] == c[0]);
                } else {
                    assert(e[j + 2] == e[n + 1]);
                }
            } else if j + 7 <= n {
                assert(c.subrange(j - from, j - from + 7) =~= e.subrange(j, j + 7));
                assert(matches_at(c, sep, j - from));
            } else {
                assert(e[n - 1] == c.last());
                assert(j == n - 6 || j == n - 5 || j == n - 4 || j == n - 3 || j == n - 2 || j == n
                    - 1);
                if j == n - 5 {
                    assert(c.subrange(j - from, j - from + 5) =~= "\n\n---"@);
                }
            }
        }
    }
    lemma_find_is(e, sep, n);
}

/// A note whose text is trimmed and holds no `---` is storable, if its time is on
/// one line and it is not blank.
pub proof fn law_trimmed_note_is_storable(note: NoteView)
    requires
        !note.timestamp.contains('\n'),
        note.content == trim(note.content),
        no_rule(note.content),
        !blank(block(note)),
    ensures
        storable(note),
{
    let c = note.content;
    assert(c.len() > 0 ==> c[0] != '\n' && c.last() != '\n') by {
        lemma_trim_part(c);
    }
    assert(!occurs(c, separator())) by {
        assert forall|j: int| !matches_at(c, separator(), j) by {
            if matches_at(c, separator(), j) {
                lemma_separator_at(c, j);
                lemma_rule_at(c, j + 2);
            }
        }
    }
    assert(!ends_with(c, "\n\n---"@)) by {
        reveal_strlit("\n\n---");
        if ends_with(c, "\n\n---"@) {
            let at = c.len() - 5;
            let end = c.subrange(at, at + 5);
            assert(end[2] == c[at + 2] && end[3] == c[at + 3] && end[4] == c[at + 4]);
            lemma_rule_at(c, at + 2);
        }
    }
    law_note_is_storable(note);
}

/// A note that was read from a file is storable, unless its text ends with an
/// empty line and three dashes.
pub proof fn law_read_note_is_storable(file: Seq<char>, i: int, note: NoteView)
    requires
        0 <= i < note_blocks(file).len(),
        read_from(note_blocks(file)[i], note),
        !ends_with(note.content, "\n\n---"@),
    ensures
        storable(note),
{
    reveal_strlit("\n\n---\n\n");
    reveal_strlit("\n");
    let keep = |b: Seq<char>| !blank(b);
    let pieces = split(file, separator());
    let b = note_blocks(file)[i];
    pieces.lemma_filter_contains_rev(keep, b);
    pieces.lemma_filter_pred(keep, i);
    let k = choose|k: int| 0 <= k < pieces.len() && pieces[k] == b;
    lemma_split_pieces(file, separator(), k);
    lemma_find_from(b, "\n"@, 0);
    match find(b, "\n"@) {
        Some(at) => {
            let head = b.take(at);
            let tail = b.skip(at + 1);
            assert forall|j: int| 0 <= j < head.len() implies head[j] != '\n' by {
                if head[j] == '\n' {
                    assert(b.subrange(j, j + 1) =~= "\n"@);
                    assert(matches_at(b, "\n"@, j));
                }
            }
            lemma_trim_part(head);
            lemma_trim_part(tail);
            let h = choose|h: int| matches_at(head, trim(head), h);
            assert forall|j: int| 0 <= j < note.timestamp.len() implies note.timestamp[j]
                != '\n' by {
                assert(head.subrange(h, h + trim(head).len())[j] == head[h + j]);
            }
            assert(b.subrange(at + 1, at + 1 + tail.len()) =~= tail);
            assert(matches_at(b, tail, at + 1));
            if occurs(note.content, separator()) {
                lemma_occurs_in_part(tail, note.content, separator());
                lemma_occurs_in_part(b, tail, separator());
            }
            let p = choose|p: int| 0 <= p < b.len() && !white_space(#[trigger] b[p]);
            assert(b.subrange(at, at + 1)[0] == b[at]);
            if p < at {
                assert(!white_space(head[p]));
                lemma_trim_not_blank(head);
                assert(block(note)[0] == note.timestamp[0]);
            } else {
                assert(!white_space(tail[p - at - 1]));
                lemma_trim_not_blank(tail);
                assert(block(note)[note.timestamp.len() + 1int] == note.content[0]);
            }
        },
        None => {
            lemma_clock_text(note.timestamp);
            assert(block(note)[0] == note.timestamp[0]);
            assert forall|j: int| 0 <= j < b.len() implies b[j] != '\n' by {
                if b[j] == '\n' {
                    assert(b.subrange(j, j + 1) =~= "\n"@);
                    assert(matches_at(b, "\n"@, j));
                }
            }
        },
    }
    law_note_is_storable(note);
}

/// Reading a file, writing the notes back and reading again changes nothing but
/// the white space around notes that had no time of their own, as long as no
/// text ends with an empty line and three dashes.
pub proof fn law_rewrite_of_read_notes(
    file: Seq<char>,
    notes: Seq<NoteView>,
    again: Seq<NoteView>,
)
    requires
        read_from_file(file, notes),
        forall|i: int|
            0 <= i < notes.len() ==> !ends_with((#[trigger] notes[i]).content, "\n\n---"@),
        read_from_file(notes_file(notes), again),
    ensures
        again == notes.map_values(|n: NoteView| reloaded(n)),
        forall|i: int|
            0 <= i < notes.len() && find(note_blocks(file)[i], "\n"@) is Some ==> #[trigger] again[i]
                == notes[i],
{
    assert forall|i: int| 0 <= i < notes.len() implies storable(#[trigger] notes[i]) by {
        law_read_note_is_storable(file, i, notes[i]);
    }
    law_reload(notes, again);
    assert forall|i: int|
        0 <= i < notes.len() && find(note_blocks(file)[i], "\n"@) is Some implies #[trigger] again[i]
        == notes[i] by {
        let b = note_blocks(file)[i];
        let at = find(b, "\n"@)->Some_0;
        assert(read_from(b, notes[i]));
        lemma_trim_twice(b.take(at));
        lemma_trim_twice(b.skip(at + 1));
        assert(again[i] == reloaded(notes[i]));
    }
}

/// The notes that this program wrote come back from the file of all of them: as
/// many, in the same order, with the same times, the same texts but for the white
/// space around them, and the tags of those texts.
pub proof fn law_restart(notes: Seq<NoteView>, again: Seq<NoteView>)
    requires
        all_kept(notes),
        read_from_file(notes_file(notes), again),
    ensures
        again.len() == notes.len(),
        forall|i: int|
            0 <= i < notes.len() ==> (#[trigger] again[i]).timestamp == notes[i].timestamp
                && again[i].content == trim(notes[i].content) && again[i].tags == tags_of(
                notes[i].content,
            ),
{
    assert forall|i: int| 0 <= i < notes.len() implies storable(#[trigger] notes[i]) by {
        assert(kept(notes[i]));
        law_kept_note_is_storable(notes[i]);
    }
    law_reload(notes, again);
    assert forall|i: int| 0 <= i < notes.len() implies (#[trigger] again[i]).timestamp
        == notes[i].timestamp && again[i].content == trim(notes[i].content) && again[i].tags
        == tags_of(notes[i].content) by {
        law_kept_note_is_storable(notes[i]);
        law_reload_keeps_tags(notes[i]);
        assert(again[i] == reloaded(notes[i]));
    }
}

} // verus!
