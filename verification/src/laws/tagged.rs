//! Which tags a text has.
use crate::laws::texts::law_trim_takes_off_ends;
use crate::tags::{
    is_hash, is_punctuation, law_tags_of_joined_texts, lemma_filter_map_has, tag_of, tags_of,
};
use crate::text::{
    lemma_trim_start, lemma_words_blank, lemma_words_one, trim_if, trim_start_if, words,
};
use crate::unicode::{
    alphanumeric, ascii, ascii_alphanumeric, ascii_lower, ascii_text, lowercase,
    unicode_alphanumeric, unicode_lowercase, white_space,
};
use vstd::prelude::*;

verus! {

/// The lower case of a text of ASCII characters has the small letters of its
/// capitals and keeps the rest; beyond ASCII it is that of the Unicode rules.
pub proof fn law_lower_case(s: Seq<char>)
    ensures
        (forall|i: int| 0 <= i < s.len() ==> #[trigger] s[i] <= '\u{7f}') ==> {
            &&& lowercase(s).len() == s.len()
            &&& forall|i: int|
                0 <= i < s.len() ==> #[trigger] lowercase(s)[i] == if 'A' <= s[i] <= 'Z' {
                    (s[i] as u32 + 32) as char
                } else {
                    s[i]
                }
        },
        !ascii_text(s) ==> lowercase(s) == unicode_lowercase(s),
{
    if forall|i: int| 0 <= i < s.len() ==> #[trigger] s[i] <= '\u{7f}' {
        assert(ascii_text(s));
    }
}

/// What a word gives that is a `#`, punctuation, a name and punctuation.
proof fn lemma_tag_of(before: Seq<char>, name: Seq<char>, after: Seq<char>)
    requires
        name.len() > 0,
        ascii_alphanumeric(name[0]) || name[0] == '-' || name[0] == '_' || (!ascii(name[0])
            && unicode_alphanumeric(name[0])),
        ascii_alphanumeric(name.last()) || name.last() == '-' || name.last() == '_' || (!ascii(
            name.last(),
        ) && unicode_alphanumeric(name.last())),
        forall|i: int|
            0 <= i < before.len() ==> {
                let c = #[trigger] before[i];
                !ascii_alphanumeric(c) && c != '-' && c != '_' && (ascii(c)
                    || !unicode_alphanumeric(c))
            },
        forall|i: int|
            0 <= i < after.len() ==> {
                let c = #[trigger] after[i];
                !ascii_alphanumeric(c) && c != '-' && c != '_' && (ascii(c)
                    || !unicode_alphanumeric(c))
            },
    ensures
        tag_of("#"@ + before + name + after) == Some(lowercase(name)),
{
    reveal_strlit("#");
    let word = "#"@ + before + name + after;
    let lead = "#"@ + before;
    let rest = trim_start_if(word, is_hash());
    let k = word.len() - rest.len();
    lemma_trim_start(word, is_hash());
    if k > lead.len() {
        assert(is_hash()(word[lead.len() as int]));
        assert(word[lead.len() as int] == name[0]);
    }
    let x = lead.skip(k);
    assert(rest =~= x + name + after);
    assert forall|i: int| 0 <= i < x.len() implies is_punctuation()(#[trigger] x[i]) by {
        assert(x[i] == lead[k + i]);
        if k + i > 0 {
            assert(lead[k + i] == before[k + i - 1]);
        }
    }
    assert forall|i: int| 0 <= i < after.len() implies is_punctuation()(#[trigger] after[i]) by {
        let c = after[i];
        assert(!alphanumeric(c));
    }
    law_trim_takes_off_ends(x, name, after, is_punctuation());
}

/// A word that is a `#`, then punctuation, then a name that begins and ends with
/// a letter, a number, `-` or `_`, then punctuation, gives one tag: the name in
/// lower case. Letters and numbers are those of ASCII and of every other script.
pub proof fn law_word_gives_tag(before: Seq<char>, name: Seq<char>, after: Seq<char>)
    requires
        name.len() > 0,
        ascii_alphanumeric(name[0]) || name[0] == '-' || name[0] == '_' || (!ascii(name[0])
            && unicode_alphanumeric(name[0])),
        ascii_alphanumeric(name.last()) || name.last() == '-' || name.last() == '_' || (!ascii(
            name.last(),
        ) && unicode_alphanumeric(name.last())),
        forall|i: int| 0 <= i < name.len() ==> !white_space(#[trigger] name[i]),
        forall|i: int|
            0 <= i < before.len() ==> {
                let c = #[trigger] before[i];
                !white_space(c) && !ascii_alphanumeric(c) && c != '-' && c != '_' && (ascii(c)
                    || !unicode_alphanumeric(c))
            },
        forall|i: int|
            0 <= i < after.len() ==> {
                let c = #[trigger] after[i];
                !white_space(c) && !ascii_alphanumeric(c) && c != '-' && c != '_' && (ascii(c)
                    || !unicode_alphanumeric(c))
            },
    ensures
        tags_of("#"@ + before + name + after) == seq![lowercase(name)],
{
    reveal_strlit("#");
    let word = "#"@ + before + name + after;
    assert forall|i: int| 0 <= i < word.len() implies !white_space(#[trigger] word[i]) by {
        let b = 1 + before.len() as int;
        let n = b + name.len() as int;
        if i == 0 {
            assert(word[i] == '#');
        } else if i < b {
            assert(word[i] == before[i - 1]);
        } else if i < n {
            assert(word[i] == name[i - b]);
        } else {
            assert(word[i] == after[i - n]);
        }
    }
    lemma_words_one(word);
    lemma_tag_of(before, name, after);
    Seq::lemma_filter_map_singleton(word, |word: Seq<char>| tag_of(word));
}

/// A word of ASCII characters that is a `#`, then punctuation, then a name made
/// of letters, digits, `-` and `_`, then punctuation, gives the name as a tag,
/// with small letters for its capitals. Digits are part of the name wherever
/// they stand.
pub proof fn law_ascii_word_gives_tag(before: Seq<char>, name: Seq<char>, after: Seq<char>)
    requires
        name.len() > 0,
        forall|i: int|
            0 <= i < name.len() ==> {
                let c = #[trigger] name[i];
                ('0' <= c <= '9') || ('A' <= c <= 'Z') || ('a' <= c <= 'z') || c == '-' || c == '_'
            },
        forall|i: int|
            0 <= i < before.len() ==> {
                let c = #[trigger] before[i];
                ascii(c) && !white_space(c) && !ascii_alphanumeric(c) && c != '-' && c != '_'
            },
        forall|i: int|
            0 <= i < after.len() ==> {
                let c = #[trigger] after[i];
                ascii(c) && !white_space(c) && !ascii_alphanumeric(c) && c != '-' && c != '_'
            },
    ensures
        tags_of("#"@ + before + name + after) == seq![name.map_values(|c: char| ascii_lower(c))],
        tags_of("#"@ + name) == seq![name.map_values(|c: char| ascii_lower(c))],
{
    let none = Seq::<char>::empty();
    let lower = name.map_values(|c: char| ascii_lower(c));
    assert(ascii_alphanumeric(name[0]) || name[0] == '-' || name[0] == '_');
    let last = name[name.len() - 1];
    assert(ascii_alphanumeric(last) || last == '-' || last == '_');
    assert forall|i: int| 0 <= i < name.len() implies ascii(#[trigger] name[i]) && !white_space(
        name[i],
    ) by {}
    assert(ascii_text(name));
    assert(lowercase(name) =~= lower);
    law_word_gives_tag(before, name, after);
    law_word_gives_tag(none, name, none);
    assert("#"@ + none + name + none =~= "#"@ + name);
}

/// Such a word gives its tag wherever it stands in a text.
pub proof fn law_ascii_word_in_text_gives_tag(
    content: Seq<char>,
    k: int,
    before: Seq<char>,
    name: Seq<char>,
    after: Seq<char>,
)
    requires
        0 <= k < words(content).len(),
        words(content)[k] == "#"@ + before + name + after,
        name.len() > 0,
        forall|i: int|
            0 <= i < name.len() ==> {
                let c = #[trigger] name[i];
                ascii_alphanumeric(c) || c == '-' || c == '_'
            },
        forall|i: int|
            0 <= i < before.len() ==> {
                let c = #[trigger] before[i];
                ascii(c) && !ascii_alphanumeric(c) && c != '-' && c != '_'
            },
        forall|i: int|
            0 <= i < after.len() ==> {
                let c = #[trigger] after[i];
                ascii(c) && !ascii_alphanumeric(c) && c != '-' && c != '_'
            },
    ensures
        tags_of(content).contains(name.map_values(|c: char| ascii_lower(c))),
{
    let f = |word: Seq<char>| tag_of(word);
    assert(ascii_alphanumeric(name[0]) || name[0] == '-' || name[0] == '_');
    let last = name[name.len() - 1];
    assert(ascii_alphanumeric(last) || last == '-' || last == '_');
    assert(ascii_text(name)) by {
        assert forall|i: int| 0 <= i < name.len() implies ascii(#[trigger] name[i]) by {}
    }
    assert(lowercase(name) =~= name.map_values(|c: char| ascii_lower(c)));
    lemma_tag_of(before, name, after);
    lemma_filter_map_has(words(content), f, k, lowercase(name));
}

/// A word that does not begin with a `#`, or in which no letter, no number, no
/// `-` and no `_` stands, gives no tag.
pub proof fn law_word_gives_no_tag(word: Seq<char>)
    requires
        word.len() > 0,
        forall|i: int| 0 <= i < word.len() ==> !white_space(#[trigger] word[i]),
        word[0] != '#' || forall|i: int|
            0 <= i < word.len() ==> {
                let c = #[trigger] word[i];
                !ascii_alphanumeric(c) && c != '-' && c != '_' && (ascii(c)
                    || !unicode_alphanumeric(c))
            },
    ensures
        tags_of(word) == Seq::<Seq<char>>::empty(),
{
    lemma_words_one(word);
    if word[0] == '#' {
        let none = Seq::<char>::empty();
        let rest = trim_start_if(word, is_hash());
        lemma_trim_start(word, is_hash());
        let k = word.len() - rest.len();
        assert forall|i: int| 0 <= i < rest.len() implies is_punctuation()(#[trigger] rest[i]) by {
            assert(rest[i] == word[k + i]);
        }
        law_trim_takes_off_ends(rest, none, none, is_punctuation());
        assert(rest + none + none =~= rest);
        assert(trim_if(rest, is_punctuation()).len() == 0);
    }
    assert(tag_of(word) is None);
    let f = |word: Seq<char>| tag_of(word);
    assert(seq![word].drop_last() =~= Seq::<Seq<char>>::empty());
    assert(seq![word].filter_map(f) =~= Seq::<Seq<char>>::empty()) by {
        reveal_with_fuel(Seq::filter_map, 2);
    }
}

/// White space alone has no tags, and a text of two that white space joins has
/// the tags of the one and then those of the other.
pub proof fn law_tags_follow_the_text(a: Seq<char>, between: Seq<char>, b: Seq<char>)
    requires
        between.len() > 0,
        forall|i: int| 0 <= i < between.len() ==> white_space(#[trigger] between[i]),
    ensures
        tags_of(between) == Seq::<Seq<char>>::empty(),
        tags_of(Seq::<char>::empty()) == Seq::<Seq<char>>::empty(),
        tags_of(a + between + b) == tags_of(a) + tags_of(b),
{
    lemma_words_blank(between);
    lemma_words_blank(Seq::<char>::empty());
    law_tags_of_joined_texts(a, between, b);
}

} // verus!
