//! The tags of a note: its words that begin with `#`.
use crate::scan::{char_views, chars_of, split_whitespace, text_of, trim_matches, trim_start_matches};
use crate::text::{
    blank, law_words_of_joined_texts, lemma_trim_end, lemma_trim_start, lemma_words,
    lemma_words_one, matches_at, occurs, texts, trim_if, trim_start_if, words,
};
use crate::unicode::{alphanumeric, ascii, ascii_lower, ascii_text, lowercase, white_space};
use vstd::prelude::*;

verus! {

/// The characters that a tag begins and ends with.
pub open spec fn tag_char(c: char) -> bool {
    alphanumeric(c) || c == '-' || c == '_'
}

/// The predicate "is a number sign" as a value.
pub open spec fn is_hash() -> spec_fn(char) -> bool {
    |c: char| c == '#'
}

/// The predicate "cannot stand at the end of a tag" as a value.
pub open spec fn is_punctuation() -> spec_fn(char) -> bool {
    |c: char| !tag_char(c)
}

/// The tag that a word gives: the word begins with `#`, and something is left
/// once the leading `#`s and the punctuation around the rest are gone. It is
/// kept in lower case.
pub open spec fn tag_of(word: Seq<char>) -> Option<Seq<char>> {
    let body = trim_if(trim_start_if(word, is_hash()), is_punctuation());
    if word.len() > 1 && word[0] == '#' && body.len() > 0 {
        Some(lowercase(body))
    } else {
        None
    }
}

/// The tags of a text, in the order in which they stand in it.
pub open spec fn tags_of(content: Seq<char>) -> Seq<Seq<char>> {
    words(content).filter_map(|word: Seq<char>| tag_of(word))
}

fn hash(c: char) -> (r: bool)
    ensures
        r == (c == '#'),
{
    c == '#'
}

fn punctuation(c: char) -> (r: bool)
    ensures
        r == !tag_char(c),
{
    !c.is_alphanumeric() && c != '-' && c != '_'
}

/// Reads the tag of one word.
fn tag_in_word(word: &[char]) -> (r: Option<String>)
    ensures
        match r {
            Some(tag) => tag_of(word@) == Some(tag@),
            None => tag_of(word@) is None,
        },
{
    if word.len() > 1 && word[0] == '#' {
        let rest = trim_start_matches(word, hash, Ghost(is_hash()));
        let body = trim_matches(rest, punctuation, Ghost(is_punctuation()));
        if body.len() > 0 {
            return Some(text_of(body).as_str().to_lowercase());
        }
    }
    None
}

/// Collects the tags of a text.
pub fn extract_tags(content: &str) -> (r: Vec<String>)
    ensures
        texts(r@) == tags_of(content@),
{
    let chars = chars_of(content);
    let found = split_whitespace(chars.as_slice());
    let mut r: Vec<String> = Vec::new();
    let ghost all = char_views(found@);
    let ghost tag = |word: Seq<char>| tag_of(word);
    for i in 0..found.len()
        invariant
            all == char_views(found@),
            tag == (|word: Seq<char>| tag_of(word)),
            texts(r@) == all.take(i as int).filter_map(tag),
    {
        let ghost before = r@;
        assert(all.take(i + 1).drop_last() =~= all.take(i as int));
        assert(all.take(i + 1).last() == found@[i as int]@);
        if let Some(name) = tag_in_word(found[i].as_slice()) {
            r.push(name);
            assert(texts(r@) =~= texts(before) + seq![name@]);
        }
    }
    assert(all.take(all.len() as int) =~= all);
    r
}

/// What `f` makes of an item is among what it makes of all of them.
pub proof fn lemma_filter_map_has(
    s: Seq<Seq<char>>,
    f: spec_fn(Seq<char>) -> Option<Seq<char>>,
    k: int,
    out: Seq<char>,
)
    requires
        0 <= k < s.len(),
        f(s[k]) == Some(out),
    ensures
        s.filter_map(f).contains(out),
    decreases s.len(),
{
    let rest = s.drop_last().filter_map(f);
    if k == s.len() - 1 {
        assert(s.filter_map(f) == rest + seq![out]);
        assert((rest + seq![out])[rest.len() as int] == out);
    } else {
        lemma_filter_map_has(s.drop_last(), f, k, out);
        let i = choose|i: int| 0 <= i < rest.len() && rest[i] == out;
        assert(s.filter_map(f)[i] == out);
    }
}

/// A word that is a `#` and a name made of letters, numbers, `-` and `_` gives
/// that name in lower case as a tag.
pub proof fn law_word_is_tag(content: Seq<char>, name: Seq<char>)
    requires
        words(content).contains("#"@ + name),
        name.len() > 0,
        forall|i: int| 0 <= i < name.len() ==> tag_char(#[trigger] name[i]),
    ensures
        tags_of(content).contains(lowercase(name)),
{
    reveal_strlit("#");
    let word = "#"@ + name;
    assert(tag_char(name[0]));
    assert(tag_char(name[name.len() - 1]));
    assert(word.drop_first() =~= name);
    assert(trim_start_if(word, is_hash()) == trim_start_if(name, is_hash()));
    assert(tag_of(word) == Some(lowercase(name)));
    let k = choose|k: int| 0 <= k < words(content).len() && words(content)[k] == word;
    lemma_filter_map_has(
        words(content),
        |word: Seq<char>| tag_of(word),
        k,
        lowercase(name),
    );
}

/// Each tag is the lower case of a name that stands in a word of the text behind
/// its `#`, and that begins and ends with a letter, a number, `-` or `_`.
pub proof fn law_tag_comes_from_word(content: Seq<char>, i: int)
    requires
        0 <= i < tags_of(content).len(),
    ensures
        exists|name: Seq<char>, k: int|
            {
                &&& 0 <= k < words(content).len()
                &&& words(content)[k][0] == '#'
                &&& #[trigger] occurs(words(content)[k], name)
                &&& name.len() > 0
                &&& tag_char(name[0])
                &&& tag_char(name.last())
                &&& tags_of(content)[i] == lowercase(name)
            },
{
    let f = |word: Seq<char>| tag_of(word);
    let tag = tags_of(content)[i];
    words(content).lemma_filter_map_contains(f, tag);
    let word = choose|word: Seq<char>| #[trigger] words(content).contains(word) && f(word) == Some(tag);
    let k = choose|k: int| 0 <= k < words(content).len() && words(content)[k] == word;
    let a = trim_start_if(word, is_hash());
    let b = trim_start_if(a, is_punctuation());
    let name = trim_if(a, is_punctuation());
    lemma_trim_start(word, is_hash());
    lemma_trim_start(a, is_punctuation());
    lemma_trim_end(b, is_punctuation());
    let at = word.len() - b.len();
    assert(name[0] == b[0]);
    assert(word.subrange(at, at + name.len()) =~= name);
    assert(matches_at(word, name, at));
    assert(tag_of(word) == Some(tag));
    assert(!is_punctuation()(name[0]) && !is_punctuation()(name.last()));
    assert(occurs(words(content)[k], name));
}

/// What `f` makes of two joined lists is what it makes of the one and then of the
/// other.
proof fn lemma_filter_map_join(
    a: Seq<Seq<char>>,
    b: Seq<Seq<char>>,
    f: spec_fn(Seq<char>) -> Option<Seq<char>>,
)
    ensures
        (a + b).filter_map(f) == a.filter_map(f) + b.filter_map(f),
    decreases b.len(),
{
    if b.len() == 0 {
        assert(a + b =~= a);
        assert(a.filter_map(f) + b.filter_map(f) =~= a.filter_map(f));
    } else {
        lemma_filter_map_join(a, b.drop_last(), f);
        assert((a + b).drop_last() =~= a + b.drop_last());
        assert((a + b).last() == b.last());
        assert((a + b).filter_map(f) =~= a.filter_map(f) + b.filter_map(f));
    }
}

/// The tags of two texts that white space joins are those of the one and then
/// those of the other.
pub proof fn law_tags_of_joined_texts(a: Seq<char>, between: Seq<char>, b: Seq<char>)
    requires
        between.len() > 0,
        blank(between),
    ensures
        tags_of(a + between + b) == tags_of(a) + tags_of(b),
{
    law_words_of_joined_texts(a, between, b);
    lemma_filter_map_join(words(a), words(b), |word: Seq<char>| tag_of(word));
}

/// A tag that a word of its own gives back: it holds no white space, begins and
/// ends as a tag does, and is in lower case.
pub open spec fn clean_tag(tag: Seq<char>) -> bool {
    &&& tag.len() > 0
    &&& forall|i: int| 0 <= i < tag.len() ==> !white_space(#[trigger] tag[i])
    &&& tag_char(tag[0])
    &&& tag_char(tag.last())
    &&& lowercase(tag) == tag
}

/// A `#` and a clean tag make a text with that one tag.
pub proof fn lemma_clean_tag(tag: Seq<char>)
    requires
        clean_tag(tag),
    ensures
        tags_of("#"@ + tag) == seq![tag],
{
    reveal_strlit("#");
    let word = "#"@ + tag;
    assert forall|i: int| 0 <= i < word.len() implies !white_space(#[trigger] word[i]) by {
        if i > 0 {
            assert(word[i] == tag[i - 1]);
        }
    }
    lemma_words_one(word);
    assert(word.drop_first() =~= tag);
    assert(trim_start_if(word, is_hash()) == trim_start_if(tag, is_hash()));
    assert(tag_of(word) == Some(tag));
    let f = |word: Seq<char>| tag_of(word);
    Seq::lemma_filter_map_singleton(word, f);
}

/// Each tag of a text of ASCII characters is clean.
pub proof fn law_ascii_tags_are_clean(content: Seq<char>, i: int)
    requires
        ascii_text(content),
        0 <= i < tags_of(content).len(),
    ensures
        clean_tag(tags_of(content)[i]),
{
    law_tag_comes_from_word(content, i);
    let (name, k) = choose|name: Seq<char>, k: int|
        {
            &&& 0 <= k < words(content).len()
            &&& words(content)[k][0] == '#'
            &&& #[trigger] occurs(words(content)[k], name)
            &&& name.len() > 0
            &&& tag_char(name[0])
            &&& tag_char(name.last())
            &&& tags_of(content)[i] == lowercase(name)
        };
    let word = words(content)[k];
    let tag = tags_of(content)[i];
    lemma_words(content, k);
    let at = choose|at: int| matches_at(content, word, at);
    let from = choose|from: int| matches_at(word, name, from);
    assert forall|j: int| 0 <= j < name.len() implies ascii(#[trigger] name[j]) && !white_space(
        name[j],
    ) by {
        assert(word.subrange(from, from + name.len())[j] == word[from + j]);
        assert(content.subrange(at, at + word.len())[from + j] == content[at + from + j]);
        assert(ascii(content[at + from + j]));
        assert(!white_space(word[from + j]));
    }
    assert(ascii_text(name));
    assert forall|j: int| 0 <= j < tag.len() implies ascii(#[trigger] tag[j]) && !white_space(
        tag[j],
    ) && ascii_lower(tag[j]) == tag[j] by {
        assert(tag[j] == ascii_lower(name[j]));
        assert(ascii(name[j]) && !white_space(name[j]));
    }
    assert(tag.map_values(|c: char| ascii_lower(c)) =~= tag);
    assert(tag[0] == ascii_lower(name[0]));
    assert(tag.last() == ascii_lower(name.last()));
    assert(ascii(name[0]) && ascii(name[name.len() - 1]));
}

} // verus!
