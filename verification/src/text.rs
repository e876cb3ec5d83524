//! Texts as sequences of characters: searching, splitting, replacing and
//! trimming.
use crate::unicode::white_space;
use vstd::prelude::*;

verus! {

/// `pat` stands in `s` at position `at`.
pub open spec fn matches_at(s: Seq<char>, pat: Seq<char>, at: int) -> bool {
    &&& 0 <= at
    &&& at + pat.len() <= s.len()
    &&& s.subrange(at, at + pat.len()) == pat
}

/// `pat` stands somewhere in `s`.
pub open spec fn occurs(s: Seq<char>, pat: Seq<char>) -> bool {
    exists|at: int| matches_at(s, pat, at)
}

/// The first position from `from` on at which `pat` stands in `s`.
pub open spec fn find_from(s: Seq<char>, pat: Seq<char>, from: int) -> Option<int>
    decreases s.len() - from,
{
    if from + pat.len() > s.len() {
        None
    } else if matches_at(s, pat, from) {
        Some(from)
    } else if from < s.len() {
        find_from(s, pat, from + 1)
    } else {
        None
    }
}

/// The first position at which `pat` stands in `s`.
pub open spec fn find(s: Seq<char>, pat: Seq<char>) -> Option<int> {
    find_from(s, pat, 0)
}

/// `find_from` gives the least match from `from` on, if there is one.
pub proof fn lemma_find_from(s: Seq<char>, pat: Seq<char>, from: int)
    requires
        0 <= from,
    ensures
        find_from(s, pat, from) matches Some(i) ==> from <= i && matches_at(s, pat, i) && (forall|
            j: int,
        |
            from <= j < i ==> !#[trigger] matches_at(s, pat, j)),
        find_from(s, pat, from) is None ==> forall|j: int|
            from <= j ==> !#[trigger] matches_at(s, pat, j),
    decreases s.len() - from,
{
    if from + pat.len() > s.len() {
    } else if matches_at(s, pat, from) {
    } else if from < s.len() {
        lemma_find_from(s, pat, from + 1);
    } else {
        assert(s.subrange(from, from + pat.len()) =~= pat);
    }
}

/// A match with none before it is the one that `find` gives.
pub proof fn lemma_find_is(s: Seq<char>, pat: Seq<char>, i: int)
    requires
        matches_at(s, pat, i),
        forall|j: int| 0 <= j < i ==> !#[trigger] matches_at(s, pat, j),
    ensures
        find(s, pat) == Some(i),
{
    lemma_find_from(s, pat, 0);
}

/// `find` answers `None` exactly where `pat` does not occur.
pub proof fn lemma_find_none(s: Seq<char>, pat: Seq<char>)
    ensures
        find(s, pat) is None <==> !occurs(s, pat),
{
    lemma_find_from(s, pat, 0);
}

/// Searching what is left of `s` after `k` characters is searching `s` from
/// `k` on.
pub proof fn lemma_find_skip(s: Seq<char>, pat: Seq<char>, k: int)
    requires
        0 <= k <= s.len(),
    ensures
        find(s.skip(k), pat) == match find_from(s, pat, k) {
            Some(i) => Some(i - k),
            None => None::<int>,
        },
{
    let t = s.skip(k);
    assert forall|j: int| 0 <= j implies #[trigger] matches_at(t, pat, j) == matches_at(
        s,
        pat,
        j + k,
    ) by {
        if j + pat.len() <= t.len() {
            assert(t.subrange(j, j + pat.len()) =~= s.subrange(j + k, j + k + pat.len()));
        }
    }
    lemma_find_from(t, pat, 0);
    lemma_find_from(s, pat, k);
    match find_from(s, pat, k) {
        Some(i) => {
            assert(matches_at(t, pat, i - k));
            match find(t, pat) {
                Some(j) => {
                    assert(matches_at(s, pat, j + k));
                },
                None => {},
            }
        },
        None => {
            match find(t, pat) {
                Some(j) => {
                    assert(matches_at(s, pat, j + k));
                },
                None => {},
            }
        },
    }
}

/// The pieces of `s` between the occurrences of `sep`, taken from the left
/// without overlap.
pub open spec fn split(s: Seq<char>, sep: Seq<char>) -> Seq<Seq<char>>
    decreases s.len(),
{
    match find(s, sep) {
        Some(i) => if sep.len() > 0 {
            proof {
                lemma_find_from(s, sep, 0);
            }
            seq![s.take(i)] + split(s.skip(i + sep.len()), sep)
        } else {
            seq![s]
        },
        None => seq![s],
    }
}

/// `s` with each occurrence of `pat`, taken from the left without overlap,
/// replaced by `with`.
pub open spec fn replace(s: Seq<char>, pat: Seq<char>, with: Seq<char>) -> Seq<char>
    decreases s.len(),
{
    match find(s, pat) {
        Some(i) => if pat.len() > 0 {
            proof {
                lemma_find_from(s, pat, 0);
            }
            s.take(i) + with + replace(s.skip(i + pat.len()), pat, with)
        } else {
            s
        },
        None => s,
    }
}

/// `s` without the leading characters that satisfy `p`.
pub open spec fn trim_start_if(s: Seq<char>, p: spec_fn(char) -> bool) -> Seq<char>
    decreases s.len(),
{
    if s.len() > 0 && p(s[0]) {
        trim_start_if(s.drop_first(), p)
    } else {
        s
    }
}

/// `s` without the trailing characters that satisfy `p`.
pub open spec fn trim_end_if(s: Seq<char>, p: spec_fn(char) -> bool) -> Seq<char>
    decreases s.len(),
{
    if s.len() > 0 && p(s.last()) {
        trim_end_if(s.drop_last(), p)
    } else {
        s
    }
}

/// `s` without the leading and the trailing characters that satisfy `p`.
pub open spec fn trim_if(s: Seq<char>, p: spec_fn(char) -> bool) -> Seq<char> {
    trim_end_if(trim_start_if(s, p), p)
}

/// The predicate `white_space` as a value.
pub open spec fn is_white() -> spec_fn(char) -> bool {
    |c: char| white_space(c)
}

/// `s` without the white space around it.
pub open spec fn trim(s: Seq<char>) -> Seq<char> {
    trim_if(s, is_white())
}

/// `s` holds nothing but white space.
pub open spec fn blank(s: Seq<char>) -> bool {
    forall|i: int| 0 <= i < s.len() ==> white_space(#[trigger] s[i])
}

/// How many characters of `s` come before the first white space.
pub open spec fn word_len(s: Seq<char>) -> int
    decreases s.len(),
{
    if s.len() > 0 && !white_space(s[0]) {
        1 + word_len(s.drop_first())
    } else {
        0
    }
}

/// `word_len` counts up to the first white space, or to the end.
pub proof fn lemma_word_len(s: Seq<char>)
    ensures
        0 <= word_len(s) <= s.len(),
        forall|i: int| 0 <= i < word_len(s) ==> !white_space(#[trigger] s[i]),
        word_len(s) < s.len() ==> white_space(s[word_len(s)]),
    decreases s.len(),
{
    if s.len() > 0 && !white_space(s[0]) {
        lemma_word_len(s.drop_first());
        assert forall|i: int| 0 <= i < word_len(s) implies !white_space(#[trigger] s[i]) by {
            if i > 0 {
                assert(s.drop_first()[i - 1] == s[i]);
            }
        }
    }
}

/// Trimming at the front drops some characters, all of which satisfy `p`, and
/// stops at one that does not.
pub proof fn lemma_trim_start(s: Seq<char>, p: spec_fn(char) -> bool)
    ensures
        trim_start_if(s, p).len() <= s.len(),
        trim_start_if(s, p) == s.skip(s.len() - trim_start_if(s, p).len()),
        forall|i: int| 0 <= i < s.len() - trim_start_if(s, p).len() ==> p(#[trigger] s[i]),
        trim_start_if(s, p).len() > 0 ==> !p(trim_start_if(s, p)[0]),
    decreases s.len(),
{
    if s.len() > 0 && p(s[0]) {
        let t = s.drop_first();
        lemma_trim_start(t, p);
        let k = t.len() - trim_start_if(t, p).len();
        assert(t.skip(k) =~= s.skip(k + 1));
        assert forall|i: int| 0 <= i < k + 1 implies p(#[trigger] s[i]) by {
            if i > 0 {
                assert(t[i - 1] == s[i]);
            }
        }
    } else {
        assert(s =~= s.skip(0));
    }
}

/// Trimming at the end drops some characters, all of which satisfy `p`, and
/// stops at one that does not.
pub proof fn lemma_trim_end(s: Seq<char>, p: spec_fn(char) -> bool)
    ensures
        trim_end_if(s, p).len() <= s.len(),
        trim_end_if(s, p) == s.take(trim_end_if(s, p).len() as int),
        forall|i: int| trim_end_if(s, p).len() <= i < s.len() ==> p(#[trigger] s[i]),
        trim_end_if(s, p).len() > 0 ==> !p(trim_end_if(s, p).last()),
    decreases s.len(),
{
    if s.len() > 0 && p(s.last()) {
        let t = s.drop_last();
        lemma_trim_end(t, p);
        let k = trim_end_if(t, p).len() as int;
        assert(t.take(k) =~= s.take(k));
        assert forall|i: int| k <= i < s.len() implies p(#[trigger] s[i]) by {
            if i < t.len() {
                assert(t[i] == s[i]);
            }
        }
    } else {
        assert(s =~= s.take(s.len() as int));
    }
}

/// The words of `s`: what stands between its white space.
pub open spec fn words(s: Seq<char>) -> Seq<Seq<char>>
    decreases s.len(),
{
    let t = trim_start_if(s, is_white());
    if t.len() == 0 {
        seq![]
    } else {
        proof {
            lemma_trim_start(s, is_white());
            lemma_word_len(t);
        }
        seq![t.take(word_len(t))] + words(t.skip(word_len(t)))
    }
}

/// Each word of `s` is a part of `s`, is not empty, and holds no white space.
pub proof fn lemma_words(s: Seq<char>, k: int)
    requires
        0 <= k < words(s).len(),
    ensures
        occurs(s, words(s)[k]),
        words(s)[k].len() > 0,
        forall|i: int| 0 <= i < words(s)[k].len() ==> !white_space(#[trigger] words(s)[k][i]),
    decreases s.len(),
{
    let t = trim_start_if(s, is_white());
    let d = s.len() - t.len();
    let n = word_len(t);
    lemma_trim_start(s, is_white());
    lemma_word_len(t);
    if k == 0 {
        assert(s.subrange(d, d + n) =~= t.take(n));
        assert(matches_at(s, words(s)[0], d));
    } else {
        let rest = t.skip(n);
        lemma_words(rest, k - 1);
        let word = words(rest)[k - 1];
        assert(words(s)[k] == word);
        let at = choose|at: int| matches_at(rest, word, at);
        assert(s.subrange(d + n + at, d + n + at + word.len()) =~= rest.subrange(
            at,
            at + word.len(),
        ));
        assert(matches_at(s, word, d + n + at));
    }
}

/// `s` is empty or begins with white space.
pub open spec fn starts_white(s: Seq<char>) -> bool {
    s.len() == 0 || white_space(s[0])
}

/// Trimming the front of two joined texts reaches the second only where nothing
/// of the first is left.
proof fn lemma_trim_start_join(a: Seq<char>, b: Seq<char>)
    ensures
        trim_start_if(a + b, is_white()) == if trim_start_if(a, is_white()).len() == 0 {
            trim_start_if(b, is_white())
        } else {
            trim_start_if(a, is_white()) + b
        },
    decreases a.len(),
{
    if a.len() == 0 {
        assert(a + b =~= b);
    } else if white_space(a[0]) {
        assert((a + b).drop_first() =~= a.drop_first() + b);
        lemma_trim_start_join(a.drop_first(), b);
    }
}

/// White space behind a text does not lengthen its first word.
proof fn lemma_word_len_join(a: Seq<char>, b: Seq<char>)
    requires
        starts_white(b),
    ensures
        word_len(a + b) == word_len(a),
    decreases a.len(),
{
    if a.len() == 0 {
        assert(a + b =~= b);
    } else if !white_space(a[0]) {
        assert((a + b).drop_first() =~= a.drop_first() + b);
        lemma_word_len_join(a.drop_first(), b);
    }
}

/// The words of two texts, the second of which begins with white space, are
/// those of the one and then those of the other.
pub proof fn lemma_words_join(a: Seq<char>, b: Seq<char>)
    requires
        starts_white(b),
    ensures
        words(a + b) == words(a) + words(b),
    decreases a.len(),
{
    let t = trim_start_if(a, is_white());
    lemma_trim_start(a, is_white());
    lemma_trim_start_join(a, b);
    if t.len() == 0 {
        assert(words(a + b) =~= words(a) + words(b));
    } else {
        let n = word_len(t);
        lemma_word_len(t);
        lemma_word_len_join(t, b);
        assert((t + b).take(n) =~= t.take(n));
        assert((t + b).skip(n) =~= t.skip(n) + b);
        lemma_words_join(t.skip(n), b);
        assert(words(a + b) =~= words(a) + words(b));
    }
}

/// A blank text has no words.
pub proof fn lemma_words_blank(s: Seq<char>)
    requires
        blank(s),
    ensures
        words(s) == Seq::<Seq<char>>::empty(),
{
    lemma_trim_start(s, is_white());
}

/// A text without white space is its own only word.
pub proof fn lemma_words_one(s: Seq<char>)
    requires
        s.len() > 0,
        forall|i: int| 0 <= i < s.len() ==> !white_space(#[trigger] s[i]),
    ensures
        words(s) == seq![s],
{
    lemma_word_len(s);
    assert(s.take(s.len() as int) =~= s);
    lemma_words_blank(s.skip(s.len() as int));
    assert(words(s) =~= seq![s]);
}

/// The words of two texts that white space joins are those of the one and then
/// those of the other.
pub proof fn law_words_of_joined_texts(a: Seq<char>, between: Seq<char>, b: Seq<char>)
    requires
        between.len() > 0,
        blank(between),
    ensures
        words(a + between + b) == words(a) + words(b),
{
    assert(white_space(between[0]));
    assert(a + between + b =~= a + (between + b));
    lemma_words_join(a, between + b);
    lemma_trim_start_join(between, b);
    lemma_trim_start(between, is_white());
    assert(words(between + b) == words(b));
}

/// The white space around a text has no part in its words.
pub proof fn lemma_words_trim(s: Seq<char>)
    ensures
        words(trim(s)) == words(s),
{
    let t = trim_start_if(s, is_white());
    lemma_trim_start(s, is_white());
    assert(words(t) == words(s));
    lemma_words_trim_end(t);
}

/// The white space behind a text has no part in its words.
proof fn lemma_words_trim_end(s: Seq<char>)
    ensures
        words(trim_end_if(s, is_white())) == words(s),
    decreases s.len(),
{
    if s.len() > 0 && white_space(s.last()) {
        lemma_words_trim_end(s.drop_last());
        let end = seq![s.last()];
        lemma_words_join(s.drop_last(), end);
        lemma_words_blank(end);
        assert(s.drop_last() + end =~= s);
        assert(words(s.drop_last()) + words(end) =~= words(s.drop_last()));
    }
}

/// A text with no white space at either end is its own trimmed text.
pub proof fn lemma_trim_none(s: Seq<char>)
    requires
        s.len() > 0,
        !white_space(s[0]),
        !white_space(s.last()),
    ensures
        trim(s) == s,
{
}

/// A text that is trimmed already stays as it is.
pub proof fn lemma_trim_twice(s: Seq<char>)
    ensures
        trim(trim(s)) == trim(s),
{
    let t = trim_start_if(s, is_white());
    lemma_trim_start(s, is_white());
    lemma_trim_end(t, is_white());
    if trim(s).len() > 0 {
        assert(trim(s)[0] == t[0]);
    }
}

/// A text that is not blank still holds something once it is trimmed.
pub proof fn lemma_trim_not_blank(s: Seq<char>)
    requires
        !blank(s),
    ensures
        trim(s).len() > 0,
        !white_space(trim(s)[0]),
{
    let t = trim_start_if(s, is_white());
    lemma_trim_start(s, is_white());
    lemma_trim_end(t, is_white());
    let p = choose|p: int| 0 <= p < s.len() && !white_space(#[trigger] s[p]);
    assert(p >= s.len() - t.len());
    assert(t.len() > 0);
    assert(trim(s).len() > 0);
    assert(trim(s)[0] == t[0]);
}

/// A trimmed text is a part of the text, with no white space at its ends.
pub proof fn lemma_trim_part(s: Seq<char>)
    ensures
        occurs(s, trim(s)),
        trim(s).len() > 0 ==> !white_space(trim(s)[0]) && !white_space(trim(s).last()),
{
    let t = trim_start_if(s, is_white());
    lemma_trim_start(s, is_white());
    lemma_trim_end(t, is_white());
    let d = s.len() - t.len();
    assert(s.subrange(d, d + trim(s).len()) =~= trim(s));
    assert(matches_at(s, trim(s), d));
    if trim(s).len() > 0 {
        assert(trim(s)[0] == t[0]);
    }
}

/// No piece of a text that was cut at `sep` holds `sep`.
pub proof fn lemma_split_pieces(s: Seq<char>, sep: Seq<char>, k: int)
    requires
        sep.len() > 0,
        0 <= k < split(s, sep).len(),
    ensures
        !occurs(split(s, sep)[k], sep),
    decreases s.len(),
{
    lemma_find_from(s, sep, 0);
    match find(s, sep) {
        Some(i) => {
            if k == 0 {
                let piece = s.take(i);
                assert forall|j: int| !matches_at(piece, sep, j) by {
                    if matches_at(piece, sep, j) {
                        assert(s.subrange(j, j + sep.len()) =~= piece.subrange(j, j + sep.len()));
                        assert(matches_at(s, sep, j));
                    }
                }
                assert(split(s, sep)[0] == piece);
            } else {
                let rest = s.skip(i + sep.len());
                lemma_split_pieces(rest, sep, k - 1);
                assert(split(s, sep)[k] == split(rest, sep)[k - 1]);
            }
        },
        None => {},
    }
}

/// What occurs in a part of a text occurs in the text.
pub proof fn lemma_occurs_in_part(s: Seq<char>, part: Seq<char>, pat: Seq<char>)
    requires
        occurs(s, part),
        occurs(part, pat),
    ensures
        occurs(s, pat),
{
    let at = choose|at: int| matches_at(s, part, at);
    let j = choose|j: int| matches_at(part, pat, j);
    assert(s.subrange(at + j, at + j + pat.len()) =~= part.subrange(j, j + pat.len()));
    assert(matches_at(s, pat, at + j));
}

/// A filter that every item passes keeps the sequence.
pub proof fn lemma_filter_all<A>(s: Seq<A>, p: spec_fn(A) -> bool)
    requires
        forall|i: int| 0 <= i < s.len() ==> p(#[trigger] s[i]),
    ensures
        s.filter(p) == s,
    decreases s.len(),
{
    reveal(Seq::filter);
    if s.len() > 0 {
        lemma_filter_all(s.drop_last(), p);
        assert(s.drop_last().push(s.last()) =~= s);
    }
}

/// `s` ends with `suffix`.
pub open spec fn ends_with(s: Seq<char>, suffix: Seq<char>) -> bool {
    matches_at(s, suffix, s.len() - suffix.len())
}

/// What follows `prefix` in `s`, if `s` begins with it.
pub open spec fn strip_prefix(s: Seq<char>, prefix: Seq<char>) -> Option<Seq<char>> {
    if matches_at(s, prefix, 0) {
        Some(s.skip(prefix.len() as int))
    } else {
        None
    }
}

/// The texts that a list of strings holds.
pub open spec fn texts(v: Seq<String>) -> Seq<Seq<char>> {
    v.map_values(|x: String| x@)
}

/// The digits of `n` in base ten.
pub open spec fn decimal_digits(n: nat) -> Seq<char>
    decreases n,
{
    if n < 10 {
        seq![digit_char(n)]
    } else {
        decimal_digits(n / 10).push(digit_char(n % 10))
    }
}

/// The character of a digit.
pub open spec fn digit_char(d: nat) -> char {
    ('0' as u32 + d) as char
}

} // verus!
