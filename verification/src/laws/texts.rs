//! Searching, cutting, replacing, trimming and counting.
use crate::text::{
    blank, decimal_digits, digit_char, find, is_white, law_words_of_joined_texts, lemma_find_from,
    lemma_find_is, lemma_find_none, lemma_words_blank, lemma_words_join, matches_at, replace,
    split, texts, trim, trim_end_if, trim_if, trim_start_if, words,
};
use crate::unicode::white_space;
use vstd::prelude::*;

verus! {

/// A text stands in another where their characters agree one by one.
pub proof fn law_stands_at(s: Seq<char>, pat: Seq<char>, at: int)
    ensures
        matches_at(s, pat, at) <==> {
            &&& 0 <= at
            &&& at + pat.len() <= s.len()
            &&& forall|i: int| 0 <= i < pat.len() ==> #[trigger] pat[i] == s[at + i]
        },
{
    if 0 <= at && at + pat.len() <= s.len() {
        let m = s.subrange(at, at + pat.len());
        if forall|i: int| 0 <= i < pat.len() ==> #[trigger] pat[i] == s[at + i] {
            assert(m =~= pat);
        }
        if m == pat {
            assert forall|i: int| 0 <= i < pat.len() implies #[trigger] pat[i] == s[at + i] by {
                assert(m[i] == s[at + i]);
            }
        }
    }
}

/// Where a text is put between two others, it stands behind the first.
pub proof fn lemma_stands_between(a: Seq<char>, pat: Seq<char>, b: Seq<char>)
    ensures
        matches_at(a + pat + b, pat, a.len() as int),
{
    let s = a + pat + b;
    assert(s.subrange(a.len() as int, (a.len() + pat.len()) as int) =~= pat);
}

/// Cutting a text at a separator that stands in it for the first time behind
/// `a` gives `a` first, and then what cutting the rest gives.
pub proof fn law_split_at_first(a: Seq<char>, sep: Seq<char>, rest: Seq<char>)
    requires
        sep.len() > 0,
        forall|j: int| 0 <= j < a.len() ==> !#[trigger] matches_at(a + sep + rest, sep, j),
    ensures
        split(a + sep + rest, sep) == seq![a] + split(rest, sep),
{
    let s = a + sep + rest;
    lemma_stands_between(a, sep, rest);
    lemma_find_is(s, sep, a.len() as int);
    assert(s.take(a.len() as int) =~= a);
    assert(s.skip((a.len() + sep.len()) as int) =~= rest);
}

/// A text without the separator is one piece.
pub proof fn law_split_without_separator(s: Seq<char>, sep: Seq<char>)
    requires
        forall|j: int| !#[trigger] matches_at(s, sep, j),
    ensures
        split(s, sep) == seq![s],
{
    lemma_find_none(s, sep);
}

/// Where `pat` stands in a text for the first time behind `a`, `with` takes its
/// place, and the replacing goes on behind it.
pub proof fn law_replace_at_first(
    a: Seq<char>,
    pat: Seq<char>,
    rest: Seq<char>,
    with: Seq<char>,
)
    requires
        pat.len() > 0,
        forall|j: int| 0 <= j < a.len() ==> !#[trigger] matches_at(a + pat + rest, pat, j),
    ensures
        replace(a + pat + rest, pat, with) == a + with + replace(rest, pat, with),
{
    let s = a + pat + rest;
    lemma_stands_between(a, pat, rest);
    lemma_find_is(s, pat, a.len() as int);
    assert(s.take(a.len() as int) =~= a);
    assert(s.skip((a.len() + pat.len()) as int) =~= rest);
}

/// A text in which `pat` does not stand is kept.
pub proof fn law_replace_nothing(s: Seq<char>, pat: Seq<char>, with: Seq<char>)
    requires
        forall|j: int| !#[trigger] matches_at(s, pat, j),
    ensures
        replace(s, pat, with) == s,
{
    lemma_find_none(s, pat);
}

/// A front in which no occurrence of `pat` begins is kept.
pub proof fn lemma_replace_keeps_front(
    a: Seq<char>,
    rest: Seq<char>,
    pat: Seq<char>,
    with: Seq<char>,
)
    requires
        pat.len() > 0,
        forall|j: int| 0 <= j < a.len() ==> !#[trigger] matches_at(a + rest, pat, j),
    ensures
        replace(a + rest, pat, with) == a + replace(rest, pat, with),
{
    let s = a + rest;
    let n = a.len() as int;
    assert forall|j: int| 0 <= j implies #[trigger] matches_at(rest, pat, j) == matches_at(
        s,
        pat,
        n + j,
    ) by {
        if j + pat.len() <= rest.len() {
            assert(rest.subrange(j, j + pat.len()) =~= s.subrange(n + j, n + j + pat.len()));
        }
    }
    lemma_find_from(rest, pat, 0);
    match find(rest, pat) {
        Some(i) => {
            assert(matches_at(s, pat, n + i));
            assert forall|j: int| 0 <= j < n + i implies !#[trigger] matches_at(s, pat, j) by {
                if j >= n {
                    assert(!matches_at(rest, pat, j - n));
                }
            }
            lemma_find_is(s, pat, n + i);
            assert(s.take(n + i) =~= a + rest.take(i));
            assert(s.skip(n + i + pat.len()) =~= rest.skip(i + pat.len()));
            assert(replace(s, pat, with) =~= a + replace(rest, pat, with));
        },
        None => {
            assert forall|j: int| !#[trigger] matches_at(s, pat, j) by {
                if j >= n {
                    assert(!matches_at(rest, pat, j - n));
                }
            }
            lemma_find_none(s, pat);
        },
    }
}

/// White space, or nothing at all, stands where two texts meet.
pub open spec fn parted(a: Seq<char>, b: Seq<char>) -> bool {
    a.len() == 0 || b.len() == 0 || white_space(a.last()) || white_space(b[0])
}

/// A text without white space does not reach over the place where two texts are
/// parted.
proof fn lemma_parted(a: Seq<char>, b: Seq<char>, pat: Seq<char>, j: int)
    requires
        parted(a, b),
        forall|i: int| 0 <= i < pat.len() ==> !white_space(#[trigger] pat[i]),
        0 <= j < a.len(),
        matches_at(a + b, pat, j),
    ensures
        matches_at(a, pat, j),
{
    let n = a.len() as int;
    law_stands_at(a + b, pat, j);
    if j + pat.len() > n {
        assert(pat[n - 1 - j] == (a + b)[n - 1]);
        assert(pat[n - j] == (a + b)[n]);
    }
    assert(a.subrange(j, j + pat.len()) =~= (a + b).subrange(j, j + pat.len()));
}

/// Replacing a text without white space in two texts that are parted is
/// replacing it in each of them.
pub proof fn lemma_replace_parted(a: Seq<char>, b: Seq<char>, pat: Seq<char>, with: Seq<char>)
    requires
        parted(a, b),
        pat.len() > 0,
        forall|i: int| 0 <= i < pat.len() ==> !white_space(#[trigger] pat[i]),
    ensures
        replace(a + b, pat, with) == replace(a, pat, with) + replace(b, pat, with),
    decreases a.len(),
{
    let s = a + b;
    lemma_find_from(a, pat, 0);
    match find(a, pat) {
        Some(i) => {
            let rest = a.skip(i + pat.len());
            assert(s.subrange(i, i + pat.len()) =~= a.subrange(i, i + pat.len()));
            assert forall|j: int| 0 <= j < i implies !#[trigger] matches_at(s, pat, j) by {
                if matches_at(s, pat, j) {
                    lemma_parted(a, b, pat, j);
                }
            }
            lemma_find_is(s, pat, i);
            assert(s.take(i) =~= a.take(i));
            assert(s.skip(i + pat.len()) =~= rest + b);
            lemma_replace_parted(rest, b, pat, with);
            assert(replace(s, pat, with) =~= replace(a, pat, with) + replace(b, pat, with));
        },
        None => {
            assert forall|j: int| 0 <= j < a.len() implies !#[trigger] matches_at(s, pat, j) by {
                if matches_at(s, pat, j) {
                    lemma_parted(a, b, pat, j);
                }
            }
            lemma_replace_keeps_front(a, b, pat, with);
        },
    }
}

/// Replacing a text without white space in two texts that white space joins is
/// replacing it in each of them.
pub proof fn law_replace_in_joined_texts(
    a: Seq<char>,
    between: Seq<char>,
    b: Seq<char>,
    pat: Seq<char>,
    with: Seq<char>,
)
    requires
        between.len() > 0,
        forall|i: int| 0 <= i < between.len() ==> white_space(#[trigger] between[i]),
        pat.len() > 0,
        forall|i: int| 0 <= i < pat.len() ==> !white_space(#[trigger] pat[i]),
    ensures
        replace(a + between + b, pat, with) == replace(a, pat, with) + between + replace(
            b,
            pat,
            with,
        ),
{
    assert(white_space(between[0]) && white_space(between[between.len() - 1]));
    assert forall|j: int| !#[trigger] matches_at(between, pat, j) by {
        law_stands_at(between, pat, j);
        if matches_at(between, pat, j) {
            assert(pat[0] == between[j + 0]);
        }
    }
    law_replace_nothing(between, pat, with);
    assert((a + between).last() == between.last());
    lemma_replace_parted(a + between, b, pat, with);
    lemma_replace_parted(a, between, pat, with);
}

/// The words of two texts that are parted are those of the one and then those of
/// the other.
pub proof fn lemma_words_parted(a: Seq<char>, b: Seq<char>)
    requires
        parted(a, b),
    ensures
        words(a + b) == words(a) + words(b),
{
    if a.len() == 0 {
        lemma_words_blank(a);
        assert(a + b =~= b);
        assert(words(a) + words(b) =~= words(b));
    } else if b.len() == 0 || white_space(b[0]) {
        lemma_words_join(a, b);
    } else {
        let end = seq![a.last()];
        assert(a.drop_last() + end =~= a);
        assert(blank(end));
        law_words_of_joined_texts(a.drop_last(), end, b);
        lemma_words_join(a.drop_last(), end);
        lemma_words_blank(end);
        assert(words(a.drop_last()) + words(end) =~= words(a.drop_last()));
    }
}

/// Trimming the front of a text drops a front of which every character is to go.
pub proof fn lemma_trim_front(x: Seq<char>, t: Seq<char>, p: spec_fn(char) -> bool)
    requires
        forall|i: int| 0 <= i < x.len() ==> p(#[trigger] x[i]),
    ensures
        trim_start_if(x + t, p) == trim_start_if(t, p),
    decreases x.len(),
{
    if x.len() == 0 {
        assert(x + t =~= t);
    } else {
        assert((x + t)[0] == x[0]);
        assert((x + t).drop_first() =~= x.drop_first() + t);
        assert forall|i: int| 0 <= i < x.drop_first().len() implies p(
            #[trigger] x.drop_first()[i],
        ) by {
            assert(x.drop_first()[i] == x[i + 1]);
        }
        lemma_trim_front(x.drop_first(), t, p);
    }
}

/// Trimming the end of a text drops an end of which every character is to go.
pub proof fn lemma_trim_back(t: Seq<char>, y: Seq<char>, p: spec_fn(char) -> bool)
    requires
        forall|i: int| 0 <= i < y.len() ==> p(#[trigger] y[i]),
    ensures
        trim_end_if(t + y, p) == trim_end_if(t, p),
    decreases y.len(),
{
    if y.len() == 0 {
        assert(t + y =~= t);
    } else {
        assert((t + y).last() == y[y.len() - 1]);
        assert((t + y).drop_last() =~= t + y.drop_last());
        lemma_trim_back(t, y.drop_last(), p);
    }
}

/// Trimming takes off all that is to go at both ends, and nothing else: `m`,
/// which neither begins nor ends with such a character, is left.
pub proof fn law_trim_takes_off_ends(
    x: Seq<char>,
    m: Seq<char>,
    y: Seq<char>,
    p: spec_fn(char) -> bool,
)
    requires
        forall|i: int| 0 <= i < x.len() ==> p(#[trigger] x[i]),
        forall|i: int| 0 <= i < y.len() ==> p(#[trigger] y[i]),
        m.len() > 0 ==> !p(m[0]) && !p(m.last()),
    ensures
        trim_if(x + m + y, p) == m,
{
    assert(x + m + y =~= x + (m + y));
    lemma_trim_front(x, m + y, p);
    if m.len() == 0 {
        assert(m + y =~= y + m);
        lemma_trim_front(y, m, p);
    } else {
        assert((m + y)[0] == m[0]);
        lemma_trim_back(m, y, p);
    }
}

/// A trimmed text is the text without the white space around it.
pub proof fn law_trim_takes_off_white_space(x: Seq<char>, m: Seq<char>, y: Seq<char>)
    requires
        forall|i: int| 0 <= i < x.len() ==> white_space(#[trigger] x[i]),
        forall|i: int| 0 <= i < y.len() ==> white_space(#[trigger] y[i]),
        m.len() > 0 ==> !white_space(m[0]) && !white_space(m.last()),
    ensures
        trim(x + m + y) == m,
{
    law_trim_takes_off_ends(x, m, y, is_white());
}

/// A text is blank where each of its characters is white space.
pub proof fn law_blank(s: Seq<char>)
    ensures
        blank(s) <==> forall|i: int| 0 <= i < s.len() ==> white_space(#[trigger] s[i]),
{
}

/// The texts of a list of strings are its strings, one by one.
pub proof fn law_texts(v: Seq<String>)
    ensures
        texts(v).len() == v.len(),
        forall|i: int| 0 <= i < v.len() ==> #[trigger] texts(v)[i] == v[i]@,
{
}

/// The number that some digits stand for.
pub open spec fn number_of(digits: Seq<char>) -> int
    decreases digits.len(),
{
    if digits.len() == 0 {
        0
    } else {
        10 * number_of(digits.drop_last()) + (digits.last() as int - '0' as int)
    }
}

/// The digits of a number stand for that number; there is at least one, each is
/// from `0` to `9`, and only the number zero begins with a `0`.
pub proof fn law_digits_stand_for_number(n: nat)
    ensures
        decimal_digits(n).len() > 0,
        forall|i: int|
            0 <= i < decimal_digits(n).len() ==> '0' <= #[trigger] decimal_digits(n)[i] <= '9',
        decimal_digits(n)[0] == '0' <==> n == 0,
        number_of(decimal_digits(n)) == n,
    decreases n,
{
    assert(forall|d: nat| d < 10 ==> #[trigger] digit_char(d) as int == 48 + d);
    let s = decimal_digits(n);
    if n < 10 {
        assert(s.drop_last() =~= Seq::<char>::empty());
        assert(s[0] == digit_char(n));
        reveal_with_fuel(number_of, 2);
    } else {
        law_digits_stand_for_number(n / 10);
        let most = decimal_digits(n / 10);
        assert(s.drop_last() =~= most);
        assert(s.last() == digit_char(n % 10));
        assert(s[0] == most[0]);
        assert forall|i: int| 0 <= i < s.len() implies '0' <= #[trigger] s[i] <= '9' by {
            if i < most.len() {
                assert(s[i] == most[i]);
            }
        }
    }
}

} // verus!
