//! The operations of `text`, carried out on slices of characters.
use crate::text::{
    blank, decimal_digits, digit_char, find_from, is_white, lemma_find_skip,
    lemma_trim_start, lemma_word_len, matches_at, replace, split, trim,
    trim_end_if, trim_if, trim_start_if, word_len, words,
};
use crate::unicode::white_space;
use vstd::prelude::*;
use vstd::slice::{slice_subrange, slice_to_vec};

verus! {

/// The texts that a list of character vectors holds.
pub open spec fn char_views(v: Seq<Vec<char>>) -> Seq<Seq<char>> {
    v.map_values(|x: Vec<char>| x@)
}

/// The characters of a string.
pub(crate) fn chars_of(s: &str) -> (r: Vec<char>)
    ensures
        r@ == s@,
{
    let mut r: Vec<char> = Vec::new();
    for c in it: s.chars()
        invariant
            it.seq() == s@,
            r@ == s@.take(it.index() as int),
    {
        r.push(c);
        assert(r@ =~= s@.take(it.index() + 1));
    }
    assert(s@.take(s@.len() as int) =~= s@);
    r
}

/// The string of some characters.
pub(crate) fn text_of(s: &[char]) -> (r: String)
    ensures
        r@ == s@,
{
    let mut r = String::new();
    for i in 0..s.len()
        invariant
            r@ == s@.take(i as int),
    {
        r.push(s[i]);
        assert(r@ =~= s@.take(i + 1));
    }
    assert(s@.take(s@.len() as int) =~= s@);
    r
}

/// Appends `more` to `r`.
pub(crate) fn extend(r: &mut Vec<char>, more: &[char])
    ensures
        final(r)@ == old(r)@ + more@,
{
    let ghost before = r@;
    for i in 0..more.len()
        invariant
            r@ == before + more@.take(i as int),
    {
        r.push(more[i]);
        assert(r@ =~= before + more@.take(i + 1));
    }
    assert(more@.take(more@.len() as int) =~= more@);
}

/// Does `pat` stand in `s` at `at`?
pub(crate) fn stands_at(s: &[char], pat: &[char], at: usize) -> (r: bool)
    requires
        at <= s@.len(),
    ensures
        r == matches_at(s@, pat@, at as int),
{
    if pat.len() > s.len() - at {
        return false;
    }
    for k in 0..pat.len()
        invariant
            at + pat@.len() <= s@.len(),
            s@.len() == s.len(),
            forall|j: int| 0 <= j < k ==> s@[at + j] == #[trigger] pat@[j],
    {
        if s[at + k] != pat[k] {
            assert(s@.subrange(at as int, at + pat@.len())[k as int] != pat@[k as int]);
            return false;
        }
    }
    assert(s@.subrange(at as int, at + pat@.len()) =~= pat@);
    true
}

/// Where does `pat` first stand in `s`, from `from` on?
pub(crate) fn find_at(s: &[char], pat: &[char], from: usize) -> (r: Option<usize>)
    requires
        from <= s@.len(),
    ensures
        match r {
            Some(i) => find_from(s@, pat@, from as int) == Some(i as int) && from <= i && i
                + pat@.len() <= s@.len(),
            None => find_from(s@, pat@, from as int) is None,
        },
{
    let mut i: usize = from;
    while i < s.len()
        invariant
            from <= i <= s@.len(),
            find_from(s@, pat@, from as int) == find_from(s@, pat@, i as int),
        decreases s@.len() - i,
    {
        if pat.len() > s.len() - i {
            return None;
        }
        if stands_at(s, pat, i) {
            return Some(i);
        }
        i += 1;
    }
    if stands_at(s, pat, i) {
        Some(i)
    } else {
        None
    }
}

/// Cuts `s` at each `sep`.
pub(crate) fn split_at_each(s: &[char], sep: &[char]) -> (r: Vec<Vec<char>>)
    requires
        sep@.len() > 0,
    ensures
        char_views(r@) == split(s@, sep@),
{
    let mut r: Vec<Vec<char>> = Vec::new();
    let mut from: usize = 0;
    assert(s@.skip(0) =~= s@);
    assert(char_views(r@) + split(s@.skip(0), sep@) =~= split(s@, sep@));
    loop
        invariant
            sep@.len() > 0,
            from <= s@.len(),
            char_views(r@) + split(s@.skip(from as int), sep@) == split(s@, sep@),
        decreases s@.len() - from,
    {
        let ghost rest = s@.skip(from as int);
        let ghost before = char_views(r@);
        proof {
            lemma_find_skip(s@, sep@, from as int);
        }
        match find_at(s, sep, from) {
            Some(i) => {
                let piece = slice_to_vec(slice_subrange(s, from, i));
                assert(piece@ =~= rest.take(i - from));
                r.push(piece);
                assert(char_views(r@) =~= before.push(rest.take(i - from)));
                assert(rest.skip(i - from + sep@.len()) =~= s@.skip(i + sep@.len()));
                assert(split(rest, sep@) == seq![rest.take(i - from)] + split(
                    s@.skip(i + sep@.len()),
                    sep@,
                ));
                assert(char_views(r@) + split(s@.skip(i + sep@.len()), sep@) =~= before + split(
                    rest,
                    sep@,
                ));
                assert(s@.len() == s.len());
                from = i + sep.len();
            },
            None => {
                let piece = slice_to_vec(slice_subrange(s, from, s.len()));
                assert(piece@ =~= rest);
                r.push(piece);
                assert(char_views(r@) =~= before + seq![rest]);
                return r;
            },
        }
    }
}

/// Puts `with` in the place of each `pat` in `s`.
pub(crate) fn replace_each(s: &[char], pat: &[char], with: &[char]) -> (r: Vec<char>)
    requires
        pat@.len() > 0,
    ensures
        r@ == replace(s@, pat@, with@),
{
    let mut r: Vec<char> = Vec::new();
    let mut from: usize = 0;
    assert(s@.skip(0) =~= s@);
    assert(r@ + replace(s@.skip(0), pat@, with@) =~= replace(s@, pat@, with@));
    loop
        invariant
            pat@.len() > 0,
            from <= s@.len(),
            r@ + replace(s@.skip(from as int), pat@, with@) == replace(s@, pat@, with@),
        decreases s@.len() - from,
    {
        let ghost rest = s@.skip(from as int);
        let ghost before = r@;
        proof {
            lemma_find_skip(s@, pat@, from as int);
        }
        match find_at(s, pat, from) {
            Some(i) => {
                extend(&mut r, slice_subrange(s, from, i));
                extend(&mut r, with);
                assert(s@.subrange(from as int, i as int) =~= rest.take(i - from));
                assert(rest.skip(i - from + pat@.len()) =~= s@.skip(i + pat@.len()));
                assert(r@ + replace(s@.skip(i + pat@.len()), pat@, with@) =~= before + replace(
                    rest,
                    pat@,
                    with@,
                ));
                assert(s@.len() == s.len());
                from = i + pat.len();
            },
            None => {
                extend(&mut r, slice_subrange(s, from, s.len()));
                assert(s@.subrange(from as int, s@.len() as int) =~= rest);
                return r;
            },
        }
    }
}

/// Drops the leading characters that `f` accepts; `p` is what `f` computes.
pub(crate) fn trim_start_matches<'a, F: Fn(char) -> bool>(
    s: &'a [char],
    f: F,
    Ghost(p): Ghost<spec_fn(char) -> bool>,
) -> (r: &'a [char])
    requires
        forall|c: char| call_requires(f, (c,)),
        forall|c: char, b: bool| call_ensures(f, (c,), b) ==> b == p(c),
    ensures
        r@ == trim_start_if(s@, p),
{
    let mut from: usize = 0;
    assert(s@.skip(0) =~= s@);
    while from < s.len() && f(s[from])
        invariant
            forall|c: char| call_requires(f, (c,)),
            forall|c: char, b: bool| call_ensures(f, (c,), b) ==> b == p(c),
            from <= s@.len(),
            trim_start_if(s@.skip(from as int), p) == trim_start_if(s@, p),
        ensures
            from <= s@.len(),
            trim_start_if(s@.skip(from as int), p) == trim_start_if(s@, p),
            from < s@.len() ==> !p(s@[from as int]),
        decreases s@.len() - from,
    {
        assert(s@.skip(from as int).drop_first() =~= s@.skip(from + 1));
        from += 1;
    }
    assert(s@.subrange(from as int, s@.len() as int) =~= s@.skip(from as int));
    slice_subrange(s, from, s.len())
}

/// Drops the leading and the trailing characters that `f` accepts; `p` is what
/// `f` computes.
pub(crate) fn trim_matches<'a, F: Fn(char) -> bool + Copy>(
    s: &'a [char],
    f: F,
    Ghost(p): Ghost<spec_fn(char) -> bool>,
) -> (r: &'a [char])
    requires
        forall|c: char| call_requires(f, (c,)),
        forall|c: char, b: bool| call_ensures(f, (c,), b) ==> b == p(c),
    ensures
        r@ == trim_if(s@, p),
{
    let t = trim_start_matches(s, f, Ghost(p));
    let mut to: usize = t.len();
    assert(t@.take(to as int) =~= t@);
    while to > 0 && f(t[to - 1])
        invariant
            forall|c: char| call_requires(f, (c,)),
            forall|c: char, b: bool| call_ensures(f, (c,), b) ==> b == p(c),
            to <= t@.len(),
            trim_end_if(t@.take(to as int), p) == trim_end_if(t@, p),
        ensures
            to <= t@.len(),
            trim_end_if(t@.take(to as int), p) == trim_end_if(t@, p),
            to > 0 ==> !p(t@[to - 1]),
        decreases to,
    {
        assert(t@.take(to as int).drop_last() =~= t@.take(to - 1));
        to -= 1;
    }
    assert(t@.subrange(0, to as int) =~= t@.take(to as int));
    slice_subrange(t, 0, to)
}

fn is_space(c: char) -> (r: bool)
    ensures
        r == white_space(c),
{
    c.is_whitespace()
}

/// Drops the white space around `s`.
pub(crate) fn trimmed<'a>(s: &'a [char]) -> (r: &'a [char])
    ensures
        r@ == trim(s@),
{
    trim_matches(s, is_space, Ghost(is_white()))
}

/// Does `s` hold nothing but white space?
pub(crate) fn is_blank(s: &[char]) -> (r: bool)
    ensures
        r == blank(s@),
{
    for i in 0..s.len()
        invariant
            forall|j: int| 0 <= j < i ==> white_space(#[trigger] s@[j]),
    {
        if !s[i].is_whitespace() {
            return false;
        }
    }
    true
}

/// Collects the words of `s`.
pub(crate) fn split_whitespace(s: &[char]) -> (r: Vec<Vec<char>>)
    ensures
        char_views(r@) == words(s@),
{
    let mut r: Vec<Vec<char>> = Vec::new();
    let mut from: usize = 0;
    assert(s@.skip(0) =~= s@);
    assert(char_views(r@) + words(s@.skip(0)) =~= words(s@));
    loop
        invariant
            from <= s@.len(),
            char_views(r@) + words(s@.skip(from as int)) == words(s@),
        decreases s@.len() - from,
    {
        let ghost rest = s@.skip(from as int);
        let ghost before = char_views(r@);
        let ghost t = trim_start_if(rest, is_white());
        proof {
            lemma_trim_start(rest, is_white());
            lemma_word_len(t);
        }
        let mut i: usize = from;
        while i < s.len() && s[i].is_whitespace()
            invariant
                from <= i <= s@.len(),
                trim_start_if(s@.skip(i as int), is_white()) == t,
            ensures
                from <= i <= s@.len(),
                trim_start_if(s@.skip(i as int), is_white()) == t,
                i < s@.len() ==> !white_space(s@[i as int]),
            decreases s@.len() - i,
        {
            assert(s@.skip(i as int).drop_first() =~= s@.skip(i + 1));
            i += 1;
        }
        assert(t =~= s@.skip(i as int));
        if i == s.len() {
            assert(char_views(r@) + words(rest) =~= char_views(r@));
            return r;
        }
        let mut to: usize = i;
        assert(s@.skip(to as int) =~= t);
        while to < s.len() && !s[to].is_whitespace()
            invariant
                i <= to <= s@.len(),
                word_len(t) == to - i + word_len(s@.skip(to as int)),
            ensures
                i <= to <= s@.len(),
                word_len(t) == to - i + word_len(s@.skip(to as int)),
                to < s@.len() ==> white_space(s@[to as int]),
            decreases s@.len() - to,
        {
            assert(s@.skip(to as int).drop_first() =~= s@.skip(to + 1));
            to += 1;
        }
        let word = slice_to_vec(slice_subrange(s, i, to));
        assert(word@ =~= t.take(word_len(t)));
        r.push(word);
        assert(char_views(r@) =~= before.push(t.take(word_len(t))));
        assert(t.skip(word_len(t)) =~= s@.skip(to as int));
        assert(char_views(r@) + words(s@.skip(to as int)) =~= before + words(rest));
        from = to;
    }
}

/// Writes a number in base ten.
pub(crate) fn decimal(n: u64) -> (r: String)
    ensures
        r@ == decimal_digits(n as nat),
    decreases n,
{
    let d: u8 = (n % 10) as u8;
    let c: char = (48u8 + d) as char;
    assert(c == digit_char((n % 10) as nat));
    if n < 10 {
        let mut r = String::new();
        r.push(c);
        assert(r@ =~= seq![digit_char(n as nat)]);
        r
    } else {
        let mut r = decimal(n / 10);
        r.push(c);
        r
    }
}

} // verus!
