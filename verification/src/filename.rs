//! File names for downloaded pages.
use crate::scan::{chars_of, stands_at, text_of, trim_matches, trimmed};
use crate::text::{
    lemma_trim_end, lemma_trim_part, lemma_trim_start, matches_at, strip_prefix, trim, trim_if,
    trim_start_if,
};
use crate::unicode::alphanumeric;
use vstd::prelude::*;
use vstd::slice::slice_subrange;

verus! {

/// A URL without its scheme. `https://` is dropped from the front, and so is
/// `http://https://`, before which white space may stand; every other URL is
/// kept whole.
pub open spec fn without_scheme(url: Seq<char>) -> Seq<char> {
    let first = match strip_prefix(trim(url), "http://"@) {
        Some(rest) => rest,
        None => url,
    };
    match strip_prefix(first, "https://"@) {
        Some(rest) => rest,
        None => url,
    }
}

/// The characters that a file name may hold.
pub open spec fn filename_char(c: char) -> bool {
    alphanumeric(c) || c == '-' || c == '.' || c == '_'
}

/// The character that stands for `c` in a file name.
pub open spec fn safe_char(c: char) -> char {
    if filename_char(c) {
        c
    } else {
        '_'
    }
}

/// The characters that no file name begins or ends with.
pub open spec fn is_edge() -> spec_fn(char) -> bool {
    |c: char| c == '.' || c == ' '
}

/// The file name of a URL.
pub open spec fn safe_filename(url: Seq<char>) -> Seq<char> {
    trim_if(without_scheme(url).map_values(|c: char| safe_char(c)), is_edge())
}

fn dot_or_space(c: char) -> (r: bool)
    ensures
        r == (c == '.' || c == ' '),
{
    c == '.' || c == ' '
}

/// Makes a file name of a URL.
pub fn url_to_safe_filename(url: &str) -> (r: String)
    ensures
        r@ == safe_filename(url@),
{
    let whole = chars_of(url);
    let http = chars_of("http://");
    let https = chars_of("https://");
    let bare = trimmed(whole.as_slice());
    let first: &[char] = if stands_at(bare, http.as_slice(), 0) {
        slice_subrange(bare, http.len(), bare.len())
    } else {
        whole.as_slice()
    };
    let stripped: &[char] = if stands_at(first, https.as_slice(), 0) {
        slice_subrange(first, https.len(), first.len())
    } else {
        whole.as_slice()
    };
    assert(stripped@ =~= without_scheme(url@));
    let mut name: Vec<char> = Vec::new();
    for i in 0..stripped.len()
        invariant
            name@ == stripped@.take(i as int).map_values(|c: char| safe_char(c)),
    {
        let c = stripped[i];
        let d: char = match c {
            '/' | '\\' | ':' | '*' | '?' | '"' | '<' | '>' | '|' => '_',
            _ => if c.is_alphanumeric() || c == '-' || c == '.' || c == '_' {
                c
            } else {
                '_'
            },
        };
        assert(d == safe_char(c));
        name.push(d);
        assert(name@ =~= stripped@.take(i + 1).map_values(|c: char| safe_char(c)));
    }
    assert(stripped@.take(stripped@.len() as int) =~= stripped@);
    text_of(trim_matches(name.as_slice(), dot_or_space, Ghost(is_edge())))
}

/// A file name made of a URL holds only letters, numbers, `-`, `.` and `_`, and
/// neither begins nor ends with a dot. So it names no other directory: it holds
/// no separator and is neither `.` nor `..`.
pub proof fn law_safe_filename(url: Seq<char>)
    ensures
        forall|i: int|
            0 <= i < safe_filename(url).len() ==> filename_char(#[trigger] safe_filename(url)[i]),
        !safe_filename(url).contains('/'),
        !safe_filename(url).contains('\\'),
        safe_filename(url).len() > 0 ==> safe_filename(url)[0] != '.' && safe_filename(url).last()
            != '.',
{
    let mapped = without_scheme(url).map_values(|c: char| safe_char(c));
    let t = trim_start_if(mapped, is_edge());
    lemma_trim_start(mapped, is_edge());
    lemma_trim_end(t, is_edge());
    let k = mapped.len() - t.len();
    assert forall|i: int| 0 <= i < safe_filename(url).len() implies filename_char(
        #[trigger] safe_filename(url)[i],
    ) by {
        assert(safe_filename(url)[i] == mapped[k + i]);
        assert(mapped[k + i] == safe_char(without_scheme(url)[k + i]));
    }
    if safe_filename(url).len() > 0 {
        assert(safe_filename(url)[0] == t[0]);
    }
}

/// Making a file name of a file name changes nothing.
pub proof fn law_filename_made_again_stays(url: Seq<char>)
    ensures
        safe_filename(safe_filename(url)) == safe_filename(url),
{
    reveal_strlit("http://");
    reveal_strlit("https://");
    law_safe_filename(url);
    let name = safe_filename(url);
    lemma_trim_part(name);
    let at = choose|at: int| matches_at(name, trim(name), at);
    if matches_at(trim(name), "http://"@, 0) {
        assert(trim(name).subrange(0, 7)[5] == name[at + 5]);
        assert(name.subrange(at, at + trim(name).len())[5] == name[at + 5]);
        assert(name.contains('/'));
    }
    if matches_at(name, "https://"@, 0) {
        assert(name.subrange(0, 8)[6] == name[6]);
        assert(name.contains('/'));
    }
    assert(without_scheme(name) == name);
    assert(name.map_values(|c: char| safe_char(c)) =~= name);
    if name.len() > 0 {
        assert(filename_char(name[0]) && filename_char(name[name.len() - 1]));
    }
}

} // verus!
