//! The file names of downloaded pages and of uploads.
use crate::filename::{is_edge, safe_char, safe_filename, without_scheme};
use crate::laws::texts::{law_trim_takes_off_ends, law_trim_takes_off_white_space};
use crate::text::{decimal_digits, is_white, lemma_trim_end, matches_at, trim, trim_start_if};
use crate::unicode::{ascii, ascii_alphanumeric, unicode_alphanumeric, white_space};
use crate::upload::{candidate, extension, file_stem, last_dot, upload_url, Upload};
use vstd::prelude::*;

verus! {

/// The file name of what is left of a URL without its scheme.
proof fn lemma_safe_filename(url: Seq<char>, front: Seq<char>, m: Seq<char>, back: Seq<char>)
    requires
        without_scheme(url) == front + m + back,
        forall|i: int| 0 <= i < front.len() ==> #[trigger] front[i] == '.',
        forall|i: int| 0 <= i < back.len() ==> #[trigger] back[i] == '.',
        m.len() > 0 ==> m[0] != '.' && m.last() != '.',
    ensures
        safe_filename(url).len() == m.len(),
        forall|i: int|
            0 <= i < m.len() ==> #[trigger] safe_filename(url)[i] == if ascii_alphanumeric(m[i])
                || m[i] == '-' || m[i] == '.' || m[i] == '_' || (!ascii(m[i])
                && unicode_alphanumeric(m[i])) {
                m[i]
            } else {
                '_'
            },
{
    let safe = |c: char| safe_char(c);
    let x = front.map_values(safe);
    let name = m.map_values(safe);
    let y = back.map_values(safe);
    assert((front + m + back).map_values(safe) =~= x + name + y);
    assert forall|i: int| 0 <= i < x.len() implies is_edge()(#[trigger] x[i]) by {
        assert(front[i] == '.');
    }
    assert forall|i: int| 0 <= i < y.len() implies is_edge()(#[trigger] y[i]) by {
        assert(back[i] == '.');
    }
    law_trim_takes_off_ends(x, name, y, is_edge());
}

/// Of a URL that begins with `https://`, what follows is the file name: letters,
/// numbers, `-`, `.` and `_` stay, every other character becomes `_`, and dots
/// at the two ends are dropped.
pub proof fn law_filename_of_https_url(front: Seq<char>, m: Seq<char>, back: Seq<char>)
    requires
        forall|i: int| 0 <= i < front.len() ==> #[trigger] front[i] == '.',
        forall|i: int| 0 <= i < back.len() ==> #[trigger] back[i] == '.',
        m.len() > 0 ==> m[0] != '.' && m.last() != '.',
    ensures
        safe_filename("https://"@ + front + m + back).len() == m.len(),
        forall|i: int|
            0 <= i < m.len() ==> #[trigger] safe_filename("https://"@ + front + m + back)[i]
                == if ascii_alphanumeric(m[i]) || m[i] == '-' || m[i] == '.' || m[i] == '_' || (
            !ascii(m[i]) && unicode_alphanumeric(m[i])) {
                m[i]
            } else {
                '_'
            },
{
    reveal_strlit("https://");
    reveal_strlit("http://");
    let url = "https://"@ + front + m + back;
    assert(url[0] == 'h' && url[4] == 's');
    assert(trim_start_if(url, is_white()) == url);
    lemma_trim_end(url, is_white());
    if matches_at(trim(url), "http://"@, 0) {
        assert(trim(url).subrange(0, 7)[4] == url[4]);
    }
    assert(url.subrange(0, 8) =~= "https://"@);
    assert(url.skip(8) =~= front + m + back);
    lemma_safe_filename(url, front, m, back);
}

/// Of a URL that begins with `http://https://`, with white space around it or
/// not, what follows is the file name in the same way.
pub proof fn law_filename_of_doubled_url(
    before: Seq<char>,
    front: Seq<char>,
    m: Seq<char>,
    back: Seq<char>,
    after: Seq<char>,
)
    requires
        forall|i: int| 0 <= i < before.len() ==> white_space(#[trigger] before[i]),
        forall|i: int| 0 <= i < after.len() ==> white_space(#[trigger] after[i]),
        forall|i: int| 0 <= i < front.len() ==> #[trigger] front[i] == '.',
        forall|i: int| 0 <= i < back.len() ==> #[trigger] back[i] == '.',
        m.len() > 0 ==> m[0] != '.' && m.last() != '.',
        m.len() > 0 && back.len() == 0 ==> !white_space(m.last()),
    ensures
        safe_filename(before + ("http://https://"@ + front + m + back) + after).len() == m.len(),
        forall|i: int|
            0 <= i < m.len() ==> #[trigger] safe_filename(
                before + ("http://https://"@ + front + m + back) + after,
            )[i] == if ascii_alphanumeric(m[i]) || m[i] == '-' || m[i] == '.' || m[i] == '_' || (
            !ascii(m[i]) && unicode_alphanumeric(m[i])) {
                m[i]
            } else {
                '_'
            },
{
    reveal_strlit("https://");
    reveal_strlit("http://");
    reveal_strlit("http://https://");
    let middle = "http://https://"@ + front + m + back;
    let url = before + middle + after;
    if back.len() > 0 {
        assert(middle.last() == back[back.len() - 1]);
    } else if m.len() > 0 {
        assert(middle.last() == m.last());
    } else if front.len() > 0 {
        assert(middle.last() == front[front.len() - 1]);
    } else {
        assert(middle.last() == '/');
    }
    assert(middle[0] == 'h');
    law_trim_takes_off_white_space(before, middle, after);
    let rest = "https://"@ + (front + m + back);
    assert(middle.subrange(0, 7) =~= "http://"@);
    assert(middle.skip(7) =~= rest);
    assert(rest.subrange(0, 8) =~= "https://"@);
    assert(rest.skip(8) =~= front + m + back);
    lemma_safe_filename(url, front, m, back);
}

/// Of every other URL the whole is the file name in the same way, `http://`
/// included.
pub proof fn law_filename_of_other_url(front: Seq<char>, m: Seq<char>, back: Seq<char>)
    requires
        forall|i: int| 0 <= i < front.len() ==> #[trigger] front[i] == '.',
        forall|i: int| 0 <= i < back.len() ==> #[trigger] back[i] == '.',
        m.len() > 0 ==> m[0] != '.' && m.last() != '.',
        !matches_at(front + m + back, "https://"@, 0),
        !matches_at(trim(front + m + back), "http://https://"@, 0),
    ensures
        safe_filename(front + m + back).len() == m.len(),
        forall|i: int|
            0 <= i < m.len() ==> #[trigger] safe_filename(front + m + back)[i]
                == if ascii_alphanumeric(m[i]) || m[i] == '-' || m[i] == '.' || m[i] == '_' || (
            !ascii(m[i]) && unicode_alphanumeric(m[i])) {
                m[i]
            } else {
                '_'
            },
{
    reveal_strlit("https://");
    reveal_strlit("http://");
    reveal_strlit("http://https://");
    let url = front + m + back;
    let bare = trim(url);
    if matches_at(bare, "http://"@, 0) && matches_at(bare.skip(7), "https://"@, 0) {
        assert(bare.subrange(0, 15) =~= bare.subrange(0, 7) + bare.skip(7).subrange(0, 8));
        assert("http://"@ + "https://"@ =~= "http://https://"@);
    }
    lemma_safe_filename(url, front, m, back);
}

/// A dot with no dot behind it is the last dot of a name.
proof fn lemma_last_dot_is(stem: Seq<char>, ext: Seq<char>)
    requires
        !ext.contains('.'),
    ensures
        last_dot(stem + "."@ + ext) == Some(stem.len() as int),
    decreases ext.len(),
{
    reveal_strlit(".");
    let name = stem + "."@ + ext;
    if ext.len() == 0 {
        assert(name.last() == '.');
    } else {
        assert(ext.contains(ext[ext.len() - 1]));
        assert(name.last() == ext.last());
        assert(name.drop_last() =~= stem + "."@ + ext.drop_last());
        assert forall|i: int| 0 <= i < ext.drop_last().len() implies ext.drop_last()[i] != '.' by {
            assert(ext.contains(ext[i]));
        }
        lemma_last_dot_is(stem, ext.drop_last());
    }
}

/// A name without dots has no last dot.
proof fn lemma_no_last_dot(name: Seq<char>)
    requires
        !name.contains('.'),
    ensures
        last_dot(name) is None,
    decreases name.len(),
{
    if name.len() > 0 {
        assert(name.contains(name[name.len() - 1]));
        assert forall|i: int| 0 <= i < name.drop_last().len() implies name.drop_last()[i]
            != '.' by {
            assert(name.contains(name[i]));
        }
        lemma_no_last_dot(name.drop_last());
    }
}

/// Where a name is taken, the number goes before the extension, which is what
/// follows the last dot: `a.tar.gz` becomes `a.tar-1.gz`.
pub proof fn law_number_goes_before_extension(stem: Seq<char>, ext: Seq<char>, n: nat)
    requires
        stem.len() > 0,
        ext.len() > 0,
        !ext.contains('.'),
    ensures
        candidate(stem + "."@ + ext, 0) == stem + "."@ + ext,
        n > 0 ==> candidate(stem + "."@ + ext, n) == stem + "-"@ + decimal_digits(n) + "."@ + ext,
        file_stem(stem + "."@ + ext) == stem,
        extension(stem + "."@ + ext) == ext,
{
    reveal_strlit(".");
    let name = stem + "."@ + ext;
    lemma_last_dot_is(stem, ext);
    assert(name.take(stem.len() as int) =~= stem);
    assert(name.skip(stem.len() + 1int) =~= ext);
    assert(stem + "-"@ + decimal_digits(n) + ("."@ + ext) =~= stem + "-"@ + decimal_digits(n)
        + "."@ + ext);
}

/// A dot at the end of a name begins no extension, and is dropped where the name
/// gets a number.
pub proof fn law_number_takes_the_place_of_last_dot(stem: Seq<char>, n: nat)
    requires
        stem.len() > 0,
    ensures
        candidate(stem + "."@, 0) == stem + "."@,
        n > 0 ==> candidate(stem + "."@, n) == stem + "-"@ + decimal_digits(n),
{
    reveal_strlit(".");
    let none = Seq::<char>::empty();
    let name = stem + "."@;
    lemma_last_dot_is(stem, none);
    assert(stem + "."@ + none =~= name);
    assert(name.take(stem.len() as int) =~= stem);
    assert(name.skip(stem.len() + 1int) =~= none);
    assert(stem + "-"@ + decimal_digits(n) + none =~= stem + "-"@ + decimal_digits(n));
}

/// A name without an extension gets the number at its end; a dot at the front
/// begins no extension.
pub proof fn law_number_goes_to_the_end(name: Seq<char>, n: nat)
    requires
        !name.contains('.') || (name.len() > 0 && name[0] == '.' && !name.skip(1).contains('.')),
    ensures
        candidate(name, 0) == name,
        n > 0 ==> candidate(name, n) == name + "-"@ + decimal_digits(n),
{
    reveal_strlit(".");
    if !name.contains('.') {
        lemma_no_last_dot(name);
    } else {
        let none = Seq::<char>::empty();
        lemma_last_dot_is(none, name.skip(1));
        assert(none + "."@ + name.skip(1) =~= name);
    }
    assert(name + "-"@ + decimal_digits(n) + Seq::<char>::empty() =~= name + "-"@
        + decimal_digits(n));
}

/// Where a search stands is what the search holds.
pub proof fn law_upload_view(upload: Upload)
    ensures
        upload@.stem == upload.stem@,
        upload@.ext == upload.ext@,
        upload@.name == upload.name@,
        upload@.counter == upload.counter,
{
}

/// An uploaded file is found under its name in the directory of attachments.
pub proof fn law_upload_url(name: Seq<char>)
    ensures
        upload_url(name) == "/attachments/"@ + name,
{
}

} // verus!
