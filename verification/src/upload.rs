//! Names for uploaded files.
use crate::scan::{chars_of, decimal, text_of};
use crate::status::Status;
use crate::text::{decimal_digits, digit_char};
use vstd::prelude::*;
use vstd::slice::slice_subrange;
use vstd::string::StringExecFns;

verus! {

/// Where the last dot of a name stands.
pub open spec fn last_dot(name: Seq<char>) -> Option<int>
    decreases name.len(),
{
    if name.len() == 0 {
        None
    } else if name.last() == '.' {
        Some(name.len() - 1)
    } else {
        last_dot(name.drop_last())
    }
}

/// A file name without its extension. A dot at the front begins no extension.
pub open spec fn file_stem(name: Seq<char>) -> Seq<char> {
    match last_dot(name) {
        Some(i) => if i > 0 {
            name.take(i)
        } else {
            name
        },
        None => name,
    }
}

/// The extension of a file name: what follows its last dot.
pub open spec fn extension(name: Seq<char>) -> Seq<char> {
    match last_dot(name) {
        Some(i) => if i > 0 {
            name.skip(i + 1)
        } else {
            seq![]
        },
        None => seq![],
    }
}

/// The name that is tried where others are taken: the number stands between
/// the stem and the extension.
pub open spec fn numbered_name(stem: Seq<char>, ext: Seq<char>, n: nat) -> Seq<char> {
    stem + "-"@ + decimal_digits(n) + if ext.len() == 0 {
        seq![]
    } else {
        "."@ + ext
    }
}

/// The names that are tried for a file, in their order: first the name that was
/// asked for, then the numbered ones.
pub open spec fn candidate(name: Seq<char>, n: nat) -> Seq<char> {
    if n == 0 {
        name
    } else {
        numbered_name(file_stem(name), extension(name), n)
    }
}

/// The name with number `n` is free, and all before it are taken.
pub open spec fn first_free(name: Seq<char>, taken: Set<Seq<char>>, n: nat) -> bool {
    &&& !taken.contains(candidate(name, n))
    &&& forall|m: nat| m < n ==> taken.contains(#[trigger] candidate(name, m))
}

/// The search for a free name for an uploaded file.
#[derive(Debug)]
pub struct Upload {
    pub stem: String,
    pub ext: String,
    /// The name that is tried now.
    pub name: String,
    /// The number in the next name.
    pub counter: u32,
}

/// Where a search stands.
#[verifier::ext_equal]
pub struct UploadView {
    pub stem: Seq<char>,
    pub ext: Seq<char>,
    pub name: Seq<char>,
    pub counter: nat,
}

impl View for Upload {
    type V = UploadView;

    open spec fn view(&self) -> UploadView {
        UploadView {
            stem: self.stem@,
            ext: self.ext@,
            name: self.name@,
            counter: self.counter as nat,
        }
    }
}

/// The start of the search for a name.
pub open spec fn search_start(name: Seq<char>) -> UploadView {
    UploadView { stem: file_stem(name), ext: extension(name), name, counter: 1 }
}

/// The search once the name that was tried turned out to be taken.
pub open spec fn search_next(search: UploadView) -> UploadView {
    UploadView {
        name: numbered_name(search.stem, search.ext, search.counter),
        counter: search.counter + 1,
        ..search
    }
}

/// The search once `n` names turned out to be taken.
pub open spec fn search_after(name: Seq<char>, n: nat) -> UploadView
    decreases n,
{
    if n == 0 {
        search_start(name)
    } else {
        search_next(search_after(name, (n - 1) as nat))
    }
}

/// What to do next for an upload.
#[derive(Debug)]
pub enum UploadAction {
    /// Write the file under the name that was tried.
    Write,
    /// Try this name.
    Try(String),
}

/// Finds the last dot of a name.
fn find_last_dot(name: &[char]) -> (r: Option<usize>)
    ensures
        match r {
            Some(i) => last_dot(name@) == Some(i as int) && i < name@.len(),
            None => last_dot(name@) is None,
        },
{
    let mut n: usize = name.len();
    assert(name@.take(n as int) =~= name@);
    while n > 0
        invariant
            n <= name@.len(),
            last_dot(name@) == last_dot(name@.take(n as int)),
        decreases n,
    {
        assert(name@.take(n as int).drop_last() =~= name@.take(n - 1));
        assert(name@.take(n as int).last() == name@[n - 1]);
        if name[n - 1] == '.' {
            return Some(n - 1);
        }
        n -= 1;
    }
    None
}

impl Upload {
    /// Begins the search for a name.
    fn new(name: String) -> (r: Upload)
        ensures
            r@ == search_start(name@),
    {
        let chars = chars_of(name.as_str());
        match find_last_dot(chars.as_slice()) {
            Some(i) if i > 0 => {
                assert(chars@.len() == chars.len());
                let head = slice_subrange(chars.as_slice(), 0, i);
                let tail = slice_subrange(chars.as_slice(), i + 1, chars.len());
                assert(head@ =~= name@.take(i as int));
                assert(tail@ =~= name@.skip(i + 1));
                Upload { stem: text_of(head), ext: text_of(tail), name, counter: 1 }
            },
            _ => Upload { stem: name.clone(), ext: String::new(), name, counter: 1 },
        }
    }

    /// Decides what to do, once it is known whether the name that is tried is
    /// taken: a free one is used, after a taken one the next is tried.
    pub fn step(&mut self, taken: bool) -> (r: UploadAction)
        requires
            taken ==> old(self).counter < u32::MAX,
        ensures
            match r {
                UploadAction::Write => !taken && final(self)@ == old(self)@,
                UploadAction::Try(name) => taken && final(self)@ == search_next(old(self)@) && name@
                    == final(self)@.name,
            },
    {
        if !taken {
            return UploadAction::Write;
        }
        let mut name = self.stem.clone();
        name.append("-");
        let n = decimal(self.counter as u64);
        name.append(n.as_str());
        if !self.ext.as_str().is_empty() {
            name.append(".");
            name.append(self.ext.as_str());
        }
        assert(name@ =~= numbered_name(old(self)@.stem, old(self)@.ext, old(self)@.counter));
        self.name = name.clone();
        self.counter = self.counter + 1;
        UploadAction::Try(name)
    }
}

/// Where an uploaded file is found.
pub open spec fn upload_url(name: Seq<char>) -> Seq<char> {
    "/attachments/"@ + name
}

/// How an upload begins.
#[derive(Debug, PartialEq, Eq)]
pub enum UploadStart {
    /// Answer with this, and read and write nothing.
    Refuse(Status),
    /// Read the first field of the request.
    ReadField,
}

/// Begins an upload: in read-only mode it is refused before anything is read.
pub fn begin_upload(readonly: bool) -> (r: UploadStart)
    ensures
        r == if readonly {
            UploadStart::Refuse(Status::MethodNotAllowed)
        } else {
            UploadStart::ReadField
        },
{
    if readonly {
        UploadStart::Refuse(Status::MethodNotAllowed)
    } else {
        UploadStart::ReadField
    }
}

/// The first field of a request.
#[derive(Debug)]
pub enum UploadField {
    /// The request has no field.
    Absent,
    /// A file for a path with this file name, where the path has one.
    File(Option<String>),
}

impl Upload {
    /// Takes the first field of a request: without one there is nothing to
    /// upload, with one the search for a name begins.
    pub fn receive(field: UploadField) -> (r: Result<Upload, Status>)
        ensures
            match (field, r) {
                (UploadField::Absent, Err(status)) => status == Status::BadRequest,
                (UploadField::File(name), Ok(upload)) => upload@ == search_start(
                    match name {
                        Some(name) => name@,
                        None => seq![],
                    },
                ),
                _ => false,
            },
    {
        match field {
            UploadField::Absent => Err(Status::BadRequest),
            UploadField::File(Some(name)) => Ok(Upload::new(name)),
            UploadField::File(None) => Ok(Upload::new(String::new())),
        }
    }

    /// The answer, once the file is written under the name that was found or
    /// could not be written.
    pub fn finish(self, written: bool) -> (r: Result<String, Status>)
        ensures
            match r {
                Ok(url) => written && url@ == upload_url(self.name@),
                Err(status) => !written && status == Status::InternalServerError,
            },
    {
        if !written {
            return Err(Status::InternalServerError);
        }
        let mut url = "/attachments/".to_string();
        url.append(self.name.as_str());
        Ok(url)
    }
}

/// Two numbers have the same digits only where they are the same.
proof fn lemma_decimal_injective(a: nat, b: nat)
    requires
        decimal_digits(a) == decimal_digits(b),
    ensures
        a == b,
    decreases a,
{
    assert(forall|d: nat| d < 10 ==> #[trigger] digit_char(d) as int == 48 + d);
    let da = decimal_digits(a);
    let db = decimal_digits(b);
    if a >= 10 && b >= 10 {
        assert(da.drop_last() =~= decimal_digits(a / 10));
        assert(db.drop_last() =~= decimal_digits(b / 10));
        assert(da.last() == digit_char(a % 10));
        assert(db.last() == digit_char(b % 10));
        lemma_decimal_injective(a / 10, b / 10);
    } else if a >= 10 {
        assert(decimal_digits(a / 10).len() > 0);
        assert(da.len() >= 2);
    } else if b >= 10 {
        assert(decimal_digits(b / 10).len() > 0);
        assert(db.len() >= 2);
    } else {
        assert(da[0] == digit_char(a));
        assert(db[0] == digit_char(b));
    }
}

/// No name is tried twice: two numbers give two names.
pub proof fn law_numbered_names_differ(stem: Seq<char>, ext: Seq<char>, m: nat, n: nat)
    requires
        m != n,
    ensures
        numbered_name(stem, ext, m) != numbered_name(stem, ext, n),
{
    reveal_strlit("-");
    reveal_strlit(".");
    let x = numbered_name(stem, ext, m);
    let y = numbered_name(stem, ext, n);
    let head: int = stem.len() + 1int;
    let tail: int = if ext.len() == 0 {
        0
    } else {
        1 + ext.len() as int
    };
    if x == y {
        assert(x.subrange(head, x.len() - tail) =~= decimal_digits(m));
        assert(y.subrange(head, y.len() - tail) =~= decimal_digits(n));
        lemma_decimal_injective(m, n);
    }
}

/// No numbered name is the name that was asked for.
pub proof fn law_numbered_name_is_new(name: Seq<char>, n: nat)
    ensures
        numbered_name(file_stem(name), extension(name), n) != name,
{
    reveal_strlit("-");
    reveal_strlit(".");
    lemma_last_dot(name);
    assert(numbered_name(file_stem(name), extension(name), n).len() > name.len());
}

/// The last dot of a name stands in it.
proof fn lemma_last_dot(name: Seq<char>)
    ensures
        last_dot(name) matches Some(i) ==> 0 <= i < name.len(),
    decreases name.len(),
{
    if name.len() > 0 && name.last() != '.' {
        lemma_last_dot(name.drop_last());
    }
}

/// No two names that are tried for a file are the same.
pub proof fn law_candidates_differ(name: Seq<char>, m: nat, n: nat)
    requires
        m != n,
    ensures
        candidate(name, m) != candidate(name, n),
{
    if m == 0 {
        law_numbered_name_is_new(name, n);
    } else if n == 0 {
        law_numbered_name_is_new(name, m);
    } else {
        law_numbered_names_differ(file_stem(name), extension(name), m, n);
    }
}

/// After `n` names that are taken, the search tries the name with number `n`.
pub proof fn law_search_tries_candidates(name: Seq<char>, n: nat)
    ensures
        search_after(name, n) == (UploadView {
            stem: file_stem(name),
            ext: extension(name),
            name: candidate(name, n),
            counter: n + 1,
        }),
    decreases n,
{
    if n > 0 {
        law_search_tries_candidates(name, (n - 1) as nat);
    }
}

/// A search that goes on while the name it tries is taken, and stops at one that
/// is not, stops at the first free name.
pub proof fn law_search_stops_at_first_free(name: Seq<char>, taken: Set<Seq<char>>, n: nat)
    requires
        forall|m: nat| m < n ==> taken.contains((#[trigger] search_after(name, m)).name),
        !taken.contains(search_after(name, n).name),
    ensures
        search_after(name, n).name == candidate(name, n),
        first_free(name, taken, n),
{
    law_search_tries_candidates(name, n);
    assert forall|m: nat| m < n implies taken.contains(#[trigger] candidate(name, m)) by {
        law_search_tries_candidates(name, m);
        assert(taken.contains(search_after(name, m).name));
    }
}

/// There is only one first free name.
pub proof fn law_first_free_is_one(name: Seq<char>, taken: Set<Seq<char>>, m: nat, n: nat)
    requires
        first_free(name, taken, m),
        first_free(name, taken, n),
    ensures
        m == n,
{
    if m < n {
        assert(taken.contains(candidate(name, m)));
    } else if n < m {
        assert(taken.contains(candidate(name, n)));
    }
}

/// As many names are taken as there are candidates among them.
proof fn lemma_taken_candidates(name: Seq<char>, taken: Set<Seq<char>>, k: nat)
    requires
        taken.finite(),
        forall|m: nat| m < k ==> taken.contains(#[trigger] candidate(name, m)),
    ensures
        k <= taken.len(),
    decreases k,
{
    if k > 0 {
        let last = (k - 1) as nat;
        let rest = taken.remove(candidate(name, last));
        assert(taken.contains(candidate(name, last)));
        assert forall|m: nat| m < last implies rest.contains(#[trigger] candidate(name, m)) by {
            law_candidates_differ(name, m, last);
        }
        lemma_taken_candidates(name, rest, last);
    }
}

/// A candidate that is free has a first free one at or before it.
proof fn lemma_first_free_below(name: Seq<char>, taken: Set<Seq<char>>, k: nat)
    requires
        !taken.contains(candidate(name, k)),
    ensures
        exists|n: nat| n <= k && #[trigger] first_free(name, taken, n),
    decreases k,
{
    if !first_free(name, taken, k) {
        let m = choose|m: nat| m < k && !taken.contains(#[trigger] candidate(name, m));
        lemma_first_free_below(name, taken, m);
        let n = choose|n: nat| n <= m && #[trigger] first_free(name, taken, n);
        assert(n <= k && first_free(name, taken, n));
    }
}

/// The search ends: where some names are taken, a free one is found after no
/// more tries than there are names taken.
pub proof fn law_free_name_exists(name: Seq<char>, taken: Set<Seq<char>>)
    requires
        taken.finite(),
    ensures
        exists|n: nat| n <= taken.len() && #[trigger] first_free(name, taken, n),
{
    let k = taken.len();
    if forall|m: nat| m < k + 1 ==> taken.contains(#[trigger] candidate(name, m)) {
        lemma_taken_candidates(name, taken, k + 1);
    } else {
        let m = choose|m: nat| m < k + 1 && !taken.contains(#[trigger] candidate(name, m));
        lemma_first_free_below(name, taken, m);
        let n = choose|n: nat| n <= m && #[trigger] first_free(name, taken, n);
        assert(n <= k && first_free(name, taken, n));
    }
}

/// Two uploads of one name get two names, and neither file takes the place of
/// the other. `files` is what the directory holds by name: before the first
/// upload, and before the second, when all is still there that was there after
/// the first.
pub proof fn law_uploads_of_one_name_are_kept_apart(
    name: Seq<char>,
    files: Map<Seq<char>, Seq<u8>>,
    first_bytes: Seq<u8>,
    m: nat,
    later: Map<Seq<char>, Seq<u8>>,
    second_bytes: Seq<u8>,
    n: nat,
)
    requires
        first_free(name, files.dom(), m),
        files.insert(candidate(name, m), first_bytes).submap_of(later),
        first_free(name, later.dom(), n),
    ensures
        candidate(name, m) != candidate(name, n),
        upload_url(candidate(name, m)) != upload_url(candidate(name, n)),
        later.insert(candidate(name, n), second_bytes)[candidate(name, m)] == first_bytes,
        later.insert(candidate(name, n), second_bytes)[candidate(name, n)] == second_bytes,
        files.submap_of(later.insert(candidate(name, n), second_bytes)),
{
    let a = candidate(name, m);
    let b = candidate(name, n);
    let between = files.insert(a, first_bytes);
    assert(between.dom().contains(a));
    assert(later.dom().contains(a) && later[a] == between[a]);
    let dir = "/attachments/"@;
    if upload_url(a) == upload_url(b) {
        assert(upload_url(a).skip(dir.len() as int) =~= a);
        assert(upload_url(b).skip(dir.len() as int) =~= b);
    }
    assert forall|f: Seq<char>| #[trigger] files.dom().contains(f) implies later.insert(
        b,
        second_bytes,
    ).dom().contains(f) && later.insert(b, second_bytes)[f] == files[f] by {
        assert(f != a);
        assert(between.dom().contains(f) && between[f] == files[f]);
    }
}

} // verus!
