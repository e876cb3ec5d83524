//! What becomes of the text of a note before it is kept.
use crate::filename::{law_safe_filename, safe_filename, url_to_safe_filename};
use crate::scan::{char_views, chars_of, replace_each, split_whitespace, stands_at, text_of};
use crate::text::{lemma_find_none, matches_at, occurs, replace, words};
use vstd::prelude::*;
use vstd::slice::{slice_subrange, slice_to_vec};
use vstd::string::StringExecFns;

verus! {

/// A text with each `---` turned into a rule, so that it cannot be taken for
/// the end of a note.
pub open spec fn ruled(content: Seq<char>) -> Seq<char> {
    replace(content, "---"@, "<hr>"@)
}

/// A word that asks for a local copy of a page.
pub open spec fn is_link(word: Seq<char>) -> bool {
    matches_at(word, "+http"@, 0)
}

/// The words of a text that ask for a local copy, in their order.
pub open spec fn link_words(content: Seq<char>) -> Seq<Seq<char>> {
    words(content).filter(|word: Seq<char>| is_link(word))
}

/// The URL in such a word: the word without its plus sign.
pub open spec fn link_url(link: Seq<char>) -> Seq<char> {
    link.skip(1)
}

/// Where the local copy of a page is kept.
pub open spec fn page_path(url: Seq<char>) -> Seq<char> {
    "attachments/webpages/"@ + safe_filename(url) + ".html"@
}

/// The Markdown that points to a local copy.
pub open spec fn local_copy(path: Seq<char>) -> Seq<char> {
    "([local copy](/"@ + path + "))"@
}

/// What stands in a note for a word that asks for a local copy.
pub open spec fn link_text(link: Seq<char>) -> Seq<char> {
    link_url(link) + " "@ + local_copy(page_path(link_url(link)))
}

/// A text with each of the links replaced, one link after the other.
pub open spec fn with_links(content: Seq<char>, links: Seq<Seq<char>>) -> Seq<char>
    decreases links.len(),
{
    if links.len() == 0 {
        content
    } else {
        replace(with_links(content, links.drop_last()), links.last(), link_text(links.last()))
    }
}

/// The text that is kept of a note.
pub open spec fn stored_content(content: Seq<char>) -> Seq<char> {
    with_links(ruled(content), link_words(ruled(content)))
}

/// A page to download, and where its copy goes.
#[derive(Debug)]
pub struct Download {
    pub url: String,
    pub path: String,
}

/// What a download says.
#[verifier::ext_equal]
pub struct DownloadView {
    pub url: Seq<char>,
    pub path: Seq<char>,
}

impl View for Download {
    type V = DownloadView;

    open spec fn view(&self) -> DownloadView {
        DownloadView { url: self.url@, path: self.path@ }
    }
}

/// What a list of downloads says.
pub open spec fn download_views(downloads: Seq<Download>) -> Seq<DownloadView> {
    downloads.map_values(|d: Download| d@)
}

/// The download that a link asks for.
pub open spec fn download_for(link: Seq<char>) -> DownloadView {
    DownloadView { url: link_url(link), path: page_path(link_url(link)) }
}

/// The downloads that a text asks for, in the order of its links.
pub open spec fn wanted_downloads(content: Seq<char>) -> Seq<DownloadView> {
    link_words(ruled(content)).map_values(|link: Seq<char>| download_for(link))
}

/// Reads off a link what to download, and where to.
fn download_of(link: &[char]) -> (r: Download)
    requires
        is_link(link@),
    ensures
        r@ == download_for(link@),
{
    proof {
        reveal_strlit("+http");
    }
    let rest = slice_subrange(link, 1, link.len());
    assert(rest@ =~= link@.skip(1));
    let url = text_of(rest);
    let name = url_to_safe_filename(url.as_str());
    let mut path = "attachments/webpages/".to_string();
    path.append(name.as_str());
    path.append(".html");
    Download { url, path }
}

/// Writes the Markdown that points to a local copy.
pub fn local_copy_text(path: &str) -> (r: String)
    ensures
        r@ == local_copy(path@),
{
    let mut r = "([local copy](/".to_string();
    r.append(path);
    r.append("))");
    r
}

/// A note as it is about to be kept.
#[derive(Debug)]
pub struct Draft {
    /// The text of the note.
    pub content: String,
    /// The pages that it asks for.
    pub downloads: Vec<Download>,
}

/// Collects the words that ask for a local copy.
fn find_links(content: &[char]) -> (r: Vec<Vec<char>>)
    ensures
        char_views(r@) == link_words(content@),
{
    let plus = chars_of("+http");
    let found = split_whitespace(content);
    let mut r: Vec<Vec<char>> = Vec::new();
    let ghost all = char_views(found@);
    let ghost keep = |word: Seq<char>| is_link(word);
    for i in 0..found.len()
        invariant
            plus@ == "+http"@,
            all == char_views(found@),
            keep == (|word: Seq<char>| is_link(word)),
            char_views(r@) == all.take(i as int).filter(keep),
    {
        proof {
            reveal(Seq::filter);
            assert(all.take(i + 1).drop_last() =~= all.take(i as int));
            assert(all.take(i + 1).last() == found@[i as int]@);
        }
        if stands_at(found[i].as_slice(), plus.as_slice(), 0) {
            let ghost before = r@;
            let link = slice_to_vec(found[i].as_slice());
            r.push(link);
            assert(char_views(r@) =~= char_views(before).push(link@));
        }
    }
    assert(all.take(all.len() as int) =~= all);
    r
}

/// Prepares the text of a note.
pub fn prepare_content(content: &str) -> (r: Draft)
    ensures
        r.content@ == stored_content(content@),
        download_views(r.downloads@) == wanted_downloads(content@),
{
    proof {
        reveal_strlit("---");
        reveal_strlit("+http");
    }
    let base = replace_each(
        chars_of(content).as_slice(),
        chars_of("---").as_slice(),
        chars_of("<hr>").as_slice(),
    );
    let links = find_links(base.as_slice());
    let ghost all = char_views(links@);
    let mut text = base;
    let mut downloads: Vec<Download> = Vec::new();
    for i in 0..links.len()
        invariant
            "+http"@.len() == 5,
            all == char_views(links@),
            all == link_words(ruled(content@)),
            text@ == with_links(ruled(content@), all.take(i as int)),
            download_views(downloads@) == wanted_downloads(content@).take(i as int),
    {
        let link = links[i].as_slice();
        proof {
            let keep = |word: Seq<char>| is_link(word);
            words(ruled(content@)).lemma_filter_pred(keep, i as int);
            assert(all[i as int] == link@);
            assert(all.take(i + 1).drop_last() =~= all.take(i as int));
        }
        let download = download_of(link);
        let copy = local_copy_text(download.path.as_str());
        let mut with = download.url.clone();
        with.append(" ");
        with.append(copy.as_str());
        assert(with@ == link_text(link@));
        text = replace_each(text.as_slice(), link, chars_of(with.as_str()).as_slice());
        let ghost before = downloads@;
        downloads.push(download);
        assert(download_views(downloads@) =~= download_views(before).push(download_for(link@)));
        assert(download_views(downloads@) =~= wanted_downloads(content@).take(i + 1));
    }
    assert(all.take(all.len() as int) =~= all);
    assert(wanted_downloads(content@).take(all.len() as int) =~= wanted_downloads(content@));
    Draft { content: text_of(text.as_slice()), downloads }
}

/// A text without `---` and without words that ask for a local copy is kept as
/// it was written.
pub proof fn law_plain_content_is_kept(content: Seq<char>)
    requires
        !occurs(content, "---"@),
        forall|k: int| 0 <= k < words(content).len() ==> !is_link(#[trigger] words(content)[k]),
    ensures
        stored_content(content) == content,
        link_words(content).len() == 0,
{
    let keep = |word: Seq<char>| is_link(word);
    lemma_find_none(content, "---"@);
    if link_words(content).len() > 0 {
        let link = link_words(content)[0];
        words(content).lemma_filter_pred(keep, 0);
        words(content).lemma_filter_contains_rev(keep, link);
        let k = choose|k: int| 0 <= k < words(content).len() && words(content)[k] == link;
        assert(!is_link(words(content)[k]));
    }
}

/// The local copy of a page is kept in the directory for such copies and in no
/// other: behind the name of that directory no separator follows.
pub proof fn law_page_path_stays_inside(url: Seq<char>)
    ensures
        matches_at(page_path(url), "attachments/webpages/"@, 0),
        !page_path(url).skip("attachments/webpages/"@.len() as int).contains('/'),
        !page_path(url).skip("attachments/webpages/"@.len() as int).contains('\\'),
{
    reveal_strlit(".html");
    law_safe_filename(url);
    let dir = "attachments/webpages/"@;
    let rest = page_path(url).skip(dir.len() as int);
    let name = safe_filename(url);
    assert(page_path(url).subrange(0, dir.len() as int) =~= dir);
    assert(rest =~= name + ".html"@);
    assert forall|i: int| 0 <= i < rest.len() implies rest[i] != '/' && rest[i] != '\\' by {
        if i < name.len() {
            assert(rest[i] == name[i]);
            assert(name.contains(name[i]));
        }
    }
}

} // verus!
