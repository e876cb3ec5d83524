//! What saving does to a text: its rules, its links and the pages to download.
use crate::draft::{
    download_for, is_link, link_text, link_words, ruled, stored_content, wanted_downloads,
    with_links, DownloadView,
};
use crate::filename::safe_filename;
use crate::laws::texts::{
    law_replace_at_first, law_replace_in_joined_texts, law_replace_nothing, law_stands_at,
    lemma_replace_parted, lemma_words_parted,
};
use crate::rules::lemma_ruled;
use crate::text::{
    blank, law_words_of_joined_texts, lemma_words, lemma_words_one, matches_at, occurs, replace,
    words,
};
use crate::unicode::white_space;
use vstd::prelude::*;

verus! {

/// What stands for a link, written out.
proof fn lemma_link_text(link: Seq<char>)
    ensures
        link_text(link) == link.skip(1) + " ([local copy](/attachments/webpages/"@ + safe_filename(
            link.skip(1),
        ) + ".html))"@,
{
    reveal_strlit(" ");
    reveal_strlit("([local copy](/");
    reveal_strlit("attachments/webpages/");
    reveal_strlit(" ([local copy](/attachments/webpages/");
    reveal_strlit(".html");
    reveal_strlit("))");
    reveal_strlit(".html))");
    assert(" "@ + "([local copy](/"@ + "attachments/webpages/"@
        =~= " ([local copy](/attachments/webpages/"@);
    assert(".html"@ + "))"@ =~= ".html))"@);
    let name = safe_filename(link.skip(1));
    assert(link_text(link) =~= link.skip(1) + (" "@ + "([local copy](/"@
        + "attachments/webpages/"@) + name + (".html"@ + "))"@));
}

/// The links of two lists of words.
proof fn lemma_links_join(a: Seq<Seq<char>>, b: Seq<Seq<char>>)
    ensures
        (a + b).filter(|word: Seq<char>| is_link(word)) == a.filter(
            |word: Seq<char>| is_link(word),
        ) + b.filter(|word: Seq<char>| is_link(word)),
{
    Seq::filter_distributes_over_add(a, b, |word: Seq<char>| is_link(word));
}

/// The links of a single word.
proof fn lemma_links_one(word: Seq<char>)
    requires
        word.len() > 0,
        forall|i: int| 0 <= i < word.len() ==> !white_space(#[trigger] word[i]),
    ensures
        link_words(word) == if is_link(word) {
            seq![word]
        } else {
            Seq::<Seq<char>>::empty()
        },
{
    let keep = |word: Seq<char>| is_link(word);
    let none = Seq::<Seq<char>>::empty();
    lemma_words_one(word);
    assert(none.push(word) =~= seq![word]);
    none.lemma_filter_push(word, keep);
    assert(none.filter(keep) =~= none) by {
        reveal(Seq::filter);
    }
}

/// A text of which no word begins with `+http` has no links.
proof fn lemma_no_links(s: Seq<char>)
    requires
        forall|k: int|
            0 <= k < words(s).len() ==> !matches_at(#[trigger] words(s)[k], "+http"@, 0),
    ensures
        link_words(s) == Seq::<Seq<char>>::empty(),
{
    let keep = |word: Seq<char>| is_link(word);
    if link_words(s).len() > 0 {
        words(s).lemma_filter_pred(keep, 0);
        words(s).lemma_filter_contains_rev(keep, link_words(s)[0]);
        let k = choose|k: int| 0 <= k < words(s).len() && words(s)[k] == link_words(s)[0];
        assert(!matches_at(words(s)[k], "+http"@, 0));
    }
    assert(link_words(s) =~= Seq::<Seq<char>>::empty());
}

/// Each link of a text is one of its words.
proof fn lemma_link_is_word(s: Seq<char>, i: int)
    requires
        0 <= i < link_words(s).len(),
    ensures
        is_link(link_words(s)[i]),
        exists|k: int| 0 <= k < words(s).len() && #[trigger] words(s)[k] == link_words(s)[i],
        link_words(s)[i].len() > 0,
        forall|j: int|
            0 <= j < link_words(s)[i].len() ==> !white_space(#[trigger] link_words(s)[i][j]),
{
    let keep = |word: Seq<char>| is_link(word);
    words(s).lemma_filter_pred(keep, i);
    words(s).lemma_filter_contains_rev(keep, link_words(s)[i]);
    let k = choose|k: int| 0 <= k < words(s).len() && words(s)[k] == link_words(s)[i];
    lemma_words(s, k);
}

/// Each `---` of a text is kept as `<hr>`, from the left, and a text without any
/// is kept so far.
pub proof fn law_rules_are_replaced(a: Seq<char>, b: Seq<char>)
    requires
        forall|j: int| 0 <= j < a.len() ==> !#[trigger] matches_at(a + "---"@ + b, "---"@, j),
    ensures
        ruled(a + "---"@ + b) == a + "<hr>"@ + ruled(b),
        (forall|j: int| !#[trigger] matches_at(b, "---"@, j)) ==> ruled(b) == b,
{
    reveal_strlit("---");
    law_replace_at_first(a, "---"@, b, "<hr>"@);
    if forall|j: int| !#[trigger] matches_at(b, "---"@, j) {
        law_replace_nothing(b, "---"@, "<hr>"@);
    }
}

/// The rules go first: a text and the text with `<hr>` for each of its `---` are
/// kept alike, and ask for the same pages.
pub proof fn law_rules_go_first(content: Seq<char>)
    ensures
        stored_content(content) == stored_content(replace(content, "---"@, "<hr>"@)),
        wanted_downloads(content) == wanted_downloads(replace(content, "---"@, "<hr>"@)),
{
    lemma_ruled(content);
    law_replace_nothing(ruled(content), "---"@, "<hr>"@);
}

/// Cutting a text at white space and putting in its rules can be done in either
/// order.
proof fn lemma_ruled_joined(a: Seq<char>, between: Seq<char>, b: Seq<char>)
    requires
        between.len() > 0,
        blank(between),
    ensures
        ruled(a + between + b) == ruled(a) + between + ruled(b),
        link_words(ruled(a + between + b)) == link_words(ruled(a)) + link_words(ruled(b)),
{
    reveal_strlit("---");
    law_replace_in_joined_texts(a, between, b, "---"@, "<hr>"@);
    law_words_of_joined_texts(ruled(a), between, ruled(b));
    lemma_links_join(words(ruled(a)), words(ruled(b)));
}

/// Every word that begins with `+http` asks for a page: the URL is the word
/// without its plus sign, and the copy goes to the directory for such copies,
/// under the file name of the URL.
pub proof fn law_link_is_downloaded(content: Seq<char>, k: int)
    requires
        0 <= k < words(replace(content, "---"@, "<hr>"@)).len(),
        matches_at(words(replace(content, "---"@, "<hr>"@))[k], "+http"@, 0),
    ensures
        ({
            let url = words(replace(content, "---"@, "<hr>"@))[k].skip(1);
            wanted_downloads(content).contains(
                (DownloadView {
                    url,
                    path: "attachments/webpages/"@ + safe_filename(url) + ".html"@,
                }),
            )
        }),
{
    let keep = |word: Seq<char>| is_link(word);
    let all = words(ruled(content));
    let links = link_words(ruled(content));
    all.lemma_filter_contains(keep, k);
    let i = choose|i: int| 0 <= i < links.len() && links[i] == all[k];
    assert(wanted_downloads(content)[i] == download_for(all[k]));
}

/// Nothing else is downloaded: each download comes from such a word.
pub proof fn law_download_comes_from_link(content: Seq<char>, i: int)
    requires
        0 <= i < wanted_downloads(content).len(),
    ensures
        exists|k: int|
            {
                &&& 0 <= k < words(replace(content, "---"@, "<hr>"@)).len()
                &&& matches_at(#[trigger] words(replace(content, "---"@, "<hr>"@))[k], "+http"@, 0)
                &&& wanted_downloads(content)[i].url == words(
                    replace(content, "---"@, "<hr>"@),
                )[k].skip(1)
                &&& wanted_downloads(content)[i].path == "attachments/webpages/"@ + safe_filename(
                    words(replace(content, "---"@, "<hr>"@))[k].skip(1),
                ) + ".html"@
            },
{
    lemma_link_is_word(ruled(content), i);
    let all = words(ruled(content));
    let k = choose|k: int| 0 <= k < all.len() && #[trigger] all[k] == link_words(ruled(content))[i];
    assert(wanted_downloads(content)[i] == download_for(all[k]));
    assert(matches_at(words(replace(content, "---"@, "<hr>"@))[k], "+http"@, 0));
}

/// A single word asks for one page where it begins with `+http`, and for none
/// where it does not.
pub proof fn law_downloads_of_one_word(word: Seq<char>)
    requires
        word.len() > 0,
        forall|i: int| 0 <= i < word.len() ==> !white_space(#[trigger] word[i]),
        !occurs(word, "---"@),
    ensures
        wanted_downloads(word) == if matches_at(word, "+http"@, 0) {
            seq![
                DownloadView {
                    url: word.skip(1),
                    path: "attachments/webpages/"@ + safe_filename(word.skip(1)) + ".html"@,
                },
            ]
        } else {
            Seq::<DownloadView>::empty()
        },
{
    law_replace_nothing(word, "---"@, "<hr>"@);
    lemma_links_one(word);
    if matches_at(word, "+http"@, 0) {
        assert(wanted_downloads(word) =~= seq![download_for(word)]);
    } else {
        assert(wanted_downloads(word) =~= Seq::<DownloadView>::empty());
    }
}

/// Two texts that white space joins ask for the pages of the one and then for
/// those of the other; a page that is asked for twice is listed twice.
pub proof fn law_downloads_of_joined_texts(a: Seq<char>, between: Seq<char>, b: Seq<char>)
    requires
        between.len() > 0,
        forall|i: int| 0 <= i < between.len() ==> white_space(#[trigger] between[i]),
    ensures
        wanted_downloads(a + between + b) == wanted_downloads(a) + wanted_downloads(b),
{
    lemma_ruled_joined(a, between, b);
    assert(wanted_downloads(a + between + b) =~= wanted_downloads(a) + wanted_downloads(b));
}

/// The links of a text with one link.
proof fn lemma_one_link(a: Seq<char>, word: Seq<char>, b: Seq<char>)
    requires
        is_link(word),
        word.len() > 0,
        forall|i: int| 0 <= i < word.len() ==> !white_space(#[trigger] word[i]),
        a.len() > 0 ==> white_space(a.last()),
        b.len() > 0 ==> white_space(b[0]),
        link_words(a) == Seq::<Seq<char>>::empty(),
        link_words(b) == Seq::<Seq<char>>::empty(),
    ensures
        link_words(a + word + b) == seq![word],
{
    lemma_words_parted(a + word, b);
    lemma_words_parted(a, word);
    lemma_links_join(words(a) + words(word), words(b));
    lemma_links_join(words(a), words(word));
    lemma_links_one(word);
    assert(link_words(a + word + b) =~= seq![word]);
}

/// Replacing a word that stands in a text once, with white space around it.
proof fn lemma_replace_word(a: Seq<char>, word: Seq<char>, b: Seq<char>, with: Seq<char>)
    requires
        word.len() > 0,
        forall|i: int| 0 <= i < word.len() ==> !white_space(#[trigger] word[i]),
        a.len() > 0 ==> white_space(a.last()),
        b.len() > 0 ==> white_space(b[0]),
        !occurs(a, word),
        !occurs(b, word),
    ensures
        replace(a + word + b, word, with) == a + with + b,
{
    lemma_replace_parted(a + word, b, word, with);
    lemma_replace_parted(a, word, word, with);
    law_replace_nothing(a, word, with);
    law_replace_nothing(b, word, with);
    assert(replace(word, word, with) == with) by {
        let none = Seq::<char>::empty();
        assert forall|j: int| !#[trigger] matches_at(none, word, j) by {
            law_stands_at(none, word, j);
        }
        law_replace_nothing(none, word, with);
        law_replace_at_first(none, word, none, with);
        assert(none + word + none =~= word);
        assert(none + with + none =~= with);
    }
}

/// A text with one word that begins with `+http` is kept with the URL and a link
/// to the local copy in the place of that word, and unchanged before and behind
/// it.
pub proof fn law_link_gets_local_copy(a: Seq<char>, word: Seq<char>, b: Seq<char>)
    requires
        matches_at(word, "+http"@, 0),
        forall|i: int| 0 <= i < word.len() ==> !white_space(#[trigger] word[i]),
        a.len() > 0 ==> white_space(a.last()),
        b.len() > 0 ==> white_space(b[0]),
        forall|k: int|
            0 <= k < words(a).len() ==> !matches_at(#[trigger] words(a)[k], "+http"@, 0),
        forall|k: int|
            0 <= k < words(b).len() ==> !matches_at(#[trigger] words(b)[k], "+http"@, 0),
        !occurs(a, word),
        !occurs(b, word),
        !occurs(a + word + b, "---"@),
    ensures
        stored_content(a + word + b) == a + word.skip(1)
            + " ([local copy](/attachments/webpages/"@ + safe_filename(word.skip(1)) + ".html))"@
            + b,
        wanted_downloads(a + word + b) == seq![
            DownloadView {
                url: word.skip(1),
                path: "attachments/webpages/"@ + safe_filename(word.skip(1)) + ".html"@,
            },
        ],
{
    let s = a + word + b;
    let url = word.skip(1);
    let copy = " ([local copy](/attachments/webpages/"@ + safe_filename(url) + ".html))"@;
    assert(word.len() > 0) by {
        reveal_strlit("+http");
    }
    law_replace_nothing(s, "---"@, "<hr>"@);
    assert(link_words(s) == seq![word]) by {
        lemma_no_links(a);
        lemma_no_links(b);
        lemma_one_link(a, word, b);
    }
    assert(with_links(s, seq![word]) == replace(s, word, link_text(word))) by {
        assert(seq![word].drop_last() =~= Seq::<Seq<char>>::empty());
        reveal_with_fuel(with_links, 2);
    }
    lemma_replace_word(a, word, b, link_text(word));
    assert(link_text(word) == url + copy) by {
        lemma_link_text(word);
        assert(url + " ([local copy](/attachments/webpages/"@ + safe_filename(url) + ".html))"@
            =~= url + copy);
    }
    assert(a + (url + copy) + b =~= a + url + " ([local copy](/attachments/webpages/"@
        + safe_filename(url) + ".html))"@ + b);
    assert(wanted_downloads(s) =~= seq![download_for(word)]);
}

/// A text without `---`, of which no word begins with `+http`, is kept as it was
/// written, and asks for no page.
pub proof fn law_other_text_is_kept(content: Seq<char>)
    requires
        !occurs(content, "---"@),
        forall|k: int|
            0 <= k < words(content).len() ==> !matches_at(
                #[trigger] words(content)[k],
                "+http"@,
                0,
            ),
    ensures
        stored_content(content) == content,
        wanted_downloads(content) == Seq::<DownloadView>::empty(),
{
    law_replace_nothing(content, "---"@, "<hr>"@);
    lemma_no_links(content);
    assert(wanted_downloads(content) =~= Seq::<DownloadView>::empty());
}

/// Replacing two lists of links is replacing those of the one and then those of
/// the other.
proof fn lemma_with_links_join(s: Seq<char>, a: Seq<Seq<char>>, b: Seq<Seq<char>>)
    ensures
        with_links(s, a + b) == with_links(with_links(s, a), b),
    decreases b.len(),
{
    if b.len() == 0 {
        assert(a + b =~= a);
    } else {
        assert((a + b).drop_last() =~= a + b.drop_last());
        assert((a + b).last() == b.last());
        lemma_with_links_join(s, a, b.drop_last());
    }
}

/// Links that do not stand in a text leave it as it is.
proof fn lemma_with_links_nothing(s: Seq<char>, links: Seq<Seq<char>>)
    requires
        forall|i: int| 0 <= i < links.len() ==> !occurs(s, #[trigger] links[i]),
    ensures
        with_links(s, links) == s,
    decreases links.len(),
{
    if links.len() > 0 {
        assert forall|i: int| 0 <= i < links.drop_last().len() implies !occurs(
            s,
            #[trigger] links.drop_last()[i],
        ) by {
            assert(links.drop_last()[i] == links[i]);
        }
        lemma_with_links_nothing(s, links.drop_last());
        assert(!occurs(s, links[links.len() - 1]));
        law_replace_nothing(s, links.last(), link_text(links.last()));
    }
}

/// Replacing links in two texts that white space joins is replacing them in each.
proof fn lemma_with_links_joined(
    a: Seq<char>,
    between: Seq<char>,
    b: Seq<char>,
    links: Seq<Seq<char>>,
)
    requires
        between.len() > 0,
        blank(between),
        forall|i: int|
            0 <= i < links.len() ==> (#[trigger] links[i]).len() > 0 && forall|j: int|
                0 <= j < links[i].len() ==> !white_space(#[trigger] links[i][j]),
    ensures
        with_links(a + between + b, links) == with_links(a, links) + between + with_links(b, links),
    decreases links.len(),
{
    if links.len() > 0 {
        let most = links.drop_last();
        assert forall|i: int| 0 <= i < most.len() implies (#[trigger] most[i]).len() > 0 && forall|
            j: int,
        |
            0 <= j < most[i].len() ==> !white_space(#[trigger] most[i][j]) by {
            assert(most[i] == links[i]);
        }
        lemma_with_links_joined(a, between, b, most);
        let link = links[links.len() - 1];
        law_replace_in_joined_texts(
            with_links(a, most),
            between,
            with_links(b, most),
            link,
            link_text(link),
        );
    }
}

/// Two texts that white space joins are kept as each of them is, with the white
/// space between them, as long as no link of the one stands in the other.
pub proof fn law_joined_texts_are_kept(a: Seq<char>, between: Seq<char>, b: Seq<char>)
    requires
        between.len() > 0,
        forall|i: int| 0 <= i < between.len() ==> white_space(#[trigger] between[i]),
        forall|k: int|
            0 <= k < words(replace(a, "---"@, "<hr>"@)).len() && matches_at(
                #[trigger] words(replace(a, "---"@, "<hr>"@))[k],
                "+http"@,
                0,
            ) ==> !occurs(
                replace(b, "---"@, "<hr>"@),
                words(replace(a, "---"@, "<hr>"@))[k],
            ),
        forall|k: int|
            0 <= k < words(replace(b, "---"@, "<hr>"@)).len() && matches_at(
                #[trigger] words(replace(b, "---"@, "<hr>"@))[k],
                "+http"@,
                0,
            ) ==> !occurs(stored_content(a), words(replace(b, "---"@, "<hr>"@))[k]),
    ensures
        stored_content(a + between + b) == stored_content(a) + between + stored_content(b),
{
    let ra = ruled(a);
    let rb = ruled(b);
    let la = link_words(ra);
    let lb = link_words(rb);
    lemma_ruled_joined(a, between, b);
    lemma_with_links_join(ra + between + rb, la, lb);
    assert forall|i: int| 0 <= i < la.len() implies (#[trigger] la[i]).len() > 0 && (forall|j: int|
        0 <= j < la[i].len() ==> !white_space(#[trigger] la[i][j])) && !occurs(rb, la[i]) by {
        lemma_link_is_word(ra, i);
        let k = choose|k: int| 0 <= k < words(ra).len() && #[trigger] words(ra)[k] == la[i];
        assert(matches_at(words(replace(a, "---"@, "<hr>"@))[k], "+http"@, 0));
    }
    assert forall|i: int| 0 <= i < lb.len() implies (#[trigger] lb[i]).len() > 0 && (forall|j: int|
        0 <= j < lb[i].len() ==> !white_space(#[trigger] lb[i][j])) && !occurs(
        stored_content(a),
        lb[i],
    ) by {
        lemma_link_is_word(rb, i);
        let k = choose|k: int| 0 <= k < words(rb).len() && #[trigger] words(rb)[k] == lb[i];
        assert(matches_at(words(replace(b, "---"@, "<hr>"@))[k], "+http"@, 0));
    }
    lemma_with_links_joined(ra, between, rb, la);
    lemma_with_links_nothing(rb, la);
    lemma_with_links_joined(stored_content(a), between, rb, lb);
    lemma_with_links_nothing(stored_content(a), lb);
}

/// The links are replaced one after the other, each wherever it stands in the
/// text as it then is: before its turn or behind it, alone or inside a longer
/// word. `steps` is the text after each of them.
pub proof fn law_links_are_replaced_in_turn(content: Seq<char>) -> (steps: Seq<Seq<char>>)
    ensures
        ({
            let links = words(replace(content, "---"@, "<hr>"@)).filter(
                |word: Seq<char>| matches_at(word, "+http"@, 0),
            );
            &&& steps.len() == links.len() + 1
            &&& steps[0] == replace(content, "---"@, "<hr>"@)
            &&& forall|i: int|
                0 <= i < links.len() ==> steps[i + 1] == replace(
                    steps[i],
                    #[trigger] links[i],
                    links[i].skip(1) + " ([local copy](/attachments/webpages/"@ + safe_filename(
                        links[i].skip(1),
                    ) + ".html))"@,
                )
            &&& stored_content(content) == steps.last()
            &&& wanted_downloads(content).len() == links.len()
            &&& forall|i: int|
                0 <= i < links.len() ==> #[trigger] wanted_downloads(content)[i] == (DownloadView {
                    url: links[i].skip(1),
                    path: "attachments/webpages/"@ + safe_filename(links[i].skip(1)) + ".html"@,
                })
        }),
{
    let links = link_words(ruled(content));
    let keep = |word: Seq<char>| matches_at(word, "+http"@, 0);
    assert(keep =~= (|word: Seq<char>| is_link(word)));
    assert(links == words(replace(content, "---"@, "<hr>"@)).filter(keep));
    let steps = Seq::new(
        links.len() + 1,
        |i: int| with_links(ruled(content), links.take(i)),
    );
    assert(links.take(links.len() as int) =~= links);
    assert(links.take(0) =~= Seq::<Seq<char>>::empty());
    assert forall|i: int| 0 <= i < links.len() implies steps[i + 1] == replace(
        steps[i],
        #[trigger] links[i],
        links[i].skip(1) + " ([local copy](/attachments/webpages/"@ + safe_filename(
            links[i].skip(1),
        ) + ".html))"@,
    ) by {
        assert(links.take(i + 1).drop_last() =~= links.take(i));
        assert(links.take(i + 1).last() == links[i]);
        lemma_link_text(links[i]);
    }
    steps
}

} // verus!
