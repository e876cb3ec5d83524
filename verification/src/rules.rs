//! Why no kept text holds a `---` that could be taken for the end of a note.
use crate::draft::{
    is_link, link_text, link_url, link_words, ruled, stored_content, with_links,
};
use crate::filename::{is_edge, safe_char, safe_filename, without_scheme};
use crate::text::{
    find, is_white, lemma_find_from, lemma_find_none, lemma_trim_end, lemma_trim_start,
    lemma_words, matches_at, occurs, replace, strip_prefix, trim, trim_if, trim_start_if, words,
};
use vstd::prelude::*;

verus! {

/// A text holds no `---`.
pub open spec fn no_rule(s: Seq<char>) -> bool {
    !occurs(s, "---"@)
}

/// What three dashes in a row are.
pub proof fn lemma_rule_at(s: Seq<char>, p: int)
    ensures
        matches_at(s, "---"@, p) <==> 0 <= p && p + 3 <= s.len() && s[p] == '-' && s[p + 1] == '-'
            && s[p + 2] == '-',
{
    reveal_strlit("---");
    if 0 <= p && p + 3 <= s.len() {
        let t = s.subrange(p, p + 3);
        if s[p] == '-' && s[p + 1] == '-' && s[p + 2] == '-' {
            assert(t =~= "---"@);
        }
        if t == "---"@ {
            assert(t[0] == s[p] && t[1] == s[p + 1] && t[2] == s[p + 2]);
        }
    }
}

/// A part of a text without rules has none.
proof fn lemma_part(s: Seq<char>, from: int, to: int)
    requires
        no_rule(s),
        0 <= from <= to <= s.len(),
    ensures
        no_rule(s.subrange(from, to)),
{
    let t = s.subrange(from, to);
    assert forall|p: int| !matches_at(t, "---"@, p) by {
        lemma_rule_at(t, p);
        lemma_rule_at(s, from + p);
    }
}

/// Two texts without rules have none when they are joined by a third that
/// neither begins nor ends with a dash.
pub proof fn lemma_join(a: Seq<char>, m: Seq<char>, b: Seq<char>)
    requires
        no_rule(a),
        no_rule(m),
        no_rule(b),
        m.len() > 0,
        m[0] != '-',
        m.last() != '-',
    ensures
        no_rule(a + m + b),
{
    let s = a + m + b;
    assert forall|p: int| !matches_at(s, "---"@, p) by {
        lemma_rule_at(s, p);
        lemma_rule_at(a, p);
        lemma_rule_at(m, p - a.len());
        lemma_rule_at(b, p - a.len() - m.len());
        if matches_at(s, "---"@, p) {
            let first = a.len() as int;
            let last = a.len() + m.len() - 1;
            assert(s[first] == m[0]);
            assert(s[last] == m.last());
            if p + 3 <= a.len() {
            } else if p < a.len() {
                assert(s[first] == '-');
            } else if p + 3 <= a.len() + m.len() {
            } else if p <= last {
                assert(s[last] == '-');
            } else {
            }
        }
    }
}

/// A text without dashes has no rules.
pub proof fn lemma_no_dash(s: Seq<char>)
    requires
        !s.contains('-'),
    ensures
        no_rule(s),
{
    assert forall|p: int| !matches_at(s, "---"@, p) by {
        lemma_rule_at(s, p);
    }
}

/// Replacing parts of a text without rules by a text without rules, which
/// neither begins nor ends with a dash, makes no rule.
pub proof fn lemma_replace(s: Seq<char>, pat: Seq<char>, with: Seq<char>)
    requires
        no_rule(s),
        no_rule(with),
        with.len() > 0,
        with[0] != '-',
        with.last() != '-',
    ensures
        no_rule(replace(s, pat, with)),
    decreases s.len(),
{
    lemma_find_from(s, pat, 0);
    match find(s, pat) {
        Some(i) => if pat.len() > 0 {
            let rest = s.skip(i + pat.len());
            lemma_part(s, 0, i);
            lemma_part(s, i + pat.len(), s.len() as int);
            assert(rest =~= s.subrange(i + pat.len(), s.len() as int));
            lemma_replace(rest, pat, with);
            lemma_join(s.take(i), with, replace(rest, pat, with));
        },
        None => {},
    }
}

/// No rule is left once each is replaced.
pub proof fn lemma_ruled(s: Seq<char>)
    ensures
        no_rule(ruled(s)),
    decreases s.len(),
{
    reveal_strlit("---");
    reveal_strlit("<hr>");
    lemma_find_from(s, "---"@, 0);
    lemma_find_none(s, "---"@);
    match find(s, "---"@) {
        Some(i) => {
            let rest = s.skip(i + 3);
            lemma_ruled(rest);
            let head = s.take(i);
            assert forall|p: int| !matches_at(head, "---"@, p) by {
                lemma_rule_at(head, p);
                lemma_rule_at(s, p);
            }
            assert(!"<hr>"@.contains('-'));
            lemma_no_dash("<hr>"@);
            lemma_join(head, "<hr>"@, ruled(rest));
        },
        None => {},
    }
}

/// A part of a text without rules has none.
proof fn lemma_occurrence(s: Seq<char>, part: Seq<char>)
    requires
        no_rule(s),
        occurs(s, part),
    ensures
        no_rule(part),
{
    let at = choose|at: int| matches_at(s, part, at);
    lemma_part(s, at, at + part.len());
}

/// A text without rules has none once it is trimmed.
proof fn lemma_trimmed(s: Seq<char>, p: spec_fn(char) -> bool)
    requires
        no_rule(s),
    ensures
        no_rule(trim_if(s, p)),
{
    let t = trim_start_if(s, p);
    lemma_trim_start(s, p);
    lemma_trim_end(t, p);
    lemma_part(s, s.len() - t.len(), s.len() as int);
    assert(t =~= s.subrange(s.len() - t.len(), s.len() as int));
    let n = trim_if(s, p).len() as int;
    lemma_part(t, 0, n);
    assert(trim_if(s, p) =~= t.subrange(0, n));
}

/// What follows a prefix in a text without rules has none.
proof fn lemma_stripped(s: Seq<char>, prefix: Seq<char>)
    requires
        no_rule(s),
    ensures
        strip_prefix(s, prefix) matches Some(rest) ==> no_rule(rest),
{
    if matches_at(s, prefix, 0) {
        lemma_part(s, prefix.len() as int, s.len() as int);
        assert(s.skip(prefix.len() as int) =~= s.subrange(prefix.len() as int, s.len() as int));
    }
}

/// The file name of a URL without rules has none.
proof fn lemma_filename(url: Seq<char>)
    requires
        no_rule(url),
    ensures
        no_rule(safe_filename(url)),
{
    lemma_trimmed(url, is_white());
    lemma_stripped(trim(url), "http://"@);
    let first = match strip_prefix(trim(url), "http://"@) {
        Some(rest) => rest,
        None => url,
    };
    lemma_stripped(first, "https://"@);
    let bare = without_scheme(url);
    let mapped = bare.map_values(|c: char| safe_char(c));
    assert forall|p: int| !matches_at(mapped, "---"@, p) by {
        lemma_rule_at(mapped, p);
        lemma_rule_at(bare, p);
    }
    lemma_trimmed(mapped, is_edge());
}

/// What stands in a note for a link without rules has none, and neither begins
/// nor ends with a dash.
proof fn lemma_link_text(link: Seq<char>)
    requires
        is_link(link),
        no_rule(link),
    ensures
        no_rule(link_text(link)),
        link_text(link).len() > 0,
        link_text(link)[0] != '-',
        link_text(link).last() != '-',
{
    reveal_strlit("+http");
    reveal_strlit(" ");
    reveal_strlit("([local copy](/");
    reveal_strlit("attachments/webpages/");
    reveal_strlit(".html");
    reveal_strlit("))");
    let url = link_url(link);
    let name = safe_filename(url);
    lemma_part(link, 1, link.len() as int);
    assert(url =~= link.subrange(1, link.len() as int));
    lemma_filename(url);
    let before = " "@ + "([local copy](/"@ + "attachments/webpages/"@;
    let after = ".html"@ + "))"@;
    assert(!before.contains('-'));
    assert(!after.contains('-'));
    lemma_no_dash(before);
    lemma_no_dash(after);
    lemma_join(url, before, name);
    let empty = Seq::<char>::empty();
    lemma_no_dash(empty);
    lemma_join(url + before + name, after, empty);
    assert(link_text(link) =~= url + before + name + after + empty);
    assert(link.subrange(0, 5)[1] == link[1]);
}

/// Putting links in their places makes no rule.
proof fn lemma_with_links(content: Seq<char>, links: Seq<Seq<char>>)
    requires
        no_rule(content),
        forall|i: int| 0 <= i < links.len() ==> is_link(#[trigger] links[i]) && no_rule(links[i]),
    ensures
        no_rule(with_links(content, links)),
    decreases links.len(),
{
    if links.len() > 0 {
        lemma_with_links(content, links.drop_last());
        lemma_link_text(links.last());
        lemma_replace(
            with_links(content, links.drop_last()),
            links.last(),
            link_text(links.last()),
        );
    }
}

/// No text that is kept holds a `---`, whatever was written.
pub proof fn law_stored_content_has_no_rule(content: Seq<char>)
    ensures
        no_rule(stored_content(content)),
{
    let base = ruled(content);
    let links = link_words(base);
    lemma_ruled(content);
    assert forall|i: int| 0 <= i < links.len() implies is_link(#[trigger] links[i]) && no_rule(
        links[i],
    ) by {
        let keep = |word: Seq<char>| is_link(word);
        words(base).lemma_filter_contains_rev(keep, links[i]);
        words(base).lemma_filter_pred(keep, i);
        let k = choose|k: int| 0 <= k < words(base).len() && words(base)[k] == links[i];
        lemma_words(base, k);
        lemma_occurrence(base, links[i]);
    }
    lemma_with_links(base, links);
}

} // verus!
