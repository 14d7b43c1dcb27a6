//! Catalogue search: the address of a search and the reading of its result page.
use vstd::prelude::*;
use vstd::string::StringExecFns;

use crate::models::{search_results_view, SearchResult, SearchResultView};
use crate::page::{
    attr_at, attr_value, elements_view, html_select, matched, select_elements, url_encode,
    url_encoded, ScrapedElement,
};
use crate::text::{chars_of, concat, contains, contains_spec, starts_with, trim, trimmed};

verus! {

/// The address that searches the catalogue for `query`.
pub open spec fn search_url_spec(query: Seq<char>) -> Seq<char> {
    "https://animego.me/search/all?q="@ + url_encoded(query)
}

/// The address that searches the catalogue for `query`, the query percent-encoded.
pub fn search_url(query: &str) -> (url: String)
    ensures
        url@ == search_url_spec(query@),
{
    let encoded = url_encode(query);
    concat("https://animego.me/search/all?q=", encoded.as_str())
}

/// The CSS selector of the links to titles on a result page.
pub open spec fn title_link_selector() -> Seq<char> {
    "a[href^='/anime/'][title]"@
}

/// The attributes read of each link: `href`, then `title`.
pub open spec fn title_link_attrs() -> Seq<Seq<char>> {
    seq!["href"@, "title"@]
}

/// Whether a trimmed link points at a listing of the catalogue rather than at a title.
pub open spec fn is_listing_link(href: Seq<char>) -> bool {
    "/anime/status"@.is_prefix_of(href) || "/anime/season"@.is_prefix_of(href)
        || "/anime/random"@.is_prefix_of(href)
}

/// The hit that one link gives, if any: the trimmed `title` attribute (or, without one, the
/// trimmed text) as title, and the trimmed `href` made absolute as address; no hit when
/// the link has no `href`, points at a listing, has an empty title or does not start with
/// `/anime/`.
pub open spec fn search_hit(e: (Seq<Option<Seq<char>>>, Seq<char>)) -> Option<SearchResultView> {
    match attr_at(e, 0) {
        None => None,
        Some(raw_href) => {
            let href = trimmed(raw_href);
            let title = match attr_at(e, 1) {
                Some(t) => trimmed(t),
                None => trimmed(e.1),
            };
            if is_listing_link(href) || title.len() == 0 || !"/anime/"@.is_prefix_of(href) {
                None
            } else {
                let url = if "http"@.is_prefix_of(href) {
                    href
                } else {
                    "https://animego.me"@ + href
                };
                Some(SearchResultView { title, url })
            }
        },
    }
}

/// The hits of the links, in order.
pub open spec fn search_hits(es: Seq<(Seq<Option<Seq<char>>>, Seq<char>)>) -> Seq<SearchResultView>
    decreases es.len(),
{
    if es.len() == 0 {
        Seq::empty()
    } else {
        match search_hit(es.last()) {
            Some(h) => search_hits(es.drop_last()).push(h),
            None => search_hits(es.drop_last()),
        }
    }
}

/// `rs` with every hit dropped whose address equals that of the hit kept just before it.
pub open spec fn dedup_by_url(rs: Seq<SearchResultView>) -> Seq<SearchResultView>
    decreases rs.len(),
{
    if rs.len() == 0 {
        rs
    } else {
        let kept = dedup_by_url(rs.drop_last());
        if kept.len() > 0 && kept.last().url == rs.last().url {
            kept
        } else {
            kept.push(rs.last())
        }
    }
}

/// The results that a list of matched links gives.
pub open spec fn search_results_spec(es: Seq<(Seq<Option<Seq<char>>>, Seq<char>)>) -> Seq<
    SearchResultView,
> {
    dedup_by_url(search_hits(es))
}

/// Whether a result page says that nothing was found: it mentions `404` or is blank.
pub open spec fn empty_result_page(body: Seq<char>) -> bool {
    contains_spec(body, "404"@) || trimmed(body).len() == 0
}

/// Why a search gave no results.
#[derive(Debug, Clone, Copy, PartialEq, Eq)]
pub enum SearchError {
    /// The result page mentions `404` or is blank.
    NoResults,
}

/// The hit of one link, as [`search_hit`] states.
fn hit_of(e: &ScrapedElement) -> (r: Option<SearchResult>)
    ensures
        match r {
            Some(h) => search_hit(e@) == Some(h@),
            None => search_hit(e@) is None,
        },
{
    let raw_href = match attr_value(e, 0) {
        Some(h) => h,
        None => return None,
    };
    let href = trim(raw_href.as_str());
    let href_cs = chars_of(href.as_str());
    let title = match attr_value(e, 1) {
        Some(t) => trim(t.as_str()),
        None => trim(e.text.as_str()),
    };
    if starts_with(&href_cs, "/anime/status") || starts_with(&href_cs, "/anime/season")
        || starts_with(&href_cs, "/anime/random") {
        return None;
    }
    if title.as_str().is_empty() || !starts_with(&href_cs, "/anime/") {
        return None;
    }
    let url = if starts_with(&href_cs, "http") {
        href
    } else {
        concat("https://animego.me", href.as_str())
    };
    Some(SearchResult { title, url })
}

/// The search results that the matched title links give: the hits of the links in order,
/// each one dropped whose address repeats that of the result kept just before it.
pub fn search_results_from(elements: &Vec<ScrapedElement>) -> (r: Vec<SearchResult>)
    ensures
        search_results_view(r@) == search_results_spec(elements_view(elements@)),
{
    let ghost es = elements_view(elements@);
    let mut out: Vec<SearchResult> = Vec::new();
    let mut i: usize = 0;
    while i < elements.len()
        invariant
            i <= elements.len(),
            es == elements_view(elements@),
            search_results_view(out@) == dedup_by_url(search_hits(es.take(i as int))),
        decreases elements.len() - i,
    {
        assert(es.take(i + 1).drop_last() =~= es.take(i as int));
        assert(es.take(i + 1).last() == elements@[i as int]@);
        match hit_of(&elements[i]) {
            Some(h) => {
                let ghost before = search_results_view(out@);
                let ghost hits = search_hits(es.take(i as int));
                assert(search_hits(es.take(i + 1)) == hits.push(h@));
                assert(hits.push(h@).drop_last() =~= hits);
                let n = out.len();
                assert(n > 0 ==> before.last() == out@[n - 1]@);
                let repeat = n > 0 && out[n - 1].url == h.url;
                if !repeat {
                    out.push(h);
                    assert(search_results_view(out@) =~= before.push(out@[n as int]@));
                }
            },
            None => {},
        }
        i = i + 1;
    }
    assert(es.take(elements.len() as int) =~= es);
    out
}

/// Reads a search result page: no results when the page mentions `404` or is blank;
/// otherwise the results of the title links on it.
pub fn parse_search_results(body: &str) -> (r: Result<Vec<SearchResult>, SearchError>)
    ensures
        r is Err <==> empty_result_page(body@),
        r matches Ok(v) ==> search_results_view(v@) == search_results_spec(
            matched(html_select(body@, title_link_selector(), title_link_attrs())),
        ),
{
    if contains(body, "404") || trim(body).as_str().is_empty() {
        return Err(SearchError::NoResults);
    }
    let names = vec![String::from_str("href"), String::from_str("title")];
    assert(names.deep_view() =~= title_link_attrs());
    match select_elements(body, "a[href^='/anime/'][title]", &names) {
        Some(elements) => Ok(search_results_from(&elements)),
        None => Ok(Vec::new()),
    }
}

} // verus!
