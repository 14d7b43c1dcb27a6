//! A title's page: its identifier, the list of its episodes, their order, and the address
//! of an episode's video.
use vstd::prelude::*;
use vstd::string::StringExecFns;

use crate::models::{Episode, EpisodeView, SearchResult};
use crate::page::{
    attr_at, attr_value, data_content_of_json, elements_view, first_attr, first_attr_value,
    found_elements, html_select, json_data_content, matched, select_elements, select_src,
    ScrapedElement,
};
use crate::text::{
    after_last, after_last_start, all_digits, char_is_ascii_digit, chars_of, concat, contains,
    contains_spec, count_char, has_two_of, is_ascii_digit, keep_digits, lemma_filter_insert,
    only_digits, opt_seq, parse_i32, parse_i32_spec, quoted_after, quoted_after_spec,
    string_from, trim, trim_end_char, trim_end_char_len, trimmed,
};

verus! {

// ---------------------------------------------------------------------------
// The identifier of a title.
// ---------------------------------------------------------------------------

/// The last path segment of an address, trailing `/` ignored.
pub open spec fn last_segment(url: Seq<char>) -> Seq<char> {
    after_last(trim_end_char(url, '/'), '/')
}

/// The identifier of a title: the part of the last segment of its address after the segment's
/// last `-` (the whole segment when it has none), when that part is a non-empty run of
/// ASCII digits.
pub open spec fn anime_id_spec(url: Seq<char>) -> Option<Seq<char>> {
    let tail = after_last(last_segment(url), '-');
    if tail.len() > 0 && all_digits(tail) {
        Some(tail)
    } else {
        None
    }
}

/// Whether `cs[lo..hi]` is made of ASCII digits only.
fn all_digits_in(cs: &Vec<char>, lo: usize, hi: usize) -> (r: bool)
    requires
        lo <= hi <= cs.len(),
    ensures
        r == all_digits(cs@.subrange(lo as int, hi as int)),
{
    let mut i = lo;
    while i < hi
        invariant
            lo <= i <= hi <= cs.len(),
            forall|j: int| lo <= j < i ==> is_ascii_digit(#[trigger] cs@[j]),
        decreases hi - i,
    {
        if !char_is_ascii_digit(cs[i]) {
            assert(cs@.subrange(lo as int, hi as int)[i - lo] == cs@[i as int]);
            return false;
        }
        i = i + 1;
    }
    assert forall|j: int| 0 <= j < hi - lo implies is_ascii_digit(
        #[trigger] cs@.subrange(lo as int, hi as int)[j],
    ) by {
        assert(cs@.subrange(lo as int, hi as int)[j] == cs@[lo + j]);
    }
    true
}

/// The identifier of the title at `url`, or an error when the last segment of its address
/// does not end in `-` and digits (or is not all digits).
pub fn extract_anime_id(url: &str) -> (r: Result<String, String>)
    ensures
        match r {
            Ok(id) => anime_id_spec(url@) == Some(id@),
            Err(e) => anime_id_spec(url@) is None && e@ == "Не удалось извлечь ID аниме из URL"@,
        },
{
    let cs = chars_of(url);
    let n = trim_end_char_len(&cs, '/');
    let k = after_last_start(&cs, n, '/');
    let segment = chars_of(string_from(&cs, k, n).as_str());
    let m = segment.len();
    assert(segment@.take(m as int) =~= segment@);
    let h = after_last_start(&segment, m, '-');
    if h < m && all_digits_in(&segment, h, m) {
        Ok(string_from(&segment, h, m))
    } else {
        Err(String::from_str("Не удалось извлечь ID аниме из URL"))
    }
}

// ---------------------------------------------------------------------------
// Episode references read from a page.
// ---------------------------------------------------------------------------

/// An episode as a title page lists it: its identifier and its number as written.
#[derive(Debug)]
pub struct EpisodeRef {
    pub id: String,
    pub number: String,
}

/// The model of an [`EpisodeRef`].
pub struct EpisodeRefView {
    pub id: Seq<char>,
    pub number: Seq<char>,
}

impl View for EpisodeRef {
    type V = EpisodeRefView;

    open spec fn view(&self) -> EpisodeRefView {
        EpisodeRefView { id: self.id@, number: self.number@ }
    }
}

impl EpisodeRef {
    /// A copy of the reference.
    pub fn copy(&self) -> (r: EpisodeRef)
        ensures
            r@ == self@,
    {
        EpisodeRef { id: self.id.clone(), number: self.number.clone() }
    }
}

pub open spec fn refs_view(v: Seq<EpisodeRef>) -> Seq<EpisodeRefView> {
    v.map_values(|r: EpisodeRef| r@)
}

/// How the elements of one kind of episode list are read.
#[derive(Debug, Clone, Copy, PartialEq, Eq)]
pub enum RefKind {
    /// Attributes (identifier, number), both required.
    Pair,
    /// Attributes (identifier, number); without a number, the digits of the trimmed text,
    /// and without those, the identifier.
    Item,
    /// Attribute `href`; its last path segment, when it parses as an `i32` and the address
    /// (trailing `/` removed) holds at least two `/`, is both identifier and number.
    Link,
}

/// The episode that one element gives, if any.
pub open spec fn element_ref(kind: RefKind, e: (Seq<Option<Seq<char>>>, Seq<char>)) -> Option<
    EpisodeRefView,
> {
    match kind {
        RefKind::Pair => match (attr_at(e, 0), attr_at(e, 1)) {
            (Some(id), Some(number)) => Some(EpisodeRefView { id, number }),
            _ => None,
        },
        RefKind::Item => match attr_at(e, 0) {
            None => None,
            Some(id) => {
                let number = match attr_at(e, 1) {
                    Some(n) => n,
                    None => {
                        let digits = only_digits(trimmed(e.1));
                        if digits.len() > 0 {
                            digits
                        } else {
                            id
                        }
                    },
                };
                Some(EpisodeRefView { id, number })
            },
        },
        RefKind::Link => match attr_at(e, 0) {
            None => None,
            Some(href) => {
                let t = trim_end_char(href, '/');
                let last = after_last(t, '/');
                if count_char(t, '/') >= 2 && parse_i32_spec(last) is Some {
                    Some(EpisodeRefView { id: last, number: last })
                } else {
                    None
                }
            },
        },
    }
}

/// The episodes that a list of elements gives, in order.
pub open spec fn element_refs(kind: RefKind, es: Seq<(Seq<Option<Seq<char>>>, Seq<char>)>) -> Seq<
    EpisodeRefView,
>
    decreases es.len(),
{
    if es.len() == 0 {
        Seq::empty()
    } else {
        match element_ref(kind, es.last()) {
            Some(r) => element_refs(kind, es.drop_last()).push(r),
            None => element_refs(kind, es.drop_last()),
        }
    }
}

fn element_ref_exec(kind: RefKind, e: &ScrapedElement) -> (r: Option<EpisodeRef>)
    ensures
        match r {
            Some(x) => element_ref(kind, e@) == Some(x@),
            None => element_ref(kind, e@) is None,
        },
{
    match kind {
        RefKind::Pair => match (attr_value(e, 0), attr_value(e, 1)) {
            (Some(id), Some(number)) => Some(EpisodeRef { id, number }),
            _ => None,
        },
        RefKind::Item => match attr_value(e, 0) {
            None => None,
            Some(id) => {
                let number = match attr_value(e, 1) {
                    Some(n) => n,
                    None => {
                        let inner = trim(e.text.as_str());
                        let digits = keep_digits(&chars_of(inner.as_str()));
                        if digits.len() > 0 {
                            string_from(&digits, 0, digits.len())
                        } else {
                            id.clone()
                        }
                    },
                };
                proof {
                    if attr_at(e@, 1) is None {
                        assert(only_digits(trimmed(e@.1)).len() > 0 ==> only_digits(
                            trimmed(e@.1),
                        ).subrange(0, only_digits(trimmed(e@.1)).len() as int) =~= only_digits(
                            trimmed(e@.1),
                        ));
                    }
                }
                Some(EpisodeRef { id, number })
            },
        },
        RefKind::Link => match attr_value(e, 0) {
            None => None,
            Some(href) => {
                let cs = chars_of(href.as_str());
                let n = trim_end_char_len(&cs, '/');
                let k = after_last_start(&cs, n, '/');
                let last = string_from(&cs, k, n);
                let lc = chars_of(last.as_str());
                if has_two_of(&cs, n, '/') && parse_i32(&lc).is_some() {
                    let number = last.clone();
                    Some(EpisodeRef { id: last, number })
                } else {
                    None
                }
            },
        },
    }
}

/// The episodes that the matched elements of one kind of list give, in order.
pub fn episode_refs(elements: &Vec<ScrapedElement>, kind: RefKind) -> (r: Vec<EpisodeRef>)
    ensures
        refs_view(r@) == element_refs(kind, elements_view(elements@)),
{
    let ghost es = elements_view(elements@);
    let mut out: Vec<EpisodeRef> = Vec::new();
    let mut i: usize = 0;
    while i < elements.len()
        invariant
            i <= elements.len(),
            es == elements_view(elements@),
            refs_view(out@) == element_refs(kind, es.take(i as int)),
        decreases elements.len() - i,
    {
        assert(es.take(i + 1).drop_last() =~= es.take(i as int));
        assert(es.take(i + 1).last() == elements@[i as int]@);
        match element_ref_exec(kind, &elements[i]) {
            Some(x) => {
                let ghost before = refs_view(out@);
                out.push(x);
                assert(refs_view(out@) =~= before.push(out@[out.len() - 1]@));
            },
            None => {},
        }
        i = i + 1;
    }
    assert(es.take(elements.len() as int) =~= es);
    out
}

/// The selectors of the episode lists a title page may hold, tried in this order.
pub open spec fn list_selector(n: int) -> Seq<char> {
    if n == 0 {
        "[data-episode-id][data-number]"@
    } else if n == 1 {
        "[data-episode][data-number]"@
    } else if n == 2 {
        ".episode-item[data-id]"@
    } else {
        "a[href*='/anime/'][href*='/']"@
    }
}

/// The attributes read of each element of those lists.
pub open spec fn list_attrs(n: int) -> Seq<Seq<char>> {
    if n == 0 {
        seq!["data-episode-id"@, "data-number"@]
    } else if n == 1 {
        seq!["data-episode"@, "data-number"@]
    } else if n == 2 {
        seq!["data-id"@, "data-number"@]
    } else {
        seq!["href"@]
    }
}

pub open spec fn list_kind(n: int) -> RefKind {
    if n <= 1 {
        RefKind::Pair
    } else if n == 2 {
        RefKind::Item
    } else {
        RefKind::Link
    }
}

/// The episodes of list `n` of the document `html`.
pub open spec fn list_refs(html: Seq<char>, n: int) -> Seq<EpisodeRefView> {
    element_refs(list_kind(n), matched(html_select(html, list_selector(n), list_attrs(n))))
}

/// The episodes of a title page: those of the first of its lists that gives any.
pub open spec fn page_episodes_spec(html: Seq<char>) -> Seq<EpisodeRefView> {
    if list_refs(html, 0).len() > 0 {
        list_refs(html, 0)
    } else if list_refs(html, 1).len() > 0 {
        list_refs(html, 1)
    } else if list_refs(html, 2).len() > 0 {
        list_refs(html, 2)
    } else {
        list_refs(html, 3)
    }
}

fn list_episodes(html: &str, n: usize) -> (r: Vec<EpisodeRef>)
    requires
        n <= 3,
    ensures
        refs_view(r@) == list_refs(html@, n as int),
{
    let (selector, names, kind) = if n == 0 {
        (
            "[data-episode-id][data-number]",
            vec![String::from_str("data-episode-id"), String::from_str("data-number")],
            RefKind::Pair,
        )
    } else if n == 1 {
        (
            "[data-episode][data-number]",
            vec![String::from_str("data-episode"), String::from_str("data-number")],
            RefKind::Pair,
        )
    } else if n == 2 {
        (
            ".episode-item[data-id]",
            vec![String::from_str("data-id"), String::from_str("data-number")],
            RefKind::Item,
        )
    } else {
        ("a[href*='/anime/'][href*='/']", vec![String::from_str("href")], RefKind::Link)
    };
    assert(selector@ == list_selector(n as int));
    assert(names.deep_view() =~= list_attrs(n as int));
    let elements = found_elements(select_elements(html, selector, &names));
    episode_refs(&elements, kind)
}

/// The episodes listed on a title page.
pub fn page_episodes(html: &str) -> (r: Vec<EpisodeRef>)
    ensures
        refs_view(r@) == page_episodes_spec(html@),
{
    let first = list_episodes(html, 0);
    if first.len() > 0 {
        return first;
    }
    let second = list_episodes(html, 1);
    if second.len() > 0 {
        return second;
    }
    let third = list_episodes(html, 2);
    if third.len() > 0 {
        return third;
    }
    list_episodes(html, 3)
}

// ---------------------------------------------------------------------------
// The schedule request, which may list more episodes than the page.
// ---------------------------------------------------------------------------

/// The address that loads the episode schedule of a title, from one of its episodes.
pub open spec fn schedule_load_url_spec(anime_id: Seq<char>, episode_id: Seq<char>) -> Seq<char> {
    "https://animego.me/anime/"@ + anime_id + "/"@ + episode_id + "/schedule/load"@
}

/// The address that loads the episode schedule of a title, from one of its episodes.
pub fn schedule_load_url(anime_id: &str, episode_id: &str) -> (url: String)
    ensures
        url@ == schedule_load_url_spec(anime_id@, episode_id@),
{
    let mut url = concat("https://animego.me/anime/", anime_id);
    url.append("/");
    url.append(episode_id);
    url.append("/schedule/load");
    url
}

/// The schedule to load once a title page is read: when the title's address gives an
/// identifier and the page lists episodes, the schedule from the last episode listed.
pub open spec fn schedule_request_spec(anime_url: Seq<char>, page: Seq<EpisodeRefView>) -> Option<
    Seq<char>,
> {
    if anime_id_spec(anime_url) is Some && page.len() > 0 {
        Some(schedule_load_url_spec(anime_id_spec(anime_url)->0, page.last().id))
    } else {
        None
    }
}

/// The schedule to load once a title page is read, if any.
pub fn schedule_request(anime_url: &str, page: &Vec<EpisodeRef>) -> (r: Option<String>)
    ensures
        match r {
            Some(u) => schedule_request_spec(anime_url@, refs_view(page@)) == Some(u@),
            None => schedule_request_spec(anime_url@, refs_view(page@)) is None,
        },
{
    match extract_anime_id(anime_url) {
        Ok(id) => {
            if page.len() > 0 {
                let last = &page[page.len() - 1];
                assert(refs_view(page@).last() == last@);
                Some(schedule_load_url(id.as_str(), last.id.as_str()))
            } else {
                None
            }
        },
        Err(_) => None,
    }
}

/// The episodes a schedule reply lists: those of the list of kind "episode and number"
/// in the HTML at `data.content` of the JSON reply.
pub open spec fn schedule_episodes_spec(body: Seq<char>) -> Seq<EpisodeRefView> {
    match json_data_content(body) {
        None => Seq::empty(),
        Some(content) => list_refs(content, 1),
    }
}

/// The episodes listed in the HTML content of a schedule reply, none without content.
pub fn schedule_content_episodes(content: Option<String>) -> (r: Vec<EpisodeRef>)
    ensures
        refs_view(r@) == match opt_seq(content) {
            None => Seq::empty(),
            Some(c) => list_refs(c, 1),
        },
{
    match content {
        None => {
            let v: Vec<EpisodeRef> = Vec::new();
            assert(refs_view(v@) =~= Seq::empty());
            v
        },
        Some(c) => list_episodes(c.as_str(), 1),
    }
}

/// The episodes a schedule reply lists.
pub fn schedule_episodes(body: &str) -> (r: Vec<EpisodeRef>)
    ensures
        refs_view(r@) == schedule_episodes_spec(body@),
{
    schedule_content_episodes(data_content_of_json(body))
}

/// The episodes of a title: those of its schedule when it lists any, else those of its page.
pub fn with_schedule(page: Vec<EpisodeRef>, schedule: Vec<EpisodeRef>) -> (r: Vec<EpisodeRef>)
    ensures
        r@ == if schedule@.len() > 0 {
            schedule@
        } else {
            page@
        },
{
    if schedule.len() > 0 {
        schedule
    } else {
        page
    }
}

// ---------------------------------------------------------------------------
// Ordering the episodes.
// ---------------------------------------------------------------------------

/// The number an episode is ordered by: its number parsed as an `i32`, 0 when it does not
/// parse.
pub open spec fn episode_key(r: EpisodeRefView) -> int {
    match parse_i32_spec(r.number) {
        Some(v) => v,
        None => 0,
    }
}

pub open spec fn has_key(k: int) -> spec_fn(EpisodeRefView) -> bool {
    |r: EpisodeRefView| episode_key(r) == k
}

/// The episodes of `s` whose number is `k`, in order.
pub open spec fn with_key(s: Seq<EpisodeRefView>, k: int) -> Seq<EpisodeRefView> {
    s.filter(has_key(k))
}

pub open spec fn sorted_by_number(s: Seq<EpisodeRefView>) -> bool {
    forall|i: int, j: int|
        0 <= i < j < s.len() ==> episode_key(#[trigger] s[i]) <= episode_key(#[trigger] s[j])
}

/// `after` is `before` sorted by number, episodes of equal number kept in their order.
pub open spec fn stably_sorted_by_number(
    before: Seq<EpisodeRefView>,
    after: Seq<EpisodeRefView>,
) -> bool {
    &&& after.len() == before.len()
    &&& sorted_by_number(after)
    &&& forall|k: int| #[trigger] with_key(after, k) == with_key(before, k)
}

/// The number an episode is ordered by.
pub fn number_key(number: &String) -> (k: i32)
    ensures
        k as int == episode_key(EpisodeRefView { id: Seq::empty(), number: number@ }),
{
    let cs = chars_of(number.as_str());
    match parse_i32(&cs) {
        Some(v) => v,
        None => 0,
    }
}

/// The episodes sorted by number; episodes of equal number keep their order.
pub fn sort_episodes(v: Vec<EpisodeRef>) -> (r: Vec<EpisodeRef>)
    ensures
        stably_sorted_by_number(refs_view(v@), refs_view(r@)),
{
    let ghost input = refs_view(v@);
    let mut out: Vec<EpisodeRef> = Vec::new();
    let mut keys: Vec<i32> = Vec::new();
    let mut i: usize = 0;
    while i < v.len()
        invariant
            i <= v.len(),
            input == refs_view(v@),
            out.len() == i,
            keys.len() == out.len(),
            forall|q: int| 0 <= q < out.len() ==> keys@[q] as int == episode_key(#[trigger] out@[q]@),
            sorted_by_number(refs_view(out@)),
            forall|k: int| #[trigger] with_key(refs_view(out@), k) == with_key(input.take(i as int), k),
        decreases v.len() - i,
    {
        let x = v[i].copy();
        let kx = number_key(&x.number);
        assert(episode_key(x@) == kx as int);
        let ghost old_out = refs_view(out@);
        let mut p = out.len();
        while p > 0 && keys[p - 1] > kx
            invariant
                p <= out.len(),
                keys.len() == out.len(),
                forall|q: int| 0 <= q < out.len() ==> keys@[q] as int == episode_key(#[trigger] out@[q]@),
                old_out == refs_view(out@),
                forall|q: int| p <= q < out.len() ==> episode_key(#[trigger] old_out[q]) > kx,
            decreases p,
        {
            assert(old_out[p - 1] == out@[p - 1]@);
            p = p - 1;
        }
        proof {
            assert forall|q: int| 0 <= q < p implies episode_key(#[trigger] old_out[q]) <= kx by {
                assert(old_out[p - 1] == out@[p - 1]@);
                if q < p - 1 {
                    assert(episode_key(old_out[q]) <= episode_key(old_out[p - 1]));
                }
            }
            assert forall|k: int| #[trigger] with_key(old_out.insert(p as int, x@), k) == with_key(
                input.take(i + 1),
                k,
            ) by {
                assert(old_out.len() == out.len());
                assert forall|q: int| p <= q < old_out.len() implies episode_key(
                    #[trigger] old_out[q],
                ) != k || !has_key(k)(x@) by {}
                lemma_filter_insert(old_out, p as int, x@, has_key(k));
                assert(input.take(i + 1) =~= input.take(i as int).push(x@));
                Seq::lemma_filter_push(input.take(i as int), x@, has_key(k));
                assert(with_key(old_out, k) == with_key(input.take(i as int), k));
            }
        }
        out.insert(p, x);
        keys.insert(p, kx);
        assert(refs_view(out@) =~= old_out.insert(p as int, x@));
        proof {
            let now = refs_view(out@);
            assert forall|a: int, b: int| 0 <= a < b < now.len() implies episode_key(
                #[trigger] now[a],
            ) <= episode_key(#[trigger] now[b]) by {
                if a < p && b < p {
                    assert(now[a] == old_out[a] && now[b] == old_out[b]);
                } else if a < p && b == p {
                    assert(now[a] == old_out[a]);
                } else if a < p {
                    assert(now[a] == old_out[a] && now[b] == old_out[b - 1]);
                } else if a == p {
                    assert(now[b] == old_out[b - 1]);
                } else {
                    assert(now[a] == old_out[a - 1] && now[b] == old_out[b - 1]);
                }
            }
            assert forall|q: int| 0 <= q < out.len() implies keys@[q] as int == episode_key(
                #[trigger] out@[q]@,
            ) by {
                assert(out@[q]@ == now[q]);
            }
        }
        i = i + 1;
    }
    assert(input.take(v.len() as int) =~= input);
    out
}

/// `s` with every episode dropped that equals one before it: each (identifier, number) pair
/// kept once, at its first place.
pub open spec fn dedup_refs(s: Seq<EpisodeRefView>) -> Seq<EpisodeRefView>
    decreases s.len(),
{
    if s.len() == 0 {
        s
    } else {
        let kept = dedup_refs(s.drop_last());
        if kept.contains(s.last()) {
            kept
        } else {
            kept.push(s.last())
        }
    }
}

/// Whether `out` already holds an episode equal to `x`.
fn holds_ref(out: &Vec<EpisodeRef>, x: &EpisodeRef) -> (r: bool)
    ensures
        r == refs_view(out@).contains(x@),
{
    let mut j: usize = 0;
    while j < out.len()
        invariant
            j <= out.len(),
            forall|q: int| 0 <= q < j ==> (#[trigger] refs_view(out@)[q]) != x@,
        decreases out.len() - j,
    {
        assert(refs_view(out@)[j as int] == out@[j as int]@);
        if out[j].id == x.id && out[j].number == x.number {
            assert(refs_view(out@)[j as int] == x@);
            return true;
        }
        j = j + 1;
    }
    false
}

/// The episodes with every repeat of an earlier one removed.
pub fn dedup_episodes(v: Vec<EpisodeRef>) -> (r: Vec<EpisodeRef>)
    ensures
        refs_view(r@) == dedup_refs(refs_view(v@)),
{
    let ghost input = refs_view(v@);
    let mut out: Vec<EpisodeRef> = Vec::new();
    let mut i: usize = 0;
    while i < v.len()
        invariant
            i <= v.len(),
            input == refs_view(v@),
            refs_view(out@) == dedup_refs(input.take(i as int)),
        decreases v.len() - i,
    {
        assert(input.take(i + 1).drop_last() =~= input.take(i as int));
        assert(input.take(i + 1).last() == v@[i as int]@);
        let ghost before = refs_view(out@);
        if !holds_ref(&out, &v[i]) {
            out.push(v[i].copy());
            assert(refs_view(out@) =~= before.push(v@[i as int]@));
        }
        i = i + 1;
    }
    assert(input.take(v.len() as int) =~= input);
    out
}

proof fn lemma_dedup_from(s: Seq<EpisodeRefView>)
    ensures
        forall|i: int|
            0 <= i < dedup_refs(s).len() ==> exists|j: int|
                0 <= j < s.len() && #[trigger] dedup_refs(s)[i] == s[j],
    decreases s.len(),
{
    if s.len() > 0 {
        let t = s.drop_last();
        lemma_dedup_from(t);
        let kept = dedup_refs(t);
        assert forall|i: int| 0 <= i < dedup_refs(s).len() implies exists|j: int|
            0 <= j < s.len() && #[trigger] dedup_refs(s)[i] == s[j] by {
            if i < kept.len() {
                let j = choose|j: int| 0 <= j < t.len() && kept[i] == t[j];
                assert(s[j] == t[j]);
            } else {
                assert(dedup_refs(s)[i] == s[s.len() - 1]);
            }
        }
    }
}

proof fn lemma_dedup_ordered(s: Seq<EpisodeRefView>)
    requires
        sorted_by_number(s),
    ensures
        sorted_by_number(dedup_refs(s)),
        forall|i: int, j: int|
            0 <= i < j < dedup_refs(s).len() ==> #[trigger] dedup_refs(s)[i]
                != #[trigger] dedup_refs(s)[j],
    decreases s.len(),
{
    if s.len() > 0 {
        let t = s.drop_last();
        assert(sorted_by_number(t)) by {
            assert forall|i: int, j: int| 0 <= i < j < t.len() implies episode_key(#[trigger] t[i])
                <= episode_key(#[trigger] t[j]) by {
                assert(t[i] == s[i] && t[j] == s[j]);
            }
        }
        lemma_dedup_ordered(t);
        lemma_dedup_from(t);
        let kept = dedup_refs(t);
        let d = dedup_refs(s);
        assert forall|i: int| 0 <= i < kept.len() implies episode_key(#[trigger] kept[i])
            <= episode_key(s.last()) by {
            let j = choose|j: int| 0 <= j < t.len() && kept[i] == t[j];
            assert(s[j] == t[j]);
        }
        assert forall|i: int, j: int| 0 <= i < j < d.len() implies episode_key(#[trigger] d[i])
            <= episode_key(#[trigger] d[j]) by {
            if j < kept.len() {
                assert(d[i] == kept[i] && d[j] == kept[j]);
            } else {
                assert(d[i] == kept[i]);
            }
        }
        assert forall|i: int, j: int| 0 <= i < j < d.len() implies #[trigger] d[i]
            != #[trigger] d[j] by {
            if j < kept.len() {
                assert(d[i] == kept[i] && d[j] == kept[j]);
            } else {
                assert(d[i] == kept[i]);
                assert(d[j] == s.last());
                assert(!kept.contains(s.last()));
            }
        }
    }
}

/// The episodes as the title view lists them: sorted by number (episodes of equal number
/// in their order), then with every repeat of an (identifier, number) pair removed.
pub fn order_episodes(v: Vec<EpisodeRef>) -> (r: Vec<EpisodeRef>)
    ensures
        exists|s: Seq<EpisodeRefView>|
            stably_sorted_by_number(refs_view(v@), s) && refs_view(r@) == #[trigger] dedup_refs(s),
        sorted_by_number(refs_view(r@)),
        forall|i: int, j: int|
            0 <= i < j < r.len() ==> #[trigger] refs_view(r@)[i] != #[trigger] refs_view(r@)[j],
{
    let sorted = sort_episodes(v);
    proof {
        lemma_dedup_ordered(refs_view(sorted@));
    }
    dedup_episodes(sorted)
}

/// Of `count` episodes, the position of the first one shown: only the last 20 are.
pub fn first_shown(count: usize) -> (start: usize)
    ensures
        start == if count < 20 {
            0
        } else {
            count - 20
        },
{
    if count < 20 {
        0
    } else {
        count - 20
    }
}

// ---------------------------------------------------------------------------
// The episode chosen, and the address of its video.
// ---------------------------------------------------------------------------

/// The page of one episode of a title.
pub open spec fn episode_page_url_spec(anime_id: Seq<char>, episode_id: Seq<char>) -> Seq<char> {
    "https://animego.me/anime/"@ + anime_id + "/"@ + episode_id
}

/// The page of one episode of a title.
pub fn episode_page_url(anime_id: &str, episode_id: &str) -> (url: String)
    ensures
        url@ == episode_page_url_spec(anime_id@, episode_id@),
{
    let mut url = concat("https://animego.me/anime/", anime_id);
    url.append("/");
    url.append(episode_id);
    url
}

/// The episode chosen from a title: its video address when one was found, else the page of
/// the episode, which can still be downloaded from.
pub fn chosen_episode(
    anime: &SearchResult,
    chosen: &EpisodeRef,
    anime_id: &str,
    video_url: Option<String>,
) -> (e: Episode)
    ensures
        e@ == (EpisodeView {
            number: chosen.number@,
            video_url: match video_url {
                Some(u) => u@,
                None => episode_page_url_spec(anime_id@, chosen.id@),
            },
            anime_title: anime.title@,
        }),
{
    let video_url = match video_url {
        Some(u) => u,
        None => episode_page_url(anime_id, chosen.id.as_str()),
    };
    Episode { number: chosen.number.clone(), video_url, anime_title: anime.title.clone() }
}

/// Whether a frame address points at one of the known video players.
pub open spec fn is_known_player(src: Seq<char>) -> bool {
    contains_spec(src, "kodik"@) || contains_spec(src, "videocdn"@) || contains_spec(
        src,
        "alloha"@,
    )
}

/// The video address of an episode page: the `src` of its first frame when that is a known
/// player; else the `src` of its first `source`; else the value after `data-player-src="`.
pub open spec fn video_url_spec(
    iframes: Seq<(Seq<Option<Seq<char>>>, Seq<char>)>,
    sources: Seq<(Seq<Option<Seq<char>>>, Seq<char>)>,
    html: Seq<char>,
) -> Option<Seq<char>> {
    let frame = first_attr(iframes);
    if frame is Some && is_known_player(frame->0) {
        frame
    } else if first_attr(sources) is Some {
        first_attr(sources)
    } else {
        quoted_after_spec(html, "data-player-src=\""@)
    }
}

/// The video address of an episode page, from its frames, its `source` elements and its text.
pub fn video_url_from(
    iframes: &Vec<ScrapedElement>,
    sources: &Vec<ScrapedElement>,
    html: &str,
) -> (r: Option<String>)
    ensures
        opt_seq(r) == video_url_spec(elements_view(iframes@), elements_view(sources@), html@),
{
    if let Some(src) = first_attr_value(iframes) {
        if contains(src.as_str(), "kodik") || contains(src.as_str(), "videocdn") || contains(
            src.as_str(),
            "alloha",
        ) {
            return Some(src);
        }
    }
    if let Some(src) = first_attr_value(sources) {
        return Some(src);
    }
    quoted_after(html, "data-player-src=\"")
}

/// The video address of the document `html`.
pub open spec fn page_video_url(html: Seq<char>) -> Option<Seq<char>> {
    video_url_spec(
        matched(html_select(html, "iframe"@, seq!["src"@])),
        matched(html_select(html, "source"@, seq!["src"@])),
        html,
    )
}

/// The video address found in an episode page, if any.
pub fn extract_video_url_from_html(html: &str) -> (r: Option<String>)
    ensures
        opt_seq(r) == page_video_url(html@),
{
    let iframes = select_src(html, "iframe");
    let sources = select_src(html, "source");
    video_url_from(&iframes, &sources, html)
}

/// The next step of the search for an episode's video once its title page is read.
#[derive(Debug)]
pub enum VideoLookup {
    /// The title page holds the video at this address.
    Found(String),
    /// The page holds none; the episode's schedule, at this address, is to be read next.
    TrySchedule(String),
    /// The page holds none and the title's address gives no identifier: no video.
    NotFound,
}

/// The step after reading the title page `page_html` of the title at `anime_url`, for the
/// episode `episode_id`: its video when the page holds one; else the episode's schedule
/// when the title's address gives an identifier; else nothing.
pub fn video_lookup(page_html: &str, anime_url: &str, episode_id: &str) -> (r: VideoLookup)
    ensures
        match r {
            VideoLookup::Found(u) => page_video_url(page_html@) == Some(u@),
            VideoLookup::TrySchedule(u) => {
                &&& page_video_url(page_html@) is None
                &&& anime_id_spec(anime_url@) is Some
                &&& u@ == schedule_load_url_spec(anime_id_spec(anime_url@)->0, episode_id@)
            },
            VideoLookup::NotFound => page_video_url(page_html@) is None && anime_id_spec(
                anime_url@,
            ) is None,
        },
{
    match extract_video_url_from_html(page_html) {
        Some(u) => VideoLookup::Found(u),
        None => match extract_anime_id(anime_url) {
            Ok(id) => VideoLookup::TrySchedule(schedule_load_url(id.as_str(), episode_id)),
            Err(_) => VideoLookup::NotFound,
        },
    }
}

/// The first episode of a list, if any.
pub fn select_episode(episodes: Vec<Episode>) -> (r: Result<Option<Episode>, String>)
    ensures
        r == Ok::<Option<Episode>, String>(
            if episodes@.len() > 0 {
                Some(episodes@[0])
            } else {
                None
            },
        ),
{
    let mut episodes = episodes;
    if episodes.len() > 0 {
        Ok(Some(episodes.remove(0)))
    } else {
        Ok(None)
    }
}

} // verus!
