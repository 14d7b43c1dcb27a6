//! Properties that hold across the library's functions.
use vstd::prelude::*;

use crate::download::{
    episode_file_name_spec, episode_file_path_spec, filename_char, iframe_src_spec,
    is_control_char, lex_le, listed_file_spec, sanitized, source_url_spec,
    stably_sorted_by_title, DirEntryView,
};
use crate::menu::{menu_choice_spec, MenuChoice};
use crate::models::{DownloadedFileView, SearchResultView};
use crate::page::{attr_at, html_select, matched};
use crate::search::{dedup_by_url, search_hit, search_hits, search_results_spec};
use crate::text::{
    after_last, all_digits, count_char, find_from_spec, occurs_at, trim_end, trim_end_char,
    trim_end_pattern, trim_start, trimmed, alphanumeric, white_space,
};
use crate::title::{anime_id_spec, page_episodes_spec, video_url_spec, RefKind, element_refs};

verus! {

// ---------------------------------------------------------------------------
// Trimming.
// ---------------------------------------------------------------------------

proof fn lemma_trim_start_shape(x: Seq<char>)
    ensures
        trim_start(x).len() <= x.len(),
        forall|i: int|
            0 <= i < trim_start(x).len() ==> #[trigger] trim_start(x)[i] == x[i + x.len()
                - trim_start(x).len()],
        trim_start(x).len() == 0 || !white_space(trim_start(x)[0]),
    decreases x.len(),
{
    if x.len() > 0 && white_space(x[0]) {
        lemma_trim_start_shape(x.drop_first());
    }
}

proof fn lemma_trim_end_shape(x: Seq<char>)
    ensures
        trim_end(x).len() <= x.len(),
        forall|i: int| 0 <= i < trim_end(x).len() ==> #[trigger] trim_end(x)[i] == x[i],
        trim_end(x).len() == 0 || !white_space(trim_end(x).last()),
        x.len() > 0 && !white_space(x[0]) ==> trim_end(x).len() > 0,
    decreases x.len(),
{
    if x.len() > 0 && white_space(x.last()) {
        lemma_trim_end_shape(x.drop_last());
    }
}

/// Every character of `trimmed(x)` is a character of `x`, and trimming twice trims once.
proof fn lemma_trimmed_shape(x: Seq<char>)
    ensures
        trimmed(trimmed(x)) == trimmed(x),
        forall|i: int|
            0 <= i < trimmed(x).len() ==> exists|j: int|
                0 <= j < x.len() && #[trigger] trimmed(x)[i] == x[j],
{
    let y = trim_start(x);
    lemma_trim_start_shape(x);
    let z = trim_end(y);
    lemma_trim_end_shape(y);
    if z.len() > 0 {
        assert(z[0] == y[0]);
    }
    assert(trim_start(z) == z);
    assert(trim_end(z) == z);
    assert forall|i: int| 0 <= i < z.len() implies exists|j: int|
        0 <= j < x.len() && #[trigger] z[i] == x[j] by {
        assert(z[i] == y[i]);
        assert(y[i] == x[i + x.len() - y.len()]);
    }
}

// ---------------------------------------------------------------------------
// File names.
// ---------------------------------------------------------------------------

/// Making a name safe for a file name twice changes nothing the first time did not.
pub proof fn law_sanitize_idempotent(name: Seq<char>)
    ensures
        sanitized(sanitized(name)) == sanitized(name),
{
    let m = name.map_values(|c: char| filename_char(c));
    let z = trimmed(m);
    lemma_trimmed_shape(m);
    assert forall|i: int| 0 <= i < z.len() implies filename_char(#[trigger] z[i]) == z[i] by {
        let j = choose|j: int| 0 <= j < m.len() && z[i] == m[j];
        assert(m[j] == filename_char(name[j]));
    }
    assert(z.map_values(|c: char| filename_char(c)) =~= z);
}

/// A name made safe for a file name holds only letters, digits and ASCII characters, and
/// neither `/` nor a control character other than white space, so it names a single file.
pub proof fn law_sanitized_characters(name: Seq<char>)
    ensures
        forall|i: int|
            0 <= i < sanitized(name).len() ==> {
                let c = #[trigger] sanitized(name)[i];
                &&& alphanumeric(c) || c <= '\u{7f}'
                &&& c != '/'
                &&& !is_control_char(c) || white_space(c) || white_space(c)
            },
{
    let m = name.map_values(|c: char| filename_char(c));
    let z = trimmed(m);
    lemma_trimmed_shape(m);
    assert forall|i: int| 0 <= i < z.len() implies {
        let c = #[trigger] z[i];
        &&& alphanumeric(c) || c <= '\u{7f}'
        &&& c != '/'
        &&& !is_control_char(c) || white_space(c)
    } by {
        let j = choose|j: int| 0 <= j < m.len() && z[i] == m[j];
        assert(m[j] == filename_char(name[j]));
    }
}

proof fn lemma_after_last_concat(a: Seq<char>, c: char, b: Seq<char>)
    requires
        forall|i: int| 0 <= i < b.len() ==> #[trigger] b[i] != c,
    ensures
        after_last(a + seq![c] + b, c) == b,
        count_char(a + seq![c] + b, c) >= 1,
    decreases b.len(),
{
    let s = a + seq![c] + b;
    if b.len() == 0 {
        assert(s.drop_last() =~= a);
    } else {
        let b2 = b.drop_last();
        assert(s.drop_last() =~= a + seq![c] + b2);
        lemma_after_last_concat(a, c, b2);
        assert(b2.push(b.last()) =~= b);
    }
}

/// A four-character extension that holds no `_` does not end `<title>_<number>` when it
/// does not end the number.
proof fn lemma_not_extension_suffix(t: Seq<char>, n: Seq<char>, p: Seq<char>)
    requires
        p.len() == 4,
        forall|i: int| 0 <= i < 4 ==> #[trigger] p[i] != '_',
        !p.is_suffix_of(n),
    ensures
        !p.is_suffix_of(t + seq!['_'] + n),
{
    let s = t + seq!['_'] + n;
    if p.is_suffix_of(s) {
        let tail = s.subrange(s.len() - 4, s.len() as int);
        if n.len() >= 4 {
            assert(tail =~= n.subrange(n.len() - 4, n.len() as int));
        } else {
            let k = 3 - n.len();
            assert(tail[k] == s[t.len() as int]);
        }
    }
}

/// An episode saved by download is listed back, from its file, with the title and the
/// number it was saved under (both made safe), provided the safe number holds no `_` and
/// does not end in `.mp4`, `.mkv` or `.avi`.
pub proof fn law_saved_file_listed_back(title: Seq<char>, number: Seq<char>)
    requires
        forall|i: int| 0 <= i < sanitized(number).len() ==> #[trigger] sanitized(number)[i] != '_',
        !".mp4"@.is_suffix_of(sanitized(number)),
        !".mkv"@.is_suffix_of(sanitized(number)),
        !".avi"@.is_suffix_of(sanitized(number)),
    ensures
        listed_file_spec(
            DirEntryView {
                path: episode_file_path_spec(title, number),
                name: episode_file_name_spec(title, number),
                utf8_name: Some(episode_file_name_spec(title, number)),
                is_file: true,
            },
        ) == Some(
            DownloadedFileView {
                file_path: episode_file_path_spec(title, number),
                anime_title: sanitized(title),
                episode_number: sanitized(number),
            },
        ),
{
    reveal_strlit("_");
    reveal_strlit(".mp4");
    reveal_strlit(".mkv");
    reveal_strlit(".avi");
    reveal_strlit("mp4");
    reveal_strlit("..");
    let ts = sanitized(title);
    let ns = sanitized(number);
    let name = episode_file_name_spec(title, number);
    let s = ts + seq!['_'] + ns;
    assert(name =~= s + seq!['.'] + "mp4"@);
    assert forall|i: int| 0 <= i < 3 implies #[trigger] "mp4"@[i] != '.' by {}
    lemma_after_last_concat(s, '.', "mp4"@);
    assert(name.len() > 2);
    assert(name != ".."@);
    assert forall|i: int| 0 <= i < ns.len() implies #[trigger] ns[i] != '_' by {}
    lemma_after_last_concat(ts, '_', ns);
    assert(".mp4"@.is_suffix_of(name));
    assert(name.subrange(0, name.len() - 4) =~= s);
    lemma_not_extension_suffix(ts, ns, ".mp4"@);
    lemma_not_extension_suffix(ts, ns, ".mkv"@);
    lemma_not_extension_suffix(ts, ns, ".avi"@);
    assert(trim_end_pattern(s, ".mp4"@) == s);
    assert(trim_end_pattern(name, ".mp4"@) == s);
    assert(trim_end_pattern(s, ".mkv"@) == s);
    assert(trim_end_pattern(s, ".avi"@) == s);
    assert(s.take(s.len() - ns.len() - 1) =~= ts);
}

// ---------------------------------------------------------------------------
// Search results.
// ---------------------------------------------------------------------------

/// What every search result satisfies: a title, and an address on the site under `/anime/`.
pub open spec fn well_formed_hit(r: SearchResultView) -> bool {
    r.title.len() > 0 && "https://animego.me/anime/"@.is_prefix_of(r.url)
}

/// Whether an address lies under one of the catalogue's listings.
spec fn listing_address(url: Seq<char>) -> bool {
    ||| "https://animego.me/anime/season"@.is_prefix_of(url)
    ||| "https://animego.me/anime/status"@.is_prefix_of(url)
    ||| "https://animego.me/anime/random"@.is_prefix_of(url)
}

/// What begins `base + href` after `base` begins `href`.
proof fn lemma_prefix_after_base(base: Seq<char>, q: Seq<char>, href: Seq<char>)
    requires
        (base + q).is_prefix_of(base + href),
    ensures
        q.is_prefix_of(href),
{
    let s = base + href;
    assert forall|i: int| 0 <= i < q.len() implies #[trigger] href[i] == q[i] by {
        assert((base + q)[base.len() + i] == s.subrange(0, (base + q).len() as int)[base.len()
            + i]);
    }
    assert(href.subrange(0, q.len() as int) =~= q);
}

proof fn lemma_hit_outside_listings(e: (Seq<Option<Seq<char>>>, Seq<char>))
    ensures
        search_hit(e) matches Some(r) ==> !listing_address(r.url),
{
    reveal_strlit("http");
    reveal_strlit("/anime/");
    reveal_strlit("/anime/season");
    reveal_strlit("/anime/status");
    reveal_strlit("/anime/random");
    reveal_strlit("https://animego.me");
    reveal_strlit("https://animego.me/anime/season");
    reveal_strlit("https://animego.me/anime/status");
    reveal_strlit("https://animego.me/anime/random");
    if let Some(r) = search_hit(e) {
        let href = trimmed(attr_at(e, 0)->0);
        let base = "https://animego.me"@;
        assert(href.subrange(0, 7)[0] == href[0]);
        assert(!"http"@.is_prefix_of(href));
        assert(r.url == base + href);
        assert("https://animego.me/anime/season"@ =~= base + "/anime/season"@);
        assert("https://animego.me/anime/status"@ =~= base + "/anime/status"@);
        assert("https://animego.me/anime/random"@ =~= base + "/anime/random"@);
        if "https://animego.me/anime/season"@.is_prefix_of(r.url) {
            lemma_prefix_after_base(base, "/anime/season"@, href);
        }
        if "https://animego.me/anime/status"@.is_prefix_of(r.url) {
            lemma_prefix_after_base(base, "/anime/status"@, href);
        }
        if "https://animego.me/anime/random"@.is_prefix_of(r.url) {
            lemma_prefix_after_base(base, "/anime/random"@, href);
        }
    }
}

proof fn lemma_hits_outside_listings(es: Seq<(Seq<Option<Seq<char>>>, Seq<char>)>)
    ensures
        forall|i: int|
            0 <= i < search_hits(es).len() ==> !listing_address(#[trigger] search_hits(es)[i].url),
    decreases es.len(),
{
    if es.len() > 0 {
        lemma_hits_outside_listings(es.drop_last());
        lemma_hit_outside_listings(es.last());
        let prev = search_hits(es.drop_last());
        assert forall|i: int| 0 <= i < search_hits(es).len() implies !listing_address(
            #[trigger] search_hits(es)[i].url,
        ) by {
            if i < prev.len() {
                assert(search_hits(es)[i] == prev[i]);
            }
        }
    }
}

/// A link whose trimmed `href` starts with `/anime/season`, `/anime/status` or
/// `/anime/random` points at a listing of the catalogue, not at a title: it gives no search
/// result.
pub proof fn law_listing_link_gives_no_hit(e: (Seq<Option<Seq<char>>>, Seq<char>), href: Seq<char>)
    requires
        attr_at(e, 0) == Some(href),
        "/anime/season"@.is_prefix_of(trimmed(href)) || "/anime/status"@.is_prefix_of(
            trimmed(href),
        ) || "/anime/random"@.is_prefix_of(trimmed(href)),
    ensures
        search_hit(e) is None,
{
}

/// No search result points into a listing of the catalogue: no result's address begins
/// with `https://animego.me/anime/season`, `https://animego.me/anime/status` or
/// `https://animego.me/anime/random`.
pub proof fn law_search_results_outside_listings(es: Seq<(Seq<Option<Seq<char>>>, Seq<char>)>)
    ensures
        forall|i: int|
            0 <= i < search_results_spec(es).len() ==> {
                let url = (#[trigger] search_results_spec(es)[i]).url;
                &&& !"https://animego.me/anime/season"@.is_prefix_of(url)
                &&& !"https://animego.me/anime/status"@.is_prefix_of(url)
                &&& !"https://animego.me/anime/random"@.is_prefix_of(url)
            },
{
    let hits = search_hits(es);
    lemma_hits_outside_listings(es);
    lemma_dedup_by_url(hits);
    let r = search_results_spec(es);
    assert forall|i: int| 0 <= i < r.len() implies !listing_address(#[trigger] r[i].url) by {
        let j = choose|j: int| 0 <= j < hits.len() && r[i] == hits[j];
        assert(!listing_address(hits[j].url));
    }
}

proof fn lemma_hit_well_formed(e: (Seq<Option<Seq<char>>>, Seq<char>))
    ensures
        search_hit(e) matches Some(r) ==> well_formed_hit(r),
{
    reveal_strlit("http");
    reveal_strlit("/anime/");
    reveal_strlit("https://animego.me");
    reveal_strlit("https://animego.me/anime/");
    if let Some(r) = search_hit(e) {
        let href = trimmed(crate::page::attr_at(e, 0)->0);
        assert("/anime/"@.is_prefix_of(href));
        assert(href.subrange(0, 7)[0] == href[0]);
        assert(href[0] == '/');
        assert(!"http"@.is_prefix_of(href));
        let base = "https://animego.me"@;
        assert(r.url == base + href);
        assert((base + href).subrange(0, 25) =~= base + href.subrange(0, 7));
        assert((base + href).subrange(0, 25) =~= "https://animego.me/anime/"@);
    }
}

proof fn lemma_hits_well_formed(es: Seq<(Seq<Option<Seq<char>>>, Seq<char>)>)
    ensures
        forall|i: int|
            0 <= i < search_hits(es).len() ==> well_formed_hit(#[trigger] search_hits(es)[i]),
    decreases es.len(),
{
    if es.len() > 0 {
        lemma_hits_well_formed(es.drop_last());
        lemma_hit_well_formed(es.last());
        let prev = search_hits(es.drop_last());
        assert forall|i: int| 0 <= i < search_hits(es).len() implies well_formed_hit(
            #[trigger] search_hits(es)[i],
        ) by {
            if i < prev.len() {
                assert(search_hits(es)[i] == prev[i]);
            }
        }
    }
}

proof fn lemma_dedup_by_url(rs: Seq<SearchResultView>)
    ensures
        forall|i: int|
            0 <= i < dedup_by_url(rs).len() ==> exists|j: int|
                0 <= j < rs.len() && #[trigger] dedup_by_url(rs)[i] == rs[j],
        forall|i: int|
            0 <= i < dedup_by_url(rs).len() - 1 ==> (#[trigger] dedup_by_url(rs)[i]).url
                != dedup_by_url(rs)[i + 1].url,
    decreases rs.len(),
{
    if rs.len() > 0 {
        let t = rs.drop_last();
        lemma_dedup_by_url(t);
        let kept = dedup_by_url(t);
        let d = dedup_by_url(rs);
        assert forall|i: int| 0 <= i < d.len() implies exists|j: int|
            0 <= j < rs.len() && #[trigger] d[i] == rs[j] by {
            if i < kept.len() {
                let j = choose|j: int| 0 <= j < t.len() && kept[i] == t[j];
                assert(rs[j] == t[j]);
            } else {
                assert(d[i] == rs[rs.len() - 1]);
            }
        }
        assert forall|i: int| 0 <= i < d.len() - 1 implies (#[trigger] d[i]).url != d[i + 1].url by {
            if i + 1 < kept.len() {
                assert(d[i] == kept[i] && d[i + 1] == kept[i + 1]);
            }
        }
    }
}

/// Every search result has a title and an address on the site under `/anime/`, and no
/// result repeats the address of the one before it.
pub proof fn law_search_results_well_formed(es: Seq<(Seq<Option<Seq<char>>>, Seq<char>)>)
    ensures
        forall|i: int|
            0 <= i < search_results_spec(es).len() ==> well_formed_hit(
                #[trigger] search_results_spec(es)[i],
            ),
        forall|i: int|
            0 <= i < search_results_spec(es).len() - 1 ==> (#[trigger] search_results_spec(
                es,
            )[i]).url != search_results_spec(es)[i + 1].url,
{
    let hits = search_hits(es);
    lemma_hits_well_formed(es);
    lemma_dedup_by_url(hits);
    let r = search_results_spec(es);
    assert forall|i: int| 0 <= i < r.len() implies well_formed_hit(#[trigger] r[i]) by {
        let j = choose|j: int| 0 <= j < hits.len() && r[i] == hits[j];
    }
}

// ---------------------------------------------------------------------------
// Identifiers and choices.
// ---------------------------------------------------------------------------

proof fn lemma_after_last_suffix(s: Seq<char>, c: char)
    ensures
        after_last(s, c).is_suffix_of(s),
    decreases s.len(),
{
    if s.len() > 0 && s.last() != c {
        let t = s.drop_last();
        lemma_after_last_suffix(t, c);
        let d = after_last(t, c);
        assert(s.subrange(s.len() - d.len() - 1, s.len() as int) =~= t.subrange(
            t.len() - d.len(),
            t.len() as int,
        ).push(s.last()));
    } else {
        assert(s.subrange(s.len() as int, s.len() as int) =~= Seq::<char>::empty());
    }
}

proof fn lemma_suffix_transitive(a: Seq<char>, b: Seq<char>, c: Seq<char>)
    requires
        a.is_suffix_of(b),
        b.is_suffix_of(c),
    ensures
        a.is_suffix_of(c),
{
    assert(c.subrange(c.len() - a.len(), c.len() as int) =~= b.subrange(
        b.len() - a.len(),
        b.len() as int,
    ));
}

/// A title's identifier, when its address gives one, is made of ASCII digits and ends its
/// address (trailing `/` aside).
pub proof fn law_anime_id_ends_address(url: Seq<char>)
    ensures
        anime_id_spec(url) matches Some(id) ==> all_digits(id) && id.is_suffix_of(
            trim_end_char(url, '/'),
        ),
{
    let t = trim_end_char(url, '/');
    let seg = after_last(t, '/');
    lemma_after_last_suffix(t, '/');
    lemma_after_last_suffix(seg, '-');
    lemma_suffix_transitive(after_last(seg, '-'), seg, t);
}

/// A number typed at a menu picks only a position of the list shown.
pub proof fn law_menu_pick_in_list(line: Seq<char>, count: int)
    ensures
        menu_choice_spec(line, count) matches MenuChoice::Pick(i) ==> 0 <= i < count,
{
}

// ---------------------------------------------------------------------------
// Video addresses.
// ---------------------------------------------------------------------------

/// Whether `p` occurs somewhere in `s`.
pub open spec fn occurs_in(s: Seq<char>, p: Seq<char>) -> bool {
    exists|k: int| 0 <= k && k + p.len() <= s.len() && #[trigger] s.subrange(k, k + p.len()) == p
}

proof fn lemma_occurrence_found(s: Seq<char>, p: Seq<char>, start: int, k: int)
    requires
        0 <= start <= k,
        k + p.len() <= s.len(),
        s.subrange(k, k + p.len()) == p,
    ensures
        find_from_spec(s, p, start) is Some,
    decreases k - start,
{
    if !occurs_at(s, p, start) {
        lemma_occurrence_found(s, p, start + 1, k);
    }
}

/// When the first frame of an episode page (in document order) has a `src` in which one of
/// the known players `kodik`, `videocdn` or `alloha` occurs, that `src` is the episode's
/// video address, whatever the page's `source` elements and text hold.
pub proof fn law_known_player_frame_gives_video(
    iframes: Seq<(Seq<Option<Seq<char>>>, Seq<char>)>,
    sources: Seq<(Seq<Option<Seq<char>>>, Seq<char>)>,
    html: Seq<char>,
    src: Seq<char>,
)
    requires
        iframes.len() > 0,
        iframes[0].0.len() > 0,
        iframes[0].0[0] == Some(src),
        occurs_in(src, "kodik"@) || occurs_in(src, "videocdn"@) || occurs_in(src, "alloha"@),
    ensures
        video_url_spec(iframes, sources, html) == Some(src),
{
    let player = if occurs_in(src, "kodik"@) {
        "kodik"@
    } else if occurs_in(src, "videocdn"@) {
        "videocdn"@
    } else {
        "alloha"@
    };
    let k = choose|k: int|
        0 <= k && k + player.len() <= src.len() && #[trigger] src.subrange(k, k + player.len())
            == player;
    lemma_occurrence_found(src, player, 0, k);
}

proof fn lemma_no_occurrence(s: Seq<char>, p: Seq<char>, start: int)
    requires
        0 <= start,
        !occurs_in(s, p),
    ensures
        find_from_spec(s, p, start) is None,
    decreases s.len() + 1 - start,
{
    if start + p.len() <= s.len() {
        assert(!occurs_at(s, p, start)) by {
            if s.subrange(start, start + p.len()) == p {
                assert(occurs_in(s, p));
            }
        }
        lemma_no_occurrence(s, p, start + 1);
    }
}

/// When the first frame of an episode page has no `src`, or one in which none of `kodik`,
/// `videocdn` and `alloha` occurs, and the page's first `source` element has a `src`, that
/// `src` is the episode's video address, whatever the page text holds.
pub proof fn law_other_frame_falls_back_to_source(
    iframes: Seq<(Seq<Option<Seq<char>>>, Seq<char>)>,
    sources: Seq<(Seq<Option<Seq<char>>>, Seq<char>)>,
    html: Seq<char>,
    src: Seq<char>,
)
    requires
        iframes.len() == 0 || attr_at(iframes[0], 0) is None || ({
            let f = attr_at(iframes[0], 0)->0;
            !occurs_in(f, "kodik"@) && !occurs_in(f, "videocdn"@) && !occurs_in(f, "alloha"@)
        }),
        sources.len() > 0,
        sources[0].0.len() > 0,
        sources[0].0[0] == Some(src),
    ensures
        video_url_spec(iframes, sources, html) == Some(src),
{
    if iframes.len() > 0 && attr_at(iframes[0], 0) is Some {
        let f = attr_at(iframes[0], 0)->0;
        lemma_no_occurrence(f, "kodik"@, 0);
        lemma_no_occurrence(f, "videocdn"@, 0);
        lemma_no_occurrence(f, "alloha"@, 0);
    }
}

/// The player an episode page leads to is the `src` of its first frame (in document order)
/// whenever that frame has one, whatever later frames and the page text hold.
pub proof fn law_first_frame_is_followed(
    iframes: Seq<(Seq<Option<Seq<char>>>, Seq<char>)>,
    html: Seq<char>,
    src: Seq<char>,
)
    requires
        iframes.len() > 0,
        iframes[0].0.len() > 0,
        iframes[0].0[0] == Some(src),
    ensures
        iframe_src_spec(iframes, html) == Some(src),
{
}

/// The video a page holds directly is the `src` of its first `source` element whenever that
/// element has one, whatever later `source` elements and the `video` elements hold.
pub proof fn law_first_source_is_taken(
    sources: Seq<(Seq<Option<Seq<char>>>, Seq<char>)>,
    videos: Seq<(Seq<Option<Seq<char>>>, Seq<char>)>,
    src: Seq<char>,
)
    requires
        sources.len() > 0,
        sources[0].0.len() > 0,
        sources[0].0[0] == Some(src),
    ensures
        source_url_spec(sources, videos) == Some(src),
{
}

// ---------------------------------------------------------------------------
// Episode lists.
// ---------------------------------------------------------------------------

/// A title page's episodes come from the first of its lists that gives any, tried in this
/// order: elements with `data-episode-id` and `data-number`; elements with `data-episode`
/// and `data-number`; `.episode-item` elements with `data-id`; links under `/anime/`.
/// Whatever a later list holds, an earlier list that gives episodes is the answer.
pub proof fn law_episode_lists_in_order(html: Seq<char>)
    ensures
        ({
            let by_id = element_refs(
                RefKind::Pair,
                matched(
                    html_select(
                        html,
                        "[data-episode-id][data-number]"@,
                        seq!["data-episode-id"@, "data-number"@],
                    ),
                ),
            );
            let by_episode = element_refs(
                RefKind::Pair,
                matched(
                    html_select(
                        html,
                        "[data-episode][data-number]"@,
                        seq!["data-episode"@, "data-number"@],
                    ),
                ),
            );
            let items = element_refs(
                RefKind::Item,
                matched(
                    html_select(html, ".episode-item[data-id]"@, seq!["data-id"@, "data-number"@]),
                ),
            );
            let links = element_refs(
                RefKind::Link,
                matched(html_select(html, "a[href*='/anime/'][href*='/']"@, seq!["href"@])),
            );
            &&& by_id.len() > 0 ==> page_episodes_spec(html) == by_id
            &&& by_id.len() == 0 && by_episode.len() > 0 ==> page_episodes_spec(html)
                == by_episode
            &&& by_id.len() == 0 && by_episode.len() == 0 && items.len() > 0
                ==> page_episodes_spec(html) == items
            &&& by_id.len() == 0 && by_episode.len() == 0 && items.len() == 0
                ==> page_episodes_spec(html) == links
        }),
{
}

// ---------------------------------------------------------------------------
// The order of titles.
// ---------------------------------------------------------------------------

/// Where two titles first differ, at position `k`, the one with the smaller code point
/// there comes first, and not the other way round (so `Bleach` comes before `Boruto`).
pub proof fn law_title_order_first_difference(a: Seq<char>, b: Seq<char>, k: int)
    requires
        0 <= k < a.len(),
        k < b.len(),
        a.subrange(0, k) == b.subrange(0, k),
        a[k] < b[k],
    ensures
        lex_le(a, b),
        !lex_le(b, a),
    decreases k,
{
    if k > 0 {
        assert(a[0] == a.subrange(0, k)[0]);
        assert(b[0] == b.subrange(0, k)[0]);
        assert(a.drop_first().subrange(0, k - 1) =~= a.subrange(0, k).drop_first());
        assert(b.drop_first().subrange(0, k - 1) =~= b.subrange(0, k).drop_first());
        law_title_order_first_difference(a.drop_first(), b.drop_first(), k - 1);
    }
}

/// A title comes before every longer title that begins with it, and not the other way round.
pub proof fn law_title_order_prefix(a: Seq<char>, b: Seq<char>)
    requires
        a.len() < b.len(),
        b.subrange(0, a.len() as int) == a,
    ensures
        lex_le(a, b),
        !lex_le(b, a),
    decreases a.len(),
{
    if a.len() > 0 {
        assert(a[0] == b.subrange(0, a.len() as int)[0]);
        assert(b.drop_first().subrange(0, a.len() - 1) =~= a.drop_first());
        law_title_order_prefix(a.drop_first(), b.drop_first());
    }
}

/// In the listing of downloaded files, no file comes after a file whose title its own title
/// precedes: where the titles of an earlier and a later file first differ, the earlier one
/// has the smaller code point there, and a later title is never a proper beginning of an
/// earlier one.
pub proof fn law_listing_in_title_order(
    before: Seq<DownloadedFileView>,
    after: Seq<DownloadedFileView>,
    i: int,
    j: int,
    k: int,
)
    requires
        stably_sorted_by_title(before, after),
        0 <= i < j < after.len(),
    ensures
        ({
            let earlier = after[i].anime_title;
            let later = after[j].anime_title;
            &&& 0 <= k < earlier.len() && k < later.len() && earlier.subrange(0, k)
                == later.subrange(0, k) ==> !(later[k] < earlier[k])
            &&& later.len() < earlier.len() ==> earlier.subrange(0, later.len() as int) != later
        }),
{
    let earlier = after[i].anime_title;
    let later = after[j].anime_title;
    assert(lex_le(earlier, later));
    if 0 <= k < earlier.len() && k < later.len() && earlier.subrange(0, k) == later.subrange(0, k)
        && later[k] < earlier[k] {
        law_title_order_first_difference(later, earlier, k);
    }
    if later.len() < earlier.len() && earlier.subrange(0, later.len() as int) == later {
        law_title_order_prefix(later, earlier);
    }
}

} // verus!
