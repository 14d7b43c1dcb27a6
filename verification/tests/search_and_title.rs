use ani_cli_rus::menu::{menu_choice, MenuChoice};
use ani_cli_rus::models::{Episode, SearchResult};
use ani_cli_rus::page::ScrapedElement;
use ani_cli_rus::search::{parse_search_results, search_results_from, search_url, SearchError};
use ani_cli_rus::title::{
    chosen_episode, episode_page_url, episode_refs, extract_anime_id,
    extract_video_url_from_html, first_shown, order_episodes, page_episodes, schedule_episodes,
    schedule_load_url, schedule_request, select_episode, sort_episodes, video_lookup,
    video_url_from, with_schedule, EpisodeRef, RefKind, VideoLookup,
};

fn er(id: &str, number: &str) -> EpisodeRef {
    EpisodeRef { id: id.to_string(), number: number.to_string() }
}

fn pairs(v: &[EpisodeRef]) -> Vec<(String, String)> {
    v.iter().map(|r| (r.id.clone(), r.number.clone())).collect()
}

fn p(id: &str, number: &str) -> (String, String) {
    (id.to_string(), number.to_string())
}

fn elem(attrs: Vec<Option<&str>>, text: &str) -> ScrapedElement {
    ScrapedElement {
        attrs: attrs.into_iter().map(|a| a.map(|s| s.to_string())).collect(),
        text: text.to_string(),
    }
}

#[test]
fn search_url_percent_encodes_utf8() {
    assert_eq!(
        search_url("наруто 2"),
        "https://animego.me/search/all?q=%D0%BD%D0%B0%D1%80%D1%83%D1%82%D0%BE%202"
    );
    assert_eq!(search_url("a-b_c.d~e"), "https://animego.me/search/all?q=a-b_c.d~e");
    assert_eq!(search_url("x&y"), "https://animego.me/search/all?q=x%26y");
}

#[test]
fn search_page_with_links() {
    let html = r#"<html><body>
        <a href="/anime/status/ongoing" title="Онгоинги">x</a>
        <a href=" /anime/naruto-103 " title=" Naruto ">Naruto</a>
        <a href="/anime/naruto-103  " title=" Naruto again ">n</a>
        <a href="/anime/bleach-55" title="  ">b</a>
        <a href="/manga/one" title="Manga">m</a>
        <a href="/anime/one-piece-7" title="One Piece">o</a>
        <a href="/anime/naruto-103" title="Naruto third">n</a>
    </body></html>"#;
    let results = parse_search_results(html).unwrap();
    let got: Vec<(String, String)> =
        results.iter().map(|r| (r.title.clone(), r.url.clone())).collect();
    assert_eq!(
        got,
        vec![
            p("Naruto again", "https://animego.me/anime/naruto-103"),
            p("One Piece", "https://animego.me/anime/one-piece-7"),
            p("Naruto third", "https://animego.me/anime/naruto-103"),
        ]
    );
}

#[test]
fn search_page_not_found() {
    assert_eq!(parse_search_results("<h1>404</h1>").err(), Some(SearchError::NoResults));
    assert_eq!(parse_search_results("  \n ").err(), Some(SearchError::NoResults));
    assert_eq!(parse_search_results("<p>nothing</p>").unwrap().len(), 0);
}

#[test]
fn search_results_from_elements() {
    let es = vec![
        elem(vec![Some("/anime/x-1"), None], " From text "),
        elem(vec![None, Some("No href")], ""),
        elem(vec![Some("/anime/random"), Some("Random")], ""),
        elem(vec![Some("/anime/x-1"), Some("Dup")], ""),
    ];
    let r = search_results_from(&es);
    assert_eq!(r.len(), 1);
    assert_eq!(r[0].title, "From text");
    assert_eq!(r[0].url, "https://animego.me/anime/x-1");
}

#[test]
fn law_search_results_well_formed_on_values() {
    let html = r#"<a href="/anime/a-1" title="A"></a><a href="/anime/a-1" title="A2"></a>
        <a href="/anime/b-2" title="B"></a>"#;
    let r = parse_search_results(html).unwrap();
    for x in &r {
        assert!(!x.title.is_empty());
        assert!(x.url.starts_with("https://animego.me/anime/"));
    }
    for w in r.windows(2) {
        assert_ne!(w[0].url, w[1].url);
    }
}

#[test]
fn anime_id_from_url() {
    assert_eq!(
        extract_anime_id("https://animego.me/anime/naruto-uragannye-hroniki-103"),
        Ok("103".to_string())
    );
    assert_eq!(extract_anime_id("https://animego.me/anime/bleach-55//"), Ok("55".to_string()));
    assert_eq!(
        extract_anime_id("https://animego.me/anime/naruto"),
        Err("Не удалось извлечь ID аниме из URL".to_string())
    );
    assert!(extract_anime_id("").is_err());
    assert!(extract_anime_id("https://animego.me/anime/one-piece-x21").is_err());
    assert!(extract_anime_id("https://animego.me/anime/one-piece-").is_err());
    assert_eq!(extract_anime_id("https://animego.me/anime/2024"), Ok("2024".to_string()));
    assert!(extract_anime_id("https://animego.me/anime/a-12b").is_err());
}

#[test]
fn law_anime_id_ends_address_on_values() {
    let url = "https://animego.me/anime/x-2024/";
    let id = extract_anime_id(url).unwrap();
    assert!(id.chars().all(|c| c.is_ascii_digit()));
    assert!(url.trim_end_matches('/').ends_with(&id));
}

#[test]
fn select_episode_takes_the_first() {
    assert!(select_episode(vec![]).unwrap().is_none());
    let e1 = Episode { number: "1".into(), video_url: "u1".into(), anime_title: "T".into() };
    let e2 = Episode { number: "2".into(), video_url: "u2".into(), anime_title: "T".into() };
    let first = select_episode(vec![e1, e2]).unwrap().unwrap();
    assert_eq!(first.number, "1");
    assert_eq!(first.video_url, "u1");
}

#[test]
fn page_episodes_from_first_list() {
    let html = r#"<div data-episode-id="11" data-number="1"></div>
        <div data-episode-id="12" data-number="2"></div>
        <div data-episode="99" data-number="9"></div>"#;
    assert_eq!(pairs(&page_episodes(html)), vec![p("11", "1"), p("12", "2")]);
}

#[test]
fn page_episodes_fallbacks() {
    let second = r#"<div data-episode="5" data-number="3"></div>"#;
    assert_eq!(pairs(&page_episodes(second)), vec![p("5", "3")]);
    let third = r#"<div class="episode-item" data-id="7"> Серия 3 </div>
        <div class="episode-item" data-id="8" data-number="4">x</div>
        <div class="episode-item" data-id="9">Спешл</div>"#;
    assert_eq!(pairs(&page_episodes(third)), vec![p("7", "3"), p("8", "4"), p("9", "9")]);
    let fourth = r#"<a href="/anime/naruto-103/1234/">a</a>
        <a href="/anime/naruto-103">b</a>
        <a href="/anime/x/-5">c</a>"#;
    assert_eq!(pairs(&page_episodes(fourth)), vec![p("1234", "1234"), p("-5", "-5")]);
    assert!(page_episodes("<p>none</p>").is_empty());
}

#[test]
fn episode_refs_of_each_kind() {
    let es = vec![elem(vec![Some("1"), Some("2")], ""), elem(vec![Some("3"), None], "")];
    assert_eq!(pairs(&episode_refs(&es, RefKind::Pair)), vec![p("1", "2")]);
    assert_eq!(pairs(&episode_refs(&es, RefKind::Item)), vec![p("1", "2"), p("3", "3")]);
    let links = vec![elem(vec![Some("a/b/77")], ""), elem(vec![Some("b/77")], "")];
    assert_eq!(pairs(&episode_refs(&links, RefKind::Link)), vec![p("77", "77")]);
}

#[test]
fn schedule_reply_lists_episodes() {
    let body = r#"{"data":{"content":"<div data-episode=\"5\" data-number=\"2\"></div><div data-episode=\"6\" data-number=\"3\"></div>"}}"#;
    assert_eq!(pairs(&schedule_episodes(body)), vec![p("5", "2"), p("6", "3")]);
    assert!(schedule_episodes("not json").is_empty());
    assert!(schedule_episodes(r#"{"data":{"content":5}}"#).is_empty());
}

#[test]
fn schedule_addresses() {
    assert_eq!(schedule_load_url("103", "55"), "https://animego.me/anime/103/55/schedule/load");
    let page = vec![er("1", "1"), er("2", "2")];
    assert_eq!(
        schedule_request("https://animego.me/anime/naruto-103", &page),
        Some("https://animego.me/anime/103/2/schedule/load".to_string())
    );
    assert_eq!(schedule_request("https://animego.me/anime/naruto", &page), None);
    assert_eq!(schedule_request("https://animego.me/anime/naruto-103", &vec![]), None);
    assert_eq!(pairs(&with_schedule(page, vec![er("9", "9")])), vec![p("9", "9")]);
    assert_eq!(pairs(&with_schedule(vec![er("1", "1")], vec![])), vec![p("1", "1")]);
}

#[test]
fn episodes_are_sorted_stably_and_deduplicated() {
    let v = vec![
        er("c", "10"),
        er("a", "2"),
        er("x", "abc"),
        er("a", "2"),
        er("b", "2"),
        er("y", "-1"),
    ];
    let sorted = sort_episodes(v.iter().map(|r| r.copy()).collect());
    assert_eq!(
        pairs(&sorted),
        vec![p("y", "-1"), p("x", "abc"), p("a", "2"), p("a", "2"), p("b", "2"), p("c", "10")]
    );
    let ordered = order_episodes(v);
    assert_eq!(
        pairs(&ordered),
        vec![p("y", "-1"), p("x", "abc"), p("a", "2"), p("b", "2"), p("c", "10")]
    );
    let apart = order_episodes(vec![er("a", "x"), er("b", "x"), er("a", "x")]);
    assert_eq!(pairs(&apart), vec![p("a", "x"), p("b", "x")]);
}

#[test]
fn only_last_twenty_are_shown() {
    assert_eq!(first_shown(5), 0);
    assert_eq!(first_shown(20), 0);
    assert_eq!(first_shown(25), 5);
}

#[test]
fn chosen_episode_with_and_without_video() {
    let anime = SearchResult { title: "Naruto".into(), url: "https://animego.me/anime/n-103".into() };
    let ep = er("55", "3");
    let with = chosen_episode(&anime, &ep, "103", Some("https://kodik/1".into()));
    assert_eq!(with.video_url, "https://kodik/1");
    assert_eq!(with.number, "3");
    assert_eq!(with.anime_title, "Naruto");
    let without = chosen_episode(&anime, &ep, "103", None);
    assert_eq!(without.video_url, "https://animego.me/anime/103/55");
    assert_eq!(episode_page_url("1", "2"), "https://animego.me/anime/1/2");
}

#[test]
fn video_address_of_episode_page() {
    assert_eq!(
        extract_video_url_from_html(r#"<iframe src="https://kodik.info/seria/1"></iframe>"#),
        Some("https://kodik.info/seria/1".to_string())
    );
    assert_eq!(
        extract_video_url_from_html(
            r#"<iframe src="https://youtube.com/x"></iframe><video><source src="https://cdn/v.mp4"></video>"#
        ),
        Some("https://cdn/v.mp4".to_string())
    );
    assert_eq!(
        extract_video_url_from_html(r#"<div data-player-src="https://alloha/p/1"></div>"#),
        Some("https://alloha/p/1".to_string())
    );
    assert_eq!(extract_video_url_from_html("<p>nothing</p>"), None);
}

#[test]
fn video_address_from_elements() {
    let frames = vec![elem(vec![Some("https://videocdn.tv/1")], "")];
    let none: Vec<ScrapedElement> = vec![];
    assert_eq!(video_url_from(&frames, &none, ""), Some("https://videocdn.tv/1".to_string()));
    let other = vec![elem(vec![Some("https://other/1")], "")];
    assert_eq!(video_url_from(&other, &none, "x"), None);
}

#[test]
fn video_lookup_steps() {
    match video_lookup(r#"<iframe src="https://kodik.info/1"></iframe>"#, "https://animego.me/anime/n-103", "55") {
        VideoLookup::Found(u) => assert_eq!(u, "https://kodik.info/1"),
        other => panic!("{:?}", other),
    }
    match video_lookup("<p></p>", "https://animego.me/anime/n-103", "55") {
        VideoLookup::TrySchedule(u) => assert_eq!(u, "https://animego.me/anime/103/55/schedule/load"),
        other => panic!("{:?}", other),
    }
    assert!(matches!(video_lookup("<p></p>", "https://animego.me/anime/n", "55"), VideoLookup::NotFound));
}

#[test]
fn menu_line_with_leading_space_picks_first() {
    assert_eq!(menu_choice(" 1", 3), MenuChoice::Pick(0));
}
