use ani_cli_rus::download::{
    check_download, direct_video_step, downloaded_files, downloaded_record, episode_file_path,
    extract_iframe_src, extract_source_url, first_file, has_video_extension, is_site_page,
    listed_file, sanitize_filename, sort_by_title, title_and_episode_of, video_from_player_page,
    DirEntryInfo, DirectVideoStep, DownloadFailure,
};
use ani_cli_rus::models::{DownloadedFile, Episode};

fn entry(name: &str, is_file: bool) -> DirEntryInfo {
    DirEntryInfo {
        path: format!("/tmp/ani-cli-rus/{}", name),
        name: name.to_string(),
        utf8_name: Some(name.to_string()),
        is_file,
    }
}

fn episode(title: &str, number: &str) -> Episode {
    Episode { number: number.into(), video_url: "https://cdn/v.mp4".into(), anime_title: title.into() }
}

#[test]
fn sanitize_keeps_letters_digits_and_ascii() {
    assert_eq!(sanitize_filename("Наруто: Ураганные хроники"), "Наруто: Ураганные хроники");
    assert_eq!(sanitize_filename("  Ёж — 1★ "), "Ёж _ 1_");
    assert_eq!(sanitize_filename("\u{3000}a\u{3000}"), "_a_");
    assert_eq!(sanitize_filename("Fate/Zero"), "Fate_Zero");
    assert_eq!(sanitize_filename("a\0b\u{1}c\u{7f}d\u{85}e"), "a_b_c_d_e");
    assert_eq!(sanitize_filename("\t x \n"), "x");
    assert_eq!(sanitize_filename("\tx"), "x");
    assert_eq!(sanitize_filename("a\tb"), "a\tb");
    assert_eq!(sanitize_filename(""), "");
}

#[test]
fn law_sanitize_idempotent_on_values() {
    for s in ["  Ёж — 1★ ", "\u{3000}a\u{3000}", "a/b\\c", "  ", "\t x \n", "a\0\tb"] {
        let once = sanitize_filename(s);
        assert_eq!(sanitize_filename(&once), once);
    }
}

#[test]
fn file_path_of_episode() {
    assert_eq!(episode_file_path(&episode("Naruto", "5")), "/tmp/ani-cli-rus/Naruto_5.mp4");
    assert_eq!(episode_file_path(&episode(" Ёж★ ", " 12 ")), "/tmp/ani-cli-rus/Ёж__12.mp4");
}

#[test]
fn site_pages_need_resolution() {
    assert!(is_site_page("https://animego.me/anime/1/2"));
    assert!(!is_site_page("https://cdn/v.mp4"));
}

#[test]
fn download_verdicts() {
    assert_eq!(check_download(false, true, 10), Err(DownloadFailure::CommandFailed));
    assert_eq!(check_download(true, false, 10), Err(DownloadFailure::NotCreated));
    assert_eq!(check_download(true, true, 0), Err(DownloadFailure::Empty));
    assert_eq!(check_download(true, true, 1), Ok(()));
    let rec = downloaded_record(&episode("T", "4"), "/tmp/ani-cli-rus/T_4.mp4".to_string());
    assert_eq!(rec.file_path, "/tmp/ani-cli-rus/T_4.mp4");
    assert_eq!(rec.anime_title, "T");
    assert_eq!(rec.episode_number, "4");
}

#[test]
fn iframe_and_source_addresses() {
    assert_eq!(
        extract_iframe_src(r#"<iframe src="https://player/1"></iframe>"#),
        Some("https://player/1".to_string())
    );
    assert_eq!(
        extract_iframe_src(r#"<iframe></iframe><b data-player-src="https://p/2"></b>"#),
        Some("https://p/2".to_string())
    );
    assert_eq!(extract_iframe_src("<p></p>"), None);
    assert_eq!(
        extract_source_url(r#"<video src="https://cdn/a.mp4"></video>"#),
        Some("https://cdn/a.mp4".to_string())
    );
    assert_eq!(
        extract_source_url(r#"<video src="https://cdn/a.mp4"><source src="https://cdn/b.mp4"></video>"#),
        Some("https://cdn/b.mp4".to_string())
    );
    assert_eq!(extract_source_url("<p></p>"), None);
}

#[test]
fn direct_video_steps() {
    match direct_video_step(r#"<iframe src="https://player/1"></iframe>"#) {
        DirectVideoStep::FollowPlayer(u) => assert_eq!(u, "https://player/1"),
        other => panic!("{:?}", other),
    }
    match direct_video_step(r#"<video src="https://cdn/a.mp4"></video>"#) {
        DirectVideoStep::Found(u) => assert_eq!(u, "https://cdn/a.mp4"),
        other => panic!("{:?}", other),
    }
    assert!(matches!(direct_video_step("<p></p>"), DirectVideoStep::NotFound));
}

#[test]
fn player_page_video() {
    assert_eq!(
        video_from_player_page(r#"<video><source src="https://cdn/a.m3u8"></video>"#),
        Some("https://cdn/a.m3u8".to_string())
    );
    assert_eq!(
        video_from_player_page(
            r#"<script>var p = {"sources":[{"file":"https://cdn.example.com/ep1.m3u8"}]};</script>"#
        ),
        Some("https://cdn.example.com/ep1.m3u8".to_string())
    );
    assert_eq!(
        video_from_player_page(r#"<script>p({"sources":[{"label":"x"},{"file":"https://cdn/b.mp4"}]})</script>"#),
        Some("https://cdn/b.mp4".to_string())
    );
    assert_eq!(video_from_player_page(r#"<script>{"sources":[{"file":1}]}</script>"#), None);
    assert_eq!(video_from_player_page("<p></p>"), None);
}

#[test]
fn first_present_file() {
    assert_eq!(first_file(&vec![None, Some("a".to_string()), Some("b".to_string())]), Some("a".to_string()));
    assert_eq!(first_file(&vec![None]), None);
}

#[test]
fn extensions_like_path() {
    assert!(has_video_extension("a.mp4"));
    assert!(has_video_extension("a.b.mkv"));
    assert!(has_video_extension("..avi"));
    assert!(!has_video_extension(".mp4"));
    assert!(!has_video_extension("mp4"));
    assert!(!has_video_extension("a.MP4"));
    assert!(!has_video_extension("a.txt"));
    assert!(!has_video_extension(".."));
}

#[test]
fn names_split_into_title_and_episode() {
    assert_eq!(title_and_episode_of("Naruto_5.mp4"), ("Naruto".to_string(), "5".to_string()));
    assert_eq!(title_and_episode_of("One_Piece_1000.mkv"), ("One_Piece".to_string(), "1000".to_string()));
    assert_eq!(title_and_episode_of("x.mp4.mp4"), ("x.mp4.mp4".to_string(), "unknown".to_string()));
    assert_eq!(title_and_episode_of("a_b.avi.mp4"), ("a".to_string(), "b".to_string()));
    assert_eq!(title_and_episode_of("Movie.avi"), ("Movie.avi".to_string(), "unknown".to_string()));
}

#[test]
fn listing_keeps_video_files_sorted_by_title() {
    let entries = vec![
        entry("Naruto_5.mp4", true),
        entry("notes.txt", true),
        entry("Bleach_1.mkv", true),
        entry("dir.mp4", false),
        entry("Movie.avi", true),
        entry("Naruto_2.mp4", true),
    ];
    let files = downloaded_files(&entries);
    let got: Vec<(String, String)> =
        files.iter().map(|f| (f.anime_title.clone(), f.episode_number.clone())).collect();
    let want: Vec<(String, String)> = [
        ("Bleach", "1"),
        ("Movie.avi", "unknown"),
        ("Naruto", "5"),
        ("Naruto", "2"),
    ]
    .iter()
    .map(|(a, b)| (a.to_string(), b.to_string()))
    .collect();
    assert_eq!(got, want);
    assert_eq!(files[0].file_path, "/tmp/ani-cli-rus/Bleach_1.mkv");
}

#[test]
fn non_utf8_names_are_unknown() {
    let e = DirEntryInfo {
        path: "/tmp/ani-cli-rus/\u{FFFD}_1.mp4".into(),
        name: "\u{FFFD}_1.mp4".into(),
        utf8_name: None,
        is_file: true,
    };
    let f = listed_file(&e).unwrap();
    assert_eq!(f.anime_title, "unknown");
    assert_eq!(f.episode_number, "unknown");
}

#[test]
fn titles_sort_by_code_points() {
    let mk = |t: &str| DownloadedFile { file_path: String::new(), anime_title: t.into(), episode_number: String::new() };
    let sorted = sort_by_title(vec![mk("б"), mk("a"), mk("Z"), mk("ab"), mk("")]);
    let titles: Vec<String> = sorted.iter().map(|f| f.anime_title.clone()).collect();
    assert_eq!(titles, vec!["", "Z", "a", "ab", "б"]);
}

#[test]
fn law_saved_file_listed_back_on_values() {
    for (title, number) in
        [("Naruto", "5"), (" Ёж★ ", "12"), ("A_B", "3"), ("", ""), ("Fate/Zero", "1.5"), ("x.mp4", "2")]
    {
        let path = episode_file_path(&episode(title, number));
        assert_eq!(path.matches('/').count(), 3);
        let name = path.rsplit('/').next().unwrap().to_string();
        let e = DirEntryInfo { path: path.clone(), name: name.clone(), utf8_name: Some(name), is_file: true };
        let f = listed_file(&e).unwrap();
        assert_eq!(f.file_path, path);
        assert_eq!(f.anime_title, sanitize_filename(title));
        assert_eq!(f.episode_number, sanitize_filename(number));
    }
}

#[test]
fn law_sanitized_characters_on_values() {
    for s in ["Ёж — 1★", "a\u{2028}b", "日本語・アニメ", "x\u{0}y", "Fate/Zero", "\u{9f}a"] {
        let safe = sanitize_filename(s);
        assert!(safe.chars().all(|c| c.is_alphanumeric() || c.is_ascii()));
        assert!(safe.chars().all(|c| c != '/' && (!c.is_control() || c.is_whitespace())));
    }
}
