//! Downloading episodes: file names, the search for a direct video address, the reading of
//! the download directory and the order of its listing.
use vstd::prelude::*;
use vstd::string::StringExecFns;

use crate::models::{files_view, DownloadedFile, DownloadedFileView, Episode};
use crate::page::{
    elements_view, first_attr, first_attr_value, html_select, json_source_files, matched,
    select_src, source_files_of_json, ScrapedElement,
};
use crate::text::{
    after_last, after_last_start, chars_of, concat, contains, contains_spec, count_char,
    find_from, find_spec, is_whitespace, lemma_filter_insert, is_alphanumeric, opt_seq, quoted_after, quoted_after_spec, string_from,
    trim_bounds, trim_end_pattern, trim_end_pattern_len, trimmed, alphanumeric, white_space,
};

verus! {

/// The directory that downloaded episodes are kept in.
pub const DOWNLOAD_DIR: &'static str = "/tmp/ani-cli-rus";

// ---------------------------------------------------------------------------
// File names.
// ---------------------------------------------------------------------------

/// Whether `c` is a control character (Unicode category Cc, what `char::is_control` answers).
pub open spec fn is_control_char(c: char) -> bool {
    c <= '\u{1f}' || ('\u{7f}' <= c && c <= '\u{9f}')
}

/// A character as a file name keeps it: `/` and the control characters that are not white
/// space become `_`; of the others, letters, digits and ASCII stay (so ASCII white space is
/// left for trimming), all else becomes `_`.
pub open spec fn filename_char(c: char) -> char {
    if c == '/' || (is_control_char(c) && !white_space(c)) {
        '_'
    } else if alphanumeric(c) || c <= '\u{7f}' {
        c
    } else {
        '_'
    }
}

/// `s` made safe for a single file name: each character mapped by [`filename_char`], then
/// trimmed.
pub open spec fn sanitized(s: Seq<char>) -> Seq<char> {
    trimmed(s.map_values(|c: char| filename_char(c)))
}

/// `name` made safe for a file name.
pub fn sanitize_filename(name: &str) -> (r: String)
    ensures
        r@ == sanitized(name@),
{
    let cs = chars_of(name);
    let mut mapped: Vec<char> = Vec::new();
    let mut i: usize = 0;
    while i < cs.len()
        invariant
            i <= cs.len(),
            mapped@ == cs@.take(i as int).map_values(|c: char| filename_char(c)),
        decreases cs.len() - i,
    {
        let c = cs[i];
        let control = c <= '\u{1f}' || ('\u{7f}' <= c && c <= '\u{9f}');
        let keep = c != '/' && !(control && !is_whitespace(c)) && (is_alphanumeric(c) || c
            <= '\u{7f}');
        if keep {
            mapped.push(c);
        } else {
            mapped.push('_');
        }
        assert(mapped@ =~= cs@.take(i + 1).map_values(|c: char| filename_char(c)));
        i = i + 1;
    }
    assert(cs@.take(cs.len() as int) =~= cs@);
    let (lo, hi) = trim_bounds(&mapped);
    string_from(&mapped, lo, hi)
}

/// The name an episode is saved under: `<title>_<number>.mp4`, both parts made safe.
pub open spec fn episode_file_name_spec(title: Seq<char>, number: Seq<char>) -> Seq<char> {
    sanitized(title) + "_"@ + sanitized(number) + ".mp4"@
}

/// The path an episode is saved at, in the download directory.
pub open spec fn episode_file_path_spec(title: Seq<char>, number: Seq<char>) -> Seq<char> {
    "/tmp/ani-cli-rus"@ + "/"@ + episode_file_name_spec(title, number)
}

/// The path an episode is saved at.
pub fn episode_file_path(episode: &Episode) -> (path: String)
    ensures
        path@ == episode_file_path_spec(episode.anime_title@, episode.number@),
{
    let title = sanitize_filename(episode.anime_title.as_str());
    let number = sanitize_filename(episode.number.as_str());
    let mut path = concat(DOWNLOAD_DIR, "/");
    assert(path@ == "/tmp/ani-cli-rus"@ + "/"@);
    path.append(title.as_str());
    path.append("_");
    path.append(number.as_str());
    path.append(".mp4");
    assert(path@ =~= episode_file_path_spec(episode.anime_title@, episode.number@));
    path
}

/// Whether an episode's address is a page of the site, from which the video address must
/// first be read, rather than the video itself.
pub fn is_site_page(video_url: &str) -> (r: bool)
    ensures
        r == contains_spec(video_url@, "animego.me"@),
{
    contains(video_url, "animego.me")
}

/// Why a download failed, as the files it left show.
#[derive(Debug, Clone, Copy, PartialEq, Eq)]
pub enum DownloadFailure {
    /// The download command did not succeed.
    CommandFailed,
    /// No file was created.
    NotCreated,
    /// The file is empty.
    Empty,
}

/// The verdict on a finished download, from the download command's success, whether the
/// file exists and its size, checked in that order.
pub fn check_download(command_ok: bool, file_exists: bool, size: u64) -> (r: Result<
    (),
    DownloadFailure,
>)
    ensures
        r == if !command_ok {
            Err(DownloadFailure::CommandFailed)
        } else if !file_exists {
            Err(DownloadFailure::NotCreated)
        } else if size == 0 {
            Err(DownloadFailure::Empty)
        } else {
            Ok(())
        },
{
    if !command_ok {
        Err(DownloadFailure::CommandFailed)
    } else if !file_exists {
        Err(DownloadFailure::NotCreated)
    } else if size == 0 {
        Err(DownloadFailure::Empty)
    } else {
        Ok(())
    }
}

/// The record of an episode downloaded to `file_path`.
pub fn downloaded_record(episode: &Episode, file_path: String) -> (f: DownloadedFile)
    ensures
        f@ == (DownloadedFileView {
            file_path: file_path@,
            anime_title: episode.anime_title@,
            episode_number: episode.number@,
        }),
{
    DownloadedFile {
        file_path,
        anime_title: episode.anime_title.clone(),
        episode_number: episode.number.clone(),
    }
}

// ---------------------------------------------------------------------------
// Finding the direct video address.
// ---------------------------------------------------------------------------

/// The player a page embeds: the `src` of its first frame, else the value after
/// `data-player-src="`.
pub open spec fn iframe_src_spec(iframes: Seq<(Seq<Option<Seq<char>>>, Seq<char>)>, html: Seq<char>) -> Option<
    Seq<char>,
> {
    if first_attr(iframes) is Some {
        first_attr(iframes)
    } else {
        quoted_after_spec(html, "data-player-src=\""@)
    }
}

/// The player a page embeds, from its frames and its text.
pub fn iframe_src_from(iframes: &Vec<ScrapedElement>, html: &str) -> (r: Option<String>)
    ensures
        opt_seq(r) == iframe_src_spec(elements_view(iframes@), html@),
{
    match first_attr_value(iframes) {
        Some(src) => Some(src),
        None => quoted_after(html, "data-player-src=\""),
    }
}

/// The player a page embeds, if any.
pub fn extract_iframe_src(html: &str) -> (r: Option<String>)
    ensures
        opt_seq(r) == iframe_src_spec(matched(html_select(html@, "iframe"@, seq!["src"@])), html@),
{
    let iframes = select_src(html, "iframe");
    iframe_src_from(&iframes, html)
}

/// The video a page holds directly: the `src` of its first `source`, else of its first
/// `video`.
pub open spec fn source_url_spec(
    sources: Seq<(Seq<Option<Seq<char>>>, Seq<char>)>,
    videos: Seq<(Seq<Option<Seq<char>>>, Seq<char>)>,
) -> Option<Seq<char>> {
    if first_attr(sources) is Some {
        first_attr(sources)
    } else {
        first_attr(videos)
    }
}

/// The video a page holds directly, from its `source` and `video` elements.
pub fn source_url_from(sources: &Vec<ScrapedElement>, videos: &Vec<ScrapedElement>) -> (r: Option<
    String,
>)
    ensures
        opt_seq(r) == source_url_spec(elements_view(sources@), elements_view(videos@)),
{
    match first_attr_value(sources) {
        Some(src) => Some(src),
        None => first_attr_value(videos),
    }
}

/// The video a page holds directly, in the document `html`.
pub open spec fn page_source_url(html: Seq<char>) -> Option<Seq<char>> {
    source_url_spec(
        matched(html_select(html, "source"@, seq!["src"@])),
        matched(html_select(html, "video"@, seq!["src"@])),
    )
}

/// The video a page holds directly, if any.
pub fn extract_source_url(html: &str) -> (r: Option<String>)
    ensures
        opt_seq(r) == page_source_url(html@),
{
    let sources = select_src(html, "source");
    let videos = select_src(html, "video");
    source_url_from(&sources, &videos)
}

/// What an episode page leads to next.
#[derive(Debug)]
pub enum DirectVideoStep {
    /// The page embeds this player, whose page is to be read next.
    FollowPlayer(String),
    /// The page holds this video directly.
    Found(String),
    /// The page shows neither.
    NotFound,
}

/// What an episode page leads to: its player when it embeds one, else the video it holds.
pub fn direct_video_step(html: &str) -> (r: DirectVideoStep)
    ensures
        match r {
            DirectVideoStep::FollowPlayer(u) => iframe_src_spec(
                matched(html_select(html@, "iframe"@, seq!["src"@])),
                html@,
            ) == Some(u@),
            DirectVideoStep::Found(u) => iframe_src_spec(
                matched(html_select(html@, "iframe"@, seq!["src"@])),
                html@,
            ) is None && page_source_url(html@) == Some(u@),
            DirectVideoStep::NotFound => iframe_src_spec(
                matched(html_select(html@, "iframe"@, seq!["src"@])),
                html@,
            ) is None && page_source_url(html@) is None,
        },
{
    match extract_iframe_src(html) {
        Some(player) => DirectVideoStep::FollowPlayer(player),
        None => match extract_source_url(html) {
            Some(video) => DirectVideoStep::Found(video),
            None => DirectVideoStep::NotFound,
        },
    }
}

/// The first present item of a list, if any.
pub open spec fn first_present(files: Seq<Option<Seq<char>>>) -> Option<Seq<char>>
    decreases files.len(),
{
    if files.len() == 0 {
        None
    } else if files[0] is Some {
        files[0]
    } else {
        first_present(files.drop_first())
    }
}

/// The first `file` of the player's sources that is present, if any.
pub fn first_file(files: &Vec<Option<String>>) -> (r: Option<String>)
    ensures
        opt_seq(r) == first_present(files.deep_view()),
{
    let ghost all = files.deep_view();
    assert(all.skip(0) =~= all);
    let mut i: usize = 0;
    while i < files.len()
        invariant
            i <= files.len(),
            all == files.deep_view(),
            first_present(all) == first_present(all.skip(i as int)),
        decreases files.len() - i,
    {
        assert(all.skip(i as int).drop_first() =~= all.skip(i + 1));
        assert(all.skip(i as int)[0] == all[i as int]);
        match &files[i] {
            Some(f) => {
                return Some(f.clone());
            },
            None => {},
        }
        i = i + 1;
    }
    assert(all.skip(i as int) =~= Seq::<Option<Seq<char>>>::empty());
    None
}

/// The JSON object `{"sources": [...]}` of a player page: the text from its `"sources"` to the
/// first `}]` after it, both included, enclosed in braces.
pub open spec fn sources_object_spec(body: Seq<char>) -> Option<Seq<char>> {
    match find_spec(body, "\"sources\""@) {
        None => None,
        Some(i) => match find_spec(body.skip(i), "}]"@) {
            None => None,
            Some(j) => Some("{"@ + body.subrange(i, i + j + 2) + "}"@),
        },
    }
}

/// The video of a player page: the one it holds directly, else the first `file` of the
/// sources listed in the member `"sources"` of the page's script, read as the JSON object
/// `{"sources": [...]}`.
pub open spec fn player_video_spec(body: Seq<char>) -> Option<Seq<char>> {
    if page_source_url(body) is Some {
        page_source_url(body)
    } else {
        match sources_object_spec(body) {
            None => None,
            Some(part) => match json_source_files(part) {
                None => None,
                Some(files) => first_present(files),
            },
        }
    }
}

/// The JSON object made of the member from `"sources"` to the first `}]` after it, if both
/// occur.
fn sources_object(body: &str) -> (r: Option<String>)
    ensures
        opt_seq(r) == sources_object_spec(body@),
{
    let cs = chars_of(body);
    let start = chars_of("\"sources\"");
    let end = chars_of("}]");
    proof {
        reveal_strlit("}]");
    }
    match find_from(&cs, &start, 0) {
        None => None,
        Some(i) => {
            proof {
                crate::text::lemma_find_from_skip(cs@, end@, i as int, i as int);
            }
            match find_from(&cs, &end, i) {
                None => None,
                Some(k) => {
                    assert(crate::text::occurs_at(cs@, end@, k as int));
                    assert(k + 2 <= cs.len());
                    let member = string_from(&cs, i, k + 2);
                    let mut object = concat("{", member.as_str());
                    object.append("}");
                    Some(object)
                },
            }
        },
    }
}

/// The video of a player page, if any.
pub fn video_from_player_page(body: &str) -> (r: Option<String>)
    ensures
        opt_seq(r) == player_video_spec(body@),
{
    match extract_source_url(body) {
        Some(video) => Some(video),
        None => match sources_object(body) {
            None => None,
            Some(part) => match source_files_of_json(part.as_str()) {
                None => None,
                Some(files) => first_file(&files),
            },
        },
    }
}

// ---------------------------------------------------------------------------
// The download directory.
// ---------------------------------------------------------------------------

/// The extension of a file name, as `std::path::Path::extension` gives it: what follows the
/// last `.`, unless there is none, the name is `..`, or the only `.` begins the name.
pub open spec fn extension_spec(name: Seq<char>) -> Option<Seq<char>> {
    if name == ".."@ || count_char(name, '.') == 0 {
        None
    } else {
        let ext = after_last(name, '.');
        if name.len() - ext.len() - 1 == 0 {
            None
        } else {
            Some(ext)
        }
    }
}

/// Whether a file is listed as a video by its extension: `mp4`, `mkv` or `avi`.
pub open spec fn video_extension(ext: Option<Seq<char>>) -> bool {
    ext == Some("mp4"@) || ext == Some("mkv"@) || ext == Some("avi"@)
}

/// A file name without every trailing `.mp4`, then `.mkv`, then `.avi`.
pub open spec fn name_stem(name: Seq<char>) -> Seq<char> {
    trim_end_pattern(trim_end_pattern(trim_end_pattern(name, ".mp4"@), ".mkv"@), ".avi"@)
}

/// The title and episode a file name stands for: the stem split at its last `_`; a stem
/// without `_` gives the whole name and `unknown`.
pub open spec fn title_and_episode(name: Seq<char>) -> (Seq<char>, Seq<char>) {
    let stem = name_stem(name);
    if count_char(stem, '_') >= 1 {
        let episode = after_last(stem, '_');
        (stem.take(stem.len() - episode.len() - 1), episode)
    } else {
        (name, "unknown"@)
    }
}

/// What the directory listing tells of one entry.
pub struct DirEntryInfo {
    /// The entry's path, as text.
    pub path: String,
    /// The entry's file name, as text (invalid UTF-8 replaced).
    pub name: String,
    /// The entry's file name when it is valid UTF-8.
    pub utf8_name: Option<String>,
    /// Whether the entry is a regular file.
    pub is_file: bool,
}

/// The model of a [`DirEntryInfo`].
pub struct DirEntryView {
    pub path: Seq<char>,
    pub name: Seq<char>,
    pub utf8_name: Option<Seq<char>>,
    pub is_file: bool,
}

impl View for DirEntryInfo {
    type V = DirEntryView;

    open spec fn view(&self) -> DirEntryView {
        DirEntryView {
            path: self.path@,
            name: self.name@,
            utf8_name: opt_seq(self.utf8_name),
            is_file: self.is_file,
        }
    }
}

pub open spec fn entries_view(v: Seq<DirEntryInfo>) -> Seq<DirEntryView> {
    v.map_values(|e: DirEntryInfo| e@)
}

/// The downloaded file an entry of the directory is, if it is a video file: its title and
/// episode read from its name (`unknown` when the name is not valid UTF-8).
pub open spec fn listed_file_spec(e: DirEntryView) -> Option<DownloadedFileView> {
    if e.is_file && video_extension(extension_spec(e.name)) {
        let file_name = match e.utf8_name {
            Some(n) => n,
            None => "unknown"@,
        };
        let (title, episode) = title_and_episode(file_name);
        Some(DownloadedFileView { file_path: e.path, anime_title: title, episode_number: episode })
    } else {
        None
    }
}

/// The video files among the entries, in order.
pub open spec fn listed_files(es: Seq<DirEntryView>) -> Seq<DownloadedFileView>
    decreases es.len(),
{
    if es.len() == 0 {
        Seq::empty()
    } else {
        match listed_file_spec(es.last()) {
            Some(f) => listed_files(es.drop_last()).push(f),
            None => listed_files(es.drop_last()),
        }
    }
}

fn literal_eq(cs: &Vec<char>, lo: usize, hi: usize, lit: &str) -> (r: bool)
    requires
        lo <= hi <= cs.len(),
    ensures
        r == (cs@.subrange(lo as int, hi as int) == lit@),
{
    let ls = chars_of(lit);
    if hi - lo != ls.len() {
        return false;
    }
    let mut j: usize = 0;
    while j < ls.len()
        invariant
            lo <= hi <= cs.len(),
            hi - lo == ls.len(),
            ls@ == lit@,
            j <= ls.len(),
            forall|i: int| 0 <= i < j ==> cs@[lo + i] == ls@[i],
        decreases ls.len() - j,
    {
        if cs[lo + j] != ls[j] {
            assert(cs@.subrange(lo as int, hi as int)[j as int] == cs@[lo + j]);
            return false;
        }
        j = j + 1;
    }
    assert(cs@.subrange(lo as int, hi as int) =~= ls@);
    true
}

/// Whether a file name has a video extension.
pub fn has_video_extension(name: &str) -> (r: bool)
    ensures
        r == video_extension(extension_spec(name@)),
{
    let cs = chars_of(name);
    let n = cs.len();
    if literal_eq(&cs, 0, n, "..") {
        assert(cs@.subrange(0, n as int) =~= cs@);
        return false;
    }
    assert(cs@.subrange(0, n as int) =~= cs@);
    assert(cs@.take(n as int) =~= cs@);
    let k = after_last_start(&cs, n, '.');
    if k == 0 || k - 1 == 0 {
        return false;
    }
    proof {
        lemma_count_positive(cs@, '.', k - 1);
    }
    literal_eq(&cs, k, n, "mp4") || literal_eq(&cs, k, n, "mkv") || literal_eq(&cs, k, n, "avi")
}

/// The title and episode a file name stands for.
pub fn title_and_episode_of(name: &str) -> (r: (String, String))
    ensures
        (r.0@, r.1@) == title_and_episode(name@),
{
    let cs = chars_of(name);
    let mp4 = chars_of(".mp4");
    let mkv = chars_of(".mkv");
    let avi = chars_of(".avi");
    proof {
        reveal_strlit(".mp4");
        reveal_strlit(".mkv");
        reveal_strlit(".avi");
    }
    let n1 = trim_end_pattern_len(&cs, &mp4);
    let s1 = string_from(&cs, 0, n1);
    let c1 = chars_of(s1.as_str());
    assert(c1@ =~= cs@.take(n1 as int));
    let n2 = trim_end_pattern_len(&c1, &mkv);
    let s2 = string_from(&c1, 0, n2);
    let c2 = chars_of(s2.as_str());
    assert(c2@ =~= c1@.take(n2 as int));
    let n3 = trim_end_pattern_len(&c2, &avi);
    assert(c2@.take(n3 as int) == name_stem(name@));
    let k = after_last_start(&c2, n3, '_');
    if k > 0 {
        assert(count_char(c2@.take(n3 as int), '_') >= 1) by {
            lemma_count_positive(c2@.take(n3 as int), '_', k - 1);
        }
        let title = string_from(&c2, 0, k - 1);
        let episode = string_from(&c2, k, n3);
        assert(c2@.take(n3 as int).take(n3 - (n3 - k) - 1) =~= c2@.subrange(0, k - 1));
        (title, episode)
    } else {
        (String::from_str(name), String::from_str("unknown"))
    }
}

proof fn lemma_count_positive(s: Seq<char>, c: char, i: int)
    requires
        0 <= i < s.len(),
        s[i] == c,
    ensures
        count_char(s, c) >= 1,
    decreases s.len(),
{
    if i < s.len() - 1 {
        lemma_count_positive(s.drop_last(), c, i);
    }
}

/// The downloaded file an entry of the directory is, if it is a video file.
pub fn listed_file(e: &DirEntryInfo) -> (r: Option<DownloadedFile>)
    ensures
        match r {
            Some(f) => listed_file_spec(e@) == Some(f@),
            None => listed_file_spec(e@) is None,
        },
{
    if !e.is_file || !has_video_extension(e.name.as_str()) {
        return None;
    }
    let file_name = match &e.utf8_name {
        Some(n) => n.clone(),
        None => String::from_str("unknown"),
    };
    let (title, episode) = title_and_episode_of(file_name.as_str());
    Some(DownloadedFile { file_path: e.path.clone(), anime_title: title, episode_number: episode })
}

// ---------------------------------------------------------------------------
// The order of the listing.
// ---------------------------------------------------------------------------

/// Whether `a` comes no later than `b` in lexicographic order of code points (the order of
/// `String`, whose byte order of UTF-8 keeps the order of code points).
pub open spec fn lex_le(a: Seq<char>, b: Seq<char>) -> bool
    decreases a.len(),
{
    if a.len() == 0 {
        true
    } else if b.len() == 0 {
        false
    } else if a[0] != b[0] {
        a[0] < b[0]
    } else {
        lex_le(a.drop_first(), b.drop_first())
    }
}

pub proof fn lemma_lex_le_reflexive(a: Seq<char>)
    ensures
        lex_le(a, a),
    decreases a.len(),
{
    if a.len() > 0 {
        lemma_lex_le_reflexive(a.drop_first());
    }
}

pub proof fn lemma_lex_le_total(a: Seq<char>, b: Seq<char>)
    ensures
        lex_le(a, b) || lex_le(b, a),
    decreases a.len(),
{
    if a.len() > 0 && b.len() > 0 && a[0] == b[0] {
        lemma_lex_le_total(a.drop_first(), b.drop_first());
    }
}

pub proof fn lemma_lex_le_transitive(a: Seq<char>, b: Seq<char>, c: Seq<char>)
    requires
        lex_le(a, b),
        lex_le(b, c),
    ensures
        lex_le(a, c),
    decreases a.len(),
{
    if a.len() > 0 && b.len() > 0 && c.len() > 0 && a[0] == b[0] && b[0] == c[0] {
        lemma_lex_le_transitive(a.drop_first(), b.drop_first(), c.drop_first());
    }
}

/// Compares two texts in lexicographic order of code points.
pub fn text_le(a: &Vec<char>, b: &Vec<char>) -> (r: bool)
    ensures
        r == lex_le(a@, b@),
{
    let mut i: usize = 0;
    assert(a@.skip(0) =~= a@ && b@.skip(0) =~= b@);
    while i < a.len() && i < b.len() && a[i] == b[i]
        invariant
            i <= a.len(),
            i <= b.len(),
            lex_le(a@, b@) == lex_le(a@.skip(i as int), b@.skip(i as int)),
        decreases a.len() - i,
    {
        assert(a@.skip(i as int).drop_first() =~= a@.skip(i + 1));
        assert(b@.skip(i as int).drop_first() =~= b@.skip(i + 1));
        assert(a@.skip(i as int)[0] == a@[i as int] && b@.skip(i as int)[0] == b@[i as int]);
        i = i + 1;
    }
    if i == a.len() {
        true
    } else if i == b.len() {
        false
    } else {
        assert(a@.skip(i as int)[0] == a@[i as int] && b@.skip(i as int)[0] == b@[i as int]);
        a[i] < b[i]
    }
}

pub open spec fn has_title(t: Seq<char>) -> spec_fn(DownloadedFileView) -> bool {
    |f: DownloadedFileView| f.anime_title == t
}

pub open spec fn sorted_by_title(s: Seq<DownloadedFileView>) -> bool {
    forall|i: int, j: int|
        0 <= i < j < s.len() ==> lex_le(#[trigger] s[i].anime_title, #[trigger] s[j].anime_title)
}

/// `after` is `before` sorted by title, files of equal title kept in their order.
pub open spec fn stably_sorted_by_title(
    before: Seq<DownloadedFileView>,
    after: Seq<DownloadedFileView>,
) -> bool {
    &&& after.len() == before.len()
    &&& sorted_by_title(after)
    &&& forall|t: Seq<char>| #[trigger] after.filter(has_title(t)) == before.filter(has_title(t))
}

/// The files sorted by title; files of equal title keep their order.
pub fn sort_by_title(v: Vec<DownloadedFile>) -> (r: Vec<DownloadedFile>)
    ensures
        stably_sorted_by_title(files_view(v@), files_view(r@)),
{
    let ghost input = files_view(v@);
    let mut out: Vec<DownloadedFile> = Vec::new();
    let mut keys: Vec<Vec<char>> = Vec::new();
    let mut i: usize = 0;
    while i < v.len()
        invariant
            i <= v.len(),
            input == files_view(v@),
            out.len() == i,
            keys.len() == out.len(),
            forall|q: int| 0 <= q < out.len() ==> keys@[q]@ == (#[trigger] out@[q]@).anime_title,
            sorted_by_title(files_view(out@)),
            forall|t: Seq<char>| #[trigger] files_view(out@).filter(has_title(t)) == input.take(i as int).filter(has_title(t)),
        decreases v.len() - i,
    {
        let x = v[i].copy();
        let kx = chars_of(x.anime_title.as_str());
        let ghost old_out = files_view(out@);
        let mut p = out.len();
        while p > 0 && !text_le(&keys[p - 1], &kx)
            invariant
                p <= out.len(),
                keys.len() == out.len(),
                forall|q: int| 0 <= q < out.len() ==> keys@[q]@ == (#[trigger] out@[q]@).anime_title,
                old_out == files_view(out@),
                kx@ == x@.anime_title,
                forall|q: int| p <= q < out.len() ==> !lex_le(#[trigger] old_out[q].anime_title, kx@),
            decreases p,
        {
            assert(old_out[p - 1] == out@[p - 1]@);
            p = p - 1;
        }
        proof {
            assert forall|q: int| 0 <= q < p implies lex_le(#[trigger] old_out[q].anime_title, kx@) by {
                assert(old_out[p - 1] == out@[p - 1]@);
                if q < p - 1 {
                    lemma_lex_le_transitive(old_out[q].anime_title, old_out[p - 1].anime_title, kx@);
                }
            }
            assert forall|t: Seq<char>| #[trigger] old_out.insert(p as int, x@).filter(has_title(t)) == input.take(i + 1).filter(has_title(t)) by {
                assert forall|q: int| p <= q < old_out.len() implies old_out[q].anime_title != t
                    || !has_title(t)(x@) by {
                    if old_out[q].anime_title == kx@ {
                        lemma_lex_le_reflexive(kx@);
                    }
                }
                lemma_filter_insert(old_out, p as int, x@, has_title(t));
                assert(input.take(i + 1) =~= input.take(i as int).push(x@));
                Seq::lemma_filter_push(input.take(i as int), x@, has_title(t));
                assert(files_view(out@).filter(has_title(t)) == input.take(i as int).filter(has_title(t)));
            }
        }
        out.insert(p, x);
        keys.insert(p, kx);
        assert(files_view(out@) =~= old_out.insert(p as int, x@));
        proof {
            let now = files_view(out@);
            assert forall|a: int, b: int| 0 <= a < b < now.len() implies lex_le(
                #[trigger] now[a].anime_title,
                #[trigger] now[b].anime_title,
            ) by {
                if b < p {
                    assert(now[a] == old_out[a] && now[b] == old_out[b]);
                } else if b == p {
                    assert(now[a] == old_out[a]);
                } else if a < p {
                    assert(now[a] == old_out[a] && now[b] == old_out[b - 1]);
                    lemma_lex_le_total(old_out[b - 1].anime_title, kx@);
                    lemma_lex_le_transitive(now[a].anime_title, kx@, now[b].anime_title);
                } else if a == p {
                    assert(now[b] == old_out[b - 1]);
                    lemma_lex_le_total(old_out[b - 1].anime_title, kx@);
                } else {
                    assert(now[a] == old_out[a - 1] && now[b] == old_out[b - 1]);
                }
            }
            assert forall|q: int| 0 <= q < out.len() implies keys@[q]@ == (#[trigger] out@[q]@).anime_title by {
                assert(out@[q]@ == now[q]);
            }
        }
        i = i + 1;
    }
    assert(input.take(v.len() as int) =~= input);
    out
}

/// The downloaded files of the directory: the video files among its entries, sorted by
/// title, files of equal title in the order the directory gave them.
pub fn downloaded_files(entries: &Vec<DirEntryInfo>) -> (r: Vec<DownloadedFile>)
    ensures
        stably_sorted_by_title(listed_files(entries_view(entries@)), files_view(r@)),
{
    let ghost es = entries_view(entries@);
    let mut found: Vec<DownloadedFile> = Vec::new();
    let mut i: usize = 0;
    while i < entries.len()
        invariant
            i <= entries.len(),
            es == entries_view(entries@),
            files_view(found@) == listed_files(es.take(i as int)),
        decreases entries.len() - i,
    {
        assert(es.take(i + 1).drop_last() =~= es.take(i as int));
        assert(es.take(i + 1).last() == entries@[i as int]@);
        match listed_file(&entries[i]) {
            Some(f) => {
                let ghost before = files_view(found@);
                found.push(f);
                assert(files_view(found@) =~= before.push(found@[found.len() - 1]@));
            },
            None => {},
        }
        i = i + 1;
    }
    assert(es.take(entries.len() as int) =~= es);
    sort_by_title(found)
}

} // verus!
