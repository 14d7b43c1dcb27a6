//! The records that the catalogue, episode and download logic hand around.
use vstd::prelude::*;

verus! {

/// One title found by a catalogue search: its name and the address of its page.
#[derive(Debug, Clone)]
pub struct SearchResult {
    pub title: String,
    pub url: String,
}

/// The model of a [`SearchResult`].
pub struct SearchResultView {
    pub title: Seq<char>,
    pub url: Seq<char>,
}

impl View for SearchResult {
    type V = SearchResultView;

    open spec fn view(&self) -> SearchResultView {
        SearchResultView { title: self.title@, url: self.url@ }
    }
}

/// One episode chosen for watching or downloading.
#[derive(Debug, Clone)]
pub struct Episode {
    pub number: String,
    pub video_url: String,
    pub anime_title: String,
}

/// The model of an [`Episode`].
pub struct EpisodeView {
    pub number: Seq<char>,
    pub video_url: Seq<char>,
    pub anime_title: Seq<char>,
}

impl View for Episode {
    type V = EpisodeView;

    open spec fn view(&self) -> EpisodeView {
        EpisodeView {
            number: self.number@,
            video_url: self.video_url@,
            anime_title: self.anime_title@,
        }
    }
}

/// A video file kept in the download directory.
#[derive(Debug, Clone)]
pub struct DownloadedFile {
    pub file_path: String,
    pub anime_title: String,
    pub episode_number: String,
}

/// The model of a [`DownloadedFile`].
pub struct DownloadedFileView {
    pub file_path: Seq<char>,
    pub anime_title: Seq<char>,
    pub episode_number: Seq<char>,
}

impl View for DownloadedFile {
    type V = DownloadedFileView;

    open spec fn view(&self) -> DownloadedFileView {
        DownloadedFileView {
            file_path: self.file_path@,
            anime_title: self.anime_title@,
            episode_number: self.episode_number@,
        }
    }
}

pub open spec fn search_results_view(v: Seq<SearchResult>) -> Seq<SearchResultView> {
    v.map_values(|r: SearchResult| r@)
}

pub open spec fn files_view(v: Seq<DownloadedFile>) -> Seq<DownloadedFileView> {
    v.map_values(|f: DownloadedFile| f@)
}

impl DownloadedFile {
    /// A copy of the record.
    pub fn copy(&self) -> (r: DownloadedFile)
        ensures
            r@ == self@,
    {
        DownloadedFile {
            file_path: self.file_path.clone(),
            anime_title: self.anime_title.clone(),
            episode_number: self.episode_number.clone(),
        }
    }
}

} // verus!
