//! The answers the user types at the prompts, read into decisions.
use vstd::prelude::*;
use vstd::string::StringExecFns;

use crate::text::{chars_of, parse_usize, parse_usize_spec, to_lowercase, trim, trimmed, unicode_lowercase};

verus! {

/// Whether the typed line, trimmed, is exactly `word`.
pub fn answer_is(line: &str, word: &str) -> (r: bool)
    ensures
        r == (trimmed(line@) == word@),
{
    let t = trim(line);
    let w = String::from_str(word);
    t == w
}

/// Whether the typed line is a yes: trimmed and lower-cased, it is `y`.
pub fn is_yes(line: &str) -> (r: bool)
    ensures
        r == (unicode_lowercase(trimmed(line@)) == "y"@),
{
    let t = trim(line);
    let lower = to_lowercase(t.as_str());
    let y = String::from_str("y");
    lower == y
}

/// The reading of a number typed to pick one of `count` listed items (numbered from 1).
#[derive(Debug, Clone, Copy, PartialEq, Eq)]
pub enum MenuChoice {
    /// The item at this position of the list (from 0).
    Pick(usize),
    /// A number outside `1..=count`, 0 among them: nothing is picked.
    OutOfRange,
    /// Not a number.
    NotANumber,
}

/// What the typed line picks of `count` items numbered from 1.
pub open spec fn menu_choice_spec(line: Seq<char>, count: int) -> MenuChoice {
    match parse_usize_spec(trimmed(line)) {
        None => MenuChoice::NotANumber,
        Some(n) => if 1 <= n <= count {
            MenuChoice::Pick((n - 1) as usize)
        } else {
            MenuChoice::OutOfRange
        },
    }
}

/// What the typed line picks of `count` items numbered from 1.
pub fn menu_choice(line: &str, count: usize) -> (r: MenuChoice)
    ensures
        r == menu_choice_spec(line@, count as int),
{
    let t = trim(line);
    let cs = chars_of(t.as_str());
    match parse_usize(&cs) {
        None => MenuChoice::NotANumber,
        Some(n) => if n > 0 && n <= count {
            MenuChoice::Pick(n - 1)
        } else {
            MenuChoice::OutOfRange
        },
    }
}

/// The commands of the main menu.
#[derive(Debug, Clone, Copy, PartialEq, Eq)]
pub enum MainCommand {
    Search,
    Downloaded,
    Quit,
    Unknown,
}

/// The main-menu command a typed line gives: `1` search, `2` downloads, `q` or `Q` quit.
pub fn main_command(line: &str) -> (r: MainCommand)
    ensures
        r == if trimmed(line@) == "1"@ {
            MainCommand::Search
        } else if trimmed(line@) == "2"@ {
            MainCommand::Downloaded
        } else if trimmed(line@) == "q"@ || trimmed(line@) == "Q"@ {
            MainCommand::Quit
        } else {
            MainCommand::Unknown
        },
{
    if answer_is(line, "1") {
        MainCommand::Search
    } else if answer_is(line, "2") {
        MainCommand::Downloaded
    } else if answer_is(line, "q") || answer_is(line, "Q") {
        MainCommand::Quit
    } else {
        MainCommand::Unknown
    }
}

/// What may be done with a single episode found.
#[derive(Debug, Clone, Copy, PartialEq, Eq)]
pub enum EpisodeAction {
    Watch,
    Download,
    Cancel,
}

/// The action a typed line gives for an episode: `1` watch, `2` download, else cancel.
pub fn episode_action(line: &str) -> (r: EpisodeAction)
    ensures
        r == if trimmed(line@) == "1"@ {
            EpisodeAction::Watch
        } else if trimmed(line@) == "2"@ {
            EpisodeAction::Download
        } else {
            EpisodeAction::Cancel
        },
{
    if answer_is(line, "1") {
        EpisodeAction::Watch
    } else if answer_is(line, "2") {
        EpisodeAction::Download
    } else {
        EpisodeAction::Cancel
    }
}

/// What may be done in the menu of downloaded files.
#[derive(Debug, Clone, Copy, PartialEq, Eq)]
pub enum ManageAction {
    Play,
    DeleteOne,
    DeleteAll,
    Cancel,
}

/// The action a typed line gives in the downloads menu: `1` play, `2` delete one file,
/// `3` delete all, else cancel.
pub fn manage_action(line: &str) -> (r: ManageAction)
    ensures
        r == if trimmed(line@) == "1"@ {
            ManageAction::Play
        } else if trimmed(line@) == "2"@ {
            ManageAction::DeleteOne
        } else if trimmed(line@) == "3"@ {
            ManageAction::DeleteAll
        } else {
            ManageAction::Cancel
        },
{
    if answer_is(line, "1") {
        ManageAction::Play
    } else if answer_is(line, "2") {
        ManageAction::DeleteOne
    } else if answer_is(line, "3") {
        ManageAction::DeleteAll
    } else {
        ManageAction::Cancel
    }
}

} // verus!
