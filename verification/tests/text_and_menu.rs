use ani_cli_rus::menu::{episode_action, is_yes, main_command, manage_action, menu_choice, answer_is};
use ani_cli_rus::menu::{EpisodeAction, MainCommand, ManageAction, MenuChoice};
use ani_cli_rus::text::{chars_of, contains, parse_i32, parse_usize, quoted_after, trim};

#[test]
fn trim_removes_unicode_white_space_at_both_ends() {
    assert_eq!(trim("  \t Наруто \u{3000}\n"), "Наруто");
    assert_eq!(trim("   "), "");
    assert_eq!(trim("a b"), "a b");
}

#[test]
fn parse_usize_follows_std() {
    assert_eq!(parse_usize(&chars_of("42")), Some(42));
    assert_eq!(parse_usize(&chars_of("+7")), Some(7));
    assert_eq!(parse_usize(&chars_of("-7")), None);
    assert_eq!(parse_usize(&chars_of("")), None);
    assert_eq!(parse_usize(&chars_of("+")), None);
    assert_eq!(parse_usize(&chars_of("4a")), None);
    assert_eq!(parse_usize(&chars_of("18446744073709551615")), Some(usize::MAX));
    assert_eq!(parse_usize(&chars_of("18446744073709551616")), None);
    for s in ["0", "00012", "+0", "9999999999", "x", " 1"] {
        assert_eq!(parse_usize(&chars_of(s)), s.parse::<usize>().ok());
    }
}

#[test]
fn parse_i32_follows_std() {
    for s in ["12", "-12", "+3", "-", "+", "", "2147483647", "2147483648", "-2147483648",
        "-2147483649", "1x", "007"] {
        assert_eq!(parse_i32(&chars_of(s)), s.parse::<i32>().ok(), "{}", s);
    }
}

#[test]
fn contains_and_quoted_after() {
    assert!(contains("https://kodik.info/x", "kodik"));
    assert!(!contains("https://youtube.com", "kodik"));
    assert_eq!(
        quoted_after("<div data-player-src=\"https://p/1\" x=\"y\">", "data-player-src=\""),
        Some("https://p/1".to_string())
    );
    assert_eq!(quoted_after("data-player-src=\"open", "data-player-src=\""), None);
    assert_eq!(quoted_after("nothing", "data-player-src=\""), None);
}

#[test]
fn menu_choice_reads_numbers_from_one() {
    assert_eq!(menu_choice("2\n", 3), MenuChoice::Pick(1));
    assert_eq!(menu_choice(" +3 ", 3), MenuChoice::Pick(2));
    assert_eq!(menu_choice("0", 3), MenuChoice::OutOfRange);
    assert_eq!(menu_choice("4", 3), MenuChoice::OutOfRange);
    assert_eq!(menu_choice("abc", 3), MenuChoice::NotANumber);
    assert_eq!(menu_choice("", 3), MenuChoice::NotANumber);
    assert_eq!(menu_choice("1", 0), MenuChoice::OutOfRange);
}

#[test]
fn law_menu_pick_in_list_on_values() {
    for line in ["1", "2", "3", "4", "0", "x"] {
        if let MenuChoice::Pick(i) = menu_choice(line, 3) {
            assert!(i < 3);
        }
    }
}

#[test]
fn yes_answers() {
    assert!(is_yes("y\n"));
    assert!(is_yes("  Y "));
    assert!(!is_yes("yes"));
    assert!(!is_yes("n"));
    assert!(!is_yes(""));
}

#[test]
fn commands_and_actions() {
    assert_eq!(main_command("1\n"), MainCommand::Search);
    assert_eq!(main_command(" 2 "), MainCommand::Downloaded);
    assert_eq!(main_command("q"), MainCommand::Quit);
    assert_eq!(main_command("Q\n"), MainCommand::Quit);
    assert_eq!(main_command("3"), MainCommand::Unknown);
    assert_eq!(episode_action("1"), EpisodeAction::Watch);
    assert_eq!(episode_action("2\n"), EpisodeAction::Download);
    assert_eq!(episode_action("0"), EpisodeAction::Cancel);
    assert_eq!(manage_action("1"), ManageAction::Play);
    assert_eq!(manage_action("2"), ManageAction::DeleteOne);
    assert_eq!(manage_action("3\n"), ManageAction::DeleteAll);
    assert_eq!(manage_action("x"), ManageAction::Cancel);
    assert!(answer_is(" DELETE\n", "DELETE"));
    assert!(!answer_is("delete", "DELETE"));
    assert!(answer_is("YES", "YES"));
}
