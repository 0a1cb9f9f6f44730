use task_manager::input::{
    parse_u32_str, priority_from_choice, selection_down, selection_up, status_from_choice,
    title_is_valid,
};
use task_manager::task_manager::{TaskPriority, TaskStatus};

#[test]
fn titles_need_a_visible_character() {
    assert!(title_is_valid("Buy milk"));
    assert!(title_is_valid("  padded  "));
    assert!(!title_is_valid(""));
    assert!(!title_is_valid("   "));
    assert!(!title_is_valid(" \t\n "));
}

#[test]
fn ids_parse_from_digit_strings() {
    assert_eq!(parse_u32_str("0"), Some(0));
    assert_eq!(parse_u32_str("123"), Some(123));
    assert_eq!(parse_u32_str("4294967295"), Some(u32::MAX));
    assert_eq!(parse_u32_str("4294967296"), None);
    assert_eq!(parse_u32_str(""), None);
    assert_eq!(parse_u32_str("12a"), None);
    assert_eq!(parse_u32_str("-3"), None);
}

#[test]
fn ids_parse_with_an_optional_plus_sign() {
    assert_eq!(parse_u32_str("+7"), Some(7));
    assert_eq!(parse_u32_str("+0"), Some(0));
    assert_eq!(parse_u32_str("+4294967295"), Some(u32::MAX));
    assert_eq!(parse_u32_str("+"), None);
    assert_eq!(parse_u32_str("++7"), None);
    assert_eq!(parse_u32_str("7+"), None);
}

#[test]
fn menu_digits_select_priorities() {
    assert_eq!(priority_from_choice("1"), TaskPriority::Low);
    assert_eq!(priority_from_choice("2"), TaskPriority::Medium);
    assert_eq!(priority_from_choice("3"), TaskPriority::High);
    assert_eq!(priority_from_choice("4"), TaskPriority::Low);
    assert_eq!(priority_from_choice("anything"), TaskPriority::Low);
}

#[test]
fn menu_digits_select_statuses() {
    assert_eq!(status_from_choice("1"), Some(TaskStatus::Todo));
    assert_eq!(status_from_choice("2"), Some(TaskStatus::InProgress));
    assert_eq!(status_from_choice("3"), Some(TaskStatus::Done));
    assert_eq!(status_from_choice("4"), None);
    assert_eq!(status_from_choice(""), None);
}

#[test]
fn selection_moves_match_the_screen() {
    assert_eq!(selection_down(None, 5), 0);
    assert_eq!(selection_down(Some(0), 0), 0);
    assert_eq!(selection_down(Some(0), 5), 4);
    assert_eq!(selection_down(Some(3), 5), 2);

    assert_eq!(selection_up(None, 5), 0);
    assert_eq!(selection_up(Some(0), 0), 0);
    assert_eq!(selection_up(Some(0), 5), 6);
    assert_eq!(selection_up(Some(3), 5), 4);
}
