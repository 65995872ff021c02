use taurium::badge::{extract_badge_count, notification_body, parse_decimal, push_decimal};

#[test]
fn badge_in_parentheses() {
    assert_eq!(extract_badge_count("Inbox (12)"), 12);
}

#[test]
fn badge_in_brackets() {
    assert_eq!(extract_badge_count("Inbox [7]"), 7);
}

#[test]
fn zero_in_parentheses_is_no_badge() {
    assert_eq!(extract_badge_count("Inbox (0)"), 0);
}

#[test]
fn title_without_count() {
    assert_eq!(extract_badge_count("No count"), 0);
}

#[test]
fn zero_in_parentheses_falls_back_to_brackets() {
    assert_eq!(extract_badge_count("(0) fallback [4]"), 4);
}

#[test]
fn first_parenthesised_run_wins() {
    assert_eq!(extract_badge_count("(3) Chat (9) [5]"), 3);
    assert_eq!(extract_badge_count("(x) (2)"), 2);
    assert_eq!(extract_badge_count("[8] then (6)"), 6);
}

#[test]
fn first_bracketed_run_wins() {
    assert_eq!(extract_badge_count("Mail [4] [11]"), 4);
}

#[test]
fn digits_must_be_enclosed() {
    assert_eq!(extract_badge_count("(12 unread"), 0);
    assert_eq!(extract_badge_count("()"), 0);
    assert_eq!(extract_badge_count("( 3)"), 0);
    assert_eq!(extract_badge_count("(3a)"), 0);
}

#[test]
fn unicode_titles() {
    assert_eq!(extract_badge_count("Пошта (42) — ✉"), 42);
    assert_eq!(extract_badge_count("日本語 [9]"), 9);
    assert_eq!(extract_badge_count("(٣)"), 0);
}

#[test]
fn overflowing_count_falls_back() {
    assert_eq!(extract_badge_count("(99999999999) [2]"), 2);
    assert_eq!(extract_badge_count("(4294967295)"), 4294967295);
    assert_eq!(extract_badge_count("(4294967296)"), 0);
}

#[test]
fn decimal_parsing() {
    assert_eq!(parse_decimal("0"), Some(0));
    assert_eq!(parse_decimal("007"), Some(7));
    assert_eq!(parse_decimal("4294967295"), Some(u32::MAX));
    assert_eq!(parse_decimal("4294967296"), None);
    assert_eq!(parse_decimal(""), None);
    assert_eq!(parse_decimal("12a"), None);
    assert_eq!(parse_decimal("+1"), None);
}

#[test]
fn decimal_rendering() {
    let mut s = String::from("n=");
    push_decimal(&mut s, 0);
    assert_eq!(s, "n=0");
    let mut t = String::new();
    push_decimal(&mut t, 4294967295);
    assert_eq!(t, "4294967295");
    let mut u = String::new();
    push_decimal(&mut u, 1070);
    assert_eq!(u, "1070");
}

#[test]
fn notification_texts() {
    assert_eq!(notification_body(1, 0, "Mail").as_deref(), Some("1 notification from Mail"));
    assert_eq!(notification_body(3, 0, "Mail").as_deref(), Some("3 notifications from Mail"));
    assert_eq!(notification_body(4, 3, "Mail").as_deref(), Some("New notification from Mail"));
    assert_eq!(notification_body(5, 3, "Mail").as_deref(), Some("2 new notifications from Mail"));
    assert_eq!(notification_body(3, 3, "Mail"), None);
    assert_eq!(notification_body(0, 5, "Mail"), None);
    assert_eq!(notification_body(0, 0, "Mail"), None);
}
