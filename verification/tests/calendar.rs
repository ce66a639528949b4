use beview::error::AppError;
use beview::json::parse_json;
use beview::routes::calendar::{feed_token, stored_token};
use beview::routes::calendar::{escape, fold_ical, render_calendar, review_days, IcsRound};

#[test]
fn short_lines_are_not_folded() {
    assert_eq!(fold_ical("SUMMARY:hello"), "SUMMARY:hello");
    let exact = "x".repeat(75);
    assert_eq!(fold_ical(&exact), exact);
}

#[test]
fn long_ascii_line_folds_at_75_then_74_bytes() {
    let line = "a".repeat(200);
    let folded = fold_ical(&line);
    let parts: Vec<&str> = folded.split("\r\n ").collect();
    assert_eq!(parts.len(), 3);
    assert_eq!(parts[0].len(), 75);
    assert_eq!(parts[1].len(), 74);
    assert_eq!(parts[2].len(), 51);
    assert_eq!(parts.concat(), line);
}

#[test]
fn folding_never_splits_a_character() {
    let line = format!("SUMMARY:{}", "面试".repeat(40));
    let folded = fold_ical(&line);
    for (i, p) in folded.split("\r\n ").enumerate() {
        assert!(p.len() <= if i == 0 { 75 } else { 74 });
    }
    assert_eq!(folded.replace("\r\n ", ""), line);
    // 8 ASCII bytes then 3-byte characters: the first line holds 22 of them (74 bytes)
    assert!(folded.starts_with(&format!("SUMMARY:{}\r\n ", "面试".repeat(11))));
}

#[test]
fn due_reviews_aggregate_per_day_with_overdue_today() {
    let today = 739_000;
    let r = review_days(&[today + 2, today - 5, today, today + 2, today - 1, today + 1], today);
    assert_eq!(r, vec![(today, 3), (today + 1, 1), (today + 2, 2)]);
    assert!(review_days(&[], today).is_empty());
}

fn round(id: i64, day: i32) -> IcsRound {
    IcsRound {
        id,
        name: "一面".into(),
        day,
        passed: "pass".into(),
        company: Some("字节".into()),
        position: Some("后端".into()),
        form: Some("视频,远程".into()),
    }
}

#[test]
fn calendar_feed_text() {
    // 2024-03-05 is day 738950 from the common era
    let day = 738_950;
    let text = render_calendar(&[round(7, day)], &[(day + 1, 4)], "20240301T000000Z").unwrap();
    let expected = "BEGIN:VCALENDAR\r\n\
VERSION:2.0\r\n\
PRODID:-//Beview//CN\r\n\
CALSCALE:GREGORIAN\r\n\
METHOD:PUBLISH\r\n\
X-WR-CALNAME:求职工作台\r\n\
BEGIN:VEVENT\r\n\
UID:round-7@beview\r\n\
DTSTAMP:20240301T000000Z\r\n\
DTSTART;VALUE=DATE:20240305\r\n\
DTEND;VALUE=DATE:20240306\r\n\
SUMMARY:字节·后端·一面 · 已通过\r\n\
DESCRIPTION:形式：视频\\,远程\r\n\
END:VEVENT\r\n\
BEGIN:VEVENT\r\n\
UID:review-20240306@beview\r\n\
DTSTAMP:20240301T000000Z\r\n\
DTSTART;VALUE=DATE:20240306\r\n\
DTEND;VALUE=DATE:20240307\r\n\
SUMMARY:复习 4 张卡到期\r\n\
END:VEVENT\r\n\
END:VCALENDAR\r\n";
    assert_eq!(text, expected);
}

#[test]
fn round_without_company_or_position() {
    let mut r = round(-3, 738_950);
    r.company = None;
    r.position = Some(String::new());
    r.passed = "pending".into();
    r.form = None;
    let text = render_calendar(&[r], &[], "S").unwrap();
    assert!(text.contains("UID:round--3@beview\r\n"));
    assert!(text.contains("SUMMARY:未命名公司·一面\r\n"));
    assert!(!text.contains("DESCRIPTION"));
}

#[test]
fn day_without_date_gives_no_feed() {
    assert!(render_calendar(&[round(1, i32::MAX)], &[], "S").is_none());
    assert!(render_calendar(&[], &[(i32::MIN, 1)], "S").is_none());
}

#[test]
fn escape_still_escapes() {
    assert_eq!(escape("a;b"), "a\\;b");
}

#[test]
fn feed_tokens() {
    assert_eq!(feed_token(Some("abc".to_string())), Ok("abc".to_string()));
    assert_eq!(feed_token(Some(String::new())), Err(AppError::Unauthorized));
    assert_eq!(feed_token(None), Err(AppError::Unauthorized));
    assert_eq!(stored_token(&parse_json(r#"{"token":"t1"}"#).unwrap()), Some("t1".to_string()));
    assert_eq!(stored_token(&parse_json(r#"{"token":1}"#).unwrap()), None);
    assert_eq!(stored_token(&parse_json("null").unwrap()), None);
}
