use beview::memory_model::{fsrs_rating, schedule_from, MIN_FIT_LOGS};

#[test]
fn rating_mapping_covers_three_grades_and_rejects_unknown() {
    assert_eq!(fsrs_rating("forgot"), Some(1));
    assert_eq!(fsrs_rating("fuzzy"), Some(2));
    assert_eq!(fsrs_rating("remembered"), Some(3));
    assert_eq!(fsrs_rating("bogus"), None);
}

#[test]
fn schedule_forgot_always_returns_one_day() {
    assert_eq!(schedule_from(Some(14), 14, "forgot"), 1, "forgot 必须强制重置为 1 天");
    assert_eq!(schedule_from(None, 14, "forgot"), 1);
}

#[test]
fn schedule_falls_back_when_unfitted_or_empty_logs() {
    assert_eq!(schedule_from(None, 4, "remembered"), 10); // 4 * 2.5 = 10
    assert_eq!(schedule_from(None, 4, "fuzzy"), 6); // 4 * 1.5 = 6
}

#[test]
fn schedule_uses_fsrs_interval_when_present() {
    assert_eq!(schedule_from(Some(23), 4, "remembered"), 23);
    assert_eq!(schedule_from(Some(0), 4, "fuzzy"), 1);
    assert_eq!(schedule_from(Some(-3), 4, "remembered"), 1);
}

#[test]
fn schedule_fallback_rounds_up_and_is_at_least_one() {
    assert_eq!(schedule_from(None, 3, "remembered"), 8); // 7.5 → 8
    assert_eq!(schedule_from(None, 1, "fuzzy"), 2); // 1.5 → 2
    assert_eq!(schedule_from(None, 0, "remembered"), 1);
    assert_eq!(schedule_from(None, -5, "fuzzy"), 1);
    assert_eq!(schedule_from(None, 4, "bogus"), 1);
    assert_eq!(schedule_from(None, i32::MAX, "remembered"), i32::MAX);
}

#[test]
fn fit_threshold_is_twenty_logs() {
    assert_eq!(MIN_FIT_LOGS, 20);
}

#[test]
fn review_logs_grouped_by_question() {
    let rows = vec![(7, 3, 100), (2, 1, 50), (7, 2, 30), (5, 3, 10), (2, 3, 5)];
    let g = beview::memory_model::group_review_logs(&rows);
    assert_eq!(g, vec![(2, vec![(1, 50), (3, 5)]), (5, vec![(3, 10)]), (7, vec![(3, 100), (2, 30)])]);
    assert!(beview::memory_model::group_review_logs(&[]).is_empty());
}
