use beview::routes::calendar::escape;
use beview::error::AppError;
use beview::routes::companies::{clean, clip_chars, predict_prompt, predicted_questions};
use beview::routes::review::{compute_streak, explain_messages, EXPLAIN_SYSTEM};
use beview::routes::sessions::truncate_err;

#[test]
fn ical_escaping() {
    assert_eq!(escape("a,b;c\\d\r\ne"), "a\\,b\\;c\\\\d\\ne");
    assert_eq!(escape(""), "");
    assert_eq!(escape("面试"), "面试");
}

#[test]
fn clean_trims_and_drops_blank() {
    assert_eq!(clean(Some("  字节跳动 ")), Some("字节跳动".to_string()));
    assert_eq!(clean(Some("   ")), None);
    assert_eq!(clean(None), None);
}

#[test]
fn clip_marks_cut() {
    assert_eq!(clip_chars("abcdef", 3), "abc…");
    assert_eq!(clip_chars("abc", 3), "abc");
    assert_eq!(clip_chars("中文字符", 2), "中文…");
}

#[test]
fn streak_counts_consecutive_days() {
    let today = 740_000;
    assert_eq!(compute_streak(&[], today), 0);
    assert_eq!(compute_streak(&[today, today - 1, today - 2, today - 4], today), 3);
    // yesterday starts the streak when nothing today
    assert_eq!(compute_streak(&[today - 1, today - 2], today), 2);
    // a gap before yesterday gives no streak
    assert_eq!(compute_streak(&[today - 2, today - 3], today), 0);
    // duplicates are skipped
    assert_eq!(compute_streak(&[today, today, today - 1, today - 1, today - 2], today), 3);
}

#[test]
fn explanation_prompt() {
    let m = explain_messages("讲讲 TCP", Some("三次握手"), "  ", Some("重点"));
    assert_eq!(m.len(), 2);
    let get = |i: usize, k: &str| m[i].get(k).and_then(|v| v.as_str()).unwrap().clone();
    assert_eq!(get(0, "content"), EXPLAIN_SYSTEM);
    assert_eq!(get(0, "role"), "system");
    assert_eq!(get(1, "role"), "user");
    assert_eq!(
        get(1, "content"),
        "面试题：\n讲讲 TCP\n\n我的回答（参考，指出可改进处）：\n三次握手\n\n重点讲解：重点\n"
    );
}

#[test]
fn long_errors_are_truncated() {
    assert_eq!(truncate_err("short"), "short");
    let long = "x".repeat(350);
    let t = truncate_err(&long);
    assert_eq!(t, format!("{}…（共 350 字符，已截断）", "x".repeat(300)));
}

#[test]
fn position_prediction_prompt() {
    assert_eq!(
        predict_prompt("A公司", "后端", Some("  "), None, None),
        Err(AppError::BadRequest("该岗位暂无 JD 描述，请先补充岗位职责与要求".into()))
    );
    assert!(predict_prompt("A", "B", None, None, None).is_err());
    assert_eq!(
        predict_prompt("A公司", "后端", Some(" 写 Rust "), None, None).unwrap(),
        "【目标岗位】\n公司：A公司\n职位：后端\n\n【岗位 JD 描述】\n写 Rust\n\n【候选人背景】未解析简历，仅按岗位 JD 预测"
    );
    let long = "字".repeat(4001);
    let p = predict_prompt("A", "B", Some(&long), Some("五年经验"), Some("重并发")).unwrap();
    assert_eq!(
        p,
        format!("【目标岗位】\n公司：A\n职位：B\n\n【岗位 JD 描述】\n{}…\n\n【候选人背景】\n五年经验\n\n【已有 JD 解读要点】\n重并发", "字".repeat(4000))
    );
}

#[test]
fn predicted_questions_into_bank() {
    assert_eq!(predicted_questions(&[], "后端"), Err(AppError::BadRequest("待入库题目列表不能为空".into())));
    let items = vec![(" Q1 ".to_string(), "并发".to_string()), ("  ".to_string(), "x".to_string())];
    assert_eq!(
        predicted_questions(&items, "后端").unwrap(),
        vec![("Q1".to_string(), vec!["岗位押题".to_string(), "并发".to_string(), "后端".to_string()])]
    );
    assert_eq!(predicted_questions(&items[1..], "后端").unwrap(), vec![]);
}
