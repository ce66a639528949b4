use beview::error::AppError;
use beview::json::{parse_json, Json};
use beview::routes::sessions::{
    overall_message, overall_message_with, overall_record, round_block_with, round_mark, round_result,
    suggests_rejection, plan_new_round, review_items, round_deletable, NewRound, OverallQuestion, OverallRound, RoundMark,
};
use chrono::Datelike;

fn day(y: i32, m: u32, d: u32) -> i32 {
    chrono::NaiveDate::from_ymd_opt(y, m, d).unwrap().num_days_from_ce()
}

fn rounds() -> Vec<OverallRound> {
    vec![
        OverallRound {
            name: "一面".into(),
            form: Some("视频".into()),
            passed: "pass".into(),
            day: Some(day(2024, 5, 1)),
            retrospective: parse_json(r#"{"overall":"稳"}"#),
            questions: vec![
                OverallQuestion { content: "Q".into(), first_answer: Some("A".into()), score: Some(80), feedback: None },
                OverallQuestion { content: "Q2".into(), first_answer: None, score: Some(-5), feedback: Some("差".into()) },
            ],
        },
        OverallRound { name: "二面".into(), form: None, passed: "pending".into(), day: None, retrospective: None, questions: vec![] },
    ]
}

#[test]
fn interview_record() {
    let r = overall_record(&rounds());
    assert_eq!(
        r,
        "\n### 轮次：一面（视频）结果：通过\n面试时间：2024-05-01\n本轮复盘结论：稳\n\
         题目：Q\n候选人第一手真实回答：A\n判分：80 分\n点评：—\n\n\
         题目：Q2\n候选人第一手真实回答：（未留作答记录）\n判分：-5 分\n点评：差\n\n\
         \n### 轮次：二面（形式未定）结果：待定\n（本轮无题目记录）\n"
    );
    let fail = OverallRound { name: "终面".into(), form: None, passed: "fail".into(), day: None, retrospective: Some(Json::Null), questions: vec![] };
    assert_eq!(round_block_with(&fail, Some("d")), "\n### 轮次：终面（形式未定）结果：未通过\n面试时间：d\n（本轮无题目记录）\n");
}

#[test]
fn overall_user_message() {
    let resume = parse_json(r#"{"name":"x"}"#).unwrap();
    assert_eq!(
        overall_message(Some("  "), Some(&resume), &[]),
        "【岗位信息】\nJD：未填写\n\n【候选人简历】\n{\n  \"name\": \"x\"\n}\n\n【面试记录（按时间顺序）】\n"
    );
    assert_eq!(
        overall_message(Some("做后端"), Some(&Json::Str("x".into())), &rounds()[1..]),
        "【岗位信息】\nJD：\n做后端\n\n【候选人简历】\n未提供\n\n【面试记录（按时间顺序）】\n\n### 轮次：二面（形式未定）结果：待定\n（本轮无题目记录）\n"
    );
    assert_eq!(overall_message_with(None, None, "R"), "【岗位信息】\nJD：未填写\n\n【候选人简历】\n未提供\n\n【面试记录（按时间顺序）】\nR");
}

#[test]
fn round_results_lock_once_chosen() {
    assert_eq!(round_result(Some("pending"), Some("pass")), Ok(Some("pass")));
    assert_eq!(round_result(Some("pass"), Some("pass")), Ok(Some("pass")));
    assert_eq!(round_result(None, Some("fail")), Ok(Some("fail")));
    assert_eq!(round_result(Some("fail"), None), Ok(None));
    assert_eq!(round_result(Some("pass"), Some("fail")), Err(AppError::BadRequest("该轮结果已选定（pass），不可变更".into())));
    assert_eq!(round_result(Some("pending"), Some("maybe")), Err(AppError::BadRequest("非法轮次结果: maybe".into())));
    assert_eq!(round_mark(Some("pending"), "pass", "二面"), RoundMark::Passed);
    assert_eq!(round_mark(Some("pass"), "pass", "二面"), RoundMark::Logged("二面 · 标记通过".into()));
    assert_eq!(round_mark(None, "fail", "终面"), RoundMark::Logged("终面 · 标记未通过".into()));
    assert_eq!(round_mark(None, "pending", "x"), RoundMark::Logged("x · 标记pending".into()));
    assert!(suggests_rejection(Some("fail"), "interviewing"));
    assert!(!suggests_rejection(Some("fail"), "offer"));
    assert!(!suggests_rejection(None, "interviewing"));
}

#[test]
fn adding_rounds() {
    let bad = |m: &str| Err(AppError::BadRequest(m.to_string()));
    assert_eq!(plan_new_round("offer", 2, Some(("pass", "二面")), None, None), bad("投递已终态，不能再添加面试"));
    assert_eq!(
        plan_new_round("interviewing", 1, Some(("pending", "一面")), None, None),
        bad("「一面」还未标记结果，不能添加下一面")
    );
    assert_eq!(
        plan_new_round("interviewing", 1, Some(("fail", "一面")), None, None),
        bad("「一面」未通过，无法添加下一面；如需继续请先在轮次详情复核结果")
    );
    assert_eq!(
        plan_new_round("applied", 0, None, Some("  "), Some(" 视频 ")),
        Ok(NewRound { name: "一面".into(), form: Some("视频".into()), sort_order: 1, advance: true })
    );
    assert_eq!(
        plan_new_round("interviewing", 4, Some(("pass", "四面")), None, None),
        Ok(NewRound { name: "五面".into(), form: None, sort_order: 5, advance: false })
    );
    assert_eq!(plan_new_round("interviewing", 7, None, Some("HR 面"), None).unwrap().name, "HR 面");
    assert_eq!(plan_new_round("interviewing", 5, None, None, None).unwrap().name, "N面");
}

#[test]
fn review_items_and_deletion() {
    assert_eq!(review_items(&[" a ".into(), "  ".into(), "b".into()]), Ok(vec!["a".to_string(), "b".to_string()]));
    assert_eq!(review_items(&[" ".into()]), Err(AppError::BadRequest("未选择任何改进项".into())));
    assert_eq!(review_items(&[]), Err(AppError::BadRequest("未选择任何改进项".into())));
    assert_eq!(round_deletable("pending", 0), Ok(()));
    assert_eq!(round_deletable("pass", 0), Err(AppError::BadRequest("该轮次结果已选定，不可删除".into())));
    assert_eq!(round_deletable("pending", 3), Err(AppError::BadRequest("该轮次下还有 3 道题目，请先处理后再删除".into())));
}
