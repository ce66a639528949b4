use beview::error::AppError;
use beview::json::parse_json;
use beview::routes::batch::{batch_final_status, batch_mode, batch_selection, item_status, payload_ids};
use beview::routes::questions::{
    answer_recorded, answer_to_grade, bulk_selection, followup_type, question_content, question_type_or_default,
    reference_answer, reference_edited, require_round,
};
use beview::routes::records::{check_weekly_goal, comment_body, reward};
use beview::routes::skills::{
    check_deletable, check_renamable, child_path_with, child_skill_path, require_parent, root_path_with, skill_icon,
    skill_name, tag_skill_name, tag_skill_path,
};
use beview::skill_service::{merge_plan, TagMergeGroupInput, TagMergeResult};

fn bad(m: &str) -> AppError {
    AppError::BadRequest(m.to_string())
}

#[test]
fn batch_requests() {
    assert_eq!(batch_mode(&[], None), Err(bad("未选择任何题目")));
    assert_eq!(batch_mode(&[1], None), Ok("unanalyzed"));
    assert_eq!(batch_mode(&[1], Some("all")), Ok("all"));
    assert_eq!(batch_mode(&[1], Some("some")), Err(bad("非法 mode: some（可选 unanalyzed/all）")));
    assert_eq!(batch_selection(&[]), Err(bad("所选题目均已分析，无需批量分析")));
    assert_eq!(batch_selection(&[4]), Ok(()));
}

#[test]
fn small_records() {
    assert_eq!(comment_body(" 好 "), Ok("好".to_string()));
    assert_eq!(comment_body("  "), Err(bad("评论不能为空")));
    assert_eq!(reward(" 奶茶 ", 30, None), Ok(("奶茶".to_string(), 30, "🎁".to_string())));
    assert_eq!(reward("书", 5, Some("📚")), Ok(("书".to_string(), 5, "📚".to_string())));
    assert_eq!(reward(" ", 5, None), Err(bad("奖励名称不能为空")));
    assert_eq!(reward("书", 0, None), Err(bad("积分成本必须为正")));
    assert_eq!(check_weekly_goal(0), Ok(()));
    assert_eq!(check_weekly_goal(1000), Ok(()));
    assert_eq!(check_weekly_goal(1001), Err(bad("周目标需在 0-1000 之间")));
    assert_eq!(check_weekly_goal(-1), Err(bad("周目标需在 0-1000 之间")));
}

#[test]
fn skill_tree_edits() {
    assert_eq!(skill_name(" Redis "), Ok("Redis".to_string()));
    assert_eq!(skill_name(""), Err(bad("技能名称不能为空")));
    assert_eq!(require_parent(None), Err(bad("新建技能必须选择所属顶级领域或父级技能节点")));
    assert_eq!(require_parent(Some(4)), Ok(4));
    assert_eq!(child_path_with("/hard-skills/", "message queue"), "/hard-skills/message-queue");
    assert_eq!(child_skill_path("/a//", "Kafka Streams"), "/a/kafka-streams");
    assert_eq!(child_skill_path("/a", "ÄB C"), "/a/äb-c");
    assert_eq!(root_path_with("x y"), "/x-y");
    assert_eq!(tag_skill_path(None, "Rust Async"), "/rust-async");
    assert_eq!(tag_skill_path(Some("/p/"), "Go"), "/p/go");
    assert_eq!(tag_skill_name("  "), Err(bad("标签名称不能为空")));
    assert_eq!(skill_icon(None), "TreeStructure");
    assert_eq!(skill_icon(Some("Code")), "Code");
    assert_eq!(check_renamable(false, "专业技术与硬技能"), Err(bad("系统顶级知识域不可直接重命名")));
    assert_eq!(check_renamable(true, "专业技术与硬技能"), Ok(()));
    assert_eq!(check_deletable(false, "问题分析与通用素养"), Err(bad("系统顶级知识域不可删除")));
    assert_eq!(check_deletable(false, "我的领域"), Ok(()));
}

#[test]
fn tag_merges() {
    let groups = vec![
        TagMergeGroupInput { canonical: " 缓存 ".into(), aliases: vec![" cache ".into(), "缓存".into(), " ".into()], target_skill_id: Some(3) },
        TagMergeGroupInput { canonical: "  ".into(), aliases: vec!["x".into()], target_skill_id: None },
    ];
    assert_eq!(
        merge_plan(&groups),
        vec![TagMergeGroupInput { canonical: "缓存".into(), aliases: vec!["cache".into()], target_skill_id: Some(3) }]
    );
    let mut r = TagMergeResult::default();
    r.record_alias(4);
    r.record_alias(0);
    assert_eq!(r, TagMergeResult { remapped: 4, removed_tags: 2 });
}

#[test]
fn question_bank_rules() {
    assert_eq!(question_content("  Q "), Ok("Q".to_string()));
    assert_eq!(question_content(" "), Err(bad("题目内容不能为空")));
    assert_eq!(require_round(false), Err(bad("轮次不存在")));
    assert_eq!(question_type_or_default(Some("scenario_case")), "scenario_case");
    assert_eq!(question_type_or_default(Some("  ")), "professional_knowledge");
    assert_eq!(question_type_or_default(None), "professional_knowledge");
    assert_eq!(followup_type(None, Some("collaboration")), "collaboration");
    assert_eq!(followup_type(Some(" "), Some("collaboration")), "professional_knowledge");
    assert_eq!(followup_type(Some("x"), Some("y")), "x");
    assert!(answer_recorded(Some(" a ")) && !answer_recorded(Some(" ")) && !answer_recorded(None));
    assert_eq!(answer_to_grade(Some(" a ")), Ok(" a ".to_string()));
    assert_eq!(answer_to_grade(Some("")), Err(bad("请先填写「我的回答」再评价")));
    assert_eq!(reference_answer(" r "), Ok("r".to_string()));
    assert_eq!(reference_answer(""), Err(bad("参考答案不能为空")));
    assert_eq!(reference_edited(0), Err(bad("还没有参考答案可修改，请先「分析题目」")));
    assert_eq!(reference_edited(1), Ok(()));
    assert_eq!(bulk_selection(&[]), Err(bad("未选择任何题目")));
    assert_eq!(bulk_selection(&[9]), Ok(()));
}

#[test]
fn batch_payload_and_statuses() {
    let p = parse_json(r#"{"ids":[3,"x",-4,1.5,9],"mode":"all","total":3}"#).unwrap();
    assert_eq!(payload_ids(&p), vec![3, -4, 9]);
    assert!(payload_ids(&parse_json(r#"{"ids":"1,2"}"#).unwrap()).is_empty());
    assert!(payload_ids(&parse_json("[1,2]").unwrap()).is_empty());
    assert_eq!(item_status(true), "done");
    assert_eq!(item_status(false), "failed");
    assert_eq!(batch_final_status(true), "cancelled");
    assert_eq!(batch_final_status(false), "done");
}
