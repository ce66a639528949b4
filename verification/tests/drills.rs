use beview::error::AppError;
use beview::routes::drills::{finish_outcome, grading_failed_feedback, sink_content};
use beview::json::Json;
use beview::routes::drills::{chain_turn_messages, looks_like_chain_error, message, turn_messages};

fn field<'a>(m: &'a Json, key: &str) -> &'a str {
    m.get(key).and_then(|v| v.as_str()).map(|s| s.as_str()).unwrap()
}

#[test]
fn turn_messages_merges_context_history_task_into_single_user_message() {
    let msgs = turn_messages(
        "你是面试官",
        "【本场信息】\n岗位：后端",
        &["讲 HashMap".to_string(), "数组加链表".to_string()],
        "请出下一题",
    );
    assert_eq!(msgs.len(), 2, "system + 单条 user");
    assert_eq!(field(&msgs[0], "role"), "system");
    assert_eq!(field(&msgs[1], "role"), "user");
    let content = field(&msgs[1], "content");
    assert!(content.starts_with("【本场信息】"), "context 在前：{content}");
    assert!(content.contains("【对话历史】\n讲 HashMap\n数组加链表"));
    assert!(content.ends_with("【当前任务】\n请出下一题"));
}

#[test]
fn turn_messages_empty_history_placeholder() {
    let msgs = turn_messages("sys", "", &[], "第一题任务");
    let content = field(&msgs[1], "content");
    assert!(content.contains("【对话历史】\n（暂无）"), "空历史给占位：{content}");
    assert!(!content.starts_with("\n"), "context 为空不产生前导空行：{content}");
}

#[test]
fn chain_turn_messages_carries_context_but_not_history() {
    let msgs = chain_turn_messages("sys", "我的回答内容", "请出下一题", Some("【本场信息】\n岗位：后端"));
    assert_eq!(msgs.len(), 2);
    let content = field(&msgs[1], "content");
    assert!(content.contains("【本场信息】\n岗位：后端"));
    assert!(content.contains("【候选人最新回答】\n我的回答内容"));
    assert!(content.contains("【当前任务】\n请出下一题"));
    assert!(!content.contains("【对话历史】"), "链式模式不重放历史");
}

#[test]
fn chain_error_signatures() {
    assert!(looks_like_chain_error("LLM 返回 400: Previous response with id 'f0dbb153' not found."));
    assert!(looks_like_chain_error("LLM 返回 404: previous_response_id 不存在"));
    assert!(looks_like_chain_error("LLM 返回 400: response expired after 7 days"));
    assert!(!looks_like_chain_error("LLM 返回 429: rate limit exceeded"));
    assert!(!looks_like_chain_error("LLM 流空闲超时"));
    assert!(!looks_like_chain_error("LLM 返回 400: invalid model name in response request"));
}

#[test]
fn chain_error_is_case_insensitive() {
    // the message is lowercased before matching, so upper-case signatures
    // are recognised too
    assert!(looks_like_chain_error("PREVIOUS_RESPONSE_ID rejected"));
    assert!(looks_like_chain_error("Response NOT FOUND"));
    assert!(!looks_like_chain_error("NOT FOUND"));
}

#[test]
fn replay_whole_user_message_exact() {
    let msgs = turn_messages("S", "ctx", &["a".to_string()], "t");
    assert_eq!(field(&msgs[0], "content"), "S");
    assert_eq!(field(&msgs[1], "content"), "ctx\n\n【对话历史】\na\n\n【当前任务】\nt");
}

#[test]
fn replay_blank_context_is_omitted() {
    let msgs = turn_messages("S", "  \n ", &[], "t");
    assert_eq!(field(&msgs[1], "content"), "【对话历史】\n（暂无）\n\n【当前任务】\nt");
}

#[test]
fn chain_without_context_exact() {
    let msgs = chain_turn_messages("S", "ans", "t", None);
    assert_eq!(field(&msgs[1], "content"), "【候选人最新回答】\nans\n\n【当前任务】\nt");
    let blank = chain_turn_messages("S", "ans", "t", Some("   "));
    assert_eq!(field(&blank[1], "content"), "【候选人最新回答】\nans\n\n【当前任务】\nt");
}

#[test]
fn message_has_role_and_content_members() {
    let m = message("assistant", "hi".to_string());
    match &m {
        Json::Object(members) => {
            assert_eq!(members.len(), 2);
            assert_eq!(members[0].0, "content");
            assert_eq!(members[1].0, "role");
        }
        other => panic!("not an object: {other:?}"),
    }
    assert_eq!(field(&m, "role"), "assistant");
    assert_eq!(field(&m, "content"), "hi");
    assert!(m.get("missing").is_none());
}

#[test]
fn drill_transcript() {
    let row = |r: &str, k: &str, c: &str, s: Option<i32>| (r.to_string(), k.to_string(), c.to_string(), s);
    let t = beview::routes::drills::transcript_text(&[
        row("ai", "question", "Q1", None),
        row("user", "answer", "A1", None),
        row("ai", "score", "不错", Some(85)),
        row("ai", "score", "无分", None),
        row("ai", "summary", "总评", None),
        row("system", "note", "x", None),
    ]);
    assert_eq!(
        t,
        "面试官：Q1\n\n我：A1\n\n【判分 85 分】\n面试官：不错\n\n【判分 0 分】\n面试官：无分\n\n总结：总评\n\n面试官：x\n\n"
    );
    assert_eq!(beview::routes::drills::transcript_text(&[]), "");
    assert_eq!(beview::routes::drills::transcript_file_name(42), "drill_42.txt");
}

#[test]
fn drill_sinks_and_finishes() {
    assert_eq!(sink_content("  讲讲 TCP  "), Ok("讲讲 TCP".to_string()));
    assert_eq!(sink_content(" \n "), Err(AppError::BadRequest("AI 未产出有效题目".to_string())));
    assert_eq!(finish_outcome(1), Ok(()));
    assert_eq!(finish_outcome(0), Err(AppError::BadRequest("场次不存在或已结束".to_string())));
    assert_eq!(grading_failed_feedback("超时"), "（本回答判分失败：超时，已记录回答，可重新判卷或到题目详情补分析）");
}
