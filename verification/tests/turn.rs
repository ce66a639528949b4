use beview::error::AppError;
use beview::json::parse_json;
use beview::routes::turn::{
    answer_context, answer_snapshot, control_note, inline_report, early_stop, history_turns, needs_start_record, persona_prefix, plan_turn,
    reply_kind, turn_task, ReplyKind, TurnIntent, TurnMsg, CONTINUE_PART, FIRST_TASK, HINT_NOTE_TWO, HINT_TASK,
    NOT_STARTED, PROTOCOL_TAIL, SUMMARY_PART,
};

fn m(role: &str, kind: &str, content: &str) -> TurnMsg {
    TurnMsg { role: role.into(), kind: kind.into(), content: content.into(), intent: None }
}

#[test]
fn first_turn_starts_and_refuses_controls() {
    let p = plan_turn(&[], None, "", None, None).unwrap();
    assert!(p.first_turn && !p.merged && !p.to_summary);
    assert_eq!((p.target_question, p.total_answers, p.asked, p.target), (None, 0, 0, 5));
    assert_eq!(p.intent, TurnIntent::MainQuestion);
    assert_eq!(turn_task(&p, None), FIRST_TASK);
    assert!(needs_start_record(&[]));
    for a in ["hint", "skip", "finish"] {
        assert_eq!(plan_turn(&[], Some(a), "x", None, Some(3)), Err(AppError::BadRequest(NOT_STARTED.to_string())));
    }
}

#[test]
fn first_answer_gets_a_probe() {
    let h = vec![m("user", "start", "开始"), m("ai", "question", "Q1")];
    assert!(!needs_start_record(&h));
    let p = plan_turn(&h, None, "A1", None, Some(2)).unwrap();
    assert!(!p.first_turn && !p.retry && p.merged && !p.to_summary);
    assert_eq!((p.target_question, p.total_answers, p.asked, p.target), (Some(1), 1, 1, 2));
    assert_eq!(p.intent, TurnIntent::FollowupProbe);
    assert_eq!(p.intent.as_str(), "followup_probe");
    assert_eq!(reply_kind(&p), ReplyKind::Probe);
    let t = turn_task(&p, Some(2));
    assert_eq!(
        t,
        format!("【回答处理·两段式】候选人已提交回答。请严格按以下两段输出：\n{CONTINUE_PART}\n{PROTOCOL_TAIL}{HINT_NOTE_TWO}")
    );
}

#[test]
fn reaching_the_target_closes() {
    let h = vec![m("user", "start", "开始"), m("ai", "question", "Q1"), m("user", "answer", "A1"), m("ai", "probe", "P1")];
    let p = plan_turn(&h, Some("answer"), "A2", Some("A1"), Some(2)).unwrap();
    assert!(p.to_summary && p.merged);
    assert_eq!((p.total_answers, p.asked, p.target_question), (2, 2, Some(3)));
    assert_eq!(p.intent, TurnIntent::Summary);
    assert_eq!(reply_kind(&p), ReplyKind::Summary);
    assert_eq!(turn_task(&p, None), format!("【回答处理·两段式】候选人已提交回答。请严格按以下两段输出：\n{SUMMARY_PART}\n{PROTOCOL_TAIL}"));
    let c = answer_context(&h, 3, "A2");
    assert_eq!((c.main_question.as_str(), c.main_answer.as_str(), c.probe_answer.as_deref()), ("Q1", "A1", Some("A2")));
}

#[test]
fn resubmission_is_a_retry() {
    let h = vec![m("user", "start", "开始"), m("ai", "question", "Q1"), m("user", "answer", "A1")];
    let p = plan_turn(&h, None, "A1", Some("A1"), Some(3)).unwrap();
    assert!(p.retry);
    assert_eq!((p.target_question, p.total_answers), (Some(1), 1));
    let q = plan_turn(&h, Some("hint"), "A1", Some("A1"), Some(3)).unwrap();
    assert!(!q.retry && !q.merged && !q.to_summary);
    assert_eq!(q.intent, TurnIntent::Hint);
    assert_eq!(turn_task(&q, None), HINT_TASK);
    assert_eq!(plan_turn(&h, Some("finish"), "", None, Some(0)).unwrap().intent, TurnIntent::Summary);
    assert_eq!(plan_turn(&h, None, "A2", None, Some(0)).unwrap().target, 1);
}

#[test]
fn failing_answers_close_early() {
    let h = vec![m("ai", "question", "Q1"), m("user", "answer", "A1"), m("ai", "question", "Q2")];
    let p = plan_turn(&h, None, "A2", None, Some(5)).unwrap();
    assert_eq!(p.total_answers, 2);
    assert!(!p.to_summary);
    let closed = early_stop(p, Some(20));
    assert!(closed.to_summary);
    assert_eq!(closed.intent, TurnIntent::Summary);
    assert_eq!(early_stop(p, Some(26)), p);
    assert_eq!(early_stop(p, None), p);
}

#[test]
fn history_and_prefix() {
    let mut probe = m("ai", "question", "P");
    probe.intent = Some("followup_probe".into());
    let h = vec![m("user", "start", "开始"), m("ai", "question", "Q1"), m("user", "answer", "A1"), m("user", "control", "x"), probe];
    let t = history_turns(&h);
    let pairs: Vec<(String, String)> = t.into_iter().map(|t| (t.role, t.content)).collect();
    assert_eq!(
        pairs,
        vec![
            ("ai".to_string(), "【面试官提问】Q1".to_string()),
            ("user".to_string(), "【候选人回答】A1".to_string()),
            ("ai".to_string(), "【面试官提问】P".to_string()),
        ]
    );
    assert_eq!(control_note("  next  ").as_deref(), Some("next"));
    assert_eq!(control_note("   "), None);
    assert_eq!(persona_prefix(Some("  严厉 "), Some("并发、缓存")).as_deref(), Some("严厉\n考察侧重：并发、缓存"));
    assert_eq!(persona_prefix(Some("p"), Some("")).as_deref(), Some("p"));
    assert_eq!(persona_prefix(None, Some("f")), None);
}

#[test]
fn grading_report_fields() {
    let r = parse_json(r#"{"tags":["锁","缓存"],"difficulty":3,"ref_answer":"要点","score":4294967377,"feedback":"好"}"#).unwrap();
    let x = inline_report(&r);
    assert_eq!(x.score, Some(81));
    assert_eq!(x.difficulty, Some(3));
    assert_eq!((x.feedback.as_str(), x.ref_answer.as_str()), ("好", "要点"));
    assert_eq!(x.tags, vec!["锁".to_string(), "缓存".to_string()]);
    let y = inline_report(&parse_json(r#"{"tags":["a",1],"score":"80","difficulty":2.5}"#).unwrap());
    assert_eq!((y.score, y.difficulty, y.feedback.as_str(), y.ref_answer.as_str()), (None, None, "", ""));
    assert!(y.tags.is_empty());
    assert!(inline_report(&parse_json("[1]").unwrap()).tags.is_empty());
    assert_eq!(answer_snapshot("  a "), Some("  a ".to_string()));
    assert_eq!(answer_snapshot(" \n "), None);
}

#[test]
fn chaining_and_fallback() {
    assert_eq!(beview::routes::turn::chain_base(true, Some("r1".into())), Some("r1".to_string()));
    assert_eq!(beview::routes::turn::chain_base(false, Some("r1".into())), None);
    assert!(beview::routes::turn::degrades_on_error(true, "", "Previous_response_id not found"));
    assert!(!beview::routes::turn::degrades_on_error(true, "partial", "previous_response expired"));
    assert!(!beview::routes::turn::degrades_on_error(false, "", "previous_response expired"));
    assert!(!beview::routes::turn::degrades_on_error(true, "", "rate limited"));
}
