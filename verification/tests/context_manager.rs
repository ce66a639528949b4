use beview::context_manager::{
    assemble_session, compress_turn, estimate_tokens, truncate_chars_cap, SessionInput, Turn,
};
use beview::json::{parse_json, Json};

fn doc(text: &str) -> Json {
    parse_json(text).expect("valid json")
}

#[test]
fn older_turns_compressed_recent_three_intact() {
    let turns: Vec<Turn> = (0..10)
        .flat_map(|i| {
            vec![
                Turn { role: "ai".into(), content: format!("【面试官提问】问题{i} {}", "详".repeat(200)) },
                Turn { role: "user".into(), content: format!("【候选人回答】回答{i}") },
            ]
        })
        .collect();
    let ctx = assemble_session(&SessionInput { turns: &turns, ..Default::default() });
    assert_eq!(ctx.turns.last().unwrap(), &turns[turns.len() - 1]);
    let first = &ctx.turns[0];
    assert!(first.content.starts_with("（历史摘要）"), "{}", first.content);
    assert!(first.content.chars().count() < turns[0].content.chars().count());
}

#[test]
fn jd_capped_independently_and_dossier_kept() {
    let big_jd = format!("岗位要求：{}", "长".repeat(6000));
    let dossier = doc(r#"{"summary":"侧重分布式一致性","questions":[{"content":"讲讲 Raft","ref_answer":"多数派提交"}]}"#);
    let ctx = assemble_session(&SessionInput { dossier: Some(&dossier), jd_text: Some(&big_jd), ..Default::default() });
    assert!(ctx.system_prefix.contains("…"), "超预算 JD 应带截断标记");
    assert!(!ctx.system_prefix.contains(&"长".repeat(1999)), "JD 应被裁剪到 ~1K token（约 2K 字符）");
    assert!(ctx.system_prefix.contains("侧重分布式一致性"), "dossier 应保留");
}

#[test]
fn mid_blocks_capped_independently_dropping_lowest_priority_first() {
    let dossier = doc(r#"{"summary":"D-KEEP-MARKER"}"#);
    let bank: Vec<String> = (0..80).map(|i| format!("题库候选{i}：{}", "候".repeat(260))).collect();
    let refs = format!("参考面经：{}", "参".repeat(600));
    let ctx = assemble_session(&SessionInput {
        dossier: Some(&dossier),
        references: Some(&refs),
        bank_lines: &bank,
        ..Default::default()
    });
    assert!(ctx.system_prefix.contains("D-KEEP-MARKER"), "最高优先级中低块应最后被丢");
    assert!(!ctx.system_prefix.contains("参考面经"), "refs 应最先被丢弃");
    assert!(!ctx.system_prefix.contains("题库候选59"), "bank 应在 dossier 之前被丢弃");
}

#[test]
fn prefix_never_trimmed_and_notes_rendered() {
    let notes = doc(r#"{"job_requirements":["高并发"],"risk_signals":["RISK-MARKER"],"next_followups":["FOLLOW-MARKER"]}"#);
    let persona = "犀利交叉官人设 PERSONA-MARKER";
    let ctx = assemble_session(&SessionInput { persona_prefix: Some(persona), notes: Some(&notes), ..Default::default() });
    assert!(ctx.system_prefix.contains(persona));
    assert!(ctx.system_prefix.contains("RISK-MARKER"));
    assert!(ctx.system_prefix.contains("FOLLOW-MARKER"));
    assert!(ctx.system_prefix.contains("面试官笔记"));
    assert_eq!(
        ctx,
        assemble_session(&SessionInput { persona_prefix: Some(persona), notes: Some(&notes), ..Default::default() })
    );
}

#[test]
fn classic_mode_omits_persona_block() {
    let ctx = assemble_session(&SessionInput::default());
    assert!(!ctx.system_prefix.contains("面试官人设"), "{}", ctx.system_prefix);
}

#[test]
fn empty_session_is_empty() {
    let ctx = assemble_session(&SessionInput::default());
    assert_eq!(ctx.system_prefix, "【本场信息】\n");
    assert!(ctx.turns.is_empty());
    assert_eq!(ctx.tokens_prefix, 3);
    assert_eq!(ctx.tokens_history, 0);
}

#[test]
fn recent_turns_kept_verbatim_and_older_compressed() {
    let turns = vec![
        Turn { role: "ai".into(), content: "Q1".into() },
        Turn { role: "user".into(), content: "A1".into() },
        Turn { role: "ai".into(), content: "Q2".into() },
        Turn { role: "user".into(), content: "A2".into() },
    ];
    let ctx = assemble_session(&SessionInput { turns: &turns, ..Default::default() });
    assert_eq!(ctx.turns.len(), 4);
    assert_eq!(ctx.turns[1..], turns[1..]);
    assert_eq!(ctx.turns[0].role, "user");
    let c: String = compress_turn(&turns[0]).into_iter().collect();
    assert_eq!(c, "【面试官】Q1");
    assert_eq!(ctx.turns[0].content, format!("（历史摘要）{c}"));
}

#[test]
fn token_estimate_is_half_non_whitespace_rounded_up() {
    let est = |s: &str| estimate_tokens(&s.chars().collect::<Vec<char>>());
    assert_eq!(est(""), 0);
    assert_eq!(est("a"), 1);
    assert_eq!(est("ab cd"), 2);
    assert_eq!(est("  a b c \n"), 2);
    assert_eq!(est("中文字符"), 2);
}

#[test]
fn truncate_cap_adds_ellipsis_only_when_longer() {
    let s: Vec<char> = "abcdef".chars().collect();
    assert_eq!(truncate_chars_cap(&s, 6), s);
    let t: String = truncate_chars_cap(&s, 4).into_iter().collect();
    assert_eq!(t, "abc…");
    let u: String = truncate_chars_cap(&s, 10).into_iter().collect();
    assert_eq!(u, "abcdef");
}
