use beview::answer_flow::{
    parse_probe_meta, split_answer_output, Continuation, GatePhase, ProbeMeta, SentinelGate, PROBE_REASONS,
    SENTINEL_PROBE, SENTINEL_REPORT,
};
use beview::json::Json;

fn number(j: &Json) -> String {
    match j {
        Json::Number(n) => n.clone(),
        other => panic!("not a number: {other:?}"),
    }
}

#[test]
fn probe_meta_parses_valid_enum() {
    let (m, rest) = parse_probe_meta(r#"{"anchor_keyword":"锁","reason":"depth_probe"}"#).unwrap();
    assert_eq!(m.anchor_keyword, "锁");
    assert_eq!(m.reason, "depth_probe");
    assert!(rest.is_empty());
}

#[test]
fn probe_meta_rejects_out_of_enum_and_blank_anchor() {
    assert!(parse_probe_meta(r#"{"anchor_keyword":"锁","reason":"自由发挥"}"#).is_none());
    assert!(parse_probe_meta(r#"{"anchor_keyword":"","reason":"depth_probe"}"#).is_none());
    assert!(parse_probe_meta("not-json").is_none());
}

#[test]
fn probe_meta_survives_same_line_body_and_nested_braces() {
    let text = r#"{"anchor_keyword":"扩容","reason":"depth_probe"}追问：并发扩容会怎样？"#;
    let (m, body) = parse_probe_meta(text).unwrap();
    assert_eq!(m.reason, "depth_probe");
    assert_eq!(body, "追问：并发扩容会怎样？");
    let nested = r#"{"anchor_keyword":"a","reason":"clarification"} tail {"x":1}"#;
    let (m2, _) = parse_probe_meta(nested).unwrap();
    assert_eq!(m2.anchor_keyword, "a");
}

#[test]
fn split_probe_with_report_absent() {
    let out = split_answer_output(
        r#"<<<PROBE>>>{"anchor_keyword":"扩容","reason":"contradiction"}
追问：并发扩容下迭代器会发生什么？"#,
        false,
    );
    assert_eq!(
        out.continuation,
        Continuation::Probe {
            meta: Some(ProbeMeta { anchor_keyword: "扩容".into(), reason: "contradiction".into() })
        }
    );
    assert!(out.continuation_text.contains("并发扩容"));
    assert!(out.report.is_none());
}

#[test]
fn split_question_with_report() {
    let out = split_answer_output(
        "下一题：请讲讲 B+ 树。\n<<<REPORT>>>\n{\"tags\":[\"索引\"],\"difficulty\":3,\"ref_answer\":\"要点\",\"score\":82,\"feedback\":\"不错\"}",
        false,
    );
    assert_eq!(out.continuation, Continuation::Question);
    assert!(out.continuation_text.starts_with("下一题"));
    let r = out.report.unwrap();
    assert_eq!(number(r.get("score").unwrap()), "82");
    assert_eq!(number(r.get("difficulty").unwrap()), "3");
}

#[test]
fn summary_turn_without_sentinels() {
    let out = split_answer_output("# 🎯 全场复盘\n\n内容…", true);
    assert_eq!(out.continuation, Continuation::Summary);
    assert!(out.report.is_none());
}

#[test]
fn malformed_probe_line_stripped_but_body_kept() {
    let out = split_answer_output("<<<PROBE>>>{oops}\n追问：这里为什么慢？", false);
    assert_eq!(out.continuation, Continuation::Probe { meta: None });
    assert!(out.continuation_text.contains("为什么慢"), "{}", out.continuation_text);
    let out2 = split_answer_output("<<<PROBE>>>{oops}追问：为什么？", false);
    assert_eq!(out2.continuation, Continuation::Probe { meta: None });
    assert!(out2.continuation_text.contains("为什么"), "{}", out2.continuation_text);
}

#[test]
fn gate_never_leaks_sentinels_and_finish_flushes_continuation() {
    let mut g = SentinelGate::new();
    let mut live = String::new();
    let mut raw = String::new();
    for d in ["第一段回答", "\n<<<RE", "PORT>>>\n{\"score\":90,\"feedback\":\"好\"}"] {
        raw.push_str(d);
        live.push_str(&g.push(d));
    }
    let cont_tail = g.finish();
    assert!(!live.contains("<<<"), "哨兵不得泄漏进直播画面: {live}");
    assert!(cont_tail.is_empty(), "REPORT 段不属于续接，不得下发: {cont_tail}");
    let out = split_answer_output(&raw, false);
    assert_eq!(out.continuation, Continuation::Question);
    assert_eq!(number(out.report.unwrap().get("score").unwrap()), "90");
}

fn raw_push(live: &mut String, g: &mut SentinelGate, d: &str) {
    live.push_str(&g.push(d));
}

#[test]
fn gate_flushes_held_partial_line_as_continuation_tail() {
    let mut g = SentinelGate::new();
    let mut live = String::new();
    for d in [
        r#"<<<PROBE>>>{"anchor_keyword":"锁","reason":"depth_probe"}
"#,
        "追问：并发下迭代器会怎样？",
    ] {
        raw_push(&mut live, &mut g, d);
    }
    let tail = g.finish();
    assert_eq!(tail, "追问：并发下迭代器会怎样？", "未下发的续接应作为尾巴归还");
    assert!(!live.contains("PROBE"));
}

#[test]
fn gate_emits_complete_lines_without_sentinel() {
    let mut g = SentinelGate::new();
    let a = g.push("题目正文第一行\n");
    assert_eq!(a, "题目正文第一行\n");
    let b = g.push("第二行没有换行符");
    assert_eq!(b, "", "半行不下发");
    let c = g.push("\n后续\n");
    assert_eq!(c, "第二行没有换行符\n后续\n");
    let tail = g.finish();
    assert!(tail.is_empty());
}

#[test]
fn gate_releases_probe_body_on_the_metadata_line() {
    let mut g = SentinelGate::new();
    let out = g.push("<<<PROBE>>>{\"anchor_keyword\":\"锁\",\"reason\":\"edge_case\"}追问：空表怎么办？\n");
    assert_eq!(out, "追问：空表怎么办？\n");
    assert_eq!(g.phase(), GatePhase::Body);
}

#[test]
fn gate_metadata_delta_with_further_lines() {
    // the text after the metadata is released as a whole, then the complete
    // lines after the metadata line are released by the body phase as well
    let mut g = SentinelGate::new();
    let out = g.push("<<<PROBE>>>{\"anchor_keyword\":\"锁\",\"reason\":\"edge_case\"}追问：空表怎么办？\n下一行\n");
    assert_eq!(out, "追问：空表怎么办？\n下一行\n下一行\n");
    assert!(!out.contains("PROBE"));
}

#[test]
fn gate_waits_for_incomplete_probe_metadata() {
    let mut g = SentinelGate::new();
    assert_eq!(g.push("<<<PROBE>>>{\"anchor_keyword\":\"锁\""), "");
    assert_eq!(g.phase(), GatePhase::Head);
    assert_eq!(g.push(",\"reason\":\"depth_probe\"}\n"), "");
    assert_eq!(g.phase(), GatePhase::Body);
    assert_eq!(g.push("正文\n"), "正文\n");
}

#[test]
fn gate_holds_possible_sentinel_prefix() {
    let mut g = SentinelGate::new();
    assert_eq!(g.push("<<"), "");
    assert_eq!(g.phase(), GatePhase::Head);
    assert_eq!(g.finish(), "<<");
}

#[test]
fn gate_seals_at_report_and_stays_sealed() {
    let mut g = SentinelGate::new();
    assert_eq!(g.push("第一行\n第二行<<<REPORT>>>{\"score\":1}"), "第一行\n第二行");
    assert_eq!(g.phase(), GatePhase::Sealed);
    assert_eq!(g.push("更多\n"), "");
    assert_eq!(g.phase(), GatePhase::Sealed);
    assert_eq!(g.finish(), "");
}

#[test]
fn gate_strips_malformed_probe_line_once_complete() {
    let mut g = SentinelGate::new();
    assert_eq!(g.push("<<<PROBE>>>{bad"), "");
    assert_eq!(g.push("}\n追问正文\n"), "追问正文\n");
}

#[test]
fn report_without_score_or_feedback_is_dropped() {
    let out = split_answer_output("下一题\n<<<REPORT>>>\n{\"tags\":[]}", false);
    assert!(out.report.is_none());
    let out2 = split_answer_output("下一题\n<<<REPORT>>>\nnot json", false);
    assert!(out2.report.is_none());
    let out3 = split_answer_output("下一题\n<<<REPORT>>>\n{\"feedback\":\"ok\"}", false);
    assert!(out3.report.is_some());
}

#[test]
fn probe_reasons_and_sentinels() {
    assert_eq!(PROBE_REASONS.len(), 5);
    assert!(PROBE_REASONS.contains(&"breadth_pivot"));
    assert_eq!(SENTINEL_PROBE, "<<<PROBE>>>");
    assert_eq!(SENTINEL_REPORT, "<<<REPORT>>>");
    for r in PROBE_REASONS {
        let text = format!("{{\"anchor_keyword\":\"k\",\"reason\":\" {r} \"}}");
        let (m, _) = parse_probe_meta(&text).unwrap();
        assert_eq!(m.reason, r);
    }
}

#[test]
fn probe_meta_braces_inside_strings_and_escapes() {
    let text = r#"{"anchor_keyword":"a}b","reason":"edge_case","x":"\"}"} 题干"#;
    let (m, rest) = parse_probe_meta(text).unwrap();
    assert_eq!(m.anchor_keyword, "a}b");
    assert_eq!(rest, "题干");
}

#[test]
fn gate_first_line_is_released_whole_when_not_a_probe() {
    // only the probe sentinel is recognised on the first line
    let mut g = SentinelGate::new();
    assert_eq!(g.push("<<<REPORT>>>\n{}"), "<<<REPORT>>>\n");
    assert_eq!(g.phase(), GatePhase::Body);
}
