use beview::routes::drills::{
    dossier_terms, match_questions, rank_questions, score_question, Candidate, MatchedQuestion,
};
use beview::text::sorted_unique;

fn s(v: &[&str]) -> Vec<String> {
    v.iter().map(|x| x.to_string()).collect()
}

#[test]
fn terms_from_keywords_position_and_jd() {
    let t = dossier_terms(Some("Redis，并发 a  MySQL/锁"), Some("后端-开发 Java"), None);
    assert_eq!(t, s(&["redis", "并发", "mysql", "锁", "后端", "开发", "java"]));
    // single ASCII characters are too short, a single CJK character is long enough
    let t = dossier_terms(Some("x 锁"), None, None);
    assert_eq!(t, s(&["锁"]));
    let t = dossier_terms(Some("redis"), None, Some("熟悉 Redis、Kafka 与分布式架构"));
    assert_eq!(t, s(&["redis", "kafka", "分布式", "架构"]));
    assert!(dossier_terms(None, None, None).is_empty());
}

#[test]
fn question_scoring() {
    let terms = s(&["redis", "缓存"]);
    let m = score_question(&terms, "Redis 缓存穿透怎么办", &s(&["Redis", "数据库"]), true, Some(50)).unwrap();
    // content hits 30 + 30, tag hit 40, analysed 15, weak point 25
    assert_eq!(m.score, 140);
    assert_eq!(m.reason, "题干匹配「redis」 · 命中标签「Redis」 · 题干匹配「缓存」 · 薄弱考点（历史 50分）");
    assert_eq!(m.matched_tags, s(&["Redis"]));
    assert!(score_question(&terms, "TCP 三次握手", &s(&["网络"]), true, Some(10)).is_none());
    let m = score_question(&terms, "讲讲缓存", &[], false, Some(60)).unwrap();
    assert_eq!((m.score, m.reason.as_str()), (30, "题干匹配「缓存」"));
}

fn q(id: i64) -> MatchedQuestion {
    MatchedQuestion { id, content: format!("q{id}"), company: None, tags: vec![], last_score: None, match_reason: String::new() }
}

#[test]
fn ranking_keeps_best_eight_stably() {
    let scored: Vec<(i32, MatchedQuestion)> =
        vec![(30, q(1)), (70, q(2)), (30, q(3)), (70, q(4)), (10, q(5)), (40, q(6)), (30, q(7)), (30, q(8)), (30, q(9)), (5, q(10))];
    let ids: Vec<i64> = rank_questions(scored).iter().map(|m| m.id).collect();
    assert_eq!(ids, vec![2, 4, 6, 1, 3, 7, 8, 9]);
    assert!(rank_questions(vec![]).is_empty());
}

#[test]
fn tags_sorted_and_distinct() {
    assert_eq!(sorted_unique(&s(&["b", "a", "b", "Z", "锁", "a"])), s(&["Z", "a", "b", "锁"]));
}

#[test]
fn dossier_match_end_to_end() {
    let terms = dossier_terms(Some("redis"), None, None);
    let cands = vec![
        Candidate { id: 1, content: "讲讲 HashMap".into(), company: None, tags: s(&["Java"]), last_score: None, analyzed: false },
        Candidate { id: 2, content: "Redis 持久化".into(), company: Some("字节".into()), tags: s(&["redis", "存储"]), last_score: Some(80), analyzed: true },
        Candidate { id: 3, content: "缓存一致性".into(), company: None, tags: s(&["Redis"]), last_score: None, analyzed: false },
    ];
    let r = match_questions(&terms, cands);
    assert_eq!(r.questions.iter().map(|m| m.id).collect::<Vec<_>>(), vec![2, 3]);
    assert_eq!(r.questions[0].match_reason, "题干匹配「redis」 · 命中标签「redis」");
    assert_eq!(r.questions[0].company.as_deref(), Some("字节"));
    assert_eq!(r.matched_tags, s(&["Redis", "redis"]));
}
