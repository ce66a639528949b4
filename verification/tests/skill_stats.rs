use beview::json::{parse_json, Json};
use beview::jobs::job_view;
use beview::skill_service::{
    cell_stats, domain_rank, root_order, weakness_index, leaf_path, subdomain_path, top_domain_path, LEAF_PRESETS, SUBDOMAIN_PRESETS, matrix_domains, overall_proficiency, question_type_of, subtree_stats, DomainRoot, MatrixItem,
    QuestionSkills, RadarDimension,
};

fn dim(score: i32) -> RadarDimension {
    RadarDimension { key: "/k".into(), name: "n".into(), score, question_count: 1 }
}

#[test]
fn overall_is_truncated_mean() {
    assert_eq!(overall_proficiency(&[]), 0);
    assert_eq!(overall_proficiency(&[dim(80), dim(71)]), 75);
    assert_eq!(overall_proficiency(&[dim(-3), dim(0)]), -1);
    assert_eq!(overall_proficiency(&[dim(i32::MAX), dim(i32::MAX)]), i32::MAX);
}

fn q(score: Option<i32>, res: Option<&str>, skills: &[(i64, &str)]) -> QuestionSkills {
    QuestionSkills {
        score,
        last_result: res.map(String::from),
        skills: skills.iter().map(|(i, p)| (*i, p.to_string())).collect(),
    }
}

#[test]
fn subtree_statistics() {
    let qs = vec![
        q(Some(80), Some("remembered"), &[(2, "/a/b")]),
        q(None, Some("forgotten"), &[(1, "/a")]),
        q(Some(40), Some("fuzzy"), &[(9, "/c")]),
        q(Some(60), None, &[(3, "/a/b/c"), (9, "/c")]),
    ];
    let s = subtree_stats(1, "/a", &qs);
    assert_eq!(s.question_count, 3);
    assert_eq!(s.scores, vec![80, 60]);
    assert_eq!((s.remembered, s.forgotten), (1, 1));
    let none = subtree_stats(7, "/z", &qs);
    assert_eq!(none.question_count, 0);
    assert!(none.scores.is_empty());
}

#[test]
fn matrix_types_and_domains() {
    assert_eq!(question_type_of(Some("scenario_case")), "scenario_case");
    assert_eq!(question_type_of(Some("trivia")), "professional_knowledge");
    assert_eq!(question_type_of(None), "professional_knowledge");
    let roots = vec![
        DomainRoot { id: 1, name: "专业技术与硬技能".into(), path: "/hard-skills".into() },
        DomainRoot { id: 2, name: "系统设计与架构思考".into(), path: "/architecture".into() },
    ];
    let d = matrix_domains(&roots, &[(10, "/architecture/cache".to_string()), (1, "/x".to_string())]);
    assert_eq!(d, vec!["专业技术与硬技能".to_string(), "系统设计与架构思考".to_string()]);
    assert_eq!(matrix_domains(&roots, &[]), vec!["通用与其他".to_string()]);
}

#[test]
fn unsigned_numbers() {
    assert_eq!(Json::Number("42".into()).as_u64(), Some(42));
    assert_eq!(Json::Number("18446744073709551615".into()).as_u64(), Some(u64::MAX));
    assert_eq!(Json::Number("18446744073709551616".into()).as_u64(), None);
    assert_eq!(Json::Number("-1".into()).as_u64(), None);
    assert_eq!(Json::Number("1.0".into()).as_u64(), None);
    assert_eq!(Json::Str("1".into()).as_u64(), None);
    assert_eq!(parse_json("7").unwrap().as_u64(), Some(7));
}

#[test]
fn queue_job_view() {
    let p = parse_json(r#"{"done":3,"ok":2,"failed":"x"}"#).unwrap();
    let v = job_view(5, "pending", 10, Some(&p));
    assert_eq!((v.id, v.status.as_str(), v.total, v.done, v.ok, v.failed), (5, "running", 10, 3, 2, 0));
    let v = job_view(6, "dead", -4, None);
    assert_eq!((v.status.as_str(), v.total, v.done), ("error", 0, 0));
}

fn item(domains: &[&str], qtype: &str, score: Option<i32>, difficulty: i32, res: Option<&str>) -> MatrixItem {
    MatrixItem {
        domains: domains.iter().map(|d| d.to_string()).collect(),
        question_type: qtype.to_string(),
        score,
        difficulty,
        last_result: res.map(String::from),
    }
}

#[test]
fn matrix_cell_aggregate() {
    let items = vec![
        item(&["A", "B"], "scenario_case", Some(70), 9, Some("remembered")),
        item(&["A"], "scenario_case", None, 0, Some("forgotten")),
        item(&["A"], "collaboration", Some(10), 3, Some("remembered")),
        item(&["B"], "scenario_case", Some(50), 2, None),
    ];
    let c = cell_stats(&items, "A", "scenario_case");
    assert_eq!(c.count, 2);
    assert_eq!(c.scores, vec![70]);
    assert_eq!(c.difficulties, vec![5, 1]);
    assert_eq!(c.remembered, 1);
    let b = cell_stats(&items, "B", "scenario_case");
    assert_eq!((b.count, b.scores.clone(), b.difficulties.clone(), b.remembered), (2, vec![70, 50], vec![5, 2], 1));
    let empty = cell_stats(&items, "C", "scenario_case");
    assert_eq!(empty.count, 0);
    assert!(empty.scores.is_empty() && empty.difficulties.is_empty());
}

#[test]
fn seeded_paths() {
    assert_eq!(top_domain_path("系统设计与架构思考"), Some("/architecture"));
    assert_eq!(top_domain_path("别的"), None);
    let d = subdomain_path("专业技术与硬技能", "/languages");
    assert_eq!(d, "/hard-skills/languages");
    assert_eq!(leaf_path(&d, "/languages/rust"), "/hard-skills/languages/languages/rust");
    assert_eq!(leaf_path("/a", "//b"), "/a/b");
    assert_eq!(leaf_path("/a", ""), "/a/");
    for (top, _, suffix, _) in SUBDOMAIN_PRESETS {
        assert!(top_domain_path(top).is_some());
        assert_eq!(LEAF_PRESETS.iter().filter(|l| l.0 == suffix).count() >= 3, true);
    }
    assert_eq!(LEAF_PRESETS.len(), 25);
}

#[test]
fn skill_tree_root_order() {
    assert_eq!(domain_rank("系统设计与架构思考"), 1);
    assert_eq!(domain_rank("自定义"), 999);
    let names: Vec<String> = ["自定义A", "问题分析与通用素养", "专业技术与硬技能", "自定义B", "专业技术与硬技能"]
        .iter()
        .map(|s| s.to_string())
        .collect();
    assert_eq!(root_order(&names), vec![2, 4, 1, 0, 3]);
    assert!(root_order(&[]).is_empty());
    assert_eq!(weakness_index(0, 80), 100);
    assert_eq!(weakness_index(3, 80), 20);
    assert_eq!(weakness_index(3, 120), 0);
}
