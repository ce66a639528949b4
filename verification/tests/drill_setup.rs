use beview::error::AppError;
use beview::json::{parse_json, Json};
use beview::routes::drill_setup::{
    dossier_selection, drill_title, fill_dossier, new_drill_title, persona_usable, validate_drill_kind,
    DossierQuestion, DossierSelection, KIND_RETIRED,
};

#[test]
fn only_interview_drills_open() {
    assert_eq!(validate_drill_kind("interview"), Ok(()));
    assert_eq!(validate_drill_kind("paper"), Err(AppError::BadRequest(KIND_RETIRED.to_string())));
}

#[test]
fn titles() {
    assert_eq!(drill_title(Some("  后端一面 "), Some("Go"), "05-01 10:00"), "后端一面");
    assert_eq!(drill_title(Some("   "), Some("Go"), "05-01 10:00"), "模拟面试 · Go · 05-01 10:00");
    assert_eq!(drill_title(None, None, "12-31 23:59"), "模拟面试 ·  · 12-31 23:59");
    assert_eq!(new_drill_title(Some("x"), None), "x");
    let t = new_drill_title(None, Some("Rust"));
    assert!(t.starts_with("模拟面试 · Rust · "));
    assert_eq!(t.chars().count(), "模拟面试 · Rust · ".chars().count() + "01-01 00:00".len());
}

#[test]
fn personas() {
    assert!(persona_usable(Some((true, None)), 7));
    assert!(persona_usable(Some((true, Some(3))), 7));
    assert!(persona_usable(Some((false, Some(7))), 7));
    assert!(!persona_usable(Some((false, Some(3))), 7));
    assert!(!persona_usable(Some((false, None)), 7));
    assert!(!persona_usable(None, 7));
}

#[test]
fn integers_of_numbers() {
    let n = |t: &str| Json::Number(t.to_string());
    assert_eq!(n("-42").as_i64(), Some(-42));
    assert_eq!(n("9223372036854775807").as_i64(), Some(i64::MAX));
    assert_eq!(n("9223372036854775808").as_i64(), None);
    assert_eq!(n("-9223372036854775808").as_i64(), Some(i64::MIN));
    assert_eq!(n("-9223372036854775809").as_i64(), None);
    assert_eq!(n("1.5").as_i64(), None);
    assert_eq!(n("-").as_i64(), None);
    assert_eq!(parse_json("-7").unwrap().as_i64(), Some(-7));
    assert_eq!(Json::Str("1".into()).as_i64(), None);
}

#[test]
fn dossier_selections() {
    let d = parse_json(r#"{"question_ids":[3,"x",-1,2.5],"skill_id":9}"#).unwrap();
    assert_eq!(dossier_selection(&d), DossierSelection::Listed(vec![3, -1]));
    let d = parse_json(r#"{"question_ids":[],"skill_ids":[4,5],"tags":["a",1,"b"]}"#).unwrap();
    assert_eq!(
        dossier_selection(&d),
        DossierSelection::Targeted { skill_id: None, skill_ids: vec![4, 5], tags: vec!["a".into(), "b".into()] }
    );
    let d = parse_json(r#"{"skill_id":12}"#).unwrap();
    assert_eq!(dossier_selection(&d), DossierSelection::Targeted { skill_id: Some(12), skill_ids: vec![], tags: vec![] });
    assert_eq!(dossier_selection(&parse_json(r#"{"summary":"s"}"#).unwrap()), DossierSelection::Unselected);
    assert_eq!(dossier_selection(&parse_json("[1,2]").unwrap()), DossierSelection::Unselected);
}

#[test]
fn dossier_is_filled() {
    let d = parse_json(r#"{"summary":"s","tags":["a"],"question_ids":[1]}"#).unwrap();
    let qs = vec![
        DossierQuestion { id: 7, content: "Q7".into(), ref_answer: Some("R".into()) },
        DossierQuestion { id: 8, content: "Q8".into(), ref_answer: None },
    ];
    let f = fill_dossier(d, &[7, 8], &qs);
    let want = parse_json(
        r#"{"question_ids":[7,8],"questions":[{"content":"Q7","id":7,"question_id":7,"ref_answer":"R"},{"content":"Q8","id":8,"question_id":8,"ref_answer":null}],"summary":"s","tags":["a"]}"#,
    )
    .unwrap();
    assert_eq!(f, want);
    let g = parse_json(r#"{"summary":"s"}"#).unwrap();
    assert_eq!(fill_dossier(g, &[], &qs), parse_json(r#"{"summary":"s"}"#).unwrap());
    assert_eq!(fill_dossier(Json::Null, &[1], &qs), Json::Null);
}

#[test]
fn members_are_inserted_in_key_order() {
    let o = parse_json(r#"{"b":1,"d":2}"#).unwrap();
    let o = o.insert_member("c", Json::Null).insert_member("a", Json::Bool(true)).insert_member("d", Json::Str("x".into()));
    assert_eq!(o, parse_json(r#"{"a":true,"b":1,"c":null,"d":"x"}"#).unwrap());
    assert_eq!(o.get("d"), Some(&Json::Str("x".into())));
}
