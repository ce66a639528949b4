use beview::error::AppError;
use beview::json::parse_json;
use beview::routes::companies::{
    business_company, cleared, company_name, company_openable, company_rename, position_deletable, predicted_drill,
    rename_conflict, rename_conflict_error, require_jd, require_position_title, PositionPredictResponse, MOCK_COMPANY,
    SELF_COMPANY, TOMBSTONE_COMPANY,
};

fn bad(m: &str) -> AppError {
    AppError::BadRequest(m.to_string())
}

#[test]
fn company_names_are_trimmed_and_reserved_names_refused() {
    assert_eq!(company_name("  字节跳动 "), Ok("字节跳动".to_string()));
    assert_eq!(company_name("   "), Err(bad("公司名不能为空")));
    for n in [TOMBSTONE_COMPANY, SELF_COMPANY, MOCK_COMPANY] {
        assert_eq!(company_name(&format!(" {n} ")), Err(bad("该公司名为系统保留名")));
    }
}

#[test]
fn system_companies_are_protected() {
    assert_eq!(company_openable(Some(true)), Err(bad("系统容器公司不可打开")));
    assert_eq!(company_openable(Some(false)), Ok(()));
    assert_eq!(company_openable(None), Ok(()));
    assert_eq!(company_rename(true, "回收站", Some("新名")), Err(bad("系统内置公司名称不可修改")));
    assert_eq!(company_rename(true, "回收站", Some("回收站")), Ok(()));
    assert_eq!(company_rename(true, "回收站", None), Ok(()));
    assert_eq!(company_rename(false, "A", Some("B")), Ok(()));
    assert_eq!(business_company(None), Err(AppError::NotFound));
    assert_eq!(business_company(Some(true)), Err(bad("系统容器公司不可修改")));
    assert_eq!(business_company(Some(false)), Ok(()));
    assert!(rename_conflict("duplicate key value violates unique constraint"));
    assert!(!rename_conflict("connection reset"));
    assert_eq!(rename_conflict_error(), AppError::Conflict("该公司名称已存在，请换一个名称".to_string()));
}

#[test]
fn position_fields() {
    assert_eq!(require_position_title(Some(" 后端 ")), Ok("后端".to_string()));
    assert_eq!(require_position_title(Some(" ")), Err(bad("岗位名称不能为空")));
    assert_eq!(require_position_title(None), Err(bad("岗位名称不能为空")));
    assert_eq!(cleared(None), None);
    assert_eq!(cleared(Some("  ")), Some(String::new()));
    assert_eq!(cleared(Some(" 上海 ")), Some("上海".to_string()));
    assert_eq!(position_deletable(true), Err(bad("该岗位下仍有投递记录，请先删除对应投递")));
    assert_eq!(position_deletable(false), Ok(()));
}

#[test]
fn predicted_drills_and_results() {
    assert_eq!(predicted_drill(0, None, "A", "B"), Err(bad("练习题目不能为空")));
    assert_eq!(
        predicted_drill(3, Some("  "), "字节", "后端"),
        Ok(("字节 · 后端 岗位针对押题专项模考".to_string(), "针对 字节 · 后端 岗位的精准押题考点".to_string()))
    );
    assert_eq!(predicted_drill(1, Some(" 冲刺 "), "字节", "后端").unwrap().0, "冲刺");
    let r = PositionPredictResponse::from_text("纯文本".to_string());
    assert_eq!(r.summary, "（纯文本评审模式生成）");
    assert!(r.questions.is_empty());
    assert_eq!(r.text_fallback, Some("纯文本".to_string()));
    let s = PositionPredictResponse::structured("要点".to_string(), vec![parse_json("{\"content\":\"q\"}").unwrap()]);
    assert_eq!(s.questions.len(), 1);
    assert_eq!(s.text_fallback, None);
}

#[test]
fn jd_reading_needs_a_jd() {
    assert_eq!(require_jd(Some(" 负责后端 ")), Ok(" 负责后端 ".to_string()));
    assert_eq!(require_jd(Some("  ")), Err(bad("请先到岗位详情填写 JD 原文")));
    assert_eq!(require_jd(None), Err(bad("请先到岗位详情填写 JD 原文")));
}
