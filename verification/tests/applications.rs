use beview::application_service::{
    offer_round_guard, plan_transition, require_terminal, unchanged_outcome, validate_passed, validate_status,
    TransitionSource, TransitionStep, STATUSES,
};
use beview::error::AppError;
use beview::json::{parse_json, Json};
use beview::routes::applications::{
    batch_delete_check, batch_status_target, business_application, company_choice, jd_match_input, position_title,
    require_company, require_resume, CompanyChoice,
};

fn bad(m: &str) -> AppError {
    AppError::BadRequest(m.to_string())
}

#[test]
fn same_status_is_an_idempotent_no_op() {
    for s in STATUSES {
        assert_eq!(plan_transition(s, s, TransitionSource::Manual), Ok(TransitionStep::Unchanged));
    }
    let o = unchanged_outcome("offer", "offer");
    assert_eq!((o.from.as_str(), o.to.as_str(), o.rounds_promoted), ("offer", "offer", 0));
}

#[test]
fn forward_moves_are_applied() {
    assert_eq!(
        plan_transition("applied", "interviewing", TransitionSource::Auto),
        Ok(TransitionStep::Apply { check_rounds: false })
    );
    assert_eq!(
        plan_transition("applied", "rejected", TransitionSource::Manual),
        Ok(TransitionStep::Apply { check_rounds: false })
    );
    assert_eq!(
        plan_transition("interviewing", "offer", TransitionSource::Manual),
        Ok(TransitionStep::Apply { check_rounds: true })
    );
    assert_eq!(
        plan_transition("interviewing", "withdrawn", TransitionSource::Manual),
        Ok(TransitionStep::Apply { check_rounds: false })
    );
}

#[test]
fn backward_and_terminal_moves_are_refused() {
    assert_eq!(
        plan_transition("interviewing", "applied", TransitionSource::Manual),
        Err(bad("非法流转：interviewing → applied（状态只进不退）"))
    );
    assert_eq!(
        plan_transition("offer", "rejected", TransitionSource::Manual),
        Err(bad("非法流转：offer → rejected"))
    );
    assert_eq!(
        plan_transition("applied", "offer", TransitionSource::Manual),
        Err(bad("非法流转：applied → offer"))
    );
}

#[test]
fn manual_interviewing_is_refused() {
    assert_eq!(
        plan_transition("applied", "interviewing", TransitionSource::Manual),
        Err(bad("「进行中」由添加首场面试自动推进，不能手动设置"))
    );
}

#[test]
fn offer_needs_a_round() {
    assert_eq!(offer_round_guard(0), Err(bad("还没有面试轮次，无法标记 Offer")));
    assert_eq!(offer_round_guard(2), Ok(()));
}

#[test]
fn status_validation() {
    assert_eq!(validate_status(None), Ok("applied"));
    assert_eq!(validate_status(Some("offer")), Ok("offer"));
    assert_eq!(validate_status(Some("hired")), Err(bad("非法投递状态: hired")));
    assert_eq!(validate_passed(None), Ok("pending"));
    assert_eq!(validate_passed(Some("pass")), Ok("pass"));
    assert_eq!(validate_passed(Some("fail")), Ok("fail"));
    assert_eq!(validate_passed(Some("maybe")), Err(bad("非法轮次结果: maybe")));
}

#[test]
fn analysis_unlocks_at_terminal_status() {
    assert_eq!(require_terminal("offer"), Ok(()));
    assert_eq!(require_terminal("rejected"), Ok(()));
    assert_eq!(require_terminal("withdrawn"), Ok(()));
    assert_eq!(require_terminal("interviewing"), Err(bad("整体分析在投递走向终态（Offer/拒/弃）后解锁")));
}

#[test]
fn source_labels() {
    assert_eq!(TransitionSource::Auto.as_str(), "auto");
    assert_eq!(TransitionSource::Manual.as_str(), "manual");
}

#[test]
fn application_request_rules() {
    assert_eq!(company_choice(Some(3), Some("x")), Ok(CompanyChoice::Existing(3)));
    assert_eq!(company_choice(None, Some(" 字节 ")), Ok(CompanyChoice::Named("字节".into())));
    assert_eq!(company_choice(None, Some(" ")), Err(bad("请选择或输入公司")));
    assert_eq!(require_company(false), Err(bad("关联公司不存在")));
    assert_eq!(position_title(Some(" 后端 ")), Ok("后端".to_string()));
    assert_eq!(position_title(None), Err(bad("请填写岗位名称")));
    assert_eq!(require_resume(false), Err(bad("关联简历不存在")));
    assert_eq!(business_application(None), Err(AppError::NotFound));
    assert_eq!(business_application(Some(true)), Err(bad("系统容器投递不可修改")));
    assert_eq!(business_application(Some(false)), Ok(()));
    assert_eq!(batch_status_target("rejected"), Ok("rejected"));
    assert_eq!(batch_status_target("offer"), Err(bad("Offer 不能批量设置：请到投递详情使用「整场通过·标记 Offer」")));
    assert_eq!(batch_status_target("lost"), Err(bad("非法投递状态: lost")));
    assert_eq!(batch_delete_check(&[]), Ok(()));
    assert_eq!(batch_delete_check(&[3, -1, 20]), Err(bad(&format!("以下投递不存在或不可删除: {:?}", vec![3i64, -1, 20]))));
    assert_eq!(batch_delete_check(&[7]), Err(bad("以下投递不存在或不可删除: [7]")));
}

#[test]
fn jd_match_input_needs_jd_and_resume() {
    let resume = parse_json(r#"{"name":"x","skills":["a"]}"#).unwrap();
    assert_eq!(jd_match_input(Some(" "), Some(&resume)), Err(bad("请先到岗位详情填写 JD 原文")));
    assert_eq!(jd_match_input(Some("JD"), None), Err(bad("请先到简历页填写或解析简历，再评估匹配度")));
    assert_eq!(jd_match_input(Some("JD"), Some(&Json::Null)), Err(bad("请先到简历页填写或解析简历，再评估匹配度")));
    assert_eq!(
        jd_match_input(Some("JD"), Some(&resume)).unwrap(),
        "【目标岗位 JD】\nJD\n\n【候选人简历（结构化）】\n{\n  \"name\": \"x\",\n  \"skills\": [\n    \"a\"\n  ]\n}"
    );
}
