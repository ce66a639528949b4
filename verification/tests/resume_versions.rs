use beview::error::AppError;
use beview::json::{parse_json, Json};
use beview::routes::resume_versions::{
    needs_parse_backup, new_backup_name, new_snapshot_name, parse_source, require_parsed, require_structured,
    resume_deletable, resume_save, snapshot_name, snapshot_source, ResumeSave,
};

fn bad(m: &str) -> AppError {
    AppError::BadRequest(m.to_string())
}

#[test]
fn saving_the_working_copy() {
    assert_eq!(resume_save("  ", None, None, None), Err(bad("简历内容不能为空")));
    assert_eq!(resume_save("x", None, None, Some(true)), Err(bad("已留档的简历版本只读，不可修改")));
    assert_eq!(
        resume_save(" 正文 ", None, None, None),
        Ok(ResumeSave { raw_text: "正文".into(), name: "我的简历".into(), version_name: "工作副本".into(), update: false })
    );
    assert_eq!(
        resume_save("t", Some("N"), Some("V"), Some(false)),
        Ok(ResumeSave { raw_text: "t".into(), name: "N".into(), version_name: "V".into(), update: true })
    );
}

#[test]
fn snapshots_and_backups() {
    assert_eq!(snapshot_source(None), Err(bad("未找到可快照的工作副本，请先保存简历")));
    assert_eq!(snapshot_source(Some(" ")), Err(bad("当前工作副本内容为空，无法创建快照")));
    assert_eq!(snapshot_source(Some("a")), Ok(()));
    assert_eq!(snapshot_name(Some(" 投递前 "), "2024-05-01 10:00"), "投递前");
    assert_eq!(snapshot_name(Some(" "), "2024-05-01 10:00"), "快照 · 2024-05-01 10:00");
    let n = new_snapshot_name(None);
    assert!(n.starts_with("快照 · ") && n.chars().count() == "快照 · ".chars().count() + 16);
    let b = new_backup_name("解析前快照");
    assert!(b.starts_with("解析前快照 · ") && b.chars().count() == "解析前快照 · ".chars().count() + 11);
}

#[test]
fn parsing_and_deleting() {
    assert_eq!(parse_source(None), Err(bad("请先保存简历原文再解析")));
    assert_eq!(parse_source(Some("\n")), Err(bad("请先保存简历原文再解析")));
    assert_eq!(parse_source(Some(" 简历 ")), Ok("简历".to_string()));
    assert_eq!(require_structured(true), Ok(()));
    assert_eq!(
        require_structured(false),
        Err(bad("当前模型未启用「结构化输出」能力，无法解析简历；请在设置中开启该能力位或更换模型"))
    );
    let p = parse_json(r#"{"name":"x"}"#).unwrap();
    assert!(needs_parse_backup(Some(&p)));
    assert!(!needs_parse_backup(Some(&Json::Null)));
    assert!(!needs_parse_backup(None));
    assert_eq!(require_parsed(false, None), Err(bad("未找到工作副本简历")));
    assert_eq!(require_parsed(true, Some(&Json::Null)), Err(bad("当前工作副本还没有结构化数据，请先保存原文并完成 AI 解析")));
    assert_eq!(require_parsed(true, Some(&p)), Ok(()));
    assert_eq!(resume_deletable(false, 1), Err(bad("不可删除当前唯一的简历副本，可清空内容或重新编辑")));
    assert_eq!(resume_deletable(false, 2), Ok(()));
    assert_eq!(resume_deletable(true, 1), Ok(()));
}
