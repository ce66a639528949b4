//! Rules of the resume versions: the single working copy, read-only archived
//! snapshots, what saving, parsing and deleting require, and the names given
//! to snapshots.
use vstd::prelude::*;
use vstd::string::StringExecFns;

use crate::clock::{local_date_time_label, local_time_label};
use crate::error::{AppError, AppErrorView};
use crate::json::{Json, JsonView};
use crate::routes::companies::{clean, clean_spec};
use crate::text::{chars_of, opt_str_view, opt_view, owned, string_of, trim, trim_chars};

verus! {

/// What saving the resume text writes.
#[derive(Debug, Clone, PartialEq)]
pub struct ResumeSave {
    /// The trimmed text.
    pub raw_text: String,
    pub name: String,
    pub version_name: String,
    /// The working copy is updated (else a first working copy is created).
    pub update: bool,
}

/// Saving needs a non-blank text and a working copy that is not archived;
/// the names default to `我的简历` and `工作副本`.
pub open spec fn resume_save_spec(
    raw: Seq<char>,
    name: Option<Seq<char>>,
    version_name: Option<Seq<char>>,
    existing_archived: Option<bool>,
) -> Result<(Seq<char>, Seq<char>, Seq<char>, bool), AppErrorView> {
    if trim(raw).len() == 0 {
        Err(AppErrorView::BadRequest("简历内容不能为空"@))
    } else if existing_archived == Some(true) {
        Err(AppErrorView::BadRequest("已留档的简历版本只读，不可修改"@))
    } else {
        Ok(
            (
                trim(raw),
                match name {
                    Some(n) => n,
                    None => "我的简历"@,
                },
                match version_name {
                    Some(v) => v,
                    None => "工作副本"@,
                },
                existing_archived is Some,
            ),
        )
    }
}

/// Plans saving the resume text; `existing_archived` tells whether there is a
/// working copy and whether it is archived.
pub fn resume_save(raw: &str, name: Option<&str>, version_name: Option<&str>, existing_archived: Option<bool>) -> (r:
    Result<ResumeSave, AppError>)
    ensures
        resume_save_spec(raw@, opt_str_view(name), opt_str_view(version_name), existing_archived) == match r {
            Ok(s) => Ok((s.raw_text@, s.name@, s.version_name@, s.update)),
            Err(e) => Err(e@),
        },
{
    let t = trim_chars(&chars_of(raw));
    if t.len() == 0 {
        return Err(AppError::BadRequest(owned("简历内容不能为空")));
    }
    if existing_archived == Some(true) {
        return Err(AppError::BadRequest(owned("已留档的简历版本只读，不可修改")));
    }
    let n = match name {
        Some(x) => owned(x),
        None => owned("我的简历"),
    };
    let v = match version_name {
        Some(x) => owned(x),
        None => owned("工作副本"),
    };
    Ok(ResumeSave { raw_text: string_of(&t), name: n, version_name: v, update: existing_archived.is_some() })
}

/// A snapshot needs a working copy with a non-blank text.
pub fn snapshot_source(working_raw: Option<&str>) -> (r: Result<(), AppError>)
    ensures
        r is Ok <==> (opt_str_view(working_raw) matches Some(t) && trim(t).len() > 0),
        working_raw is None ==> (r matches Err(e) && e@ == AppErrorView::BadRequest(
            "未找到可快照的工作副本，请先保存简历"@,
        )),
        (opt_str_view(working_raw) matches Some(t) && trim(t).len() == 0) ==> (r matches Err(e) && e@
            == AppErrorView::BadRequest("当前工作副本内容为空，无法创建快照"@)),
{
    match working_raw {
        None => Err(AppError::BadRequest(owned("未找到可快照的工作副本，请先保存简历"))),
        Some(t) => if trim_chars(&chars_of(t)).len() == 0 {
            Err(AppError::BadRequest(owned("当前工作副本内容为空，无法创建快照")))
        } else {
            Ok(())
        },
    }
}

/// A snapshot's name: the given name trimmed, else `快照 · {now}`.
pub open spec fn snapshot_name_spec(given: Option<Seq<char>>, now: Seq<char>) -> Seq<char> {
    match clean_spec(given) {
        Some(n) => n,
        None => "快照 · "@ + now,
    }
}

/// Names a snapshot for the time label `now`.
pub fn snapshot_name(given: Option<&str>, now: &str) -> (r: String)
    ensures
        r@ == snapshot_name_spec(opt_str_view(given), now@),
{
    match clean(given) {
        Some(n) => n,
        None => {
            let mut s = owned("快照 · ");
            s.append(now);
            s
        },
    }
}

/// Names a snapshot taken now (`YYYY-MM-DD HH:MM`, local time).
pub fn new_snapshot_name(given: Option<&str>) -> (r: String)
    ensures
        exists|now: Seq<char>| r@ == snapshot_name_spec(opt_str_view(given), now),
{
    let now = local_date_time_label();
    let r = snapshot_name(given, now.as_str());
    assert(r@ == snapshot_name_spec(opt_str_view(given), now@));
    r
}

/// The name of an automatic backup: `{label} · {now}`.
pub open spec fn backup_name_spec(label: Seq<char>, now: Seq<char>) -> Seq<char> {
    label + " · "@ + now
}

/// Names an automatic backup taken now (`MM-DD HH:MM`, local time), such as
/// `解析前快照` before a parse or `变更前快照` before applying changes.
pub fn new_backup_name(label: &str) -> (r: String)
    ensures
        exists|now: Seq<char>| r@ == backup_name_spec(label@, now),
{
    let now = local_time_label();
    let mut r = owned(label);
    r.append(" · ");
    r.append(now.as_str());
    assert(r@ == backup_name_spec(label@, now@));
    r
}

/// A parse needs a working copy with a non-blank text, which it parses trimmed.
pub fn parse_source(working_raw: Option<&str>) -> (r: Result<String, AppError>)
    ensures
        match r {
            Ok(t) => opt_str_view(working_raw) matches Some(w) && trim(w).len() > 0 && t@ == trim(w),
            Err(e) => !(opt_str_view(working_raw) matches Some(w) && trim(w).len() > 0) && e@
                == AppErrorView::BadRequest("请先保存简历原文再解析"@),
        },
{
    match working_raw {
        None => Err(AppError::BadRequest(owned("请先保存简历原文再解析"))),
        Some(w) => {
            let t = trim_chars(&chars_of(w));
            if t.len() == 0 {
                Err(AppError::BadRequest(owned("请先保存简历原文再解析")))
            } else {
                Ok(string_of(&t))
            }
        },
    }
}

/// Parsing produces a structured resume: a model without structured output is refused.
pub fn require_structured(structured_output: bool) -> (r: Result<(), AppError>)
    ensures
        r is Ok <==> structured_output,
        r matches Err(e) ==> e@ == AppErrorView::BadRequest(
            "当前模型未启用「结构化输出」能力，无法解析简历；请在设置中开启该能力位或更换模型"@,
        ),
{
    if structured_output {
        Ok(())
    } else {
        Err(
            AppError::BadRequest(
                owned("当前模型未启用「结构化输出」能力，无法解析简历；请在设置中开启该能力位或更换模型"),
            ),
        )
    }
}

/// Whether a parse first backs up the working copy: it holds a parsed resume.
pub fn needs_parse_backup(parsed: Option<&Json>) -> (r: bool)
    ensures
        r == (match parsed {
            Some(p) => !(p@ is Null),
            None => false,
        }),
{
    match parsed {
        Some(Json::Null) => false,
        Some(_) => true,
        None => false,
    }
}

/// Changes proposed for the resume need a working copy with a parsed resume.
pub fn require_parsed(found: bool, parsed: Option<&Json>) -> (r: Result<(), AppError>)
    ensures
        r is Ok <==> found && (match parsed {
            Some(p) => !(p@ is Null),
            None => false,
        }),
        !found ==> (r matches Err(e) && e@ == AppErrorView::BadRequest("未找到工作副本简历"@)),
        found && !(r is Ok) ==> (r matches Err(e) && e@ == AppErrorView::BadRequest(
            "当前工作副本还没有结构化数据，请先保存原文并完成 AI 解析"@,
        )),
{
    if !found {
        return Err(AppError::BadRequest(owned("未找到工作副本简历")));
    }
    if needs_parse_backup(parsed) {
        Ok(())
    } else {
        Err(AppError::BadRequest(owned("当前工作副本还没有结构化数据，请先保存原文并完成 AI 解析")))
    }
}

/// A resume version can be deleted unless it is the working copy and the
/// only resume left.
pub fn resume_deletable(is_archived: bool, resume_count: i64) -> (r: Result<(), AppError>)
    ensures
        r is Ok <==> is_archived || resume_count > 1,
        r matches Err(e) ==> e@ == AppErrorView::BadRequest(
            "不可删除当前唯一的简历副本，可清空内容或重新编辑"@,
        ),
{
    if !is_archived && resume_count <= 1 {
        Err(AppError::BadRequest(owned("不可删除当前唯一的简历副本，可清空内容或重新编辑")))
    } else {
        Ok(())
    }
}

} // verus!
