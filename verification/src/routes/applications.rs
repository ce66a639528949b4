//! Rules of the application requests: the company and position an
//! application is filed under, the protection of system containers, batch
//! status changes and deletions, and the input of the resume–JD match.
use vstd::prelude::*;
use vstd::string::StringExecFns;

use crate::application_service::{status_value, validate_status};
use crate::error::{AppError, AppErrorView};
use crate::json::{json_pretty, pretty_json, Json, JsonView};
use crate::routes::companies::{clean, clean_spec};
use crate::text::{extend_chars, join, opt_str_view, owned, push_signed_decimal, signed_decimal, string_of, trim, trim_chars, chars_of};

verus! {

/// The company of a new application.
#[derive(Debug, Clone, PartialEq)]
pub enum CompanyChoice {
    /// An existing company of the user (still to be checked).
    Existing(i64),
    /// Found or created by this (trimmed) name.
    Named(String),
}

/// The company: the given id, else the given name (trimmed, non-blank).
pub fn company_choice(company_id: Option<i64>, company_name: Option<&str>) -> (r: Result<CompanyChoice, AppError>)
    ensures
        match r {
            Ok(CompanyChoice::Existing(id)) => company_id == Some(id),
            Ok(CompanyChoice::Named(n)) => company_id is None && clean_spec(opt_str_view(company_name)) == Some(n@),
            Err(e) => company_id is None && clean_spec(opt_str_view(company_name)) is None && e@
                == AppErrorView::BadRequest("请选择或输入公司"@),
        },
{
    match company_id {
        Some(id) => Ok(CompanyChoice::Existing(id)),
        None => match clean(company_name) {
            Some(n) => Ok(CompanyChoice::Named(n)),
            None => Err(AppError::BadRequest(owned("请选择或输入公司"))),
        },
    }
}

/// A company given by id must be the user's.
pub fn require_company(exists: bool) -> (r: Result<(), AppError>)
    ensures
        r is Ok <==> exists,
        r matches Err(e) ==> e@ == AppErrorView::BadRequest("关联公司不存在"@),
{
    if exists {
        Ok(())
    } else {
        Err(AppError::BadRequest(owned("关联公司不存在")))
    }
}

/// The position title: trimmed and non-blank.
pub fn position_title(position: Option<&str>) -> (r: Result<String, AppError>)
    ensures
        match r {
            Ok(t) => clean_spec(opt_str_view(position)) == Some(t@),
            Err(e) => clean_spec(opt_str_view(position)) is None && e@ == AppErrorView::BadRequest("请填写岗位名称"@),
        },
{
    match clean(position) {
        Some(t) => Ok(t),
        None => Err(AppError::BadRequest(owned("请填写岗位名称"))),
    }
}

/// A resume linked to an application must be the user's.
pub fn require_resume(exists: bool) -> (r: Result<(), AppError>)
    ensures
        r is Ok <==> exists,
        r matches Err(e) ==> e@ == AppErrorView::BadRequest("关联简历不存在"@),
{
    if exists {
        Ok(())
    } else {
        Err(AppError::BadRequest(owned("关联简历不存在")))
    }
}

/// The applications of the system containers (trash, own question bank) are
/// never touched by business requests; `row` tells whether the user's
/// application exists and whether its company is a system one.
pub fn business_application(row: Option<bool>) -> (r: Result<(), AppError>)
    ensures
        match row {
            None => r == Err::<(), AppError>(AppError::NotFound),
            Some(true) => r matches Err(e) && e@ == AppErrorView::BadRequest("系统容器投递不可修改"@),
            Some(false) => r is Ok,
        },
{
    match row {
        None => Err(AppError::NotFound),
        Some(true) => Err(AppError::BadRequest(owned("系统容器投递不可修改"))),
        Some(false) => Ok(()),
    }
}

/// The target of a batch status change: a valid status other than `offer`
/// (an offer is only set from the application's page).
pub fn batch_status_target(status: &str) -> (r: Result<&'static str, AppError>)
    ensures
        match status_value(Some(status@)) {
            Err(e0) => r matches Err(e) && e@ == e0,
            Ok(s) => if s == "offer"@ {
                r matches Err(e) && e@ == AppErrorView::BadRequest(
                    "Offer 不能批量设置：请到投递详情使用「整场通过·标记 Offer」"@,
                )
            } else {
                r matches Ok(x) && x@ == s
            },
        },
{
    let to = validate_status(Some(status))?;
    if crate::text::str_eq(to, "offer") {
        return Err(AppError::BadRequest(owned("Offer 不能批量设置：请到投递详情使用「整场通过·标记 Offer」")));
    }
    Ok(to)
}

/// The ids in the debug form of a list: `[1, 2]`.
pub open spec fn id_list(ids: Seq<i64>) -> Seq<char> {
    "["@ + join(ids.map_values(|x: i64| signed_decimal(x as int)), ", "@) + "]"@
}

/// A batch deletion is refused as a whole when any application cannot be deleted.
pub fn batch_delete_check(invalid: &[i64]) -> (r: Result<(), AppError>)
    ensures
        r is Ok <==> invalid@.len() == 0,
        r matches Err(e) ==> e@ == AppErrorView::BadRequest("以下投递不存在或不可删除: "@ + id_list(invalid@)),
{
    if invalid.len() == 0 {
        return Ok(());
    }
    let mut m: Vec<char> = Vec::new();
    extend_chars(&mut m, "以下投递不存在或不可删除: [");
    let ghost parts = invalid@.map_values(|x: i64| signed_decimal(x as int));
    let ghost head = m@;
    let mut i: usize = 0;
    while i < invalid.len()
        invariant
            i <= invalid@.len(),
            parts == invalid@.map_values(|x: i64| signed_decimal(x as int)),
            m@ == head + join(parts.take(i as int), ", "@),
        decreases invalid@.len() - i,
    {
        proof {
            assert(parts.take(i + 1).drop_last() =~= parts.take(i as int));
            reveal_strlit(", ");
        }
        if i > 0 {
            extend_chars(&mut m, ", ");
        }
        push_signed_decimal(&mut m, invalid[i]);
        i += 1;
    }
    assert(parts.take(parts.len() as int) =~= parts);
    extend_chars(&mut m, "]");
    proof {
        reveal_strlit("以下投递不存在或不可删除: [");
        reveal_strlit("以下投递不存在或不可删除: ");
        reveal_strlit("[");
        assert(m@ =~= "以下投递不存在或不可删除: "@ + id_list(invalid@));
    }
    Err(AppError::BadRequest(string_of(&m)))
}

/// The input of the resume–JD match: the JD (refused when blank) and the
/// resume as indented JSON (refused unless an object).
pub open spec fn jd_match_spec(jd: Option<Seq<char>>, resume: Option<JsonView>) -> Result<Seq<char>, AppErrorView> {
    match jd {
        Some(j) if trim(j).len() > 0 => match resume {
            Some(v) if v is Object => Ok("【目标岗位 JD】\n"@ + j + "\n\n【候选人简历（结构化）】\n"@ + json_pretty(v)),
            _ => Err(AppErrorView::BadRequest("请先到简历页填写或解析简历，再评估匹配度"@)),
        },
        _ => Err(AppErrorView::BadRequest("请先到岗位详情填写 JD 原文"@)),
    }
}

/// Builds the input of the resume–JD match.
pub fn jd_match_input(jd: Option<&str>, resume: Option<&Json>) -> (r: Result<String, AppError>)
    ensures
        jd_match_spec(
            opt_str_view(jd),
            match resume {
                Some(v) => Some(v@),
                None => None,
            },
        ) == match r {
            Ok(t) => Ok(t@),
            Err(e) => Err(e@),
        },
{
    let j = match jd {
        Some(j) => if trim_chars(&chars_of(j)).len() > 0 {
            j
        } else {
            return Err(AppError::BadRequest(owned("请先到岗位详情填写 JD 原文")));
        },
        None => {
            return Err(AppError::BadRequest(owned("请先到岗位详情填写 JD 原文")));
        },
    };
    let v = match resume {
        Some(v) => match v {
            Json::Object(_) => v,
            _ => {
                return Err(AppError::BadRequest(owned("请先到简历页填写或解析简历，再评估匹配度")));
            },
        },
        None => {
            return Err(AppError::BadRequest(owned("请先到简历页填写或解析简历，再评估匹配度")));
        },
    };
    let mut t = owned("【目标岗位 JD】\n");
    t.append(j);
    t.append("\n\n【候选人简历（结构化）】\n");
    t.append(pretty_json(v).as_str());
    Ok(t)
}

} // verus!
