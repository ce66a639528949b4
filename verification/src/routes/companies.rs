//! Company and position helpers: text cleaning, the prompt of the question
//! prediction for a position, and the predicted questions taken into the bank.
use vstd::prelude::*;
use vstd::string::StringExecFns;

use crate::error::{AppError, AppErrorView};
use crate::json::Json;
use crate::text::{chars_of, contains, contains_chars, extend_chars, opt_str_view, owned, str_eq, string_of, sub_chars, trim, trim_chars};

verus! {

/// A trimmed, non-empty text.
pub open spec fn clean_spec(s: Option<Seq<char>>) -> Option<Seq<char>> {
    match s {
        Some(x) => if trim(x).len() > 0 {
            Some(trim(x))
        } else {
            None
        },
        None => None,
    }
}

/// Trims an optional text; blank becomes `None`.
pub fn clean(s: Option<&str>) -> (r: Option<String>)
    ensures
        clean_spec(
            match s {
                Some(x) => Some(x@),
                None => None,
            },
        ) == match r {
            Some(x) => Some(x@),
            None => None,
        },
{
    match s {
        Some(x) => {
            let t = trim_chars(&chars_of(x));
            if t.len() > 0 {
                Some(string_of(&t))
            } else {
                None
            }
        },
        None => None,
    }
}

/// At most `max` characters, then an ellipsis.
pub open spec fn clip_spec(s: Seq<char>, max: nat) -> Seq<char> {
    if s.len() <= max {
        s
    } else {
        s.take(max as int) + "…"@
    }
}

/// Clips a text to `max` characters, marking a cut with an ellipsis.
pub fn clip_chars(s: &str, max: usize) -> (r: String)
    ensures
        r@ == clip_spec(s@, max as nat),
{
    let c = chars_of(s);
    if c.len() <= max {
        string_of(&c)
    } else {
        let mut out = sub_chars(&c, 0, max);
        extend_chars(&mut out, "…");
        string_of(&out)
    }
}

/// The request of the question prediction for a position: company, title,
/// the trimmed JD clipped to 4000 characters, the candidate's background (the
/// compact resume, or a note that there is none) and, when there are any,
/// the points of an earlier JD reading.  A blank JD is refused.
pub open spec fn predict_prompt_spec(
    company: Seq<char>,
    title: Seq<char>,
    jd_text: Option<Seq<char>>,
    resume: Option<Seq<char>>,
    jd_points: Option<Seq<char>>,
) -> Result<Seq<char>, AppErrorView> {
    let jd = trim(
        match jd_text {
            Some(j) => j,
            None => Seq::empty(),
        },
    );
    if jd.len() == 0 {
        Err(AppErrorView::BadRequest("该岗位暂无 JD 描述，请先补充岗位职责与要求"@))
    } else {
        Ok(
            "【目标岗位】\n公司："@ + company + "\n职位："@ + title + "\n\n【岗位 JD 描述】\n"@ + clip_spec(jd, 4000)
                + "\n\n"@ + match resume {
                Some(r) => "【候选人背景】\n"@ + r,
                None => "【候选人背景】未解析简历，仅按岗位 JD 预测"@,
            } + match jd_points {
                Some(p) => "\n\n【已有 JD 解读要点】\n"@ + p,
                None => Seq::empty(),
            },
        )
    }
}

/// Builds the request of the question prediction for a position.
pub fn predict_prompt(
    company: &str,
    title: &str,
    jd_text: Option<&str>,
    resume: Option<&str>,
    jd_points: Option<&str>,
) -> (r: Result<String, AppError>)
    ensures
        predict_prompt_spec(company@, title@, opt_str_view(jd_text), opt_str_view(resume), opt_str_view(jd_points))
            == match r {
            Ok(t) => Ok(t@),
            Err(e) => Err(e@),
        },
{
    let jd = match jd_text {
        Some(j) => string_of(&trim_chars(&chars_of(j))),
        None => String::new(),
    };
    proof {
        assert(trim(Seq::<char>::empty()) =~= Seq::<char>::empty()) by {
            crate::text::lemma_lead_from_bounds(Seq::<char>::empty(), 0);
            crate::text::lemma_trail_to_bounds(Seq::<char>::empty(), 0);
        }
    }
    let ghost jdv = trim(
        match opt_str_view(jd_text) {
            Some(j) => j,
            None => Seq::empty(),
        },
    );
    assert(jd@ == jdv);
    if chars_of(jd.as_str()).len() == 0 {
        return Err(AppError::BadRequest(owned("该岗位暂无 JD 描述，请先补充岗位职责与要求")));
    }
    let mut t = owned("【目标岗位】\n公司：");
    t.append(company);
    t.append("\n职位：");
    t.append(title);
    t.append("\n\n【岗位 JD 描述】\n");
    t.append(clip_chars(jd.as_str(), 4000).as_str());
    t.append("\n\n");
    match resume {
        Some(r) => {
            t.append("【候选人背景】\n");
            t.append(r);
        },
        None => t.append("【候选人背景】未解析简历，仅按岗位 JD 预测"),
    }
    match jd_points {
        Some(p) => {
            t.append("\n\n【已有 JD 解读要点】\n");
            t.append(p);
        },
        None => {
            assert(t@ + Seq::<char>::empty() == t@);
        },
    }
    assert(t@ =~= "【目标岗位】\n公司："@ + company@ + "\n职位："@ + title@ + "\n\n【岗位 JD 描述】\n"@ + clip_spec(jdv, 4000)
        + "\n\n"@ + match opt_str_view(resume) {
        Some(r) => "【候选人背景】\n"@ + r,
        None => "【候选人背景】未解析简历，仅按岗位 JD 预测"@,
    } + match opt_str_view(jd_points) {
        Some(p) => "\n\n【已有 JD 解读要点】\n"@ + p,
        None => Seq::empty(),
    });
    Ok(t)
}

/// A predicted question taken into the bank: its trimmed text and its tags
/// (`岗位押题`, its category, the position title).
pub open spec fn predicted_entries(items: Seq<(Seq<char>, Seq<char>)>, title: Seq<char>) -> Seq<
    (Seq<char>, Seq<Seq<char>>),
>
    decreases items.len(),
{
    if items.len() == 0 {
        Seq::empty()
    } else {
        predicted_entries(items.drop_last(), title) + if trim(items.last().0).len() > 0 {
            seq![(trim(items.last().0), seq!["岗位押题"@, items.last().1, title])]
        } else {
            Seq::empty()
        }
    }
}

/// Selects the predicted questions `(content, category)` to take into the
/// bank (blank ones skipped) with their tags; an empty request is refused.
pub fn predicted_questions(items: &[(String, String)], position_title: &str) -> (r: Result<
    Vec<(String, Vec<String>)>,
    AppError,
>)
    ensures
        items@.len() == 0 <==> r is Err,
        r matches Err(e) ==> e@ == AppErrorView::BadRequest("待入库题目列表不能为空"@),
        r matches Ok(v) ==> v@.map_values(|e: (String, Vec<String>)| (e.0@, e.1@.map_values(|t: String| t@)))
            == predicted_entries(items@.map_values(|e: (String, String)| (e.0@, e.1@)), position_title@),
{
    if items.len() == 0 {
        return Err(AppError::BadRequest(owned("待入库题目列表不能为空")));
    }
    let ghost iv = items@.map_values(|e: (String, String)| (e.0@, e.1@));
    let mut out: Vec<(String, Vec<String>)> = Vec::new();
    let mut i: usize = 0;
    while i < items.len()
        invariant
            i <= items@.len(),
            iv == items@.map_values(|e: (String, String)| (e.0@, e.1@)),
            out@.map_values(|e: (String, Vec<String>)| (e.0@, e.1@.map_values(|t: String| t@))) == predicted_entries(
                iv.take(i as int),
                position_title@,
            ),
        decreases items@.len() - i,
    {
        proof {
            assert(iv.take(i + 1).drop_last() =~= iv.take(i as int));
        }
        let ghost before = out@.map_values(|e: (String, Vec<String>)| (e.0@, e.1@.map_values(|t: String| t@)));
        let c = trim_chars(&chars_of(items[i].0.as_str()));
        if c.len() > 0 {
            let mut tags: Vec<String> = Vec::new();
            tags.push(owned("岗位押题"));
            tags.push(items[i].1.clone());
            tags.push(owned(position_title));
            let ghost tv = tags@.map_values(|t: String| t@);
            assert(tv =~= seq!["岗位押题"@, iv[i as int].1, position_title@]);
            out.push((string_of(&c), tags));
            assert(out@.map_values(|e: (String, Vec<String>)| (e.0@, e.1@.map_values(|t: String| t@))) =~= before.push(
                (c@, tv),
            ));
        }
        i += 1;
    }
    assert(iv.take(iv.len() as int) =~= iv);
    Ok(out)
}

/// The recycle-bin company that receives the questions of deleted applications.
pub const TOMBSTONE_COMPANY: &'static str = "回收站";

/// The company of self-recorded questions.
pub const SELF_COMPANY: &'static str = "自录题库";

/// The company of mock interviews.
pub const MOCK_COMPANY: &'static str = "模拟面试";

/// Names kept for the system's own companies.
pub open spec fn reserved_company(name: Seq<char>) -> bool {
    name == TOMBSTONE_COMPANY@ || name == SELF_COMPANY@ || name == MOCK_COMPANY@
}

/// The name of a new company: trimmed, not blank and not reserved.
pub open spec fn company_name_spec(name: Seq<char>) -> Result<Seq<char>, AppErrorView> {
    let n = trim(name);
    if n.len() == 0 {
        Err(AppErrorView::BadRequest("公司名不能为空"@))
    } else if reserved_company(n) {
        Err(AppErrorView::BadRequest("该公司名为系统保留名"@))
    } else {
        Ok(n)
    }
}

/// Validates the name of a new company.
pub fn company_name(name: &str) -> (r: Result<String, AppError>)
    ensures
        company_name_spec(name@) == match r {
            Ok(n) => Ok(n@),
            Err(e) => Err(e@),
        },
{
    let n = string_of(&trim_chars(&chars_of(name)));
    if n.as_str().is_empty() {
        return Err(AppError::BadRequest(owned("公司名不能为空")));
    }
    if str_eq(n.as_str(), TOMBSTONE_COMPANY) || str_eq(n.as_str(), SELF_COMPANY) || str_eq(n.as_str(), MOCK_COMPANY) {
        return Err(AppError::BadRequest(owned("该公司名为系统保留名")));
    }
    Ok(n)
}

/// A system company cannot be opened; an unknown one is left to the lookup.
pub fn company_openable(is_system: Option<bool>) -> (r: Result<(), AppError>)
    ensures
        r is Ok <==> is_system != Some(true),
        r matches Err(e) ==> e@ == AppErrorView::BadRequest("系统容器公司不可打开"@),
{
    if is_system == Some(true) {
        Err(AppError::BadRequest(owned("系统容器公司不可打开")))
    } else {
        Ok(())
    }
}

/// A system company keeps its name: a different requested name is refused.
pub fn company_rename(is_system: bool, current: &str, requested: Option<&str>) -> (r: Result<(), AppError>)
    ensures
        r is Err <==> is_system && (requested matches Some(n) && n@ != current@),
        r matches Err(e) ==> e@ == AppErrorView::BadRequest("系统内置公司名称不可修改"@),
{
    match requested {
        Some(n) => if is_system && !str_eq(n, current) {
            Err(AppError::BadRequest(owned("系统内置公司名称不可修改")))
        } else {
            Ok(())
        },
        None => Ok(()),
    }
}

/// Whether a storage error reports a name already taken (`unique` or `duplicate key`).
pub fn rename_conflict(db_message: &str) -> (r: bool)
    ensures
        r == (contains(db_message@, "unique"@) || contains(db_message@, "duplicate key"@)),
{
    let m = chars_of(db_message);
    contains_chars(&m, &chars_of("unique")) || contains_chars(&m, &chars_of("duplicate key"))
}

/// The conflict answered when a company is renamed to a taken name.
pub fn rename_conflict_error() -> (e: AppError)
    ensures
        e@ == AppErrorView::Conflict("该公司名称已存在，请换一个名称"@),
{
    AppError::Conflict(owned("该公司名称已存在，请换一个名称"))
}

/// Business requests may not touch a system company; an unknown one is not found.
pub fn business_company(is_system: Option<bool>) -> (r: Result<(), AppError>)
    ensures
        r is Ok <==> is_system == Some(false),
        is_system is None ==> (r matches Err(e) && e@ == AppErrorView::NotFound),
        is_system == Some(true) ==> (r matches Err(e) && e@ == AppErrorView::BadRequest("系统容器公司不可修改"@)),
{
    match is_system {
        None => Err(AppError::NotFound),
        Some(true) => Err(AppError::BadRequest(owned("系统容器公司不可修改"))),
        Some(false) => Ok(()),
    }
}

/// The title of a new position: trimmed and not blank.
pub fn require_position_title(title: Option<&str>) -> (r: Result<String, AppError>)
    ensures
        match clean_spec(opt_str_view(title)) {
            Some(t) => r matches Ok(x) && x@ == t,
            None => r matches Err(e) && e@ == AppErrorView::BadRequest("岗位名称不能为空"@),
        },
{
    match clean(title) {
        Some(t) => Ok(t),
        None => Err(AppError::BadRequest(owned("岗位名称不能为空"))),
    }
}

/// An edit of a clearable field: absent keeps the value, a blank text clears
/// it (empty), anything else is stored trimmed.
pub open spec fn cleared_spec(v: Option<Seq<char>>) -> Option<Seq<char>> {
    match v {
        Some(x) => Some(
            match clean_spec(Some(x)) {
                Some(t) => t,
                None => Seq::empty(),
            },
        ),
        None => None,
    }
}

/// The stored form of an edit of a clearable position field.
pub fn cleared(v: Option<&str>) -> (r: Option<String>)
    ensures
        cleared_spec(opt_str_view(v)) == match r {
            Some(x) => Some(x@),
            None => None,
        },
{
    match v {
        Some(x) => match clean(Some(x)) {
            Some(t) => Some(t),
            None => Some(String::new()),
        },
        None => None,
    }
}

/// A position with applications cannot be deleted.
pub fn position_deletable(in_use: bool) -> (r: Result<(), AppError>)
    ensures
        r is Ok <==> !in_use,
        r matches Err(e) ==> e@ == AppErrorView::BadRequest("该岗位下仍有投递记录，请先删除对应投递"@),
{
    if in_use {
        Err(AppError::BadRequest(owned("该岗位下仍有投递记录，请先删除对应投递")))
    } else {
        Ok(())
    }
}

/// The title and dossier summary of a drill built from predicted questions:
/// the given title (trimmed) or `公司 · 岗位 岗位针对押题专项模考`; refused without questions.
pub open spec fn predicted_drill_spec(count: nat, title: Option<Seq<char>>, company: Seq<char>, position: Seq<char>) -> Result<
    (Seq<char>, Seq<char>),
    AppErrorView,
> {
    if count == 0 {
        Err(AppErrorView::BadRequest("练习题目不能为空"@))
    } else {
        let t = trim(
            match title {
                Some(x) => x,
                None => Seq::empty(),
            },
        );
        Ok(
            (
                if t.len() == 0 {
                    company + " · "@ + position + " 岗位针对押题专项模考"@
                } else {
                    t
                },
                "针对 "@ + company + " · "@ + position + " 岗位的精准押题考点"@,
            ),
        )
    }
}

/// Names a drill built from `count` predicted questions of a position.
pub fn predicted_drill(count: usize, title: Option<&str>, company: &str, position: &str) -> (r: Result<
    (String, String),
    AppError,
>)
    ensures
        predicted_drill_spec(count as nat, opt_str_view(title), company@, position@) == match r {
            Ok((t, s)) => Ok((t@, s@)),
            Err(e) => Err(e@),
        },
{
    if count == 0 {
        return Err(AppError::BadRequest(owned("练习题目不能为空")));
    }
    let given = match title {
        Some(x) => trim_chars(&chars_of(x)),
        None => Vec::new(),
    };
    proof {
        assert(trim(Seq::<char>::empty()) =~= Seq::<char>::empty()) by {
            crate::text::lemma_lead_from_bounds(Seq::<char>::empty(), 0);
            crate::text::lemma_trail_to_bounds(Seq::<char>::empty(), 0);
        }
    }
    let t = if given.len() == 0 {
        let mut t = owned(company);
        t.append(" · ");
        t.append(position);
        t.append(" 岗位针对押题专项模考");
        t
    } else {
        string_of(&given)
    };
    let mut summary = owned("针对 ");
    summary.append(company);
    summary.append(" · ");
    summary.append(position);
    summary.append(" 岗位的精准押题考点");
    Ok((t, summary))
}

/// The stored result of a question prediction.
#[derive(Debug, PartialEq)]
pub struct PositionPredictResponse {
    pub summary: String,
    /// The predicted questions as the model returned them.
    pub questions: Vec<Json>,
    /// The model's plain text when it answered without structure.
    pub text_fallback: Option<String>,
}

impl PositionPredictResponse {
    /// A structured prediction.
    pub fn structured(summary: String, questions: Vec<Json>) -> (r: Self)
        ensures
            r.summary == summary,
            r.questions == questions,
            r.text_fallback is None,
    {
        PositionPredictResponse { summary, questions, text_fallback: None }
    }

    /// A plain-text answer: a fixed summary, no questions, the text kept aside.
    pub fn from_text(text: String) -> (r: Self)
        ensures
            r.summary@ == "（纯文本评审模式生成）"@,
            r.questions@.len() == 0,
            r.text_fallback == Some(text),
    {
        PositionPredictResponse {
            summary: owned("（纯文本评审模式生成）"),
            questions: Vec::new(),
            text_fallback: Some(text),
        }
    }
}

/// The JD of a position for its reading: refused when missing or blank,
/// otherwise kept as written.
pub fn require_jd(jd: Option<&str>) -> (r: Result<String, AppError>)
    ensures
        match opt_str_view(jd) {
            Some(j) if trim(j).len() > 0 => r matches Ok(x) && x@ == j,
            _ => r matches Err(e) && e@ == AppErrorView::BadRequest("请先到岗位详情填写 JD 原文"@),
        },
{
    match jd {
        Some(j) => if trim_chars(&chars_of(j)).len() > 0 {
            Ok(owned(j))
        } else {
            Err(AppError::BadRequest(owned("请先到岗位详情填写 JD 原文")))
        },
        None => Err(AppError::BadRequest(owned("请先到岗位详情填写 JD 原文"))),
    }
}

} // verus!
