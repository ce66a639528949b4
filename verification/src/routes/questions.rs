//! Rules of the question bank requests: question text and type, follow-ups
//! inheriting from their question, and what grading or editing an answer
//! requires.
use vstd::prelude::*;

use crate::error::{AppError, AppErrorView};
use crate::text::{chars_of, opt_str_view, owned, string_of, trim, trim_chars};

verus! {

/// Type given to questions that name none.
pub const DEFAULT_QUESTION_TYPE: &'static str = "professional_knowledge";

/// A question text: trimmed and non-empty.
pub fn question_content(content: &str) -> (r: Result<String, AppError>)
    ensures
        match r {
            Ok(c) => trim(content@).len() > 0 && c@ == trim(content@),
            Err(e) => trim(content@).len() == 0 && e@ == AppErrorView::BadRequest("题目内容不能为空"@),
        },
{
    let t = trim_chars(&chars_of(content));
    if t.len() == 0 {
        return Err(AppError::BadRequest(owned("题目内容不能为空")));
    }
    Ok(string_of(&t))
}

/// The round a question is filed under must be the user's.
pub fn require_round(exists: bool) -> (r: Result<(), AppError>)
    ensures
        r is Ok <==> exists,
        r matches Err(e) ==> e@ == AppErrorView::BadRequest("轮次不存在"@),
{
    if exists {
        Ok(())
    } else {
        Err(AppError::BadRequest(owned("轮次不存在")))
    }
}

/// A non-blank text, kept as given.
pub open spec fn non_blank(t: Option<Seq<char>>) -> Option<Seq<char>> {
    match t {
        Some(x) => if trim(x).len() > 0 {
            Some(x)
        } else {
            None
        },
        None => None,
    }
}

fn is_non_blank(t: &str) -> (r: bool)
    ensures
        r == (trim(t@).len() > 0),
{
    trim_chars(&chars_of(t)).len() > 0
}

/// The type of a question: the given one unless blank, else the default.
pub fn question_type_or_default(t: Option<&str>) -> (r: &str)
    ensures
        r@ == match non_blank(opt_str_view(t)) {
            Some(x) => x,
            None => DEFAULT_QUESTION_TYPE@,
        },
{
    match t {
        Some(x) => if is_non_blank(x) {
            x
        } else {
            DEFAULT_QUESTION_TYPE
        },
        None => DEFAULT_QUESTION_TYPE,
    }
}

/// The type of a follow-up: its own when it names one (else its question's),
/// unless that is blank; else the default.
pub fn followup_type<'a>(own: Option<&'a str>, parent: Option<&'a str>) -> (r: &'a str)
    ensures
        r@ == match non_blank(
            match own {
                Some(x) => Some(x@),
                None => opt_str_view(parent),
            },
        ) {
            Some(x) => x,
            None => DEFAULT_QUESTION_TYPE@,
        },
{
    let chosen = match own {
        Some(x) => Some(x),
        None => parent,
    };
    match chosen {
        Some(x) => if is_non_blank(x) {
            x
        } else {
            DEFAULT_QUESTION_TYPE
        },
        None => DEFAULT_QUESTION_TYPE,
    }
}

/// A question enters the review queue (and its answer the history) when an
/// answer is given that is not blank.
pub fn answer_recorded(answer: Option<&str>) -> (r: bool)
    ensures
        r == (non_blank(opt_str_view(answer)) is Some),
{
    match answer {
        Some(a) => is_non_blank(a),
        None => false,
    }
}

/// Grading an answer needs one: the stored answer unless blank.
pub fn answer_to_grade(my_answer: Option<&str>) -> (r: Result<String, AppError>)
    ensures
        match r {
            Ok(a) => non_blank(opt_str_view(my_answer)) == Some(a@),
            Err(e) => non_blank(opt_str_view(my_answer)) is None && e@ == AppErrorView::BadRequest(
                "请先填写「我的回答」再评价"@,
            ),
        },
{
    match my_answer {
        Some(a) => if is_non_blank(a) {
            Ok(owned(a))
        } else {
            Err(AppError::BadRequest(owned("请先填写「我的回答」再评价")))
        },
        None => Err(AppError::BadRequest(owned("请先填写「我的回答」再评价"))),
    }
}

/// An edited reference answer: trimmed and non-empty.
pub fn reference_answer(text: &str) -> (r: Result<String, AppError>)
    ensures
        match r {
            Ok(t) => trim(text@).len() > 0 && t@ == trim(text@),
            Err(e) => trim(text@).len() == 0 && e@ == AppErrorView::BadRequest("参考答案不能为空"@),
        },
{
    let t = trim_chars(&chars_of(text));
    if t.len() == 0 {
        return Err(AppError::BadRequest(owned("参考答案不能为空")));
    }
    Ok(string_of(&t))
}

/// Editing the reference answer needs an analysis that has one.
pub fn reference_edited(updated_rows: u64) -> (r: Result<(), AppError>)
    ensures
        r is Ok <==> updated_rows > 0,
        r matches Err(e) ==> e@ == AppErrorView::BadRequest("还没有参考答案可修改，请先「分析题目」"@),
{
    if updated_rows == 0 {
        Err(AppError::BadRequest(owned("还没有参考答案可修改，请先「分析题目」")))
    } else {
        Ok(())
    }
}

/// Deleting in bulk needs a selection.
pub fn bulk_selection(ids: &[i64]) -> (r: Result<(), AppError>)
    ensures
        r is Ok <==> ids@.len() > 0,
        r matches Err(e) ==> e@ == AppErrorView::BadRequest("未选择任何题目"@),
{
    if ids.len() == 0 {
        Err(AppError::BadRequest(owned("未选择任何题目")))
    } else {
        Ok(())
    }
}

} // verus!
