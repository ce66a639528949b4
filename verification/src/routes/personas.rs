//! Rules of custom interviewer personas: their name and prompt, and who may
//! edit or delete one.
use vstd::prelude::*;

use crate::error::{AppError, AppErrorView};
use crate::text::{chars_of, owned, string_of, trim, trim_chars};

verus! {

/// Longest persona name, in characters.
pub const MAX_PERSONA_NAME: usize = 100;

/// A persona name: trimmed, non-empty, at most 100 characters.
pub fn persona_name(name: &str) -> (r: Result<String, AppError>)
    ensures
        match r {
            Ok(n) => 0 < trim(name@).len() <= 100 && n@ == trim(name@),
            Err(e) => !(0 < trim(name@).len() <= 100) && e@ == AppErrorView::BadRequest(
                "persona 名称必填且不超过 100 字"@,
            ),
        },
{
    let t = trim_chars(&chars_of(name));
    if t.len() == 0 || t.len() > MAX_PERSONA_NAME {
        return Err(AppError::BadRequest(owned("persona 名称必填且不超过 100 字")));
    }
    Ok(string_of(&t))
}

/// A new persona's prompt: trimmed and non-empty.
pub fn persona_prompt(prompt: &str) -> (r: Result<String, AppError>)
    ensures
        match r {
            Ok(p) => trim(prompt@).len() > 0 && p@ == trim(prompt@),
            Err(e) => trim(prompt@).len() == 0 && e@ == AppErrorView::BadRequest("persona_prompt 不能为空"@),
        },
{
    let t = trim_chars(&chars_of(prompt));
    if t.len() == 0 {
        return Err(AppError::BadRequest(owned("persona_prompt 不能为空")));
    }
    Ok(string_of(&t))
}

/// A persona can be edited or deleted only by its owner, and never when built
/// in; `row` is `(built in, owner)` of a persona not deleted.
pub fn custom_persona_access(row: Option<(bool, Option<i64>)>, uid: i64) -> (r: Result<(), AppError>)
    ensures
        r == match row {
            None => Err(AppError::NotFound),
            Some((builtin, owner)) => if builtin || owner != Some(uid) {
                Err(AppError::Forbidden)
            } else {
                Ok(())
            },
        },
{
    match row {
        None => Err(AppError::NotFound),
        Some((builtin, owner)) => {
            let mine = match owner {
                Some(o) => o == uid,
                None => false,
            };
            if builtin || !mine {
                Err(AppError::Forbidden)
            } else {
                Ok(())
            }
        },
    }
}

} // verus!
