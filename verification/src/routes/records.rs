//! Small request rules of comments, the rewards shop and the weekly goal.
use vstd::prelude::*;

use crate::error::{AppError, AppErrorView};
use crate::text::{chars_of, owned, string_of, trim, trim_chars};

verus! {

/// A comment body: trimmed and non-empty.
pub fn comment_body(body: &str) -> (r: Result<String, AppError>)
    ensures
        match r {
            Ok(b) => trim(body@).len() > 0 && b@ == trim(body@),
            Err(e) => trim(body@).len() == 0 && e@ == AppErrorView::BadRequest("评论不能为空"@),
        },
{
    let t = trim_chars(&chars_of(body));
    if t.len() == 0 {
        return Err(AppError::BadRequest(owned("评论不能为空")));
    }
    Ok(string_of(&t))
}

/// A reward of the shop: a non-blank name (trimmed), a positive cost and an
/// emoji (a gift by default).
pub open spec fn reward_spec(name: Seq<char>, cost: i32, emoji: Option<Seq<char>>) -> Result<
    (Seq<char>, i32, Seq<char>),
    AppErrorView,
> {
    if trim(name).len() == 0 {
        Err(AppErrorView::BadRequest("奖励名称不能为空"@))
    } else if cost <= 0 {
        Err(AppErrorView::BadRequest("积分成本必须为正"@))
    } else {
        Ok(
            (
                trim(name),
                cost,
                match emoji {
                    Some(e) => e,
                    None => "🎁"@,
                },
            ),
        )
    }
}

/// Validates a new reward.
pub fn reward(name: &str, cost: i32, emoji: Option<&str>) -> (r: Result<(String, i32, String), AppError>)
    ensures
        reward_spec(
            name@,
            cost,
            match emoji {
                Some(e) => Some(e@),
                None => None,
            },
        ) == match r {
            Ok((n, c, e)) => Ok((n@, c, e@)),
            Err(e) => Err(e@),
        },
{
    let t = trim_chars(&chars_of(name));
    if t.len() == 0 {
        return Err(AppError::BadRequest(owned("奖励名称不能为空")));
    }
    if cost <= 0 {
        return Err(AppError::BadRequest(owned("积分成本必须为正")));
    }
    let e = match emoji {
        Some(x) => owned(x),
        None => owned("🎁"),
    };
    Ok((string_of(&t), cost, e))
}

/// The weekly application goal is between 0 and 1000.
pub fn check_weekly_goal(target: i64) -> (r: Result<(), AppError>)
    ensures
        r is Ok <==> 0 <= target <= 1000,
        r matches Err(e) ==> e@ == AppErrorView::BadRequest("周目标需在 0-1000 之间"@),
{
    if 0 <= target && target <= 1000 {
        Ok(())
    } else {
        Err(AppError::BadRequest(owned("周目标需在 0-1000 之间")))
    }
}

} // verus!
