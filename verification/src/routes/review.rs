//! Review helpers: the daily streak and the explanation prompt.
use vstd::prelude::*;
use vstd::string::StringExecFns;

use crate::json::Json;
use crate::routes::drills::{message, message_spec};
use crate::text::{chars_of, owned, trim, trim_chars};

verus! {

/// Streak over review days given as day numbers, newest first: it starts today
/// when the newest review is today, else yesterday, and counts consecutive
/// days; later duplicates and newer days are skipped, an older gap ends it.
pub open spec fn streak_from(dates: Seq<i64>, expected: int, i: int) -> int
    decreases dates.len() - i,
{
    if i < 0 || i >= dates.len() {
        0
    } else if dates[i] == expected {
        1 + streak_from(dates, expected - 1, i + 1)
    } else if dates[i] < expected {
        0
    } else {
        streak_from(dates, expected, i + 1)
    }
}

/// The streak of consecutive review days ending today or yesterday.
pub open spec fn streak_spec(dates: Seq<i64>, today: i64) -> int {
    let start = if dates.len() > 0 && dates[0] == today {
        today as int
    } else {
        today - 1
    };
    streak_from(dates, start, 0)
}

/// A streak counts at most one per review entry.
pub proof fn lemma_streak_bounds(dates: Seq<i64>, expected: int, i: int)
    requires
        0 <= i <= dates.len(),
    ensures
        0 <= streak_from(dates, expected, i) <= dates.len() - i,
    decreases dates.len() - i,
{
    if i < dates.len() {
        if dates[i] == expected {
            lemma_streak_bounds(dates, expected - 1, i + 1);
        } else if dates[i] >= expected {
            lemma_streak_bounds(dates, expected, i + 1);
        }
    }
}

/// Counts the review streak; `dates` are day numbers (such as days since the
/// common era) of review days, newest first, and `today` is the current day.
pub fn compute_streak(dates: &[i64], today: i64) -> (r: i64)
    requires
        dates@.len() < i64::MAX,
        today > i64::MIN + dates@.len() + 1,
    ensures
        r == streak_spec(dates@, today),
{
    let mut expected: i64 = if dates.len() > 0 && dates[0] == today {
        today
    } else {
        today - 1
    };
    let ghost start = expected as int;
    let mut streak: i64 = 0;
    let mut i: usize = 0;
    proof {
        lemma_streak_bounds(dates@, start, 0);
    }
    while i < dates.len()
        invariant
            i <= dates@.len(),
            dates@.len() < i64::MAX,
            today > i64::MIN + dates@.len() + 1,
            start >= today - 1,
            streak >= 0,
            streak <= i,
            expected == start - streak,
            streak_from(dates@, start, 0) == streak + streak_from(dates@, expected as int, i as int),
        decreases dates@.len() - i,
    {
        let d = dates[i];
        if d == expected {
            streak += 1;
            expected -= 1;
            i += 1;
        } else if d < expected {
            // an older day: the streak is broken
            i = dates.len();
        } else {
            i += 1;
        }
    }
    streak
}

/// The user message of an explanation request.
pub open spec fn explain_user_spec(
    content: Seq<char>,
    my_answer: Option<Seq<char>>,
    ref_answer: Seq<char>,
    focus: Option<Seq<char>>,
) -> Seq<char> {
    "面试题：\n"@ + content + "\n"@ + (match my_answer {
        Some(a) => if trim(a).len() > 0 {
            "\n我的回答（参考，指出可改进处）：\n"@ + a + "\n"@
        } else {
            Seq::empty()
        },
        None => Seq::empty(),
    }) + (if trim(ref_answer).len() > 0 {
        "\n参考答案：\n"@ + ref_answer + "\n"@
    } else {
        Seq::empty()
    }) + match focus {
        Some(f) => if trim(f).len() > 0 {
            "\n重点讲解："@ + f + "\n"@
        } else {
            Seq::empty()
        },
        None => Seq::empty(),
    }
}

/// System prompt of the explanation coach.
pub const EXPLAIN_SYSTEM: &'static str = "你是资深面试讲解教练。针对一道面试题用中文给出：\n1. 解题思路（拆解要点，分点）\n2. 一句话记忆口诀\n3. 一道相关变式题（帮加深巩固）\n简洁、口语化、可直接执行。不要输出 JSON，直接 Markdown。";

/// Messages asking for an explanation of a question (with the user's answer,
/// the reference answer and a focus when given and not blank).
pub fn explain_messages(content: &str, my_answer: Option<&str>, ref_answer: &str, focus: Option<&str>) -> (r: Vec<
    Json,
>)
    ensures
        r@.len() == 2,
        r@[0]@ == message_spec("system"@, EXPLAIN_SYSTEM@),
        r@[1]@ == message_spec(
            "user"@,
            explain_user_spec(
                content@,
                match my_answer {
                    Some(a) => Some(a@),
                    None => None,
                },
                ref_answer@,
                match focus {
                    Some(f) => Some(f@),
                    None => None,
                },
            ),
        ),
{
    let mut user = owned("面试题：\n");
    user.append(content);
    user.append("\n");
    if let Some(a) = my_answer {
        if trim_chars(&chars_of(a)).len() > 0 {
            user.append("\n我的回答（参考，指出可改进处）：\n");
            user.append(a);
            user.append("\n");
        }
    }
    if trim_chars(&chars_of(ref_answer)).len() > 0 {
        user.append("\n参考答案：\n");
        user.append(ref_answer);
        user.append("\n");
    }
    if let Some(f) = focus {
        if trim_chars(&chars_of(f)).len() > 0 {
            user.append("\n重点讲解：");
            user.append(f);
            user.append("\n");
        }
    }
    assert(user@ =~= explain_user_spec(
        content@,
        match my_answer {
            Some(a) => Some(a@),
            None => None,
        },
        ref_answer@,
        match focus {
            Some(f) => Some(f@),
            None => None,
        },
    ));
    let mut r: Vec<Json> = Vec::new();
    r.push(message("system", owned(EXPLAIN_SYSTEM)));
    r.push(message("user", user));
    r
}

} // verus!
