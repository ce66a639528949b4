//! Application status machine: the only entry for status changes.
//!
//! Legal moves (forward only):
//! ```text
//! (new) -> applied
//! applied -> interviewing | rejected | withdrawn
//! interviewing -> offer | rejected | withdrawn
//! ```
//! Terminal states (offer / rejected / withdrawn) allow no move; a request for
//! the current state is an idempotent no-op.  `applied -> interviewing` is only
//! made automatically (adding the first interview round); `-> offer` needs at
//! least one round.  Round outcomes and the analysis unlock rule live here too.
use vstd::prelude::*;
use vstd::string::StringExecFns;

use crate::error::{AppError, AppErrorView};
use crate::text::{owned, str_eq};

verus! {

/// Who asks for a status change.
#[derive(Debug, Clone, Copy, PartialEq, Eq, Structural)]
pub enum TransitionSource {
    /// The system (adding the first interview round).
    Auto,
    /// The user (buttons, batch management, PATCH).
    Manual,
}

impl TransitionSource {
    /// Label recorded in the status history.
    pub fn as_str(self) -> (r: &'static str)
        ensures
            r@ == (match self {
                TransitionSource::Auto => "auto"@,
                TransitionSource::Manual => "manual"@,
            }),
    {
        match self {
            TransitionSource::Auto => "auto",
            TransitionSource::Manual => "manual",
        }
    }
}

/// Result of a status change.
#[derive(Debug)]
pub struct TransitionOutcome {
    pub from: String,
    pub to: String,
    /// Rounds promoted from pending to pass by an offer.
    pub rounds_promoted: i64,
}

/// All application statuses.
pub const STATUSES: [&'static str; 5] = ["applied", "interviewing", "offer", "rejected", "withdrawn"];

/// The forward-only guard table.
pub open spec fn allowed_transition(from: Seq<char>, to: Seq<char>) -> bool {
    ||| from == "applied"@ && (to == "interviewing"@ || to == "rejected"@ || to == "withdrawn"@)
    ||| from == "interviewing"@ && (to == "offer"@ || to == "rejected"@ || to == "withdrawn"@)
}

/// Terminal statuses.
pub open spec fn is_terminal(s: Seq<char>) -> bool {
    s == "offer"@ || s == "rejected"@ || s == "withdrawn"@
}

/// Progress rank of a status (applied < interviewing < terminal).
pub open spec fn status_rank(s: Seq<char>) -> int {
    if s == "applied"@ {
        0
    } else if s == "interviewing"@ {
        1
    } else {
        2
    }
}

/// Forward-only guard table.
fn can_transition(from: &str, to: &str) -> (r: bool)
    ensures
        r == allowed_transition(from@, to@),
{
    (str_eq(from, "applied") && (str_eq(to, "interviewing") || str_eq(to, "rejected") || str_eq(
        to,
        "withdrawn",
    ))) || (str_eq(from, "interviewing") && (str_eq(to, "offer") || str_eq(to, "rejected")
        || str_eq(to, "withdrawn")))
}

/// What the store must do for an accepted status change.
#[derive(Debug, Clone, Copy, PartialEq, Eq, Structural)]
pub enum TransitionStep {
    /// Same status: succeed without any side effect.
    Unchanged,
    /// Write the new status; with `check_rounds` (target offer) the application
    /// must have at least one round ([`offer_round_guard`]).
    Apply { check_rounds: bool },
}

/// The message for a move the guard table forbids.
pub open spec fn illegal_message(old: Seq<char>, to: Seq<char>) -> Seq<char> {
    "非法流转："@ + old + " → "@ + to + if allowed_transition(to, old) {
        "（状态只进不退）"@
    } else {
        Seq::empty()
    }
}

/// The decision for a requested status change.
pub open spec fn plan_spec(old: Seq<char>, to: Seq<char>, source: TransitionSource) -> Result<
    TransitionStep,
    AppErrorView,
> {
    if old == to {
        Ok(TransitionStep::Unchanged)
    } else if !allowed_transition(old, to) {
        Err(AppErrorView::BadRequest(illegal_message(old, to)))
    } else if old == "applied"@ && to == "interviewing"@ && source == TransitionSource::Manual {
        Err(AppErrorView::BadRequest("「进行中」由添加首场面试自动推进，不能手动设置"@))
    } else {
        Ok(TransitionStep::Apply { check_rounds: to == "offer"@ })
    }
}

/// Decides a requested change from status `old` to `to`.
pub fn plan_transition(old: &str, to: &str, source: TransitionSource) -> (r: Result<TransitionStep, AppError>)
    ensures
        plan_spec(old@, to@, source) == match r {
            Ok(s) => Ok(s),
            Err(e) => Err(e@),
        },
{
    if str_eq(old, to) {
        return Ok(TransitionStep::Unchanged);
    }
    if !can_transition(old, to) {
        let mut m = owned("非法流转：");
        m.append(old);
        m.append(" → ");
        m.append(to);
        if can_transition(to, old) {
            m.append("（状态只进不退）");
        } else {
            assert(m@ + Seq::<char>::empty() == m@);
        }
        return Err(AppError::BadRequest(m));
    }
    if str_eq(old, "applied") && str_eq(to, "interviewing") && source == TransitionSource::Manual {
        return Err(AppError::BadRequest(owned("「进行中」由添加首场面试自动推进，不能手动设置")));
    }
    Ok(TransitionStep::Apply { check_rounds: str_eq(to, "offer") })
}

/// The offer guard: an application needs at least one round before an offer.
pub fn offer_round_guard(round_count: i64) -> (r: Result<(), AppError>)
    ensures
        r is Ok <==> round_count != 0,
        r matches Err(e) ==> e@ == AppErrorView::BadRequest("还没有面试轮次，无法标记 Offer"@),
{
    if round_count == 0 {
        Err(AppError::BadRequest(owned("还没有面试轮次，无法标记 Offer")))
    } else {
        Ok(())
    }
}

/// The outcome of a request for the current status.
pub fn unchanged_outcome(old: &str, to: &str) -> (o: TransitionOutcome)
    ensures
        o.from@ == old@,
        o.to@ == to@,
        o.rounds_promoted == 0,
{
    TransitionOutcome { from: owned(old), to: owned(to), rounds_promoted: 0 }
}

/// Forward only: a legal move can never be undone, it raises the progress rank,
/// and a terminal status has no legal move at all.
pub proof fn lemma_forward_only(a: Seq<char>, b: Seq<char>)
    ensures
        allowed_transition(a, b) ==> !allowed_transition(b, a),
        allowed_transition(a, b) ==> status_rank(a) < status_rank(b),
        is_terminal(a) ==> !allowed_transition(a, b),
{
    reveal_strlit("applied");
    reveal_strlit("interviewing");
    reveal_strlit("offer");
    reveal_strlit("rejected");
    reveal_strlit("withdrawn");
    assert("applied"@.len() == 7);
    assert("interviewing"@.len() == 12);
    assert("offer"@.len() == 5);
    assert("rejected"@.len() == 8);
    assert("withdrawn"@.len() == 9);
}

/// A request for the current status always succeeds without side effects, a
/// request that leaves a terminal status is always refused, and a manual request
/// never starts the interviewing status.
pub proof fn lemma_plan_idempotent_and_terminal(old: Seq<char>, to: Seq<char>, source: TransitionSource)
    ensures
        plan_spec(old, old, source) == Ok::<TransitionStep, AppErrorView>(TransitionStep::Unchanged),
        is_terminal(old) && old != to ==> plan_spec(old, to, source) is Err,
        source == TransitionSource::Manual && old == "applied"@ && to == "interviewing"@ ==> plan_spec(
            old,
            to,
            source,
        ) is Err,
{
    lemma_forward_only(old, to);
}

/// The status machine moves exactly along six forward edges: an open status
/// (applied or interviewing) can always be rejected or withdrawn, whoever
/// asks; interviewing can reach offer (which then needs a round); applied
/// becomes interviewing only automatically; no other change is ever applied,
/// and a request is a no-op exactly when it asks for the current status.
pub proof fn lemma_status_moves(old: Seq<char>, to: Seq<char>, source: TransitionSource)
    ensures
        (old == "applied"@ || old == "interviewing"@) && (to == "rejected"@ || to == "withdrawn"@) ==> plan_spec(
            old,
            to,
            source,
        ) == Ok::<TransitionStep, AppErrorView>(TransitionStep::Apply { check_rounds: false }),
        old == "interviewing"@ && to == "offer"@ ==> plan_spec(old, to, source) == Ok::<
            TransitionStep,
            AppErrorView,
        >(TransitionStep::Apply { check_rounds: true }),
        old == "applied"@ && to == "interviewing"@ && source == TransitionSource::Auto ==> plan_spec(old, to, source)
            == Ok::<TransitionStep, AppErrorView>(TransitionStep::Apply { check_rounds: false }),
        plan_spec(old, to, source) is Ok ==> old == to || (old == "applied"@ && (to == "interviewing"@ || to
            == "rejected"@ || to == "withdrawn"@)) || (old == "interviewing"@ && (to == "offer"@ || to
            == "rejected"@ || to == "withdrawn"@)),
        plan_spec(old, to, source) == Ok::<TransitionStep, AppErrorView>(TransitionStep::Unchanged) <==> old == to,
{
    reveal_strlit("applied");
    reveal_strlit("interviewing");
    reveal_strlit("offer");
    reveal_strlit("rejected");
    reveal_strlit("withdrawn");
    assert("applied"@.len() == 7);
    assert("interviewing"@.len() == 12);
    assert("offer"@.len() == 5);
    assert("rejected"@.len() == 8);
    assert("withdrawn"@.len() == 9);
    assert("rejected"@[0] != "withdrawn"@[0]);
}

/// The outcome of a status field in a create request: absent means `applied`.
pub open spec fn status_value(s: Option<Seq<char>>) -> Result<Seq<char>, AppErrorView> {
    match s {
        None => Ok("applied"@),
        Some(x) => if x == "applied"@ || x == "interviewing"@ || x == "offer"@ || x == "rejected"@
            || x == "withdrawn"@ {
            Ok(x)
        } else {
            Err(AppErrorView::BadRequest("非法投递状态: "@ + x))
        },
    }
}

/// Validates an application status (absent means `applied`).
pub fn validate_status(s: Option<&str>) -> (r: Result<&'static str, AppError>)
    ensures
        status_value(
            match s {
                Some(x) => Some(x@),
                None => None,
            },
        ) == match r {
            Ok(v) => Ok(v@),
            Err(e) => Err(e@),
        },
{
    match s {
        None => Ok("applied"),
        Some(x) => {
            if str_eq(x, "applied") {
                Ok("applied")
            } else if str_eq(x, "interviewing") {
                Ok("interviewing")
            } else if str_eq(x, "offer") {
                Ok("offer")
            } else if str_eq(x, "rejected") {
                Ok("rejected")
            } else if str_eq(x, "withdrawn") {
                Ok("withdrawn")
            } else {
                let mut m = owned("非法投递状态: ");
                m.append(x);
                Err(AppError::BadRequest(m))
            }
        },
    }
}

/// The outcome of a round result field: absent means `pending`.
pub open spec fn passed_value(s: Option<Seq<char>>) -> Result<Seq<char>, AppErrorView> {
    match s {
        None => Ok("pending"@),
        Some(x) => if x == "pending"@ || x == "pass"@ || x == "fail"@ {
            Ok(x)
        } else {
            Err(AppErrorView::BadRequest("非法轮次结果: "@ + x))
        },
    }
}

/// Validates a round result (pending / pass / fail; absent means pending).
pub fn validate_passed(s: Option<&str>) -> (r: Result<&'static str, AppError>)
    ensures
        passed_value(
            match s {
                Some(x) => Some(x@),
                None => None,
            },
        ) == match r {
            Ok(v) => Ok(v@),
            Err(e) => Err(e@),
        },
{
    match s {
        None => Ok("pending"),
        Some(x) => {
            if str_eq(x, "pending") {
                Ok("pending")
            } else if str_eq(x, "pass") {
                Ok("pass")
            } else if str_eq(x, "fail") {
                Ok("fail")
            } else {
                let mut m = owned("非法轮次结果: ");
                m.append(x);
                Err(AppError::BadRequest(m))
            }
        },
    }
}

/// The overall analysis of an application unlocks once it reached a terminal status.
pub fn require_terminal(status: &str) -> (r: Result<(), AppError>)
    ensures
        r is Ok <==> is_terminal(status@),
        r matches Err(e) ==> e@ == AppErrorView::BadRequest(
            "整体分析在投递走向终态（Offer/拒/弃）后解锁"@,
        ),
{
    if !(str_eq(status, "offer") || str_eq(status, "rejected") || str_eq(status, "withdrawn")) {
        return Err(AppError::BadRequest(owned("整体分析在投递走向终态（Offer/拒/弃）后解锁")));
    }
    Ok(())
}

} // verus!
