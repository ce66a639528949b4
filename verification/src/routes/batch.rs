//! Rules of a batch analysis request.
use vstd::prelude::*;
use vstd::string::StringExecFns;

use crate::error::{AppError, AppErrorView};
use crate::json::{array_of, i64_of, member, Json, JsonView};
use crate::text::{opt_str_view, owned, str_eq};

verus! {

/// A batch needs questions and a mode: `unanalyzed` (the default, skipping
/// analysed questions) or `all`.
pub open spec fn batch_mode_spec(id_count: nat, mode: Option<Seq<char>>) -> Result<Seq<char>, AppErrorView> {
    if id_count == 0 {
        Err(AppErrorView::BadRequest("未选择任何题目"@))
    } else {
        match mode {
            None => Ok("unanalyzed"@),
            Some(m) => if m == "unanalyzed"@ || m == "all"@ {
                Ok(m)
            } else {
                Err(AppErrorView::BadRequest("非法 mode: "@ + m + "（可选 unanalyzed/all）"@))
            },
        }
    }
}

/// Validates a batch request of `ids` in `mode`.
pub fn batch_mode(ids: &[i64], mode: Option<&str>) -> (r: Result<&'static str, AppError>)
    ensures
        batch_mode_spec(ids@.len(), opt_str_view(mode)) == match r {
            Ok(m) => Ok(m@),
            Err(e) => Err(e@),
        },
{
    if ids.len() == 0 {
        return Err(AppError::BadRequest(owned("未选择任何题目")));
    }
    match mode {
        None => Ok("unanalyzed"),
        Some(m) => if str_eq(m, "unanalyzed") {
            Ok("unanalyzed")
        } else if str_eq(m, "all") {
            Ok("all")
        } else {
            let mut e = owned("非法 mode: ");
            e.append(m);
            e.append("（可选 unanalyzed/all）");
            Err(AppError::BadRequest(e))
        },
    }
}

/// A batch whose selection is left empty (all analysed, or none owned) is refused.
pub fn batch_selection(selected: &[i64]) -> (r: Result<(), AppError>)
    ensures
        r is Ok <==> selected@.len() > 0,
        r matches Err(e) ==> e@ == AppErrorView::BadRequest("所选题目均已分析，无需批量分析"@),
{
    if selected.len() == 0 {
        Err(AppError::BadRequest(owned("所选题目均已分析，无需批量分析")))
    } else {
        Ok(())
    }
}

/// The integers among the items, in order.
pub open spec fn integer_items(items: Seq<JsonView>) -> Seq<i64>
    decreases items.len(),
{
    if items.len() == 0 {
        Seq::empty()
    } else {
        integer_items(items.drop_last()) + match i64_of(items.last()) {
            Some(x) => seq![x],
            None => Seq::empty(),
        }
    }
}

/// The question ids of a queued batch: the integers of its `ids` array
/// (none when there is no such array).
pub open spec fn payload_ids_spec(payload: JsonView) -> Seq<i64> {
    match array_of(member(payload, "ids"@)) {
        Some(a) => integer_items(a),
        None => Seq::empty(),
    }
}

/// Reads the question ids of a queued batch from its payload.
pub fn payload_ids(payload: &Json) -> (r: Vec<i64>)
    ensures
        r@ == payload_ids_spec(payload@),
{
    let mut out: Vec<i64> = Vec::new();
    match payload.get("ids") {
        Some(v) => match v.as_array() {
            Some(a) => {
                let ghost av = v@->Array_0;
                let mut i: usize = 0;
                while i < a.len()
                    invariant
                        i <= a@.len(),
                        a@.len() == av.len(),
                        forall|t: int| 0 <= t < a@.len() ==> #[trigger] a@[t]@ == av[t],
                        out@ == integer_items(av.take(i as int)),
                    decreases a@.len() - i,
                {
                    proof {
                        assert(av.take(i + 1).drop_last() =~= av.take(i as int));
                        assert(av.take(i + 1).last() == a@[i as int]@);
                    }
                    match a[i].as_i64() {
                        Some(x) => out.push(x),
                        None => {},
                    }
                    i += 1;
                }
                assert(av.take(av.len() as int) =~= av);
            },
            None => {},
        },
        None => {},
    }
    out
}

/// The event status of one analysed question: `done` or `failed`.
pub fn item_status(ok: bool) -> (r: &'static str)
    ensures
        r@ == if ok {
            "done"@
        } else {
            "failed"@
        },
{
    if ok {
        "done"
    } else {
        "failed"
    }
}

/// The final event status of a batch: `cancelled` or `done`.
pub fn batch_final_status(cancelled: bool) -> (r: &'static str)
    ensures
        r@ == if cancelled {
            "cancelled"@
        } else {
            "done"@
        },
{
    if cancelled {
        "cancelled"
    } else {
        "done"
    }
}

} // verus!
