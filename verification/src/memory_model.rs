//! Review scheduling rules around the FSRS memory model: the rating scale and
//! the interval decision (the FSRS computation itself works on floating point
//! numbers and is done by the caller with the `fsrs` crate).
use vstd::prelude::*;

use crate::text::str_eq;

verus! {

/// Minimum number of review logs before personal weights are fitted.
pub const MIN_FIT_LOGS: usize = 20;

/// Self-assessment to FSRS rating: forgot 1 (again), fuzzy 2 (hard),
/// remembered 3 (good); anything else has no rating.
pub open spec fn rating_spec(result: Seq<char>) -> Option<u32> {
    if result == "forgot"@ {
        Some(1)
    } else if result == "fuzzy"@ {
        Some(2)
    } else if result == "remembered"@ {
        Some(3)
    } else {
        None
    }
}

/// Maps a self-assessment to an FSRS rating; unknown grades give `None` (the
/// caller skips them).
pub fn fsrs_rating(result: &str) -> (r: Option<u32>)
    ensures
        r == rating_spec(result@),
{
    if str_eq(result, "forgot") {
        Some(1)
    } else if str_eq(result, "fuzzy") {
        Some(2)
    } else if str_eq(result, "remembered") {
        Some(3)
    } else {
        None
    }
}

/// `ceil(v / 2)`.
pub open spec fn ceil_half(v: int) -> int {
    -((-v) / 2)
}

/// `max(ceil(v / 2), 1)` saturated into `i32`.
pub open spec fn days_of(v: int) -> int {
    let c = if ceil_half(v) < 1 {
        1
    } else {
        ceil_half(v)
    };
    if c > i32::MAX {
        i32::MAX as int
    } else {
        c
    }
}

/// The interval after a review: forgot always resets to 1 day; otherwise the
/// FSRS interval (at least 1 day) when one could be computed; otherwise the
/// previous interval grown by 2.5 (remembered) or 1.5 (fuzzy), rounded up, at
/// least 1 day; 1 day for anything else.
pub open spec fn schedule_spec(fsrs_days: Option<i32>, fallback_interval: i32, result: Seq<char>) -> int {
    if result == "forgot"@ {
        1
    } else if fsrs_days is Some {
        if fsrs_days->0 < 1 {
            1
        } else {
            fsrs_days->0 as int
        }
    } else if result == "remembered"@ {
        days_of(5 * fallback_interval)
    } else if result == "fuzzy"@ {
        days_of(3 * fallback_interval)
    } else {
        1
    }
}

fn grow_days(v: i64) -> (r: i32)
    requires
        -20_000_000_000 <= v <= 20_000_000_000,
    ensures
        r == days_of(v as int),
{
    let c: i64 = if v >= 0 {
        (v + 1) / 2
    } else {
        v / 2
    };
    assert(c == ceil_half(v as int)) by (nonlinear_arith)
        requires
            c == (if v >= 0 {
                (v + 1) / 2
            } else {
                -((-v) / 2)
            }),
    ;
    let c = if c < 1 {
        1
    } else {
        c
    };
    if c > i32::MAX as i64 {
        i32::MAX
    } else {
        c as i32
    }
}

/// The scheduling decision of one review, given the FSRS interval when the
/// caller could compute one (`fsrs_days`).
pub fn schedule_from(fsrs_days: Option<i32>, fallback_interval: i32, fallback_result: &str) -> (r: i32)
    ensures
        r == schedule_spec(fsrs_days, fallback_interval, fallback_result@),
{
    if str_eq(fallback_result, "forgot") {
        return 1;
    }
    if let Some(days) = fsrs_days {
        return if days < 1 {
            1
        } else {
            days
        };
    }
    if str_eq(fallback_result, "remembered") {
        grow_days(5 * (fallback_interval as i64))
    } else if str_eq(fallback_result, "fuzzy") {
        grow_days(3 * (fallback_interval as i64))
    } else {
        1
    }
}

/// Every scheduled interval is at least one day, and forgetting always resets to one day.
pub proof fn lemma_schedule_positive(fsrs_days: Option<i32>, fallback_interval: i32, result: Seq<char>)
    ensures
        1 <= schedule_spec(fsrs_days, fallback_interval, result) <= i32::MAX,
        result == "forgot"@ ==> schedule_spec(fsrs_days, fallback_interval, result) == 1,
{
}

/// The reviews of question `q` among `(question, rating, seconds ago)` rows,
/// as `(rating, seconds ago)` in row order.
pub open spec fn logs_of(rows: Seq<(i64, i32, i64)>, q: i64) -> Seq<(i32, i64)>
    decreases rows.len(),
{
    if rows.len() == 0 {
        Seq::empty()
    } else {
        logs_of(rows.drop_last(), q) + if rows.last().0 == q {
            seq![(rows.last().1, rows.last().2)]
        } else {
            Seq::empty()
        }
    }
}

/// Whether a question has a row.
pub open spec fn has_row(rows: Seq<(i64, i32, i64)>, q: i64) -> bool {
    exists|k: int| 0 <= k < rows.len() && (#[trigger] rows[k]).0 == q
}

/// Groups are keyed by question in increasing order, one per question with
/// rows, each holding that question's reviews in row order.
pub open spec fn grouped(groups: Seq<(i64, Seq<(i32, i64)>)>, rows: Seq<(i64, i32, i64)>) -> bool {
    &&& forall|i: int, j: int| 0 <= i < j < groups.len() ==> (#[trigger] groups[i]).0 < (#[trigger] groups[j]).0
    &&& forall|q: i64| has_row(rows, q) <==> exists|i: int| 0 <= i < groups.len() && (#[trigger] groups[i]).0 == q
    &&& forall|i: int| 0 <= i < groups.len() ==> (#[trigger] groups[i]).1 == logs_of(rows, groups[i].0)
}

pub open spec fn groups_view(g: Seq<(i64, Vec<(i32, i64)>)>) -> Seq<(i64, Seq<(i32, i64)>)> {
    g.map_values(|e: (i64, Vec<(i32, i64)>)| (e.0, e.1@))
}

proof fn lemma_logs_of_absent(rows: Seq<(i64, i32, i64)>, q: i64)
    requires
        !has_row(rows, q),
    ensures
        logs_of(rows, q) == Seq::<(i32, i64)>::empty(),
    decreases rows.len(),
{
    if rows.len() > 0 {
        assert(!has_row(rows.drop_last(), q)) by {
            if has_row(rows.drop_last(), q) {
                let k = choose|k: int| 0 <= k < rows.drop_last().len() && (#[trigger] rows.drop_last()[k]).0 == q;
                assert(rows[k].0 == q);
            }
        }
        assert(rows.last().0 != q) by {
            if rows.last().0 == q {
                assert(rows[rows.len() - 1].0 == q);
            }
        }
        lemma_logs_of_absent(rows.drop_last(), q);
    }
}

/// Groups review rows by question (`(question, rating, seconds ago)` rows →
/// per question, in increasing question order, its reviews in row order).
pub fn group_review_logs(rows: &[(i64, i32, i64)]) -> (r: Vec<(i64, Vec<(i32, i64)>)>)
    ensures
        grouped(groups_view(r@), rows@),
{
    let mut groups: Vec<(i64, Vec<(i32, i64)>)> = Vec::new();
    let mut k: usize = 0;
    while k < rows.len()
        invariant
            k <= rows@.len(),
            grouped(groups_view(groups@), rows@.take(k as int)),
        decreases rows@.len() - k,
    {
        let (q, rating, ago) = rows[k];
        let ghost prev = rows@.take(k as int);
        let ghost next = rows@.take(k + 1);
        let ghost gv = groups_view(groups@);
        proof {
            assert(next.drop_last() =~= prev);
            assert(next.last() == (q, rating, ago));
            assert forall|qq: i64| #[trigger] logs_of(next, qq) == logs_of(prev, qq) + if qq == q {
                seq![(rating, ago)]
            } else {
                Seq::empty()
            } by {}
            assert forall|qq: i64| has_row(next, qq) <==> (has_row(prev, qq) || qq == q) by {
                if has_row(prev, qq) {
                    let j = choose|j: int| 0 <= j < prev.len() && (#[trigger] prev[j]).0 == qq;
                    assert(next[j] == prev[j]);
                }
                if qq == q {
                    assert(next[k as int].0 == q);
                }
                if has_row(next, qq) && qq != q {
                    let j = choose|j: int| 0 <= j < next.len() && (#[trigger] next[j]).0 == qq;
                    assert(j < k);
                    assert(prev[j] == next[j]);
                }
            }
        }
        let mut p: usize = 0;
        while p < groups.len() && groups[p].0 < q
            invariant
                p <= groups@.len(),
                gv == groups_view(groups@),
                forall|i: int| 0 <= i < p ==> (#[trigger] gv[i]).0 < q,
            decreases groups@.len() - p,
        {
            p += 1;
        }
        if p < groups.len() && groups[p].0 == q {
            let mut g = groups.remove(p);
            g.1.push((rating, ago));
            groups.insert(p, g);
            proof {
                let nv = groups_view(groups@);
                assert(nv =~= gv.update(p as int, (q, gv[p as int].1.push((rating, ago)))));
                assert forall|qq: i64| has_row(next, qq) <==> exists|i: int|
                    0 <= i < nv.len() && (#[trigger] nv[i]).0 == qq by {
                    if has_row(next, qq) {
                        if qq == q {
                            assert(nv[p as int].0 == qq);
                        } else {
                            let i = choose|i: int| 0 <= i < gv.len() && (#[trigger] gv[i]).0 == qq;
                            assert(nv[i].0 == qq);
                        }
                    }
                    if exists|i: int| 0 <= i < nv.len() && (#[trigger] nv[i]).0 == qq {
                        let i = choose|i: int| 0 <= i < nv.len() && (#[trigger] nv[i]).0 == qq;
                        assert(gv[i].0 == qq);
                    }
                }
                assert forall|i: int| 0 <= i < nv.len() implies (#[trigger] nv[i]).1 == logs_of(next, nv[i].0) by {
                    assert(logs_of(next, nv[i].0) == logs_of(prev, nv[i].0) + if nv[i].0 == q {
                        seq![(rating, ago)]
                    } else {
                        Seq::empty()
                    });
                    if i != p {
                        assert(gv[i].0 != q);
                        assert(logs_of(prev, nv[i].0) + Seq::<(i32, i64)>::empty() =~= logs_of(prev, nv[i].0));
                    }
                }
            }
        } else {
            let mut items: Vec<(i32, i64)> = Vec::new();
            items.push((rating, ago));
            groups.insert(p, (q, items));
            proof {
                let nv = groups_view(groups@);
                assert(nv =~= gv.insert(p as int, (q, seq![(rating, ago)])));
                assert(!has_row(prev, q)) by {
                    if has_row(prev, q) {
                        let i = choose|i: int| 0 <= i < gv.len() && (#[trigger] gv[i]).0 == q;
                        if i < p {
                            assert(gv[i].0 < q);
                        } else {
                            assert(gv[p as int].0 <= gv[i].0);
                        }
                    }
                }
                lemma_logs_of_absent(prev, q);
                assert(logs_of(next, q) =~= seq![(rating, ago)]);
                assert forall|i: int, j: int| 0 <= i < j < nv.len() implies (#[trigger] nv[i]).0 < (#[trigger] nv[j]).0 by {
                    if j < p {
                        assert(nv[i] == gv[i] && nv[j] == gv[j]);
                    } else if j == p {
                        assert(nv[i] == gv[i]);
                    } else if i < p {
                        assert(nv[i] == gv[i] && nv[j] == gv[j - 1]);
                        if p < gv.len() {
                            assert(gv[p as int].0 > q);
                        }
                    } else if i == p {
                        assert(nv[j] == gv[j - 1]);
                        assert(gv[p as int].0 > q);
                        assert(gv[p as int].0 <= gv[j - 1].0);
                    } else {
                        assert(nv[i] == gv[i - 1] && nv[j] == gv[j - 1]);
                    }
                }
                assert forall|qq: i64| has_row(next, qq) <==> exists|i: int|
                    0 <= i < nv.len() && (#[trigger] nv[i]).0 == qq by {
                    if has_row(next, qq) {
                        if qq == q {
                            assert(nv[p as int].0 == qq);
                        } else {
                            let i = choose|i: int| 0 <= i < gv.len() && (#[trigger] gv[i]).0 == qq;
                            if i < p {
                                assert(nv[i].0 == qq);
                            } else {
                                assert(nv[i + 1].0 == qq);
                            }
                        }
                    }
                    if exists|i: int| 0 <= i < nv.len() && (#[trigger] nv[i]).0 == qq {
                        let i = choose|i: int| 0 <= i < nv.len() && (#[trigger] nv[i]).0 == qq;
                        if i < p {
                            assert(gv[i].0 == qq);
                        } else if i > p {
                            assert(gv[i - 1].0 == qq);
                        }
                    }
                }
                assert forall|i: int| 0 <= i < nv.len() implies (#[trigger] nv[i]).1 == logs_of(next, nv[i].0) by {
                    if i != p {
                        let gi = if i < p {
                            i
                        } else {
                            i - 1
                        };
                        assert(nv[i] == gv[gi]);
                        assert(gv[gi].0 != q) by {
                            if gi < p {
                                assert(gv[gi].0 < q);
                            } else {
                                assert(gv[p as int].0 <= gv[gi].0);
                            }
                        }
                        assert(logs_of(next, nv[i].0) =~= logs_of(prev, nv[i].0));
                    }
                }
            }
        }
        k += 1;
    }
    assert(rows@.take(rows@.len() as int) =~= rows@);
    groups
}

} // verus!
