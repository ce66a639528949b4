//! Calendar feed (iCalendar): text escaping, line folding, the per-day
//! aggregation of due reviews and the rendering of the feed.
//!
//! Days are day numbers counted from the common era (January 1 of year 1 is
//! day 1); the caller converts timestamps to local days.
use vstd::prelude::*;

use crate::error::{AppError, AppErrorView};
use crate::json::{member, str_of, Json};
use crate::text::{bytes_from, bytes_len, char_bytes, chars_of, extend_chars, join, opt_view, utf8_len, push_signed_decimal, signed_decimal, str_eq, string_of, sub_chars};

verus! {

/// The escaped form of one character in an iCalendar TEXT value.
pub open spec fn escape_char(c: char) -> Seq<char> {
    if c == '\r' {
        Seq::empty()
    } else if c == '\\' {
        seq!['\\', '\\']
    } else if c == ';' {
        seq!['\\', ';']
    } else if c == ',' {
        seq!['\\', ',']
    } else if c == '\n' {
        seq!['\\', 'n']
    } else {
        seq![c]
    }
}

/// iCalendar TEXT escaping: carriage returns dropped, backslash, semicolon and
/// comma prefixed by a backslash, line breaks written as `\n`.
pub open spec fn escape_spec(s: Seq<char>) -> Seq<char>
    decreases s.len(),
{
    if s.len() == 0 {
        Seq::empty()
    } else {
        escape_spec(s.drop_last()) + escape_char(s.last())
    }
}

/// Escapes a text value for the calendar feed.
pub fn escape(s: &str) -> (r: String)
    ensures
        r@ == escape_spec(s@),
{
    let c = chars_of(s);
    let mut out: Vec<char> = Vec::new();
    let mut i: usize = 0;
    while i < c.len()
        invariant
            i <= c@.len(),
            out@ == escape_spec(c@.take(i as int)),
        decreases c@.len() - i,
    {
        proof {
            assert(c@.take(i + 1).drop_last() == c@.take(i as int));
        }
        let ch = c[i];
        let ghost before = out@;
        if ch == '\r' {
        } else if ch == '\\' {
            out.push('\\');
            out.push('\\');
        } else if ch == ';' {
            out.push('\\');
            out.push(';');
        } else if ch == ',' {
            out.push('\\');
            out.push(',');
        } else if ch == '\n' {
            out.push('\\');
            out.push('n');
        } else {
            out.push(ch);
        }
        assert(out@ =~= before + escape_char(ch));
        i += 1;
    }
    assert(c@.take(c@.len() as int) == c@);
    string_of(&out)
}

/// Number of leading characters that fit in `budget` bytes.
pub open spec fn fit_count(s: Seq<char>, budget: int) -> nat
    decreases s.len(),
{
    if s.len() == 0 || utf8_len(s[0]) > budget {
        0
    } else {
        1 + fit_count(s.skip(1), budget - utf8_len(s[0]))
    }
}

/// At most all the characters fit.
pub proof fn lemma_fit_count_bounds(s: Seq<char>, budget: int)
    ensures
        fit_count(s, budget) <= s.len(),
        s.len() > 0 && budget >= 4 ==> fit_count(s, budget) >= 1,
    decreases s.len(),
{
    if s.len() > 0 && utf8_len(s[0]) <= budget {
        lemma_fit_count_bounds(s.skip(1), budget - utf8_len(s[0]));
    }
}

/// The rest `s` of a content line folded, when the current physical line has
/// `budget` bytes left: as many whole characters as fit, then a line break and
/// a space, and the rest on lines of 74 bytes after the space.
pub open spec fn fold_from(s: Seq<char>, budget: int) -> Seq<char>
    decreases s.len(),
{
    if bytes_len(s) <= budget {
        s
    } else {
        let k = fit_count(s, budget);
        proof {
            lemma_fit_count_bounds(s, budget);
        }
        if k == 0 {
            Seq::empty()
        } else {
            s.take(k as int) + "\r\n "@ + fold_from(s.skip(k as int), 74)
        }
    }
}

/// RFC 5545 line folding: physical lines of at most 75 bytes, continuation
/// lines starting with a space, characters never split.
pub open spec fn fold_spec(line: Seq<char>) -> Seq<char> {
    fold_from(line, 75)
}

/// RFC 5545 unfolding: every line break followed by a space is removed.
pub open spec fn unfold_spec(t: Seq<char>) -> Seq<char>
    decreases t.len(),
{
    if t.len() == 0 {
        Seq::empty()
    } else if t.len() >= 3 && t[0] == '\r' && t[1] == '\n' && t[2] == ' ' {
        unfold_spec(t.skip(3))
    } else {
        seq![t[0]] + unfold_spec(t.skip(1))
    }
}

/// The text has no carriage return.
pub open spec fn no_cr(s: Seq<char>) -> bool {
    forall|i: int| 0 <= i < s.len() ==> s[i] != '\r'
}

proof fn lemma_unfold_plain(x: Seq<char>)
    requires
        no_cr(x),
    ensures
        unfold_spec(x) == x,
    decreases x.len(),
{
    if x.len() > 0 {
        lemma_unfold_plain(x.skip(1));
        assert(x =~= seq![x[0]] + x.skip(1));
    }
}

proof fn lemma_unfold_break(x: Seq<char>, y: Seq<char>)
    requires
        no_cr(x),
    ensures
        unfold_spec(x + "\r\n "@ + y) == x + unfold_spec(y),
    decreases x.len(),
{
    reveal_strlit("\r\n ");
    let t = x + "\r\n "@ + y;
    if x.len() == 0 {
        assert(t =~= "\r\n "@ + y);
        assert(t.skip(3) =~= y);
        assert(x + unfold_spec(y) =~= unfold_spec(y));
    } else {
        lemma_unfold_break(x.skip(1), y);
        assert(t.skip(1) =~= x.skip(1) + "\r\n "@ + y);
        assert(x =~= seq![x[0]] + x.skip(1));
        assert(x + unfold_spec(y) =~= seq![x[0]] + (x.skip(1) + unfold_spec(y)));
    }
}

proof fn lemma_unfold_fold_from(s: Seq<char>, budget: int)
    requires
        no_cr(s),
        budget >= 4,
    ensures
        unfold_spec(fold_from(s, budget)) == s,
    decreases s.len(),
{
    if bytes_len(s) <= budget {
        lemma_unfold_plain(s);
    } else {
        let k = fit_count(s, budget);
        lemma_fit_count_bounds(s, budget);
        assert(s.len() > 0);
        let rest = s.skip(k as int);
        lemma_unfold_fold_from(rest, 74);
        assert(no_cr(s.take(k as int)));
        lemma_unfold_break(s.take(k as int), fold_from(rest, 74));
        assert(s.take(k as int) + rest =~= s);
    }
}

/// Escaped text never contains a carriage return.
pub proof fn lemma_escape_no_cr(s: Seq<char>)
    ensures
        no_cr(escape_spec(s)),
    decreases s.len(),
{
    if s.len() > 0 {
        lemma_escape_no_cr(s.drop_last());
        let e = escape_spec(s);
        let p = escape_spec(s.drop_last());
        let c = escape_char(s.last());
        assert(e == p + c);
        assert forall|i: int| 0 <= i < e.len() implies e[i] != '\r' by {
            if i >= p.len() {
                assert(e[i] == c[i - p.len()]);
            } else {
                assert(e[i] == p[i]);
            }
        }
    }
}

/// Unfolding a folded line gives the line back (for lines without carriage
/// returns, which escaped text never has).
pub proof fn lemma_unfold_fold(line: Seq<char>)
    requires
        no_cr(line),
    ensures
        unfold_spec(fold_spec(line)) == line,
{
    lemma_unfold_fold_from(line, 75);
}

fn fit_from(c: &Vec<char>, pos: usize, budget: u128) -> (k: usize)
    requires
        pos <= c@.len(),
    ensures
        k == fit_count(c@.skip(pos as int), budget as int),
{
    let mut left = budget;
    let mut j: usize = pos;
    while j < c.len() && char_bytes(c[j]) <= left
        invariant
            pos <= j <= c@.len(),
            left <= budget,
            fit_count(c@.skip(pos as int), budget as int) == (j - pos) + fit_count(c@.skip(j as int), left as int),
        decreases c@.len() - j,
    {
        assert(c@.skip(j as int).skip(1) =~= c@.skip(j + 1));
        assert(c@.skip(j as int)[0] == c@[j as int]);
        left = left - char_bytes(c[j]);
        j += 1;
    }
    proof {
        if j < c@.len() {
            assert(c@.skip(j as int)[0] == c@[j as int]);
        }
    }
    j - pos
}

/// Folds a content line held as characters.
fn fold_chars(c: &Vec<char>) -> (r: Vec<char>)
    ensures
        r@ == fold_spec(c@),
{
    let mut out: Vec<char> = Vec::new();
    let mut pos: usize = 0;
    let mut budget: u128 = 75;
    assert(c@.skip(0) =~= c@);
    while pos < c.len()
        invariant
            pos <= c@.len(),
            budget == 75 || budget == 74,
            out@ + fold_from(c@.skip(pos as int), budget as int) == fold_spec(c@),
        decreases c@.len() - pos,
    {
        let ghost rest = c@.skip(pos as int);
        let rem = bytes_from(c, pos);
        if rem <= budget {
            let mut tail = sub_chars(c, pos, c.len());
            assert(tail@ =~= rest);
            out.append(&mut tail);
            pos = c.len();
        } else {
            let k = fit_from(c, pos, budget);
            proof {
                lemma_fit_count_bounds(rest, budget as int);
            }
            let mut piece = sub_chars(c, pos, pos + k);
            assert(piece@ =~= rest.take(k as int));
            assert(rest.skip(k as int) =~= c@.skip(pos + k));
            out.append(&mut piece);
            extend_chars(&mut out, "\r\n ");
            pos = pos + k;
            budget = 74;
        }
    }
    assert(c@.skip(pos as int).len() == 0);
    assert(bytes_len(c@.skip(pos as int)) == 0);
    assert(out@ + c@.skip(pos as int) =~= out@);
    out
}

/// Folds a content line (RFC 5545 section 3.1).
pub fn fold_ical(line: &str) -> (r: String)
    ensures
        r@ == fold_spec(line@),
{
    string_of(&fold_chars(&chars_of(line)))
}

/// The calendar day of a due review: overdue reviews count for today.
pub open spec fn review_day(day: i32, today: i32) -> i32 {
    if day < today {
        today
    } else {
        day
    }
}

/// Number of due reviews that fall on `day`.
pub open spec fn due_count(due: Seq<i32>, today: i32, day: i32) -> nat
    decreases due.len(),
{
    if due.len() == 0 {
        0
    } else {
        due_count(due.drop_last(), today, day) + if review_day(due.last(), today) == day {
            1nat
        } else {
            0nat
        }
    }
}

/// The per-day review counts: days in increasing order, each with the number
/// of due reviews on it (at least one), and every due review counted.
pub open spec fn per_day_spec(due: Seq<i32>, today: i32, r: Seq<(i32, i64)>) -> bool {
    &&& forall|a: int, b: int| 0 <= a < b < r.len() ==> #[trigger] r[a].0 < #[trigger] r[b].0
    &&& forall|j: int| 0 <= j < r.len() ==> (#[trigger] r[j]).1 == due_count(due, today, r[j].0) && r[j].1 > 0
    &&& forall|i: int|
        0 <= i < due.len() ==> exists|j: int| 0 <= j < r.len() && (#[trigger] r[j]).0 == review_day(#[trigger] due[i], today)
}

/// Days in strictly increasing order.
pub open spec fn sorted_days(r: Seq<(i32, i64)>) -> bool {
    forall|a: int, b: int| 0 <= a < b < r.len() ==> #[trigger] r[a].0 < #[trigger] r[b].0
}

/// The day has an entry.
pub open spec fn day_listed(r: Seq<(i32, i64)>, day: i32) -> bool {
    exists|j: int| 0 <= j < r.len() && (#[trigger] r[j]).0 == day
}

/// `r` tallies `due` exactly, with counts at most `bound`.
spec fn tally_ok(due: Seq<i32>, today: i32, r: Seq<(i32, i64)>, bound: int) -> bool {
    &&& sorted_days(r)
    &&& forall|j: int|
        0 <= j < r.len() ==> (#[trigger] r[j]).1 == due_count(due, today, r[j].0) && 0 < r[j].1 <= bound
    &&& forall|k: i32| !day_listed(r, k) ==> #[trigger] due_count(due, today, k) == 0
    &&& forall|t: int| 0 <= t < due.len() ==> day_listed(r, review_day(#[trigger] due[t], today))
}

proof fn lemma_due_count_push(pre: Seq<i32>, x: i32, today: i32)
    ensures
        forall|k: i32| #[trigger] due_count(pre.push(x), today, k) == due_count(pre, today, k) + if review_day(
            x,
            today,
        ) == k {
            1nat
        } else {
            0nat
        },
{
    assert(pre.push(x).drop_last() =~= pre);
}

/// Counting one more review on a listed day.
proof fn lemma_tally_bump(pre: Seq<i32>, x: i32, today: i32, r: Seq<(i32, i64)>, j: int, bound: int)
    requires
        tally_ok(pre, today, r, bound),
        0 <= j < r.len(),
        r[j].0 == review_day(x, today),
        r[j].1 < i64::MAX,
    ensures
        tally_ok(pre.push(x), today, r.update(j, (r[j].0, (r[j].1 + 1) as i64)), bound + 1),
{
    let post = pre.push(x);
    let nr = r.update(j, (r[j].0, (r[j].1 + 1) as i64));
    lemma_due_count_push(pre, x, today);
    assert forall|a: int, b: int| 0 <= a < b < nr.len() implies #[trigger] nr[a].0 < #[trigger] nr[b].0 by {
        assert(nr[a].0 == r[a].0 && nr[b].0 == r[b].0);
    }
    assert forall|k: i32| !day_listed(nr, k) implies #[trigger] due_count(post, today, k) == 0 by {
        if day_listed(r, k) {
            let m = choose|m: int| 0 <= m < r.len() && (#[trigger] r[m]).0 == k;
            assert(nr[m].0 == k);
        }
    }
    assert forall|t: int| 0 <= t < post.len() implies day_listed(nr, review_day(#[trigger] post[t], today)) by {
        if t < pre.len() {
            assert(post[t] == pre[t]);
            let m = choose|m: int| 0 <= m < r.len() && (#[trigger] r[m]).0 == review_day(pre[t], today);
            assert(nr[m].0 == r[m].0);
        } else {
            assert(nr[j].0 == review_day(x, today));
        }
    }
}

/// Listing a new day between the smaller and the larger ones.
proof fn lemma_tally_insert(pre: Seq<i32>, x: i32, today: i32, r: Seq<(i32, i64)>, j: int, bound: int)
    requires
        tally_ok(pre, today, r, bound),
        bound >= 0,
        0 <= j <= r.len(),
        forall|a: int| 0 <= a < j ==> (#[trigger] r[a]).0 < review_day(x, today),
        j < r.len() ==> r[j].0 > review_day(x, today),
    ensures
        tally_ok(pre.push(x), today, r.insert(j, (review_day(x, today), 1i64)), bound + 1),
{
    let d = review_day(x, today);
    let post = pre.push(x);
    let nr = r.insert(j, (d, 1i64));
    lemma_due_count_push(pre, x, today);
    assert forall|a: int| j <= a < r.len() implies d < (#[trigger] r[a]).0 by {
        if a > j {
            assert(r[j].0 < r[a].0);
        }
    }
    assert(!day_listed(r, d)) by {
        if day_listed(r, d) {
            let m = choose|m: int| 0 <= m < r.len() && (#[trigger] r[m]).0 == d;
        }
    }
    assert forall|a: int, b: int| 0 <= a < b < nr.len() implies #[trigger] nr[a].0 < #[trigger] nr[b].0 by {
        let a0 = if a < j { a } else { a - 1 };
        let b0 = if b < j { b } else { b - 1 };
        if a != j && b != j {
            assert(nr[a] == r[a0] && nr[b] == r[b0]);
        } else if a == j {
            assert(nr[b] == r[b0]);
        } else {
            assert(nr[a] == r[a0]);
        }
    }
    assert forall|m: int| 0 <= m < nr.len() implies (#[trigger] nr[m]).1 == due_count(post, today, nr[m].0) && 0
        < nr[m].1 <= bound + 1 by {
        if m < j {
            assert(nr[m] == r[m]);
        } else if m > j {
            assert(nr[m] == r[m - 1]);
        }
    }
    assert forall|k: i32| !day_listed(nr, k) implies #[trigger] due_count(post, today, k) == 0 by {
        if day_listed(r, k) {
            let m = choose|m: int| 0 <= m < r.len() && (#[trigger] r[m]).0 == k;
            if m < j {
                assert(nr[m].0 == k);
            } else {
                assert(nr[m + 1].0 == k);
            }
        }
        assert(nr[j].0 == d);
    }
    assert forall|t: int| 0 <= t < post.len() implies day_listed(nr, review_day(#[trigger] post[t], today)) by {
        if t < pre.len() {
            assert(post[t] == pre[t]);
            let m = choose|m: int| 0 <= m < r.len() && (#[trigger] r[m]).0 == review_day(pre[t], today);
            if m < j {
                assert(nr[m].0 == r[m].0);
            } else {
                assert(nr[m + 1].0 == r[m].0);
            }
        } else {
            assert(nr[j].0 == d);
        }
    }
}

proof fn lemma_sorted_same_days(a: Seq<(i32, i64)>, b: Seq<(i32, i64)>)
    requires
        sorted_days(a),
        sorted_days(b),
        forall|d: i32| day_listed(a, d) <==> day_listed(b, d),
    ensures
        a.len() == b.len(),
        forall|j: int| 0 <= j < a.len() ==> (#[trigger] a[j]).0 == b[j].0,
    decreases a.len(),
{
    if a.len() == 0 {
        if b.len() > 0 {
            assert(day_listed(b, b[0].0));
        }
    } else if b.len() == 0 {
        assert(day_listed(a, a[0].0));
    } else {
        assert(day_listed(a, a[0].0));
        assert(day_listed(b, b[0].0));
        let i = choose|i: int| 0 <= i < a.len() && (#[trigger] a[i]).0 == b[0].0;
        let j = choose|j: int| 0 <= j < b.len() && (#[trigger] b[j]).0 == a[0].0;
        if i > 0 {
            assert(a[0].0 < a[i].0);
        }
        if j > 0 {
            assert(b[0].0 < b[j].0);
        }
        assert(a[0].0 == b[0].0);
        let a1 = a.skip(1);
        let b1 = b.skip(1);
        assert(sorted_days(a1)) by {
            assert forall|x: int, y: int| 0 <= x < y < a1.len() implies #[trigger] a1[x].0 < #[trigger] a1[y].0 by {
                assert(a1[x] == a[x + 1] && a1[y] == a[y + 1]);
            }
        }
        assert(sorted_days(b1)) by {
            assert forall|x: int, y: int| 0 <= x < y < b1.len() implies #[trigger] b1[x].0 < #[trigger] b1[y].0 by {
                assert(b1[x] == b[x + 1] && b1[y] == b[y + 1]);
            }
        }
        assert forall|d: i32| day_listed(a1, d) <==> day_listed(b1, d) by {
            if day_listed(a1, d) {
                let x = choose|x: int| 0 <= x < a1.len() && (#[trigger] a1[x]).0 == d;
                assert(a[x + 1].0 == d);
                assert(day_listed(a, d));
                let y = choose|y: int| 0 <= y < b.len() && (#[trigger] b[y]).0 == d;
                assert(a[0].0 < a[x + 1].0);
                assert(y != 0);
                assert(b1[y - 1] == b[y]);
            }
            if day_listed(b1, d) {
                let y = choose|y: int| 0 <= y < b1.len() && (#[trigger] b1[y]).0 == d;
                assert(b[y + 1].0 == d);
                assert(day_listed(b, d));
                let x = choose|x: int| 0 <= x < a.len() && (#[trigger] a[x]).0 == d;
                assert(b[0].0 < b[y + 1].0);
                assert(x != 0);
                assert(a1[x - 1] == a[x]);
            }
        }
        lemma_sorted_same_days(a1, b1);
        assert forall|k: int| 0 <= k < a.len() implies (#[trigger] a[k]).0 == b[k].0 by {
            if k > 0 {
                assert(a1[k - 1] == a[k] && b1[k - 1] == b[k]);
            }
        }
    }
}

/// The per-day counts are determined by the due reviews: any two lists that
/// meet [`per_day_spec`] are equal.
pub proof fn lemma_per_day_unique(due: Seq<i32>, today: i32, r1: Seq<(i32, i64)>, r2: Seq<(i32, i64)>)
    requires
        per_day_spec(due, today, r1),
        per_day_spec(due, today, r2),
    ensures
        r1 == r2,
{
    assert forall|d: i32| day_listed(r1, d) <==> day_listed(r2, d) by {
        if day_listed(r1, d) {
            let j = choose|j: int| 0 <= j < r1.len() && (#[trigger] r1[j]).0 == d;
            lemma_due_count_witness(due, today, d);
            let t = choose|t: int| 0 <= t < due.len() && review_day(due[t], today) == d;
            let k = choose|k: int| 0 <= k < r2.len() && (#[trigger] r2[k]).0 == review_day(due[t], today);
        }
        if day_listed(r2, d) {
            let j = choose|j: int| 0 <= j < r2.len() && (#[trigger] r2[j]).0 == d;
            lemma_due_count_witness(due, today, d);
            let t = choose|t: int| 0 <= t < due.len() && review_day(due[t], today) == d;
            let k = choose|k: int| 0 <= k < r1.len() && (#[trigger] r1[k]).0 == review_day(due[t], today);
        }
    }
    assert(sorted_days(r1));
    assert(sorted_days(r2));
    lemma_sorted_same_days(r1, r2);
    assert forall|j: int| 0 <= j < r1.len() implies #[trigger] r1[j] == r2[j] by {
        assert(r1[j].1 == due_count(due, today, r1[j].0));
        assert(r2[j].1 == due_count(due, today, r2[j].0));
    }
    assert(r1 =~= r2);
}

/// A day with a positive count is the day of some due review.
proof fn lemma_due_count_witness(due: Seq<i32>, today: i32, d: i32)
    ensures
        due_count(due, today, d) > 0 ==> exists|t: int| 0 <= t < due.len() && review_day(due[t], today) == d,
    decreases due.len(),
{
    if due.len() > 0 {
        lemma_due_count_witness(due.drop_last(), today, d);
        if due_count(due.drop_last(), today, d) > 0 {
            let t = choose|t: int| 0 <= t < due.drop_last().len() && review_day(due.drop_last()[t], today) == d;
            assert(due[t] == due.drop_last()[t]);
        } else if due_count(due, today, d) > 0 {
            assert(review_day(due[due.len() - 1], today) == d);
        }
    }
}

/// Aggregates due reviews per calendar day (overdue ones on today), in day order.
pub fn review_days(due: &[i32], today: i32) -> (r: Vec<(i32, i64)>)
    requires
        due@.len() <= i64::MAX,
    ensures
        per_day_spec(due@, today, r@),
{
    let mut r: Vec<(i32, i64)> = Vec::new();
    let mut i: usize = 0;
    while i < due.len()
        invariant
            i <= due@.len(),
            due@.len() <= i64::MAX,
            tally_ok(due@.take(i as int), today, r@, i as int),
        decreases due@.len() - i,
    {
        let x = due[i];
        let d = if x < today {
            today
        } else {
            x
        };
        let ghost pre = due@.take(i as int);
        assert(due@.take(i + 1) =~= pre.push(x));
        let mut j: usize = 0;
        while j < r.len() && r[j].0 < d
            invariant
                j <= r@.len(),
                forall|a: int| 0 <= a < j ==> (#[trigger] r@[a]).0 < d,
            decreases r@.len() - j,
        {
            j += 1;
        }
        if j < r.len() && r[j].0 == d {
            let c = r[j].1;
            proof {
                lemma_tally_bump(pre, x, today, r@, j as int, i as int);
            }
            r.set(j, (d, c + 1));
        } else {
            proof {
                lemma_tally_insert(pre, x, today, r@, j as int, i as int);
            }
            r.insert(j, (d, 1));
        }
        i += 1;
    }
    assert(due@.take(due@.len() as int) =~= due@);
    proof {
        let dv = due@;
        assert forall|t: int| 0 <= t < dv.len() implies exists|j: int|
            0 <= j < r@.len() && (#[trigger] r@[j]).0 == review_day(#[trigger] dv[t], today) by {
            assert(day_listed(r@, review_day(dv[t], today)));
        }
    }
    r
}

/// What chrono prints for the date of a day number with the format `%Y%m%d`;
/// `None` when chrono has no date for that number.
pub uninterp spec fn day_text(day: i32) -> Option<Seq<char>>;

/// `NaiveDate::from_num_days_from_ce_opt` and `format("%Y%m%d")`: the date
/// text of a day number, named by [`day_text`].
#[verifier::external_body]
fn format_day(day: i32) -> (r: Option<String>)
    ensures
        day_text(day) == match r {
            Some(s) => Some(s@),
            None => None,
        },
{
    match chrono::NaiveDate::from_num_days_from_ce_opt(day) {
        Some(d) => Some(d.format("%Y%m%d").to_string()),
        None => None,
    }
}

/// An interview round on the calendar.
#[derive(Debug, Clone, PartialEq)]
pub struct IcsRound {
    pub id: i64,
    pub name: String,
    /// The round's date as a day number.
    pub day: i32,
    /// pending / pass / fail
    pub passed: String,
    pub company: Option<String>,
    pub position: Option<String>,
    /// Interview form (onsite, video, ...).
    pub form: Option<String>,
}

pub struct IcsRoundV {
    pub id: i64,
    pub name: Seq<char>,
    pub day: i32,
    pub passed: Seq<char>,
    pub company: Option<Seq<char>>,
    pub position: Option<Seq<char>>,
    pub form: Option<Seq<char>>,
}

impl View for IcsRound {
    type V = IcsRoundV;

    open spec fn view(&self) -> IcsRoundV {
        IcsRoundV {
            id: self.id,
            name: self.name@,
            day: self.day,
            passed: self.passed@,
            company: opt_view(self.company),
            position: opt_view(self.position),
            form: opt_view(self.form),
        }
    }
}

/// A content line: folded, then CRLF.
pub open spec fn ics_line(s: Seq<char>) -> Seq<char> {
    fold_spec(s) + "\r\n"@
}

/// The calendar header.
pub open spec fn calendar_head() -> Seq<char> {
    ics_line("BEGIN:VCALENDAR"@) + ics_line("VERSION:2.0"@) + ics_line("PRODID:-//Beview//CN"@) + ics_line(
        "CALSCALE:GREGORIAN"@,
    ) + ics_line("METHOD:PUBLISH"@) + ics_line("X-WR-CALNAME:"@ + escape_spec("求职工作台"@))
}

/// The outcome note of a round title.
pub open spec fn round_status(passed: Seq<char>) -> Seq<char> {
    if passed == "pass"@ {
        " · 已通过"@
    } else if passed == "fail"@ {
        " · 未通过"@
    } else {
        ""@
    }
}

/// `company·position·round` (a default company name, the position only when
/// not empty) and the outcome note.
pub open spec fn round_summary(r: IcsRoundV) -> Seq<char> {
    let company = match r.company {
        Some(c) => c,
        None => "未命名公司"@,
    };
    let parts = match r.position {
        Some(p) => if p.len() > 0 {
            seq![company, p, r.name]
        } else {
            seq![company, r.name]
        },
        None => seq![company, r.name],
    };
    join(parts, "·"@) + round_status(r.passed)
}

/// A round's calendar title is its undecided title with the outcome
/// appended: ` · 已通过` for a passed round, ` · 未通过` for a failed one, and
/// nothing for any other state.
pub proof fn lemma_round_title_outcome(r: IcsRoundV, undecided: Seq<char>)
    requires
        undecided != "pass"@,
        undecided != "fail"@,
    ensures
        round_summary(r) == round_summary(IcsRoundV { passed: undecided, ..r }) + if r.passed == "pass"@ {
            " · 已通过"@
        } else if r.passed == "fail"@ {
            " · 未通过"@
        } else {
            Seq::<char>::empty()
        },
{
    let p = IcsRoundV { passed: undecided, ..r };
    assert(round_status(undecided) == ""@);
    reveal_strlit("");
    assert(""@ =~= Seq::<char>::empty());
    assert(round_summary(p) =~= round_summary(p) + Seq::<char>::empty());
}

/// The all-day event of a round, given the texts of its day and the next day.
pub open spec fn round_event(r: IcsRoundV, stamp: Seq<char>, start: Seq<char>, end: Seq<char>) -> Seq<char> {
    ics_line("BEGIN:VEVENT"@) + ics_line("UID:round-"@ + signed_decimal(r.id as int) + "@beview"@) + ics_line(
        "DTSTAMP:"@ + stamp,
    ) + ics_line("DTSTART;VALUE=DATE:"@ + start) + ics_line("DTEND;VALUE=DATE:"@ + end) + ics_line(
        "SUMMARY:"@ + escape_spec(round_summary(r)),
    ) + (match r.form {
        Some(f) => if f.len() > 0 {
            ics_line("DESCRIPTION:"@ + escape_spec("形式："@ + f))
        } else {
            Seq::empty()
        },
        None => Seq::empty(),
    }) + ics_line("END:VEVENT"@)
}

/// The all-day event of the reviews due on a day.
pub open spec fn review_event(count: i64, stamp: Seq<char>, start: Seq<char>, end: Seq<char>) -> Seq<char> {
    ics_line("BEGIN:VEVENT"@) + ics_line("UID:review-"@ + start + "@beview"@) + ics_line("DTSTAMP:"@ + stamp)
        + ics_line("DTSTART;VALUE=DATE:"@ + start) + ics_line("DTEND;VALUE=DATE:"@ + end) + ics_line(
        "SUMMARY:复习 "@ + signed_decimal(count as int) + " 张卡到期"@,
    ) + ics_line("END:VEVENT"@)
}

/// The texts of a day and of the next day.
pub open spec fn day_span(day: i32) -> Option<(Seq<char>, Seq<char>)> {
    if day == i32::MAX {
        None
    } else {
        match (day_text(day), day_text((day + 1) as i32)) {
            (Some(a), Some(b)) => Some((a, b)),
            _ => None,
        }
    }
}

/// The events of the rounds; `None` when a day has no date text.
pub open spec fn rounds_text(rs: Seq<IcsRoundV>, stamp: Seq<char>) -> Option<Seq<char>>
    decreases rs.len(),
{
    if rs.len() == 0 {
        Some(Seq::empty())
    } else {
        match (rounds_text(rs.drop_last(), stamp), day_span(rs.last().day)) {
            (Some(t), Some((a, b))) => Some(t + round_event(rs.last(), stamp, a, b)),
            _ => None,
        }
    }
}

/// The events of the per-day review counts; `None` when a day has no date text.
pub open spec fn reviews_text(ds: Seq<(i32, i64)>, stamp: Seq<char>) -> Option<Seq<char>>
    decreases ds.len(),
{
    if ds.len() == 0 {
        Some(Seq::empty())
    } else {
        match (reviews_text(ds.drop_last(), stamp), day_span(ds.last().0)) {
            (Some(t), Some((a, b))) => Some(t + review_event(ds.last().1, stamp, a, b)),
            _ => None,
        }
    }
}

/// The calendar feed: header, round events, review events, footer.
pub open spec fn calendar_spec(rs: Seq<IcsRoundV>, ds: Seq<(i32, i64)>, stamp: Seq<char>) -> Option<Seq<char>> {
    match (rounds_text(rs, stamp), reviews_text(ds, stamp)) {
        (Some(a), Some(b)) => Some(calendar_head() + a + b + ics_line("END:VCALENDAR"@)),
        _ => None,
    }
}

/// Appends a folded content line and CRLF.
fn push_line(out: &mut Vec<char>, line: Vec<char>)
    ensures
        final(out)@ == old(out)@ + ics_line(line@),
{
    let mut f = fold_chars(&line);
    out.append(&mut f);
    extend_chars(out, "\r\n");
}

/// A buffer holding `prefix` followed by `rest`.
fn cat(prefix: &str, rest: &Vec<char>) -> (r: Vec<char>)
    ensures
        r@ == prefix@ + rest@,
{
    let mut r = chars_of(prefix);
    let mut t = rest.clone();
    r.append(&mut t);
    r
}

/// The texts of a day and of the next day.
fn day_span_of(day: i32) -> (r: Option<(Vec<char>, Vec<char>)>)
    ensures
        day_span(day) == match r {
            Some((a, b)) => Some((a@, b@)),
            None => None,
        },
{
    if day == i32::MAX {
        return None;
    }
    match (format_day(day), format_day(day + 1)) {
        (Some(a), Some(b)) => Some((chars_of(a.as_str()), chars_of(b.as_str()))),
        _ => None,
    }
}

fn round_summary_of(r: &IcsRound) -> (s: Vec<char>)
    ensures
        s@ == round_summary(r@),
{
    let company = match &r.company {
        Some(c) => chars_of(c.as_str()),
        None => chars_of("未命名公司"),
    };
    let mut s = company;
    match &r.position {
        Some(p) => {
            if chars_of(p.as_str()).len() > 0 {
                extend_chars(&mut s, "·");
                extend_chars(&mut s, p.as_str());
            }
        },
        None => {},
    }
    extend_chars(&mut s, "·");
    extend_chars(&mut s, r.name.as_str());
    proof {
        reveal_with_fuel(join, 3);
    }
    if str_eq(r.passed.as_str(), "pass") {
        extend_chars(&mut s, " · 已通过");
    } else if str_eq(r.passed.as_str(), "fail") {
        extend_chars(&mut s, " · 未通过");
    }
    proof {
        reveal_strlit("");
    }
    s
}

fn round_event_of(r: &IcsRound, stamp: &str, start: &Vec<char>, end: &Vec<char>) -> (out: Vec<char>)
    ensures
        out@ == round_event(r@, stamp@, start@, end@),
{
    let mut out: Vec<char> = Vec::new();
    push_line(&mut out, chars_of("BEGIN:VEVENT"));
    let mut uid = chars_of("UID:round-");
    push_signed_decimal(&mut uid, r.id);
    extend_chars(&mut uid, "@beview");
    push_line(&mut out, uid);
    push_line(&mut out, cat("DTSTAMP:", &chars_of(stamp)));
    push_line(&mut out, cat("DTSTART;VALUE=DATE:", start));
    push_line(&mut out, cat("DTEND;VALUE=DATE:", end));
    let summary = string_of(&round_summary_of(r));
    push_line(&mut out, cat("SUMMARY:", &chars_of(escape(summary.as_str()).as_str())));
    let ghost before_form = out@;
    match &r.form {
        Some(f) => {
            if chars_of(f.as_str()).len() > 0 {
                let desc = string_of(&cat("形式：", &chars_of(f.as_str())));
                push_line(&mut out, cat("DESCRIPTION:", &chars_of(escape(desc.as_str()).as_str())));
            }
        },
        None => {},
    }
    push_line(&mut out, chars_of("END:VEVENT"));
    out
}

fn review_event_of(count: i64, stamp: &str, start: &Vec<char>, end: &Vec<char>) -> (out: Vec<char>)
    ensures
        out@ == review_event(count, stamp@, start@, end@),
{
    let mut out: Vec<char> = Vec::new();
    push_line(&mut out, chars_of("BEGIN:VEVENT"));
    let mut uid = cat("UID:review-", start);
    extend_chars(&mut uid, "@beview");
    push_line(&mut out, uid);
    push_line(&mut out, cat("DTSTAMP:", &chars_of(stamp)));
    push_line(&mut out, cat("DTSTART;VALUE=DATE:", start));
    push_line(&mut out, cat("DTEND;VALUE=DATE:", end));
    let mut summary = chars_of("SUMMARY:复习 ");
    push_signed_decimal(&mut summary, count);
    extend_chars(&mut summary, " 张卡到期");
    push_line(&mut out, summary);
    push_line(&mut out, chars_of("END:VEVENT"));
    out
}

/// Once a prefix of the rounds has no text, none of the longer ones has.
proof fn lemma_rounds_text_none(rs: Seq<IcsRoundV>, n: int, stamp: Seq<char>)
    requires
        0 <= n <= rs.len(),
        rounds_text(rs.take(n), stamp) is None,
    ensures
        rounds_text(rs, stamp) is None,
    decreases rs.len() - n,
{
    if n < rs.len() {
        assert(rs.take(n + 1).drop_last() =~= rs.take(n));
        lemma_rounds_text_none(rs, n + 1, stamp);
    } else {
        assert(rs.take(n) =~= rs);
    }
}

/// Once a prefix of the review days has no text, none of the longer ones has.
proof fn lemma_reviews_text_none(ds: Seq<(i32, i64)>, n: int, stamp: Seq<char>)
    requires
        0 <= n <= ds.len(),
        reviews_text(ds.take(n), stamp) is None,
    ensures
        reviews_text(ds, stamp) is None,
    decreases ds.len() - n,
{
    if n < ds.len() {
        assert(ds.take(n + 1).drop_last() =~= ds.take(n));
        lemma_reviews_text_none(ds, n + 1, stamp);
    } else {
        assert(ds.take(n) =~= ds);
    }
}

/// Renders the calendar feed: the rounds as all-day events, then one all-day
/// event per day with due reviews (`reviews` as given by [`review_days`]);
/// `stamp` is the `DTSTAMP` value.  `None` when a day has no date text.
pub fn render_calendar(rounds: &[IcsRound], reviews: &[(i32, i64)], stamp: &str) -> (r: Option<String>)
    ensures
        calendar_spec(rounds@.map_values(|x: IcsRound| x@), reviews@, stamp@) == match r {
            Some(s) => Some(s@),
            None => None,
        },
{
    let ghost rv = rounds@.map_values(|x: IcsRound| x@);
    let mut out: Vec<char> = Vec::new();
    push_line(&mut out, chars_of("BEGIN:VCALENDAR"));
    push_line(&mut out, chars_of("VERSION:2.0"));
    push_line(&mut out, chars_of("PRODID:-//Beview//CN"));
    push_line(&mut out, chars_of("CALSCALE:GREGORIAN"));
    push_line(&mut out, chars_of("METHOD:PUBLISH"));
    push_line(&mut out, cat("X-WR-CALNAME:", &chars_of(escape("求职工作台").as_str())));
    let ghost head = out@;
    assert(head == calendar_head());
    let mut i: usize = 0;
    while i < rounds.len()
        invariant
            i <= rounds@.len(),
            rv == rounds@.map_values(|x: IcsRound| x@),
            rounds_text(rv.take(i as int), stamp@) == Some(out@.skip(head.len() as int)),
            out@.len() >= head.len(),
            out@.take(head.len() as int) == head,
        decreases rounds@.len() - i,
    {
        proof {
            assert(rv.take(i + 1).drop_last() =~= rv.take(i as int));
            assert(rv.take(i + 1).last() == rounds@[i as int]@);
        }
        let rd = &rounds[i];
        let (a, b) = match day_span_of(rd.day) {
            Some(p) => p,
            None => {
                proof {
                    lemma_rounds_text_none(rv, i + 1, stamp@);
                }
                return None;
            },
        };
        let ghost before = out@;
        let mut ev = round_event_of(rd, stamp, &a, &b);
        out.append(&mut ev);
        proof {
            assert(out@.skip(head.len() as int) =~= before.skip(head.len() as int) + round_event(
                rd@,
                stamp@,
                a@,
                b@,
            ));
            assert(out@.take(head.len() as int) =~= before.take(head.len() as int));
        }
        i += 1;
    }
    assert(rv.take(rounds@.len() as int) =~= rv);
    let ghost mid = out@;
    let mut k: usize = 0;
    while k < reviews.len()
        invariant
            k <= reviews@.len(),
            reviews_text(reviews@.take(k as int), stamp@) == Some(out@.skip(mid.len() as int)),
            out@.len() >= mid.len(),
            out@.take(mid.len() as int) == mid,
        decreases reviews@.len() - k,
    {
        proof {
            assert(reviews@.take(k + 1).drop_last() =~= reviews@.take(k as int));
        }
        let (day, count) = reviews[k];
        let (a, b) = match day_span_of(day) {
            Some(p) => p,
            None => {
                proof {
                    lemma_reviews_text_none(reviews@, k + 1, stamp@);
                }
                return None;
            },
        };
        let ghost before = out@;
        let mut ev = review_event_of(count, stamp, &a, &b);
        out.append(&mut ev);
        proof {
            assert(out@.skip(mid.len() as int) =~= before.skip(mid.len() as int) + review_event(
                count,
                stamp@,
                a@,
                b@,
            ));
            assert(out@.take(mid.len() as int) =~= before.take(mid.len() as int));
        }
        k += 1;
    }
    assert(reviews@.take(reviews@.len() as int) =~= reviews@);
    push_line(&mut out, chars_of("END:VCALENDAR"));
    proof {
        let a = mid.skip(head.len() as int);
        let b = out@.skip(mid.len() as int);
        assert(mid =~= head + a);
    }
    Some(string_of(&out))
}

/// The token of a feed request: a missing or empty token is refused as unauthorised.
pub fn feed_token(token: Option<String>) -> (r: Result<String, AppError>)
    ensures
        match token {
            Some(t) if t@.len() > 0 => r == Ok::<String, AppError>(t),
            _ => r matches Err(e) && e@ == AppErrorView::Unauthorized,
        },
{
    match token {
        Some(t) => if !t.as_str().is_empty() {
            Ok(t)
        } else {
            Err(AppError::Unauthorized)
        },
        None => Err(AppError::Unauthorized),
    }
}

/// The stored subscription token: the `token` text of the calendar setting.
pub fn stored_token(setting: &Json) -> (r: Option<String>)
    ensures
        match r {
            Some(t) => str_of(member(setting@, "token"@)) == Some(t@),
            None => str_of(member(setting@, "token"@)) is None,
        },
{
    match setting.get("token") {
        Some(v) => match v.as_str() {
            Some(t) => Some(t.clone()),
            None => None,
        },
        None => None,
    }
}

} // verus!
