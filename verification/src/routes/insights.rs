//! The overview of a user's applications handed to the insights analysis:
//! one block per application, the status history of each application and the
//! latest round retrospectives.
use vstd::prelude::*;

use crate::error::{AppError, AppErrorView};
use crate::routes::sessions::or_text;
use crate::text::{
    chars_of, decimal, extend_chars, join, join_lines, opt_view, owned, push_decimal, push_signed_decimal,
    signed_decimal, string_of, trim, trim_chars,
};

verus! {

/// Refusal when the user has no application yet.
pub const NO_APPLICATIONS: &'static str = "暂无投递数据——先在「求职台」添加投递并跟进状态后，再来生成洞察";

/// An application as the overview shows it.
#[derive(Debug, Clone)]
pub struct InsightApplication {
    pub id: i64,
    pub company: String,
    pub title: String,
    pub status: String,
    pub channel: Option<String>,
    /// The day it was filed, `YYYY-MM-DD`.
    pub applied_on: String,
    /// The note as stored.
    pub note: Option<String>,
    /// The note as shown: its first 120 characters.
    pub note_excerpt: String,
}

/// A status change of an application.
#[derive(Debug, Clone)]
pub struct InsightEvent {
    pub application_id: i64,
    pub from_status: Option<String>,
    pub to_status: String,
    /// The day of the change, `MM-DD`.
    pub day: String,
}

/// A round retrospective.
#[derive(Debug, Clone)]
pub struct InsightRetro {
    pub application_id: i64,
    pub name: Option<String>,
    /// The retrospective document as compact JSON, shortened to 500 characters.
    pub excerpt: String,
}

/// The first line of the `n`-th application (counted from 1): company,
/// position, status, the channel when known, and the filing day.
pub open spec fn application_head(n: nat, a: InsightApplication) -> Seq<char> {
    "【投递"@ + decimal(n) + "】"@ + a.company@ + " · "@ + a.title@ + " · 状态:"@ + a.status@ + match a.channel {
        Some(c) => " · 渠道:"@ + c@,
        None => Seq::<char>::empty(),
    } + " · 投递于 "@ + a.applied_on@
}

/// Whether the application has a note that is not blank.
pub open spec fn has_note(a: InsightApplication) -> bool {
    match a.note {
        Some(n) => trim(n@).len() > 0,
        None => false,
    }
}

/// The lines of the `n`-th application: its head, and its note when there is one.
pub open spec fn application_lines(n: nat, a: InsightApplication) -> Seq<Seq<char>> {
    if has_note(a) {
        seq![application_head(n, a), "  备注："@ + a.note_excerpt@]
    } else {
        seq![application_head(n, a)]
    }
}

/// The lines of the first `k` applications.
pub open spec fn applications_lines(apps: Seq<InsightApplication>, k: int) -> Seq<Seq<char>>
    decreases k,
{
    if k <= 0 {
        Seq::empty()
    } else {
        applications_lines(apps, k - 1) + application_lines(k as nat, apps[k - 1])
    }
}

/// A status change as one step of a chain: `from@day→to`, or `to@day` for the first.
pub open spec fn segment(e: InsightEvent) -> Seq<char> {
    match e.from_status {
        Some(f) => f@ + "@"@ + e.day@ + "→"@ + e.to_status@,
        None => e.to_status@ + "@"@ + e.day@,
    }
}

/// The steps of one application, in the order of the changes.
pub open spec fn chain_parts(evs: Seq<InsightEvent>, id: i64) -> Seq<Seq<char>>
    decreases evs.len(),
{
    if evs.len() == 0 {
        Seq::empty()
    } else {
        chain_parts(evs.drop_last(), id) + if evs.last().application_id == id {
            seq![segment(evs.last())]
        } else {
            Seq::empty()
        }
    }
}

/// Each element is smaller than those after it.
pub open spec fn strictly_increasing(ids: Seq<i64>) -> bool {
    forall|i: int, j: int| 0 <= i < j < ids.len() ==> ids[i] < ids[j]
}

/// Whether some change belongs to application `x`.
pub open spec fn listed(evs: Seq<InsightEvent>, x: i64) -> bool {
    exists|j: int| 0 <= j < evs.len() && evs[j].application_id == x
}

/// `ids` lists the applications of the changes, each once, ascending.
pub open spec fn id_order(ids: Seq<i64>, evs: Seq<InsightEvent>) -> bool {
    &&& strictly_increasing(ids)
    &&& forall|x: i64| ids.contains(x) <==> listed(evs, x)
}

/// The applications that have status changes, ascending.
pub open spec fn event_application_ids(evs: Seq<InsightEvent>) -> Seq<i64> {
    choose|ids: Seq<i64>| id_order(ids, evs)
}

/// The company of the last application with this id among the first `k`.
pub open spec fn last_company(apps: Seq<InsightApplication>, id: i64, k: int) -> Option<Seq<char>>
    decreases k,
{
    if k <= 0 {
        None
    } else if apps[k - 1].id == id {
        Some(apps[k - 1].company@)
    } else {
        last_company(apps, id, k - 1)
    }
}

/// The company of the first application with this id from position `i` on.
pub open spec fn first_company(apps: Seq<InsightApplication>, id: i64, i: int) -> Option<Seq<char>>
    decreases apps.len() - i,
{
    if i < 0 || i >= apps.len() {
        None
    } else if apps[i].id == id {
        Some(apps[i].company@)
    } else {
        first_company(apps, id, i + 1)
    }
}

/// The status history of one application: its company (`未知公司` when it is
/// not among the applications), its id, and its steps joined by arrows.
pub open spec fn chain_line(apps: Seq<InsightApplication>, evs: Seq<InsightEvent>, id: i64) -> Seq<char> {
    "  "@ + or_text(last_company(apps, id, apps.len() as int), "未知公司"@) + "（#"@ + signed_decimal(id as int)
        + "）："@ + join(chain_parts(evs, id), " → "@)
}

/// A retrospective: company (`未知` when not found), round name (`面试` when
/// unnamed) and the excerpt.
pub open spec fn retro_line(apps: Seq<InsightApplication>, r: InsightRetro) -> Seq<char> {
    "  "@ + or_text(first_company(apps, r.application_id, 0), "未知"@) + " · "@ + or_text(opt_view(r.name), "面试"@)
        + "："@ + r.excerpt@
}

/// The status-history section: absent without changes, else a blank line, its
/// title and one line per application, ascending by id.
pub open spec fn event_section(apps: Seq<InsightApplication>, evs: Seq<InsightEvent>) -> Seq<Seq<char>> {
    if evs.len() == 0 {
        Seq::empty()
    } else {
        seq![Seq::<char>::empty(), "【状态流水】"@] + event_application_ids(evs).map_values(
            |id: i64| chain_line(apps, evs, id),
        )
    }
}

/// The retrospective section: absent without retrospectives, else a blank
/// line, its title and one line per retrospective in the given order.
pub open spec fn retro_section(apps: Seq<InsightApplication>, rs: Seq<InsightRetro>) -> Seq<Seq<char>> {
    if rs.len() == 0 {
        Seq::empty()
    } else {
        seq![Seq::<char>::empty(), "【轮次复盘摘要】"@] + rs.map_values(|r: InsightRetro| retro_line(apps, r))
    }
}

/// The overview: refused without applications, else the application blocks,
/// the status history and the retrospectives, one line each.
pub open spec fn insights_context_spec(
    apps: Seq<InsightApplication>,
    evs: Seq<InsightEvent>,
    rs: Seq<InsightRetro>,
) -> Result<Seq<char>, AppErrorView> {
    if apps.len() == 0 {
        Err(AppErrorView::BadRequest(NO_APPLICATIONS@))
    } else {
        Ok(
            join(
                applications_lines(apps, apps.len() as int) + event_section(apps, evs) + retro_section(apps, rs),
                "\n"@,
            ),
        )
    }
}

/// Two ascending sequences with the same elements are equal.
pub proof fn lemma_increasing_unique(a: Seq<i64>, b: Seq<i64>)
    requires
        strictly_increasing(a),
        strictly_increasing(b),
        forall|x: i64| a.contains(x) <==> b.contains(x),
    ensures
        a == b,
    decreases a.len(),
{
    if a.len() == 0 {
        if b.len() > 0 {
            assert(b.contains(b[0]));
            assert(a.contains(b[0]));
        }
        assert(a =~= b);
    } else {
        assert(a.contains(a[0]));
        assert(b.contains(a[0]));
        assert(b.contains(b[0]));
        assert(a.contains(b[0]));
        let ja = choose|j: int| 0 <= j < b.len() && b[j] == a[0];
        let jb = choose|j: int| 0 <= j < a.len() && a[j] == b[0];
        assert(b[0] <= a[0]) by {
            if ja > 0 {
                assert(b[0] < b[ja]);
            }
        }
        assert(a[0] <= b[0]) by {
            if jb > 0 {
                assert(a[0] < a[jb]);
            }
        }
        let a1 = a.drop_first();
        let b1 = b.drop_first();
        assert(strictly_increasing(a1)) by {
            assert forall|i: int, j: int| 0 <= i < j < a1.len() implies a1[i] < a1[j] by {
                assert(a[i + 1] < a[j + 1]);
            }
        }
        assert(strictly_increasing(b1)) by {
            assert forall|i: int, j: int| 0 <= i < j < b1.len() implies b1[i] < b1[j] by {
                assert(b[i + 1] < b[j + 1]);
            }
        }
        assert forall|x: i64| a1.contains(x) <==> b1.contains(x) by {
            if a1.contains(x) {
                let i = choose|i: int| 0 <= i < a1.len() && a1[i] == x;
                assert(a[i + 1] == x);
                assert(a[0] < a[i + 1]);
                assert(a.contains(x));
                assert(b.contains(x));
                let j = choose|j: int| 0 <= j < b.len() && b[j] == x;
                assert(j != 0);
                assert(b1[j - 1] == x);
            }
            if b1.contains(x) {
                let i = choose|i: int| 0 <= i < b1.len() && b1[i] == x;
                assert(b[i + 1] == x);
                assert(b[0] < b[i + 1]);
                assert(b.contains(x));
                assert(a.contains(x));
                let j = choose|j: int| 0 <= j < a.len() && a[j] == x;
                assert(j != 0);
                assert(a1[j - 1] == x);
            }
        }
        lemma_increasing_unique(a1, b1);
        assert forall|i: int| 0 <= i < a.len() implies a[i] == b[i] by {
            if i > 0 {
                assert(a[i] == a1[i - 1]);
                assert(b[i] == b1[i - 1]);
            }
        }
        assert(a =~= b);
    }
}

/// The applications of the changes, each once, ascending.
fn sorted_application_ids(evs: &[InsightEvent]) -> (ids: Vec<i64>)
    ensures
        id_order(ids@, evs@),
{
    let mut ids: Vec<i64> = Vec::new();
    let mut k: usize = 0;
    while k < evs.len()
        invariant
            k <= evs@.len(),
            strictly_increasing(ids@),
            forall|x: i64| ids@.contains(x) <==> exists|j: int| 0 <= j < k && evs@[j].application_id == x,
        decreases evs@.len() - k,
    {
        let x = evs[k].application_id;
        let ghost old_ids = ids@;
        assert(forall|y: i64|
            old_ids.contains(y) <==> exists|j: int| 0 <= j < k && evs@[j].application_id == y);
        let mut p: usize = 0;
        while p < ids.len() && ids[p] < x
            invariant
                p <= ids@.len(),
                forall|q: int| 0 <= q < p ==> ids@[q] < x,
            decreases ids@.len() - p,
        {
            p += 1;
        }
        if p < ids.len() && ids[p] == x {
            assert(ids@.contains(x));
        } else {
            ids.insert(p, x);
            proof {
                old_ids.insert_ensures(p as int, x);
                assert(p < old_ids.len() ==> old_ids[p as int] > x);
                assert forall|i: int, j: int| 0 <= i < j < ids@.len() implies ids@[i] < ids@[j] by {
                    if j < p {
                        assert(ids@[i] == old_ids[i] && ids@[j] == old_ids[j]);
                    } else if j == p {
                        assert(ids@[i] == old_ids[i]);
                    } else if i < p {
                        assert(ids@[i] == old_ids[i] && ids@[j] == old_ids[j - 1]);
                        assert(old_ids[p as int] <= old_ids[j - 1]) by {
                            if p < j - 1 {
                                assert(old_ids[p as int] < old_ids[j - 1]);
                            }
                        }
                    } else if i == p {
                        assert(ids@[j] == old_ids[j - 1]);
                        assert(old_ids[p as int] <= old_ids[j - 1]) by {
                            if p < j - 1 {
                                assert(old_ids[p as int] < old_ids[j - 1]);
                            }
                        }
                    } else {
                        assert(ids@[i] == old_ids[i - 1] && ids@[j] == old_ids[j - 1]);
                    }
                }
                assert forall|y: i64| ids@.contains(y) <==> (old_ids.contains(y) || y == x) by {
                    if ids@.contains(y) {
                        let i = choose|i: int| 0 <= i < ids@.len() && ids@[i] == y;
                        if i < p {
                            assert(old_ids[i] == y);
                        } else if i > p {
                            assert(old_ids[i - 1] == y);
                        }
                    }
                    if old_ids.contains(y) {
                        let i = choose|i: int| 0 <= i < old_ids.len() && old_ids[i] == y;
                        if i < p {
                            assert(ids@[i] == y);
                        } else {
                            assert(ids@[i + 1] == y);
                        }
                    }
                    if y == x {
                        assert(ids@[p as int] == y);
                    }
                }
            }
        }
        proof {
            assert forall|y: i64| ids@.contains(y) <==> (old_ids.contains(y) || y == x) by {
                if y == x && old_ids == ids@ {
                    assert(ids@.contains(x));
                }
            }
            assert forall|y: i64|
                ids@.contains(y) <==> exists|j: int| 0 <= j < k + 1 && evs@[j].application_id == y by {
                if exists|j: int| 0 <= j < k + 1 && evs@[j].application_id == y {
                    let j = choose|j: int| 0 <= j < k + 1 && evs@[j].application_id == y;
                    if j < k {
                        assert(exists|j2: int| 0 <= j2 < k && evs@[j2].application_id == y);
                        assert(old_ids.contains(y));
                    } else {
                        assert(y == x);
                    }
                }
                if ids@.contains(y) {
                    if old_ids.contains(y) {
                        assert(exists|j: int| 0 <= j < k && evs@[j].application_id == y);
                        let j = choose|j: int| 0 <= j < k && evs@[j].application_id == y;
                        assert(0 <= j < k + 1 && evs@[j].application_id == y);
                    } else {
                        assert(y == x);
                        assert(0 <= k < k + 1 && evs@[k as int].application_id == y);
                    }
                }
            }
        }
        k += 1;
    }
    ids
}

fn head_line(n: u64, a: &InsightApplication) -> (r: Vec<char>)
    ensures
        r@ == application_head(n as nat, *a),
{
    let mut r: Vec<char> = Vec::new();
    extend_chars(&mut r, "【投递");
    push_decimal(&mut r, n);
    extend_chars(&mut r, "】");
    extend_chars(&mut r, a.company.as_str());
    extend_chars(&mut r, " · ");
    extend_chars(&mut r, a.title.as_str());
    extend_chars(&mut r, " · 状态:");
    extend_chars(&mut r, a.status.as_str());
    match &a.channel {
        Some(c) => {
            extend_chars(&mut r, " · 渠道:");
            extend_chars(&mut r, c.as_str());
        },
        None => {},
    }
    extend_chars(&mut r, " · 投递于 ");
    extend_chars(&mut r, a.applied_on.as_str());
    assert(r@ =~= application_head(n as nat, *a));
    r
}

fn note_shown(a: &InsightApplication) -> (r: bool)
    ensures
        r == has_note(*a),
{
    match &a.note {
        Some(n) => trim_chars(&chars_of(n.as_str())).len() > 0,
        None => false,
    }
}

fn last_company_at(apps: &[InsightApplication], id: i64) -> (r: Option<usize>)
    ensures
        match r {
            Some(i) => i < apps@.len() && last_company(apps@, id, apps@.len() as int) == Some(apps@[i as int].company@),
            None => last_company(apps@, id, apps@.len() as int) is None,
        },
{
    let mut found: Option<usize> = None;
    let mut i: usize = 0;
    while i < apps.len()
        invariant
            i <= apps@.len(),
            match found {
                Some(f) => f < i && last_company(apps@, id, i as int) == Some(apps@[f as int].company@),
                None => last_company(apps@, id, i as int) is None,
            },
        decreases apps@.len() - i,
    {
        if apps[i].id == id {
            found = Some(i);
        }
        i += 1;
    }
    found
}

fn first_company_at(apps: &[InsightApplication], id: i64) -> (r: Option<usize>)
    ensures
        match r {
            Some(i) => i < apps@.len() && first_company(apps@, id, 0) == Some(apps@[i as int].company@),
            None => first_company(apps@, id, 0) is None,
        },
{
    let mut i: usize = 0;
    while i < apps.len()
        invariant
            i <= apps@.len(),
            first_company(apps@, id, 0) == first_company(apps@, id, i as int),
        decreases apps@.len() - i,
    {
        if apps[i].id == id {
            return Some(i);
        }
        i += 1;
    }
    None
}

fn push_text_or(out: &mut Vec<char>, o: Option<&String>, d: &str)
    ensures
        final(out)@ == old(out)@ + or_text(
            match o {
                Some(t) => Some(t@),
                None => None,
            },
            d@,
        ),
{
    match o {
        Some(t) => extend_chars(out, t.as_str()),
        None => extend_chars(out, d),
    }
}

fn chain_line_of(apps: &[InsightApplication], evs: &[InsightEvent], id: i64) -> (r: Vec<char>)
    ensures
        r@ == chain_line(apps@, evs@, id),
{
    let mut parts: Vec<Vec<char>> = Vec::new();
    let mut k: usize = 0;
    while k < evs.len()
        invariant
            k <= evs@.len(),
            parts@.map_values(|p: Vec<char>| p@) == chain_parts(evs@.take(k as int), id),
        decreases evs@.len() - k,
    {
        let ghost before = parts@;
        proof {
            assert(evs@.take(k + 1).drop_last() =~= evs@.take(k as int));
            assert(evs@.take(k + 1).last() == evs@[k as int]);
        }
        let e = &evs[k];
        if e.application_id == id {
            let mut s: Vec<char> = Vec::new();
            match &e.from_status {
                Some(f) => {
                    extend_chars(&mut s, f.as_str());
                    extend_chars(&mut s, "@");
                    extend_chars(&mut s, e.day.as_str());
                    extend_chars(&mut s, "→");
                    extend_chars(&mut s, e.to_status.as_str());
                },
                None => {
                    extend_chars(&mut s, e.to_status.as_str());
                    extend_chars(&mut s, "@");
                    extend_chars(&mut s, e.day.as_str());
                },
            }
            assert(s@ =~= segment(*e));
            parts.push(s);
            assert(parts@.map_values(|p: Vec<char>| p@) =~= before.map_values(|p: Vec<char>| p@).push(segment(*e)));
        }
        assert(parts@.map_values(|p: Vec<char>| p@) =~= chain_parts(evs@.take(k + 1), id));
        k += 1;
    }
    assert(evs@.take(evs@.len() as int) =~= evs@);
    let mut r: Vec<char> = Vec::new();
    extend_chars(&mut r, "  ");
    let c = last_company_at(apps, id);
    match c {
        Some(i) => push_text_or(&mut r, Some(&apps[i].company), "未知公司"),
        None => push_text_or(&mut r, None, "未知公司"),
    }
    extend_chars(&mut r, "（#");
    push_signed_decimal(&mut r, id);
    extend_chars(&mut r, "）：");
    let joined = join_lines(&parts, " → ");
    let mut j = joined;
    r.append(&mut j);
    assert(r@ =~= chain_line(apps@, evs@, id));
    r
}

fn retro_line_of(apps: &[InsightApplication], rt: &InsightRetro) -> (r: Vec<char>)
    ensures
        r@ == retro_line(apps@, *rt),
{
    let mut r: Vec<char> = Vec::new();
    extend_chars(&mut r, "  ");
    let c = first_company_at(apps, rt.application_id);
    match c {
        Some(i) => push_text_or(&mut r, Some(&apps[i].company), "未知"),
        None => push_text_or(&mut r, None, "未知"),
    }
    extend_chars(&mut r, " · ");
    match &rt.name {
        Some(n) => push_text_or(&mut r, Some(n), "面试"),
        None => push_text_or(&mut r, None, "面试"),
    }
    extend_chars(&mut r, "：");
    extend_chars(&mut r, rt.excerpt.as_str());
    assert(r@ =~= retro_line(apps@, *rt));
    r
}

fn text_line(s: &str) -> (r: Vec<char>)
    ensures
        r@ == s@,
{
    chars_of(s)
}

/// The overview of the applications handed to the insights analysis: refused
/// without applications; otherwise one block per application in the given
/// order, the status history grouped by application, and the retrospectives.
pub fn insights_context(
    apps: &[InsightApplication],
    events: &[InsightEvent],
    retros: &[InsightRetro],
) -> (r: Result<String, AppError>)
    ensures
        insights_context_spec(apps@, events@, retros@) == match r {
            Ok(t) => Ok(t@),
            Err(e) => Err(e@),
        },
{
    if apps.len() == 0 {
        return Err(AppError::BadRequest(owned(NO_APPLICATIONS)));
    }
    let mut lines: Vec<Vec<char>> = Vec::new();
    let mut i: usize = 0;
    while i < apps.len()
        invariant
            i <= apps@.len(),
            lines@.map_values(|l: Vec<char>| l@) == applications_lines(apps@, i as int),
        decreases apps@.len() - i,
    {
        let ghost before = lines@.map_values(|l: Vec<char>| l@);
        let head = head_line((i + 1) as u64, &apps[i]);
        lines.push(head);
        if note_shown(&apps[i]) {
            let mut n: Vec<char> = Vec::new();
            extend_chars(&mut n, "  备注：");
            extend_chars(&mut n, apps[i].note_excerpt.as_str());
            lines.push(n);
        }
        assert(lines@.map_values(|l: Vec<char>| l@) =~= before + application_lines((i + 1) as nat, apps@[i as int]));
        i += 1;
    }
    let ghost app_part = applications_lines(apps@, apps@.len() as int);
    if events.len() > 0 {
        lines.push(Vec::new());
        lines.push(text_line("【状态流水】"));
        let ids = sorted_application_ids(events);
        proof {
            let c = event_application_ids(events@);
            assert(id_order(ids@, events@));
            assert(id_order(c, events@));
            lemma_increasing_unique(ids@, c);
        }
        let ghost head_part = app_part + seq![Seq::<char>::empty(), "【状态流水】"@];
        assert(lines@.map_values(|l: Vec<char>| l@) =~= head_part);
        let mut j: usize = 0;
        while j < ids.len()
            invariant
                j <= ids@.len(),
                ids@ == event_application_ids(events@),
                lines@.map_values(|l: Vec<char>| l@) == head_part + ids@.take(j as int).map_values(
                    |id: i64| chain_line(apps@, events@, id),
                ),
            decreases ids@.len() - j,
        {
            let ghost before = lines@.map_values(|l: Vec<char>| l@);
            let line = chain_line_of(apps, events, ids[j]);
            lines.push(line);
            assert(ids@.take(j + 1).map_values(|id: i64| chain_line(apps@, events@, id)) =~= ids@.take(
                j as int,
            ).map_values(|id: i64| chain_line(apps@, events@, id)).push(chain_line(apps@, events@, ids@[j as int])));
            assert(lines@.map_values(|l: Vec<char>| l@) =~= before.push(chain_line(apps@, events@, ids@[j as int])));
            j += 1;
        }
        assert(ids@.take(ids@.len() as int) =~= ids@);
    }
    assert(lines@.map_values(|l: Vec<char>| l@) =~= app_part + event_section(apps@, events@));
    let ghost mid = app_part + event_section(apps@, events@);
    if retros.len() > 0 {
        lines.push(Vec::new());
        lines.push(text_line("【轮次复盘摘要】"));
        let ghost head_part = mid + seq![Seq::<char>::empty(), "【轮次复盘摘要】"@];
        assert(lines@.map_values(|l: Vec<char>| l@) =~= head_part);
        let mut j: usize = 0;
        while j < retros.len()
            invariant
                j <= retros@.len(),
                lines@.map_values(|l: Vec<char>| l@) == head_part + retros@.take(j as int).map_values(
                    |r: InsightRetro| retro_line(apps@, r),
                ),
            decreases retros@.len() - j,
        {
            let ghost before = lines@.map_values(|l: Vec<char>| l@);
            let line = retro_line_of(apps, &retros[j]);
            lines.push(line);
            assert(retros@.take(j + 1).map_values(|r: InsightRetro| retro_line(apps@, r)) =~= retros@.take(
                j as int,
            ).map_values(|r: InsightRetro| retro_line(apps@, r)).push(retro_line(apps@, retros@[j as int])));
            assert(lines@.map_values(|l: Vec<char>| l@) =~= before.push(retro_line(apps@, retros@[j as int])));
            j += 1;
        }
        assert(retros@.take(retros@.len() as int) =~= retros@);
    }
    assert(lines@.map_values(|l: Vec<char>| l@) =~= mid + retro_section(apps@, retros@));
    let text = join_lines(&lines, "\n");
    Ok(string_of(&text))
}

} // verus!
