//! Round and retrospective helpers, and the interview record handed to the
//! overall analysis of an application.
use vstd::prelude::*;
use vstd::string::StringExecFns;

use crate::application_service::{is_terminal, passed_value, validate_passed};
use crate::routes::companies::{clean, clean_spec};
use crate::error::{AppError, AppErrorView};
use crate::json::{json_pretty, member, pretty_json, str_of, Json, JsonView};
use crate::text::{
    chars_of, decimal, extend_chars, opt_str_view, opt_view, owned, push_decimal, push_signed_decimal, signed_decimal,
    str_eq, string_of, sub_chars, trim, trim_chars,
};

verus! {

/// Characters of an error message kept by [`truncate_err`].
pub const ERR_KEEP: usize = 300;

/// A long message keeps its first 300 characters, an ellipsis and the total count.
pub open spec fn truncate_err_spec(e: Seq<char>) -> Seq<char> {
    if e.len() <= ERR_KEEP {
        e
    } else {
        e.take(ERR_KEEP as int) + "…（共 "@ + decimal(e.len()) + " 字符，已截断）"@
    }
}

/// Shortens an error message for logs and responses (only the head of a long
/// model output is shown).
pub fn truncate_err<E: std::fmt::Display>(e: E) -> (r: String)
    ensures
        exists|full: String|
            vstd::string::to_string_from_display_ensures::<E>(&e, full) && r@ == truncate_err_spec(full@),
{
    let full = e.to_string();
    let c = chars_of(full.as_str());
    if c.len() <= ERR_KEEP {
        let r = string_of(&c);
        assert(r@ == truncate_err_spec(full@));
        r
    } else {
        let mut out = sub_chars(&c, 0, ERR_KEEP);
        extend_chars(&mut out, "…（共 ");
        push_decimal(&mut out, c.len() as u64);
        extend_chars(&mut out, " 字符，已截断）");
        let r = string_of(&out);
        assert(r@ == truncate_err_spec(full@));
        r
    }
}

/// A question of a round as the overall analysis reads it.
#[derive(Debug, Clone, PartialEq)]
pub struct OverallQuestion {
    pub content: String,
    /// The first answer given (interview answers first).
    pub first_answer: Option<String>,
    /// Latest graded score.
    pub score: Option<i32>,
    /// Latest feedback.
    pub feedback: Option<String>,
}

pub struct OverallQuestionV {
    pub content: Seq<char>,
    pub first_answer: Option<Seq<char>>,
    pub score: Option<i32>,
    pub feedback: Option<Seq<char>>,
}

impl View for OverallQuestion {
    type V = OverallQuestionV;

    open spec fn view(&self) -> OverallQuestionV {
        OverallQuestionV {
            content: self.content@,
            first_answer: opt_view(self.first_answer),
            score: self.score,
            feedback: opt_view(self.feedback),
        }
    }
}

/// A round of an application as the overall analysis reads it.
#[derive(Debug, PartialEq)]
pub struct OverallRound {
    pub name: String,
    pub form: Option<String>,
    /// `pass`, `fail` or `pending`.
    pub passed: String,
    /// Interview date as a day number (days from 0001-01-01, that day being 1).
    pub day: Option<i32>,
    /// The round's retrospective document.
    pub retrospective: Option<Json>,
    pub questions: Vec<OverallQuestion>,
}

pub struct OverallRoundV {
    pub name: Seq<char>,
    pub form: Option<Seq<char>>,
    pub passed: Seq<char>,
    pub day: Option<i32>,
    pub retrospective: Option<JsonView>,
    pub questions: Seq<OverallQuestionV>,
}

impl View for OverallRound {
    type V = OverallRoundV;

    open spec fn view(&self) -> OverallRoundV {
        OverallRoundV {
            name: self.name@,
            form: opt_view(self.form),
            passed: self.passed@,
            day: self.day,
            retrospective: match self.retrospective {
                Some(j) => Some(j@),
                None => None,
            },
            questions: self.questions@.map_values(|q: OverallQuestion| q@),
        }
    }
}

/// The text, or a default when absent.
pub open spec fn or_text(o: Option<Seq<char>>, d: Seq<char>) -> Seq<char> {
    match o {
        Some(t) => t,
        None => d,
    }
}

/// The verdict of a round: 通过, 未通过 or 待定.
pub open spec fn verdict_text(passed: Seq<char>) -> Seq<char> {
    if passed == "pass"@ {
        "通过"@
    } else if passed == "fail"@ {
        "未通过"@
    } else {
        "待定"@
    }
}

/// One question of the record: question, first answer, score and feedback.
pub open spec fn question_block(q: OverallQuestionV) -> Seq<char> {
    "题目："@ + q.content + "\n候选人第一手真实回答："@ + or_text(q.first_answer, "（未留作答记录）"@) + "\n判分："@
        + match q.score {
        Some(v) => signed_decimal(v as int),
        None => "未判"@,
    } + " 分\n点评："@ + or_text(q.feedback, "—"@) + "\n\n"@
}

pub open spec fn questions_text(qs: Seq<OverallQuestionV>) -> Seq<char>
    decreases qs.len(),
{
    if qs.len() == 0 {
        Seq::empty()
    } else {
        questions_text(qs.drop_last()) + question_block(qs.last())
    }
}

/// The conclusion of a retrospective (its `overall` text).
pub open spec fn retro_overall(r: Option<JsonView>) -> Option<Seq<char>> {
    match r {
        Some(v) => str_of(member(v, "overall"@)),
        None => None,
    }
}

/// The heading line of a round: name, form and verdict.
pub open spec fn round_head(r: OverallRoundV) -> Seq<char> {
    "\n### 轮次："@ + r.name + "（"@ + or_text(r.form, "形式未定"@) + "）结果："@ + verdict_text(r.passed) + "\n"@
}

/// The date line of a round, when its date has a text.
pub open spec fn date_line(date: Option<Seq<char>>) -> Seq<char> {
    match date {
        Some(t) => "面试时间："@ + t + "\n"@,
        None => Seq::empty(),
    }
}

/// The conclusion line of a round, when its retrospective has one.
pub open spec fn retro_line(r: OverallRoundV) -> Seq<char> {
    match retro_overall(r.retrospective) {
        Some(o) => "本轮复盘结论："@ + o + "\n"@,
        None => Seq::empty(),
    }
}

/// The note of a round without questions.
pub open spec fn empty_note(r: OverallRoundV) -> Seq<char> {
    if r.questions.len() == 0 {
        "（本轮无题目记录）\n"@
    } else {
        Seq::empty()
    }
}

/// The block of a round, `date` being the text of its interview date.
pub open spec fn round_block(r: OverallRoundV, date: Option<Seq<char>>) -> Seq<char> {
    round_head(r) + date_line(date) + retro_line(r) + empty_note(r) + questions_text(r.questions)
}

/// What chrono prints (`NaiveDate` display, `YYYY-MM-DD`) for the date of a
/// day number; `None` when chrono has no date for it.
pub uninterp spec fn iso_date_text(day: i32) -> Option<Seq<char>>;

/// `NaiveDate::from_num_days_from_ce_opt` and `to_string`: the date text of a
/// day number, named by [`iso_date_text`].
#[verifier::external_body]
fn iso_date(day: i32) -> (r: Option<String>)
    ensures
        iso_date_text(day) == match r {
            Some(s) => Some(s@),
            None => None,
        },
{
    chrono::NaiveDate::from_num_days_from_ce_opt(day).map(|d| d.to_string())
}

/// The date text of a round's day, when it has one.
pub open spec fn round_date(r: OverallRoundV) -> Option<Seq<char>> {
    match r.day {
        Some(d) => iso_date_text(d),
        None => None,
    }
}

fn push_or(s: &mut String, o: &Option<String>, d: &str)
    ensures
        final(s)@ == old(s)@ + or_text(opt_view(*o), d@),
{
    match o {
        Some(t) => s.append(t.as_str()),
        None => s.append(d),
    }
}

fn question_text(q: &OverallQuestion) -> (r: String)
    ensures
        r@ == question_block(q@),
{
    let mut s = owned("题目：");
    s.append(q.content.as_str());
    s.append("\n候选人第一手真实回答：");
    push_or(&mut s, &q.first_answer, "（未留作答记录）");
    s.append("\n判分：");
    match q.score {
        Some(v) => {
            let mut c: Vec<char> = Vec::new();
            push_signed_decimal(&mut c, v as i64);
            s.append(string_of(&c).as_str());
        },
        None => s.append("未判"),
    }
    s.append(" 分\n点评：");
    push_or(&mut s, &q.feedback, "—");
    s.append("\n\n");
    s
}

fn round_head_text(r: &OverallRound) -> (s: String)
    ensures
        s@ == round_head(r@),
{
    let mut s = owned("\n### 轮次：");
    s.append(r.name.as_str());
    s.append("（");
    push_or(&mut s, &r.form, "形式未定");
    s.append("）结果：");
    if str_eq(r.passed.as_str(), "pass") {
        s.append("通过");
    } else if str_eq(r.passed.as_str(), "fail") {
        s.append("未通过");
    } else {
        s.append("待定");
    }
    s.append("\n");
    s
}

fn retro_line_text(r: &OverallRound) -> (s: String)
    ensures
        s@ == retro_line(r@),
{
    let overall: Option<&String> = match &r.retrospective {
        Some(j) => match j.get("overall") {
            Some(x) => x.as_str(),
            None => None,
        },
        None => None,
    };
    match overall {
        Some(o) => {
            let mut s = owned("本轮复盘结论：");
            s.append(o.as_str());
            s.append("\n");
            s
        },
        None => String::new(),
    }
}

fn questions_text_of(qs: &[OverallQuestion]) -> (s: String)
    ensures
        s@ == questions_text(qs@.map_values(|q: OverallQuestion| q@)),
{
    let ghost qv = qs@.map_values(|q: OverallQuestion| q@);
    let mut s = String::new();
    let mut i: usize = 0;
    while i < qs.len()
        invariant
            i <= qs@.len(),
            qv == qs@.map_values(|q: OverallQuestion| q@),
            s@ == questions_text(qv.take(i as int)),
        decreases qs@.len() - i,
    {
        proof {
            assert(qv.take(i + 1).drop_last() =~= qv.take(i as int));
        }
        let t = question_text(&qs[i]);
        s.append(t.as_str());
        i += 1;
    }
    assert(qv.take(qv.len() as int) =~= qv);
    s
}

/// Renders the block of a round given the text of its date.
pub fn round_block_with(r: &OverallRound, date: Option<&str>) -> (s: String)
    ensures
        s@ == round_block(r@, opt_str_view(date)),
{
    let mut s = round_head_text(r);
    match date {
        Some(t) => {
            s.append("面试时间：");
            s.append(t);
            s.append("\n");
        },
        None => {},
    }
    let retro = retro_line_text(r);
    s.append(retro.as_str());
    if r.questions.len() == 0 {
        s.append("（本轮无题目记录）\n");
    }
    let qs = questions_text_of(r.questions.as_slice());
    s.append(qs.as_str());
    s
}

/// The record of all rounds, in the order given.
pub open spec fn record_text(rs: Seq<OverallRoundV>) -> Seq<char>
    decreases rs.len(),
{
    if rs.len() == 0 {
        Seq::empty()
    } else {
        record_text(rs.drop_last()) + round_block(rs.last(), round_date(rs.last()))
    }
}

/// Renders the interview record of an application's rounds.
pub fn overall_record(rounds: &[OverallRound]) -> (r: String)
    ensures
        r@ == record_text(rounds@.map_values(|x: OverallRound| x@)),
{
    let ghost rv = rounds@.map_values(|x: OverallRound| x@);
    let mut s = String::new();
    let mut i: usize = 0;
    while i < rounds.len()
        invariant
            i <= rounds@.len(),
            rv == rounds@.map_values(|x: OverallRound| x@),
            s@ == record_text(rv.take(i as int)),
        decreases rounds@.len() - i,
    {
        proof {
            assert(rv.take(i + 1).drop_last() =~= rv.take(i as int));
        }
        let rd = &rounds[i];
        let date = match rd.day {
            Some(d) => iso_date(d),
            None => None,
        };
        let block = match &date {
            Some(t) => round_block_with(rd, Some(t.as_str())),
            None => round_block_with(rd, None),
        };
        s.append(block.as_str());
        i += 1;
    }
    assert(rv.take(rv.len() as int) =~= rv);
    s
}

/// The user message of the overall analysis: the JD (or a note that none was
/// given), the resume as indented JSON when it is an object (`resume_text`),
/// and the interview record.
pub open spec fn overall_message_spec(jd: Option<Seq<char>>, resume_text: Option<Seq<char>>, record: Seq<char>) -> Seq<
    char,
> {
    "【岗位信息】\n"@ + match jd {
        Some(j) => if trim(j).len() > 0 {
            "JD：\n"@ + j + "\n\n"@
        } else {
            "JD：未填写\n\n"@
        },
        None => "JD：未填写\n\n"@,
    } + "【候选人简历】\n"@ + match resume_text {
        Some(t) => t + "\n\n"@,
        None => "未提供\n\n"@,
    } + "【面试记录（按时间顺序）】\n"@ + record
}

/// Builds the user message from the JD, the rendered resume (if any) and the
/// record.
pub fn overall_message_with(jd: Option<&str>, resume_text: Option<&str>, record: &str) -> (r: String)
    ensures
        r@ == overall_message_spec(opt_str_view(jd), opt_str_view(resume_text), record@),
{
    let mut s = owned("【岗位信息】\n");
    let jd_given = match jd {
        Some(j) => trim_chars(&chars_of(j)).len() > 0,
        None => false,
    };
    match jd {
        Some(j) => {
            if jd_given {
                s.append("JD：\n");
                s.append(j);
                s.append("\n\n");
            } else {
                s.append("JD：未填写\n\n");
            }
        },
        None => s.append("JD：未填写\n\n"),
    }
    s.append("【候选人简历】\n");
    match resume_text {
        Some(t) => {
            s.append(t);
            s.append("\n\n");
        },
        None => s.append("未提供\n\n"),
    }
    s.append("【面试记录（按时间顺序）】\n");
    s.append(record);
    s
}

/// The resume section's text: the indented JSON of an object resume.
pub open spec fn resume_text_spec(resume: Option<JsonView>) -> Option<Seq<char>> {
    match resume {
        Some(v) => if v is Object {
            Some(json_pretty(v))
        } else {
            None
        },
        None => None,
    }
}

/// Builds the user message of the overall analysis of an application.
pub fn overall_message(jd: Option<&str>, resume: Option<&Json>, rounds: &[OverallRound]) -> (r: String)
    ensures
        r@ == overall_message_spec(
            opt_str_view(jd),
            resume_text_spec(
                match resume {
                    Some(j) => Some(j@),
                    None => None,
                },
            ),
            record_text(rounds@.map_values(|x: OverallRound| x@)),
        ),
{
    let record = overall_record(rounds);
    let text = match resume {
        Some(j) => match j {
            Json::Object(_) => Some(pretty_json(j)),
            _ => None,
        },
        None => None,
    };
    match &text {
        Some(t) => overall_message_with(jd, Some(t.as_str()), record.as_str()),
        None => overall_message_with(jd, None, record.as_str()),
    }
}

/// The result an update sets: none when it sets none; a refusal when the
/// value is not a result, or when a chosen result (not `pending`) would change.
pub open spec fn round_result_spec(old: Option<Seq<char>>, requested: Option<Seq<char>>) -> Result<
    Option<Seq<char>>,
    AppErrorView,
> {
    match requested {
        None => Ok(None),
        Some(x) => match passed_value(Some(x)) {
            Err(e) => Err(e),
            Ok(n) => match old {
                Some(o) => if o != "pending"@ && o != n {
                    Err(AppErrorView::BadRequest("该轮结果已选定（"@ + o + "），不可变更"@))
                } else {
                    Ok(Some(n))
                },
                None => Ok(Some(n)),
            },
        },
    }
}

/// Decides the result an update of a round sets, given the stored result.
pub fn round_result(old: Option<&str>, requested: Option<&str>) -> (r: Result<Option<&'static str>, AppError>)
    ensures
        round_result_spec(opt_str_view(old), opt_str_view(requested)) == match r {
            Ok(Some(v)) => Ok(Some(v@)),
            Ok(None) => Ok(None),
            Err(e) => Err(e@),
        },
{
    let n = match requested {
        None => {
            return Ok(None);
        },
        Some(x) => validate_passed(Some(x))?,
    };
    if let Some(o) = old {
        if !str_eq(o, "pending") && !str_eq(o, n) {
            let mut m = owned("该轮结果已选定（");
            m.append(o);
            m.append("），不可变更");
            return Err(AppError::BadRequest(m));
        }
    }
    Ok(Some(n))
}

/// What marking a round's result records.
#[derive(Debug, Clone, PartialEq)]
pub enum RoundMark {
    /// The round became passed: the passing event (points and log entry).
    Passed,
    /// A log entry with this note.
    Logged(String),
}

/// The label of a result: 通过, 未通过, else the value itself.
pub open spec fn result_label(v: Seq<char>) -> Seq<char> {
    if v == "pass"@ {
        "通过"@
    } else if v == "fail"@ {
        "未通过"@
    } else {
        v
    }
}

/// A round that becomes passed (and was not already) raises the passing
/// event; any other marking is logged as `{round} · 标记{label}`.
pub open spec fn round_mark_spec(old: Option<Seq<char>>, new: Seq<char>, round_name: Seq<char>) -> Option<
    Seq<char>,
> {
    if old != Some("pass"@) && new == "pass"@ {
        None
    } else {
        Some(round_name + " · 标记"@ + result_label(new))
    }
}

/// Decides what marking a round's result records (`Passed`, or the logged note).
pub fn round_mark(old: Option<&str>, new: &str, round_name: &str) -> (r: RoundMark)
    ensures
        round_mark_spec(opt_str_view(old), new@, round_name@) == match r {
            RoundMark::Passed => None,
            RoundMark::Logged(n) => Some(n@),
        },
{
    let was_pass = match old {
        Some(o) => str_eq(o, "pass"),
        None => false,
    };
    proof {
        reveal_strlit("pass");
    }
    if !was_pass && str_eq(new, "pass") {
        return RoundMark::Passed;
    }
    let mut note = owned(round_name);
    note.append(" · 标记");
    if str_eq(new, "pass") {
        note.append("通过");
    } else if str_eq(new, "fail") {
        note.append("未通过");
    } else {
        note.append(new);
    }
    RoundMark::Logged(note)
}

/// A failed round of an application still interviewing suggests marking the
/// application rejected.
pub fn suggests_rejection(requested: Option<&str>, app_status: &str) -> (r: bool)
    ensures
        r == (opt_str_view(requested) == Some("fail"@) && app_status@ == "interviewing"@),
{
    match requested {
        Some(p) => str_eq(p, "fail") && str_eq(app_status, "interviewing"),
        None => false,
    }
}

/// Once a round's result is chosen (anything but `pending`), an update may
/// only repeat it; from `pending` any valid result may be set.
pub proof fn lemma_result_locked(old: Seq<char>, requested: Seq<char>)
    requires
        passed_value(Some(requested)) is Ok,
    ensures
        old != "pending"@ ==> (round_result_spec(Some(old), Some(requested)) is Ok <==> requested == old),
        old == "pending"@ ==> round_result_spec(Some(old), Some(requested)) == Ok::<Option<Seq<char>>, AppErrorView>(
            Some(requested),
        ),
{
}

/// A round about to be added to an application.
#[derive(Debug, Clone, PartialEq)]
pub struct NewRound {
    pub name: String,
    pub form: Option<String>,
    pub sort_order: i32,
    /// The application moves from `applied` to `interviewing`.
    pub advance: bool,
}

/// Default name of the round after `count` rounds: 一面 … 五面, then N面.
pub open spec fn default_round_name(count: i64) -> Seq<char> {
    seq![
        if count == 0 {
            '一'
        } else if count == 1 {
            '二'
        } else if count == 2 {
            '三'
        } else if count == 3 {
            '四'
        } else if count == 4 {
            '五'
        } else {
            'N'
        },
        '面',
    ]
}

/// Whether a round may be added and what it is: refused for a terminal
/// application, and while the latest round (when there are rounds) is
/// pending or failed; otherwise named as given (trimmed) or by its rank.
pub open spec fn new_round_spec(
    app_status: Seq<char>,
    count: i64,
    latest: Option<(Seq<char>, Seq<char>)>,
    name: Option<Seq<char>>,
    form: Option<Seq<char>>,
) -> Result<(Seq<char>, Option<Seq<char>>, i32, bool), AppErrorView> {
    let blocked: Option<Seq<char>> = match latest {
        Some((passed, last)) => if count > 0 && passed == "pending"@ {
            Some("「"@ + last + "」还未标记结果，不能添加下一面"@)
        } else if count > 0 && passed == "fail"@ {
            Some("「"@ + last + "」未通过，无法添加下一面；如需继续请先在轮次详情复核结果"@)
        } else {
            None
        },
        None => None,
    };
    if is_terminal(app_status) {
        Err(AppErrorView::BadRequest("投递已终态，不能再添加面试"@))
    } else if blocked is Some {
        Err(AppErrorView::BadRequest(blocked->0))
    } else {
        Ok(
            (
                match clean_spec(name) {
                    Some(n) => n,
                    None => default_round_name(count),
                },
                clean_spec(form),
                (count + 1) as i32,
                app_status == "applied"@,
            ),
        )
    }
}

/// Decides whether a round can be added to an application with `count`
/// rounds whose latest round has result and name `latest`, and builds it.
pub fn plan_new_round(
    app_status: &str,
    count: i64,
    latest: Option<(&str, &str)>,
    name: Option<&str>,
    form: Option<&str>,
) -> (r: Result<NewRound, AppError>)
    requires
        count < i64::MAX,
    ensures
        new_round_spec(
            app_status@,
            count,
            match latest {
                Some((p, n)) => Some((p@, n@)),
                None => None,
            },
            opt_str_view(name),
            opt_str_view(form),
        ) == match r {
            Ok(x) => Ok((x.name@, opt_view(x.form), x.sort_order, x.advance)),
            Err(e) => Err(e@),
        },
{
    if str_eq(app_status, "offer") || str_eq(app_status, "rejected") || str_eq(app_status, "withdrawn") {
        return Err(AppError::BadRequest(owned("投递已终态，不能再添加面试")));
    }
    if count > 0 {
        if let Some((passed, last_name)) = latest {
            if str_eq(passed, "pending") {
                let mut m = owned("「");
                m.append(last_name);
                m.append("」还未标记结果，不能添加下一面");
                return Err(AppError::BadRequest(m));
            }
            if str_eq(passed, "fail") {
                let mut m = owned("「");
                m.append(last_name);
                m.append("」未通过，无法添加下一面；如需继续请先在轮次详情复核结果");
                return Err(AppError::BadRequest(m));
            }
        }
    }
    let rank = if count == 0 {
        '一'
    } else if count == 1 {
        '二'
    } else if count == 2 {
        '三'
    } else if count == 3 {
        '四'
    } else if count == 4 {
        '五'
    } else {
        'N'
    };
    let round_name = match clean(name) {
        Some(n) => n,
        None => {
            let mut c: Vec<char> = Vec::new();
            c.push(rank);
            c.push('面');
            string_of(&c)
        },
    };
    let form_text = clean(form);
    let sort_order = (#[verifier::truncate] ((count + 1) as i32));
    let advance = str_eq(app_status, "applied");
    assert(round_name@ == match clean_spec(opt_str_view(name)) {
        Some(n) => n,
        None => default_round_name(count),
    });
    assert(opt_view(form_text) == clean_spec(opt_str_view(form)));
    assert(sort_order == (count + 1) as i32);
    Ok(NewRound { name: round_name, form: form_text, sort_order, advance })
}

/// The improvement items sent to review: trimmed, blanks dropped.
pub open spec fn review_items_spec(items: Seq<Seq<char>>) -> Seq<Seq<char>>
    decreases items.len(),
{
    if items.len() == 0 {
        Seq::empty()
    } else {
        review_items_spec(items.drop_last()) + if trim(items.last()).len() > 0 {
            seq![trim(items.last())]
        } else {
            Seq::empty()
        }
    }
}

/// Selects the improvement items to turn into review questions; refused when
/// none is left.
pub fn review_items(items: &[String]) -> (r: Result<Vec<String>, AppError>)
    ensures
        match r {
            Ok(v) => v@.map_values(|s: String| s@) == review_items_spec(items@.map_values(|s: String| s@))
                && v@.len() > 0,
            Err(e) => review_items_spec(items@.map_values(|s: String| s@)).len() == 0 && e@
                == AppErrorView::BadRequest("未选择任何改进项"@),
        },
{
    let ghost iv = items@.map_values(|s: String| s@);
    let mut out: Vec<String> = Vec::new();
    let mut i: usize = 0;
    while i < items.len()
        invariant
            i <= items@.len(),
            iv == items@.map_values(|s: String| s@),
            out@.map_values(|s: String| s@) == review_items_spec(iv.take(i as int)),
        decreases items@.len() - i,
    {
        proof {
            assert(iv.take(i + 1).drop_last() =~= iv.take(i as int));
        }
        let ghost before = out@.map_values(|s: String| s@);
        let t = trim_chars(&chars_of(items[i].as_str()));
        if t.len() > 0 {
            out.push(string_of(&t));
            assert(out@.map_values(|s: String| s@) =~= before.push(t@));
        }
        i += 1;
    }
    assert(iv.take(iv.len() as int) =~= iv);
    if out.len() == 0 {
        Err(AppError::BadRequest(owned("未选择任何改进项")))
    } else {
        Ok(out)
    }
}

/// Only a round created by mistake can be deleted: its result still pending
/// and no question under it.
pub fn round_deletable(passed: &str, question_count: i64) -> (r: Result<(), AppError>)
    ensures
        r is Ok <==> passed@ == "pending"@ && question_count <= 0,
        passed@ != "pending"@ ==> (r matches Err(e) && e@ == AppErrorView::BadRequest("该轮次结果已选定，不可删除"@)),
        passed@ == "pending"@ && question_count > 0 ==> (r matches Err(e) && e@ == AppErrorView::BadRequest(
            "该轮次下还有 "@ + signed_decimal(question_count as int) + " 道题目，请先处理后再删除"@,
        )),
{
    if !str_eq(passed, "pending") {
        return Err(AppError::BadRequest(owned("该轮次结果已选定，不可删除")));
    }
    if question_count > 0 {
        let mut c: Vec<char> = Vec::new();
        extend_chars(&mut c, "该轮次下还有 ");
        push_signed_decimal(&mut c, question_count);
        extend_chars(&mut c, " 道题目，请先处理后再删除");
        return Err(AppError::BadRequest(string_of(&c)));
    }
    Ok(())
}

} // verus!
