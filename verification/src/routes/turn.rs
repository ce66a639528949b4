//! Planning of one interview turn: what the candidate's action means given
//! the message history, which question it answers, whether the session
//! closes, and the instruction handed to the model for the reply.
use vstd::prelude::*;

use crate::error::{AppError, AppErrorView};
use crate::context_manager::Turn;
use crate::json::{i64_of, member, str_of, Json, JsonView};
use crate::routes::drill_setup::texts_of;
use crate::routes::drills::{chain_error_spec, looks_like_chain_error};
use crate::text::{chars_of, opt_str_view, opt_view, owned, str_eq, string_of, trim, trim_chars};

verus! {

/// A drill message as turn planning reads it.
#[derive(Debug, Clone, PartialEq)]
pub struct TurnMsg {
    /// `ai` or `user`.
    pub role: String,
    /// `question`, `probe`, `answer`, `start`, `control`, `summary`, ...
    pub kind: String,
    pub content: String,
    pub intent: Option<String>,
}

pub struct TurnMsgV {
    pub role: Seq<char>,
    pub kind: Seq<char>,
    pub content: Seq<char>,
    pub intent: Option<Seq<char>>,
}

impl View for TurnMsg {
    type V = TurnMsgV;

    open spec fn view(&self) -> TurnMsgV {
        TurnMsgV { role: self.role@, kind: self.kind@, content: self.content@, intent: opt_view(self.intent) }
    }
}

/// The views of a message list.
pub open spec fn msgs_view(ms: Seq<TurnMsg>) -> Seq<TurnMsgV> {
    ms.map_values(|m: TurnMsg| m@)
}

/// The message classes that turn planning looks for.
#[derive(Debug, Clone, Copy, PartialEq, Eq)]
pub enum MsgClass {
    /// An interviewer question or probe.
    Question,
    /// A candidate answer.
    Answer,
    /// An interviewer main question.
    MainQuestion,
    /// Any question or probe, whoever sent it.
    Asked,
    /// A probe, or a question sent with the follow-up intent.
    ProbeMark,
    /// An interviewer probe, or an interviewer message with the follow-up intent.
    AiProbe,
    /// The candidate's start message or an answer.
    Opening,
}

pub open spec fn in_class(c: MsgClass, m: TurnMsgV) -> bool {
    match c {
        MsgClass::Question => m.role == "ai"@ && (m.kind == "question"@ || m.kind == "probe"@),
        MsgClass::Answer => m.role == "user"@ && m.kind == "answer"@,
        MsgClass::MainQuestion => m.role == "ai"@ && m.kind == "question"@,
        MsgClass::Asked => m.kind == "question"@ || m.kind == "probe"@,
        MsgClass::ProbeMark => m.kind == "probe"@ || (m.kind == "question"@ && m.intent == Some("followup_probe"@)),
        MsgClass::AiProbe => m.role == "ai"@ && (m.kind == "probe"@ || m.intent == Some("followup_probe"@)),
        MsgClass::Opening => m.role == "user"@ && (m.kind == "start"@ || m.kind == "answer"@),
    }
}

/// Index of the last message of the class before position `hi`.
pub open spec fn last_before(ms: Seq<TurnMsgV>, hi: int, c: MsgClass) -> Option<int>
    decreases hi,
{
    if hi <= 0 || hi > ms.len() {
        None
    } else if in_class(c, ms[hi - 1]) {
        Some(hi - 1)
    } else {
        last_before(ms, hi - 1, c)
    }
}

/// Index of the first message of the class at or after position `lo`.
pub open spec fn first_from(ms: Seq<TurnMsgV>, lo: int, c: MsgClass) -> Option<int>
    decreases ms.len() - lo,
{
    if lo < 0 || lo >= ms.len() {
        None
    } else if in_class(c, ms[lo]) {
        Some(lo)
    } else {
        first_from(ms, lo + 1, c)
    }
}

/// Number of messages of the class at or after position `lo`.
pub open spec fn count_from(ms: Seq<TurnMsgV>, lo: int, c: MsgClass) -> nat
    decreases ms.len() - lo,
{
    if lo < 0 || lo >= ms.len() {
        0
    } else {
        (if in_class(c, ms[lo]) {
            1nat
        } else {
            0nat
        }) + count_from(ms, lo + 1, c)
    }
}

pub open spec fn as_index(r: Option<usize>) -> Option<int> {
    match r {
        Some(i) => Some(i as int),
        None => None,
    }
}

pub proof fn lemma_last_before_bounds(ms: Seq<TurnMsgV>, hi: int, c: MsgClass)
    ensures
        last_before(ms, hi, c) matches Some(i) ==> 0 <= i < hi && i < ms.len() && in_class(c, ms[i]),
    decreases hi,
{
    if hi > 0 && hi <= ms.len() && !in_class(c, ms[hi - 1]) {
        lemma_last_before_bounds(ms, hi - 1, c);
    }
}

pub proof fn lemma_first_from_bounds(ms: Seq<TurnMsgV>, lo: int, c: MsgClass)
    ensures
        first_from(ms, lo, c) matches Some(i) ==> lo <= i < ms.len() && in_class(c, ms[i]),
    decreases ms.len() - lo,
{
    if lo >= 0 && lo < ms.len() && !in_class(c, ms[lo]) {
        lemma_first_from_bounds(ms, lo + 1, c);
    }
}

pub proof fn lemma_count_from_bound(ms: Seq<TurnMsgV>, lo: int, c: MsgClass)
    requires
        0 <= lo,
    ensures
        count_from(ms, lo, c) <= if lo <= ms.len() {
            ms.len() - lo
        } else {
            0
        },
    decreases ms.len() - lo,
{
    if lo < ms.len() {
        lemma_count_from_bound(ms, lo + 1, c);
    }
}

/// Whether a message is of the class.
pub fn in_class_exec(c: MsgClass, m: &TurnMsg) -> (r: bool)
    ensures
        r == in_class(c, m@),
{
    match c {
        MsgClass::Question => str_eq(m.role.as_str(), "ai") && (str_eq(m.kind.as_str(), "question") || str_eq(
            m.kind.as_str(),
            "probe",
        )),
        MsgClass::Answer => str_eq(m.role.as_str(), "user") && str_eq(m.kind.as_str(), "answer"),
        MsgClass::MainQuestion => str_eq(m.role.as_str(), "ai") && str_eq(m.kind.as_str(), "question"),
        MsgClass::Asked => str_eq(m.kind.as_str(), "question") || str_eq(m.kind.as_str(), "probe"),
        MsgClass::ProbeMark => str_eq(m.kind.as_str(), "probe") || (str_eq(m.kind.as_str(), "question")
            && intent_is_probe(m)),
        MsgClass::AiProbe => str_eq(m.role.as_str(), "ai") && (str_eq(m.kind.as_str(), "probe") || intent_is_probe(
            m,
        )),
        MsgClass::Opening => str_eq(m.role.as_str(), "user") && (str_eq(m.kind.as_str(), "start") || str_eq(
            m.kind.as_str(),
            "answer",
        )),
    }
}

fn intent_is_probe(m: &TurnMsg) -> (r: bool)
    ensures
        r == (m@.intent == Some("followup_probe"@)),
{
    match &m.intent {
        Some(i) => str_eq(i.as_str(), "followup_probe"),
        None => false,
    }
}

/// Index of the last message of the class before position `hi` (`rposition`).
pub fn last_index_before(ms: &[TurnMsg], hi: usize, c: MsgClass) -> (r: Option<usize>)
    requires
        hi <= ms@.len(),
    ensures
        as_index(r) == last_before(msgs_view(ms@), hi as int, c),
{
    let ghost v = msgs_view(ms@);
    let mut j: usize = hi;
    while j > 0
        invariant
            j <= hi <= ms@.len(),
            v == msgs_view(ms@),
            last_before(v, hi as int, c) == last_before(v, j as int, c),
        decreases j,
    {
        if in_class_exec(c, &ms[j - 1]) {
            return Some(j - 1);
        }
        j -= 1;
    }
    None
}

/// Index of the first message of the class at or after position `lo` (`position`).
pub fn first_index_from(ms: &[TurnMsg], lo: usize, c: MsgClass) -> (r: Option<usize>)
    ensures
        as_index(r) == first_from(msgs_view(ms@), lo as int, c),
{
    let ghost v = msgs_view(ms@);
    let mut j: usize = lo;
    while j < ms.len()
        invariant
            lo <= j,
            v == msgs_view(ms@),
            first_from(v, lo as int, c) == first_from(v, j as int, c),
        decreases ms@.len() - j,
    {
        if in_class_exec(c, &ms[j]) {
            return Some(j);
        }
        j += 1;
    }
    None
}

/// Number of messages of the class at or after position `lo`.
pub fn count_class_from(ms: &[TurnMsg], lo: usize, c: MsgClass) -> (r: usize)
    ensures
        r == count_from(msgs_view(ms@), lo as int, c),
{
    let ghost v = msgs_view(ms@);
    if lo >= ms.len() {
        return 0;
    }
    let mut n: usize = 0;
    let mut j: usize = lo;
    while j < ms.len()
        invariant
            lo <= j <= ms@.len(),
            v == msgs_view(ms@),
            count_from(v, lo as int, c) == n + count_from(v, j as int, c),
            n <= j - lo,
        decreases ms@.len() - j,
    {
        if in_class_exec(c, &ms[j]) {
            n += 1;
        }
        j += 1;
    }
    n
}

/// What the reply of the turn is meant to be.
#[derive(Debug, Clone, Copy, PartialEq, Eq)]
pub enum TurnIntent {
    Summary,
    Hint,
    Skip,
    MainQuestion,
    FollowupProbe,
}

impl TurnIntent {
    /// The stored name of the intent.
    pub fn as_str(self) -> (r: &'static str)
        ensures
            r@ == intent_name(self),
    {
        match self {
            TurnIntent::Summary => "summary",
            TurnIntent::Hint => "hint",
            TurnIntent::Skip => "skip",
            TurnIntent::MainQuestion => "main_question",
            TurnIntent::FollowupProbe => "followup_probe",
        }
    }
}

pub open spec fn intent_name(i: TurnIntent) -> Seq<char> {
    match i {
        TurnIntent::Summary => "summary"@,
        TurnIntent::Hint => "hint"@,
        TurnIntent::Skip => "skip"@,
        TurnIntent::MainQuestion => "main_question"@,
        TurnIntent::FollowupProbe => "followup_probe"@,
    }
}

/// The decisions of one turn.
#[derive(Debug, Clone, Copy, PartialEq, Eq)]
pub struct TurnPlan {
    /// No question has been asked yet.
    pub first_turn: bool,
    pub hint: bool,
    pub skip: bool,
    pub finish: bool,
    /// The submitted text repeats the last answer (a resubmission).
    pub retry: bool,
    /// Index of the question this turn answers.
    pub target_question: Option<usize>,
    /// Number of answers that close the session (at least 1).
    pub target: i32,
    /// Answers given since the first question, this one included.
    pub total_answers: usize,
    /// The reply is the closing summary.
    pub to_summary: bool,
    /// Questions and probes asked so far.
    pub asked: usize,
    pub intent: TurnIntent,
    /// The reply continues the interview and grades the answer in one pass.
    pub merged: bool,
}

/// Message of the refusal of hint, skip and finish before the first question.
pub const NOT_STARTED: &'static str = "面试尚未开始，请先启动面试（action='start'）";

/// The action of the turn: the one given, else `start` on the first turn and
/// `answer` afterwards.
pub open spec fn action_of(action: Option<Seq<char>>, first_turn: bool) -> Seq<char> {
    match action {
        Some(a) => a,
        None => if first_turn {
            "start"@
        } else {
            "answer"@
        },
    }
}

/// Whether the action is refused: hint, skip or finish before the first question.
pub open spec fn turn_refused(v: Seq<TurnMsgV>, action: Option<Seq<char>>) -> bool {
    let first = last_before(v, v.len() as int, MsgClass::Question) is None;
    let act = action_of(action, first);
    first && (act == "hint"@ || act == "skip"@ || act == "finish"@)
}

/// The plan of a turn that is not refused.
pub open spec fn turn_plan(
    v: Seq<TurnMsgV>,
    action: Option<Seq<char>>,
    content: Seq<char>,
    last_answer: Option<Seq<char>>,
    target_questions: Option<i32>,
) -> TurnPlan {
    let n = v.len() as int;
    let last_q = last_before(v, n, MsgClass::Question);
    let first = last_q is None;
    let act = action_of(action, first);
    let hint = act == "hint"@;
    let skip = act == "skip"@;
    let finish = act == "finish"@;
    let retry = last_answer == Some(content) && !hint && !skip && !finish;
    let tq = if retry {
        let ans = match last_before(v, n, MsgClass::Answer) {
            Some(i) => i,
            None => 0,
        };
        match last_before(v, ans, MsgClass::Question) {
            Some(i) => Some(i),
            None => last_q,
        }
    } else {
        last_q
    };
    let valid = match first_from(v, 0, MsgClass::Question) {
        Some(i) => count_from(v, i, MsgClass::Answer) as int,
        None => 0,
    };
    let total = valid + if !hint && tq is Some && !retry {
        1int
    } else {
        0int
    };
    let target: i32 = match target_questions {
        Some(t) => if t < 1 {
            1
        } else {
            t
        },
        None => 5,
    };
    let to_summary = finish || (tq is Some && !hint && (total as i32) >= target);
    let asked = count_from(v, 0, MsgClass::Asked);
    let last_was_probe = first_from(v, 0, MsgClass::ProbeMark) is Some;
    let intent = if to_summary {
        TurnIntent::Summary
    } else if hint {
        TurnIntent::Hint
    } else if skip {
        TurnIntent::Skip
    } else if first {
        TurnIntent::MainQuestion
    } else if !last_was_probe && asked < target {
        TurnIntent::FollowupProbe
    } else {
        TurnIntent::MainQuestion
    };
    TurnPlan {
        first_turn: first,
        hint,
        skip,
        finish,
        retry,
        target_question: match tq {
            Some(i) => Some(i as usize),
            None => None,
        },
        target,
        total_answers: total as usize,
        to_summary,
        asked: asked as usize,
        intent,
        merged: tq is Some && !hint && !skip,
    }
}

/// Plans a turn from the message history (oldest first), the action given
/// (`start`, `answer`, `hint`, `skip`, `finish`), the submitted text, the text
/// of the last stored answer and the session's question target.
pub fn plan_turn(
    msgs: &[TurnMsg],
    action: Option<&str>,
    content: &str,
    last_answer: Option<&str>,
    target_questions: Option<i32>,
) -> (r: Result<TurnPlan, AppError>)
    ensures
        match r {
            Ok(p) => !turn_refused(msgs_view(msgs@), opt_str_view(action)) && p == turn_plan(
                msgs_view(msgs@),
                opt_str_view(action),
                content@,
                opt_str_view(last_answer),
                target_questions,
            ),
            Err(e) => turn_refused(msgs_view(msgs@), opt_str_view(action)) && e@ == AppErrorView::BadRequest(
                NOT_STARTED@,
            ),
        },
{
    let ghost v = msgs_view(msgs@);
    let n = msgs.len();
    let last_q = last_index_before(msgs, n, MsgClass::Question);
    let first_turn = last_q.is_none();
    let act: &str = match action {
        Some(a) => a,
        None => if first_turn {
            "start"
        } else {
            "answer"
        },
    };
    let hint = str_eq(act, "hint");
    let skip = str_eq(act, "skip");
    let finish = str_eq(act, "finish");
    if first_turn && (hint || skip || finish) {
        return Err(AppError::BadRequest(owned(NOT_STARTED)));
    }
    let same = match last_answer {
        Some(a) => str_eq(a, content),
        None => false,
    };
    let retry = same && !hint && !skip && !finish;
    let tq = if retry {
        let ans = match last_index_before(msgs, n, MsgClass::Answer) {
            Some(i) => i,
            None => 0,
        };
        proof {
            lemma_last_before_bounds(v, n as int, MsgClass::Answer);
        }
        match last_index_before(msgs, ans, MsgClass::Question) {
            Some(i) => Some(i),
            None => last_q,
        }
    } else {
        last_q
    };
    let first_q = first_index_from(msgs, 0, MsgClass::Question);
    let valid = match first_q {
        Some(i) => {
            proof {
                lemma_first_from_bounds(v, 0, MsgClass::Question);
                lemma_count_from_bound(v, i as int + 1, MsgClass::Answer);
                reveal_strlit("ai");
                reveal_strlit("user");
                assert(in_class(MsgClass::Question, v[i as int]));
                assert(v[i as int].role == "ai"@);
                assert("ai"@.len() != "user"@.len());
                assert(!in_class(MsgClass::Answer, v[i as int]));
            }
            count_class_from(msgs, i, MsgClass::Answer)
        },
        None => 0,
    };
    let cur: usize = if !hint && tq.is_some() && !retry {
        1
    } else {
        0
    };
    assert(valid + cur <= n || valid == 0);
    let total = valid + cur;
    let target: i32 = match target_questions {
        Some(t) => if t < 1 {
            1
        } else {
            t
        },
        None => 5,
    };
    let total_i = (#[verifier::truncate] (total as i32));
    let to_summary = finish || (tq.is_some() && !hint && total_i >= target);
    let asked = count_class_from(msgs, 0, MsgClass::Asked);
    let last_was_probe = first_index_from(msgs, 0, MsgClass::ProbeMark).is_some();
    let intent = if to_summary {
        TurnIntent::Summary
    } else if hint {
        TurnIntent::Hint
    } else if skip {
        TurnIntent::Skip
    } else if first_turn {
        TurnIntent::MainQuestion
    } else if !last_was_probe && asked < target as usize {
        TurnIntent::FollowupProbe
    } else {
        TurnIntent::MainQuestion
    };
    Ok(
        TurnPlan {
            first_turn,
            hint,
            skip,
            finish,
            retry,
            target_question: tq,
            target,
            total_answers: total,
            to_summary,
            asked,
            intent,
            merged: tq.is_some() && !hint && !skip,
        },
    )
}

/// What a graded answer is graded against.
#[derive(Debug, Clone, PartialEq)]
pub struct AnswerContext {
    /// The last main question (else the question answered).
    pub main_question: String,
    /// The first answer after the main question (else the submitted text).
    pub main_answer: String,
    /// The submitted text, when the main question was followed by a probe.
    pub probe_answer: Option<String>,
}

/// Position after the last main question (1 when there is none).
pub open spec fn after_main(v: Seq<TurnMsgV>) -> int {
    match last_before(v, v.len() as int, MsgClass::MainQuestion) {
        Some(i) => i + 1,
        None => 1,
    }
}

/// Collects what the answer to question `target_question` is graded against.
pub fn answer_context(msgs: &[TurnMsg], target_question: usize, content: &str) -> (r: AnswerContext)
    requires
        target_question < msgs@.len(),
    ensures
        r.main_question@ == match last_before(msgs_view(msgs@), msgs@.len() as int, MsgClass::MainQuestion) {
            Some(i) => msgs_view(msgs@)[i].content,
            None => msgs_view(msgs@)[target_question as int].content,
        },
        r.main_answer@ == match first_from(msgs_view(msgs@), after_main(msgs_view(msgs@)), MsgClass::Answer) {
            Some(j) => msgs_view(msgs@)[j].content,
            None => content@,
        },
        opt_view(r.probe_answer) == if first_from(
            msgs_view(msgs@),
            after_main(msgs_view(msgs@)),
            MsgClass::AiProbe,
        ) is Some {
            Some(content@)
        } else {
            None
        },
{
    let ghost v = msgs_view(msgs@);
    let n = msgs.len();
    let mq = last_index_before(msgs, n, MsgClass::MainQuestion);
    proof {
        lemma_last_before_bounds(v, n as int, MsgClass::MainQuestion);
    }
    let after = match mq {
        Some(i) => i + 1,
        None => 1,
    };
    let main_question = match mq {
        Some(i) => msgs[i].content.clone(),
        None => msgs[target_question].content.clone(),
    };
    let main_answer = match first_index_from(msgs, after, MsgClass::Answer) {
        Some(j) => {
            proof {
                lemma_first_from_bounds(v, after as int, MsgClass::Answer);
            }
            msgs[j].content.clone()
        },
        None => owned(content),
    };
    let probe_answer = if first_index_from(msgs, after, MsgClass::AiProbe).is_some() {
        Some(owned(content))
    } else {
        None
    };
    AnswerContext { main_question, main_answer, probe_answer }
}

/// Whether the first turn still has to record the start message: no start
/// message and no answer has been stored.
pub fn needs_start_record(msgs: &[TurnMsg]) -> (r: bool)
    ensures
        r == (first_from(msgs_view(msgs@), 0, MsgClass::Opening) is None),
{
    first_index_from(msgs, 0, MsgClass::Opening).is_none()
}

/// The control message a hint request records: the trimmed text, when any.
pub fn control_note(content: &str) -> (r: Option<String>)
    ensures
        opt_view(r) == if trim(content@).len() > 0 {
            Some(trim(content@))
        } else {
            None
        },
{
    let t = trim_chars(&chars_of(content));
    if t.len() > 0 {
        Some(string_of(&t))
    } else {
        None
    }
}

/// The plan after grading: a session with at least two answers whose latest
/// graded score is at most 25 (and not skipped) closes early.
pub open spec fn early_stop_spec(p: TurnPlan, grade_score: Option<i32>) -> TurnPlan {
    if !p.to_summary && p.total_answers >= 2 && (grade_score matches Some(s) && s <= 25 && !p.skip) {
        TurnPlan { to_summary: true, intent: TurnIntent::Summary, ..p }
    } else {
        p
    }
}

/// Applies the early close of a failing session.
pub fn early_stop(p: TurnPlan, grade_score: Option<i32>) -> (r: TurnPlan)
    ensures
        r == early_stop_spec(p, grade_score),
{
    let failing = match grade_score {
        Some(s) => s <= 25 && !p.skip,
        None => false,
    };
    if !p.to_summary && p.total_answers >= 2 && failing {
        TurnPlan { to_summary: true, intent: TurnIntent::Summary, ..p }
    } else {
        p
    }
}

/// The kind of message the reply is stored as, before the reply is parsed.
#[derive(Debug, Clone, Copy, PartialEq, Eq)]
pub enum ReplyKind {
    Summary,
    Probe,
    Hint,
    Question,
}

pub open spec fn reply_kind_spec(p: TurnPlan) -> ReplyKind {
    if p.to_summary {
        ReplyKind::Summary
    } else if p.intent == TurnIntent::FollowupProbe {
        ReplyKind::Probe
    } else if p.intent == TurnIntent::Hint {
        ReplyKind::Hint
    } else {
        ReplyKind::Question
    }
}

/// The kind the reply of a planned turn is stored as.
pub fn reply_kind(p: &TurnPlan) -> (r: ReplyKind)
    ensures
        r == reply_kind_spec(*p),
{
    if p.to_summary {
        ReplyKind::Summary
    } else {
        match p.intent {
            TurnIntent::FollowupProbe => ReplyKind::Probe,
            TurnIntent::Hint => ReplyKind::Hint,
            _ => ReplyKind::Question,
        }
    }
}

/// Instruction of the first turn.
pub const FIRST_TASK: &'static str = "请直接给出本场第一道核心面试题。严禁任何寒暄客套，严禁任何前缀解释，100%只输出题目正文本身。";

/// Second part of the two-part reply: the grading report.
pub const PROTOCOL_TAIL: &'static str = "第二段：仅当本次输出为新主问题或复盘报告时（追问轮次禁止），在正文之后另起一行输出:\n<<<REPORT>>>\n{\"tags\":[\"考点\"],\"difficulty\":3,\"ref_answer\":\"参考答案要点\",\"score\":0,\"feedback\":\"中文点评（综合分 0-100：正确性50%+完整性30%+表达清晰度20%）\"}\n其中 JSON 为对上一道主考题合并判分的结果（结合其全部追问轮次）。";

/// Notes on the hint level used.
pub const HINT_NOTE_ONE: &'static str = "\n【提示使用情况】候选人使用了 Level 1 思考方向提示：评分扣除 5~10 分独立思考分，并在点评中指出其对提示的依赖。";
pub const HINT_NOTE_TWO: &'static str = "\n【提示使用情况】候选人使用了 Level 2 核心原理提示：重点扣分（15~25）并指出依赖提示才能作答的短板。";
pub const HINT_NOTE_THREE: &'static str = "\n【提示使用情况】候选人完整使用了 Level 3 关键解法提示：本题综合得分上限不超过 60 分，并严肃指出严重依赖答案提示的问题。";

/// First part of the closing reply: the full review.
pub const SUMMARY_PART: &'static str = "本场考核已达标收尾。第一段改为输出全场综合复盘报告 Markdown，结构如下：\n# 🎯 模拟面试全场综合复盘报告\n## 📊 一、综合表现评级与总评（总评等级 S/A/B/C 四选一 + 核心能力画像）\n## 🌟 二、答题亮点剖析\n## ⚠️ 三、主要短板与破绽漏洞\n## 🚀 四、靶向强化建议与行动指南";

/// First part of a continuing reply: a probe or a new question.
pub const CONTINUE_PART: &'static str = "第一段：通读候选人本题全部作答后自主判断——若存在值得深挖的破绽/含糊处，输出一道深入底层原理、高并发边界或破绽细节的追问题干，并在其前单独一行输出 <<<PROBE>>>{\"anchor_keyword\":\"锚点关键词\",\"reason\":\"枚举值\"}（reason 仅限 depth_probe/clarification/edge_case/contradiction/breadth_pivot 五选一）；否则直接输出一道全新核心面试题正文（不与对话历史重复）。此段严禁任何点评与寒暄。";

/// Instruction of a hint request.
pub const HINT_TASK: &'static str = "【三级阶梯式提示】候选人思路卡壳请求提示。请严格按照以下三层结构给出提示（每层必须严格以指定 markdown 标题开头，供系统分级解析展示）：\n### Level 1: 思考方向\n[给出 1~2 句话的思考维度与切入点引导，启发思考，严禁透露具体实现]\n\n### Level 2: 核心原理\n[给出 1~2 句话的关键机制、底层数据结构或技术选型要点]\n\n### Level 3: 关键解法\n[给出核心算法逻辑、关键伪代码骨架或架构设计完整闭环要点]";

/// Instruction of a skipped question.
pub const SKIP_TASK: &'static str = "【跳过公布答案】候选人跳过本题。请用 2-3 句话简要给出本题的核心标准答案要点，然后立刻给出下一道核心面试题。";

/// Instruction of any other turn: a new question.
pub const NEXT_TASK: &'static str = "【切换新考点】请直接提出下一道全新核心面试题（不要与对话历史中已出的题重复）。";

/// The note on the hint level the candidate used (empty for none).
pub open spec fn hint_note_spec(hint_level: Option<i32>) -> Seq<char> {
    match hint_level {
        Some(1) => HINT_NOTE_ONE@,
        Some(2) => HINT_NOTE_TWO@,
        Some(3) => HINT_NOTE_THREE@,
        _ => Seq::empty(),
    }
}

/// The instruction of the turn: the first question, the two-part reply to an
/// answer (continuation or closing summary, then the grading report), the
/// three-level hint, the answer of a skipped question, or a new question.
pub open spec fn task_spec(p: TurnPlan, hint_level: Option<i32>) -> Seq<char> {
    if p.first_turn {
        FIRST_TASK@
    } else if p.merged {
        "【回答处理·两段式】候选人已提交回答。请严格按以下两段输出：\n"@ + (if p.to_summary {
            SUMMARY_PART@
        } else {
            CONTINUE_PART@
        }) + "\n"@ + PROTOCOL_TAIL@ + hint_note_spec(hint_level)
    } else if p.hint {
        HINT_TASK@
    } else if p.skip {
        SKIP_TASK@
    } else {
        NEXT_TASK@
    }
}

/// Once a question has been asked, a skip is instructed to give the skipped
/// question's key points and then the next question (`SKIP_TASK`), and a hint
/// request gets the three-level hint (`HINT_TASK`); neither is refused.
pub proof fn lemma_skip_and_hint_instructions(
    v: Seq<TurnMsgV>,
    content: Seq<char>,
    last_answer: Option<Seq<char>>,
    target_questions: Option<i32>,
    hint_level: Option<i32>,
)
    requires
        last_before(v, v.len() as int, MsgClass::Question) is Some,
    ensures
        !turn_refused(v, Some("skip"@)),
        task_spec(turn_plan(v, Some("skip"@), content, last_answer, target_questions), hint_level) == SKIP_TASK@,
        !turn_refused(v, Some("hint"@)),
        task_spec(turn_plan(v, Some("hint"@), content, last_answer, target_questions), hint_level) == HINT_TASK@,
{
    reveal_strlit("skip");
    reveal_strlit("hint");
    assert("skip"@[0] != "hint"@[0]);
}

/// The plain next-question instruction (`NEXT_TASK`) is given only to a turn
/// that is neither the first, nor an answer graded in the same reply, nor a
/// hint, nor a skip.
pub proof fn lemma_next_task_only_plain(p: TurnPlan, hint_level: Option<i32>)
    ensures
        task_spec(p, hint_level) == NEXT_TASK@ ==> !p.first_turn && !p.merged && !p.hint && !p.skip,
{
    reveal_strlit("【切换新考点】请直接提出下一道全新核心面试题（不要与对话历史中已出的题重复）。");
    assert(NEXT_TASK@ == "【切换新考点】请直接提出下一道全新核心面试题（不要与对话历史中已出的题重复）。"@);
    reveal_strlit("请直接给出本场第一道核心面试题。严禁任何寒暄客套，严禁任何前缀解释，100%只输出题目正文本身。");
    assert(FIRST_TASK@ == "请直接给出本场第一道核心面试题。严禁任何寒暄客套，严禁任何前缀解释，100%只输出题目正文本身。"@);
    reveal_strlit("【三级阶梯式提示】候选人思路卡壳请求提示。请严格按照以下三层结构给出提示（每层必须严格以指定 markdown 标题开头，供系统分级解析展示）：\n### Level 1: 思考方向\n[给出 1~2 句话的思考维度与切入点引导，启发思考，严禁透露具体实现]\n\n### Level 2: 核心原理\n[给出 1~2 句话的关键机制、底层数据结构或技术选型要点]\n\n### Level 3: 关键解法\n[给出核心算法逻辑、关键伪代码骨架或架构设计完整闭环要点]");
    assert(HINT_TASK@ == "【三级阶梯式提示】候选人思路卡壳请求提示。请严格按照以下三层结构给出提示（每层必须严格以指定 markdown 标题开头，供系统分级解析展示）：\n### Level 1: 思考方向\n[给出 1~2 句话的思考维度与切入点引导，启发思考，严禁透露具体实现]\n\n### Level 2: 核心原理\n[给出 1~2 句话的关键机制、底层数据结构或技术选型要点]\n\n### Level 3: 关键解法\n[给出核心算法逻辑、关键伪代码骨架或架构设计完整闭环要点]"@);
    reveal_strlit("【跳过公布答案】候选人跳过本题。请用 2-3 句话简要给出本题的核心标准答案要点，然后立刻给出下一道核心面试题。");
    assert(SKIP_TASK@ == "【跳过公布答案】候选人跳过本题。请用 2-3 句话简要给出本题的核心标准答案要点，然后立刻给出下一道核心面试题。"@);
    reveal_strlit("【回答处理·两段式】候选人已提交回答。请严格按以下两段输出：\n");
    let t = task_spec(p, hint_level);
    if t == NEXT_TASK@ {
        assert(NEXT_TASK@[1] == '切');
        if p.first_turn {
            assert(FIRST_TASK@[0] != NEXT_TASK@[0]);
        } else if p.merged {
            let a = "【回答处理·两段式】候选人已提交回答。请严格按以下两段输出：\n"@;
            let rest = (if p.to_summary {
                SUMMARY_PART@
            } else {
                CONTINUE_PART@
            }) + "\n"@ + PROTOCOL_TAIL@ + hint_note_spec(hint_level);
            assert(t =~= a + rest);
            assert((a + rest)[1] == a[1]);
            assert(a[1] == '回');
        } else if p.hint {
            assert(HINT_TASK@[1] != NEXT_TASK@[1]);
        } else if p.skip {
            assert(SKIP_TASK@[1] != NEXT_TASK@[1]);
        }
    }
}

/// Builds the instruction of a planned turn.
pub fn turn_task(p: &TurnPlan, hint_level: Option<i32>) -> (r: String)
    ensures
        r@ == task_spec(*p, hint_level),
{
    if p.first_turn {
        owned(FIRST_TASK)
    } else if p.merged {
        let mut t = owned("【回答处理·两段式】候选人已提交回答。请严格按以下两段输出：\n");
        if p.to_summary {
            t.append(SUMMARY_PART);
        } else {
            t.append(CONTINUE_PART);
        }
        t.append("\n");
        t.append(PROTOCOL_TAIL);
        match hint_level {
            Some(1) => t.append(HINT_NOTE_ONE),
            Some(2) => t.append(HINT_NOTE_TWO),
            Some(3) => t.append(HINT_NOTE_THREE),
            _ => {
                assert(t@ + Seq::<char>::empty() == t@);
            },
        }
        t
    } else if p.hint {
        owned(HINT_TASK)
    } else if p.skip {
        owned(SKIP_TASK)
    } else {
        owned(NEXT_TASK)
    }
}

/// The history turn a message contributes: questions and probes as the
/// interviewer's, answers as the candidate's, nothing for the rest.
pub open spec fn turn_of(m: TurnMsgV) -> Seq<(Seq<char>, Seq<char>)> {
    if in_class(MsgClass::Question, m) {
        seq![("ai"@, "【面试官提问】"@ + m.content)]
    } else if in_class(MsgClass::Answer, m) {
        seq![("user"@, "【候选人回答】"@ + m.content)]
    } else {
        Seq::empty()
    }
}

pub open spec fn history_spec(v: Seq<TurnMsgV>) -> Seq<(Seq<char>, Seq<char>)>
    decreases v.len(),
{
    if v.len() == 0 {
        Seq::empty()
    } else {
        history_spec(v.drop_last()) + turn_of(v.last())
    }
}

/// The conversation history handed to the context assembly.
pub fn history_turns(msgs: &[TurnMsg]) -> (r: Vec<Turn>)
    ensures
        r@.map_values(|t: Turn| t@) == history_spec(msgs_view(msgs@)),
{
    let ghost v = msgs_view(msgs@);
    let mut out: Vec<Turn> = Vec::new();
    let mut i: usize = 0;
    while i < msgs.len()
        invariant
            i <= msgs@.len(),
            v == msgs_view(msgs@),
            out@.map_values(|t: Turn| t@) == history_spec(v.take(i as int)),
        decreases msgs@.len() - i,
    {
        proof {
            assert(v.take(i + 1).drop_last() =~= v.take(i as int));
        }
        let m = &msgs[i];
        let ghost before = out@.map_values(|t: Turn| t@);
        if in_class_exec(MsgClass::Question, m) {
            let mut c = owned("【面试官提问】");
            c.append(m.content.as_str());
            out.push(Turn { role: owned("ai"), content: c });
            assert(out@.map_values(|t: Turn| t@) =~= before + turn_of(v[i as int]));
        } else if in_class_exec(MsgClass::Answer, m) {
            let mut c = owned("【候选人回答】");
            c.append(m.content.as_str());
            out.push(Turn { role: owned("user"), content: c });
            assert(out@.map_values(|t: Turn| t@) =~= before + turn_of(v[i as int]));
        } else {
            assert(before + turn_of(v[i as int]) =~= before);
        }
        i += 1;
    }
    assert(v.take(msgs@.len() as int) =~= v);
    out
}

/// The persona prefix of the session context: the trimmed persona prompt,
/// followed by its focus tags when there are any.
pub open spec fn persona_prefix_spec(prompt: Option<Seq<char>>, focus: Option<Seq<char>>) -> Option<Seq<char>> {
    match prompt {
        Some(p) => Some(
            trim(p) + match focus {
                Some(f) => if f.len() > 0 {
                    "\n考察侧重："@ + f
                } else {
                    Seq::empty()
                },
                None => Seq::empty(),
            },
        ),
        None => None,
    }
}

/// Builds the persona prefix.
pub fn persona_prefix(prompt: Option<&str>, focus: Option<&str>) -> (r: Option<String>)
    ensures
        opt_view(r) == persona_prefix_spec(opt_str_view(prompt), opt_str_view(focus)),
{
    match prompt {
        Some(p) => {
            let mut s = string_of(&trim_chars(&chars_of(p)));
            match focus {
                Some(f) => {
                    if chars_of(f).len() > 0 {
                        s.append("\n考察侧重：");
                        s.append(f);
                    } else {
                        assert(s@ + Seq::<char>::empty() == s@);
                    }
                },
                None => {
                    assert(s@ + Seq::<char>::empty() == s@);
                },
            }
            Some(s)
        },
        None => None,
    }
}

/// A planned turn closes the session exactly when its intent is the summary,
/// before and after the early close of a failing session.
pub proof fn lemma_summary_iff_intent(
    v: Seq<TurnMsgV>,
    action: Option<Seq<char>>,
    content: Seq<char>,
    last_answer: Option<Seq<char>>,
    target_questions: Option<i32>,
    grade_score: Option<i32>,
)
    ensures
        turn_plan(v, action, content, last_answer, target_questions).to_summary <==> turn_plan(
            v,
            action,
            content,
            last_answer,
            target_questions,
        ).intent == TurnIntent::Summary,
        early_stop_spec(turn_plan(v, action, content, last_answer, target_questions), grade_score).to_summary
            <==> early_stop_spec(
            turn_plan(v, action, content, last_answer, target_questions),
            grade_score,
        ).intent == TurnIntent::Summary,
{
}

/// An accepted finish request always closes the session.
pub proof fn lemma_finish_closes(
    v: Seq<TurnMsgV>,
    content: Seq<char>,
    last_answer: Option<Seq<char>>,
    target_questions: Option<i32>,
)
    ensures
        turn_plan(v, Some("finish"@), content, last_answer, target_questions).to_summary,
{
}

/// A hint request neither closes the session nor grades an answer, and it is
/// refused exactly before the first question.
pub proof fn lemma_hint_keeps_open(
    v: Seq<TurnMsgV>,
    content: Seq<char>,
    last_answer: Option<Seq<char>>,
    target_questions: Option<i32>,
)
    ensures
        turn_refused(v, Some("hint"@)) <==> last_before(v, v.len() as int, MsgClass::Question) is None,
        !turn_plan(v, Some("hint"@), content, last_answer, target_questions).to_summary,
        turn_plan(v, Some("hint"@), content, last_answer, target_questions).intent == TurnIntent::Hint,
        !turn_plan(v, Some("hint"@), content, last_answer, target_questions).merged,
{
    reveal_strlit("hint");
    reveal_strlit("skip");
    reveal_strlit("finish");
    assert("hint"@ != "finish"@ && "hint"@ != "skip"@) by {
        assert("hint"@.len() != "finish"@.len());
        assert("hint"@[0] != "skip"@[0]);
    }
}

/// A resubmitted answer (the same text as the last stored answer) is a retry
/// and is not counted a second time.
pub proof fn lemma_retry_not_counted(
    v: Seq<TurnMsgV>,
    content: Seq<char>,
    target_questions: Option<i32>,
)
    requires
        v.len() <= usize::MAX,
    ensures
        turn_plan(v, Some("answer"@), content, Some(content), target_questions).retry,
        turn_plan(v, Some("answer"@), content, Some(content), target_questions).total_answers as int == match first_from(
            v,
            0,
            MsgClass::Question,
        ) {
            Some(i) => count_from(v, i, MsgClass::Answer) as int,
            None => 0,
        },
{
    reveal_strlit("answer");
    reveal_strlit("hint");
    reveal_strlit("skip");
    reveal_strlit("finish");
    assert("answer"@.len() != "hint"@.len() && "answer"@.len() != "skip"@.len() && "answer"@ != "finish"@) by {
        assert("answer"@[0] != "finish"@[0]);
    }
    let n = v.len() as int;
    let valid = match first_from(v, 0, MsgClass::Question) {
        Some(i) => count_from(v, i, MsgClass::Answer) as int,
        None => 0,
    };
    lemma_first_from_bounds(v, 0, MsgClass::Question);
    if let Some(i) = first_from(v, 0, MsgClass::Question) {
        lemma_count_from_bound(v, i, MsgClass::Answer);
    }
    assert(0 <= valid <= usize::MAX);
}

/// The grading report that closes a two-part reply, as stored.
#[derive(Debug, Clone, PartialEq)]
pub struct InlineReport {
    pub score: Option<i32>,
    pub feedback: String,
    pub difficulty: Option<i32>,
    pub ref_answer: String,
    pub tags: Vec<String>,
}

/// An integer member narrowed to `i32` (`as_i64` then `as i32`).
pub open spec fn narrow_member(r: JsonView, key: Seq<char>) -> Option<i32> {
    match member(r, key) {
        Some(x) => match i64_of(x) {
            Some(v) => Some(v as i32),
            None => None,
        },
        None => None,
    }
}

/// A string member, empty when absent or not a string.
pub open spec fn text_or_blank(r: JsonView, key: Seq<char>) -> Seq<char> {
    match str_of(member(r, key)) {
        Some(t) => t,
        None => Seq::empty(),
    }
}

/// A list of strings (`from_value::<Vec<String>>`, empty on any other value).
pub open spec fn string_list(v: Option<JsonView>) -> Seq<Seq<char>> {
    match v {
        Some(JsonView::Array(a)) => if forall|i: int| 0 <= i < a.len() ==> #[trigger] a[i] is Str {
            texts_of(a)
        } else {
            Seq::empty()
        },
        _ => Seq::empty(),
    }
}

fn narrow(r: &Json, key: &str) -> (v: Option<i32>)
    ensures
        v == narrow_member(r@, key@),
{
    match r.get(key) {
        Some(x) => match x.as_i64() {
            Some(n) => Some(#[verifier::truncate] (n as i32)),
            None => None,
        },
        None => None,
    }
}

fn text_or_blank_of(r: &Json, key: &str) -> (t: String)
    ensures
        t@ == text_or_blank(r@, key@),
{
    match r.get(key) {
        Some(x) => match x.as_str() {
            Some(s) => s.clone(),
            None => String::new(),
        },
        None => String::new(),
    }
}

fn string_list_of(v: Option<&Json>) -> (r: Vec<String>)
    ensures
        r@.map_values(|s: String| s@) == string_list(
            match v {
                Some(j) => Some(j@),
                None => None,
            },
        ),
{
    let a = match v {
        Some(j) => match j.as_array() {
            Some(a) => a,
            None => {
                return Vec::new();
            },
        },
        None => {
            return Vec::new();
        },
    };
    let ghost av = v.unwrap()@->Array_0;
    let ghost vv = match v {
        Some(j) => Some(j@),
        None => None,
    };
    assert(vv == Some(JsonView::Array(av)));
    let mut out: Vec<String> = Vec::new();
    let mut i: usize = 0;
    while i < a.len()
        invariant
            vv == Some(JsonView::Array(av)),
            vv == match v {
                Some(j) => Some(j@),
                None => None,
            },
            i <= a@.len(),
            a@.len() == av.len(),
            forall|t: int| 0 <= t < a@.len() ==> #[trigger] a@[t]@ == av[t],
            forall|t: int| 0 <= t < i ==> #[trigger] av[t] is Str,
            out@.map_values(|s: String| s@) == texts_of(av.take(i as int)),
        decreases a@.len() - i,
    {
        proof {
            assert(av.take(i + 1).drop_last() =~= av.take(i as int));
            assert(av.take(i + 1).last() == a@[i as int]@);
        }
        let ghost before = out@.map_values(|s: String| s@);
        match a[i].as_str() {
            Some(s) => {
                out.push(s.clone());
                assert(out@.map_values(|s: String| s@) =~= before.push(s@));
            },
            None => {
                assert(!(av[i as int] is Str));
                return Vec::new();
            },
        }
        i += 1;
    }
    assert(av.take(av.len() as int) =~= av);
    out
}

/// Reads the grading report of a two-part reply: score and difficulty as
/// integers narrowed to `i32`, feedback and reference answer (empty when
/// missing) and the tags (empty unless a list of strings).
pub fn inline_report(report: &Json) -> (r: InlineReport)
    ensures
        r.score == narrow_member(report@, "score"@),
        r.feedback@ == text_or_blank(report@, "feedback"@),
        r.difficulty == narrow_member(report@, "difficulty"@),
        r.ref_answer@ == text_or_blank(report@, "ref_answer"@),
        r.tags@.map_values(|s: String| s@) == string_list(member(report@, "tags"@)),
{
    let tags = string_list_of(report.get("tags"));
    InlineReport {
        score: narrow(report, "score"),
        feedback: text_or_blank_of(report, "feedback"),
        difficulty: narrow(report, "difficulty"),
        ref_answer: text_or_blank_of(report, "ref_answer"),
        tags,
    }
}

/// The answer stored with an analysis: the main answer unless it is blank.
pub fn answer_snapshot(main_answer: &str) -> (r: Option<String>)
    ensures
        opt_view(r) == if trim(main_answer@).len() > 0 {
            Some(main_answer@)
        } else {
            None
        },
{
    if trim_chars(&chars_of(main_answer)).len() > 0 {
        Some(owned(main_answer))
    } else {
        None
    }
}

/// The stored response a turn chains onto: the drill's last response id, and
/// only when the model may store requests.
pub fn chain_base(store: bool, last_response: Option<String>) -> (r: Option<String>)
    ensures
        r == if store {
            last_response
        } else {
            None
        },
{
    if store {
        last_response
    } else {
        None
    }
}

/// A streaming error of a chained request that arrives before any text and
/// reads as a chain error makes the turn fall back to a full replay (once);
/// any other error is reported to the client.
pub fn degrades_on_error(chained: bool, text_so_far: &str, message: &str) -> (r: bool)
    ensures
        r == (chained && text_so_far@.len() == 0 && chain_error_spec(message@)),
{
    chained && chars_of(text_so_far).len() == 0 && looks_like_chain_error(message)
}

} // verus!
