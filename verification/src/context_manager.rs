//! Session context assembly for conversational drills.
//!
//! Layers (trimmed from the bottom up when close to the limits):
//! 1. persona prefix (never trimmed)
//! 2. interviewer notes (never trimmed)
//! 3. the last three turns in full
//! 4. older turns, each compressed to one line
//! 5. dossier / own question bank / references (dropped in reverse order)
//! 6. the JD excerpt (capped on its own)
//!
//! Budgets are independent: the history window (recent turns plus compressed
//! lines) stays within [`HISTORY_TOKEN_BUDGET`], the JD within
//! [`JD_TOKEN_BUDGET`], and the middle blocks together within
//! [`CONTEXT_TOKEN_BUDGET`].  Tokens are estimated as half the number of
//! non-whitespace characters (rounded up).
use vstd::prelude::*;
use vstd::string::StringExecFns;

use crate::json::{array_of, member, str_of, text_or_empty, Json, JsonView};
use crate::text::{
    chars_of, count_nonws, decimal, ends_with, starts_with, extend_chars, join, join_lines, join_strings, lemma_nonws_count_le, nonws_count,
    push_chars, push_decimal, str_eq, string_of, sub_chars, trim, trim_chars,
};

verus! {

/// Token budget of the persona prefix and notes (observed only; never trimmed).
pub const PREFIX_TOKEN_BUDGET: usize = 4000;

/// Token budget of the history window (recent turns plus compressed lines).
pub const HISTORY_TOKEN_BUDGET: usize = 8000;

/// Token budget of the JD excerpt.
pub const JD_TOKEN_BUDGET: usize = 1000;

/// Token budget of the middle blocks (dossier, question bank, references) together.
pub const CONTEXT_TOKEN_BUDGET: usize = 3000;

/// Number of most recent turns kept in full.
pub const RECENT_FULL_TURNS: usize = 3;

/// One conversation turn; `role` is `ai` or `user`.
#[derive(Debug, Clone, PartialEq)]
pub struct Turn {
    pub role: String,
    pub content: String,
}

impl View for Turn {
    type V = (Seq<char>, Seq<char>);

    open spec fn view(&self) -> (Seq<char>, Seq<char>) {
        (self.role@, self.content@)
    }
}

/// Raw blocks of a session.
#[derive(Default)]
pub struct SessionInput<'a> {
    /// Persona prompt; `None` is the classic mode.
    pub persona_prefix: Option<&'a str>,
    /// Interviewer notes document.
    pub notes: Option<&'a Json>,
    pub dossier: Option<&'a Json>,
    pub references: Option<&'a str>,
    pub bank_lines: &'a [String],
    pub jd_text: Option<&'a str>,
    /// Conversation turns in time order.
    pub turns: &'a [Turn],
}

/// Assembled session: stable prefix plus processed turns and token estimates.
#[derive(Debug, Clone, PartialEq)]
pub struct SessionContext {
    pub system_prefix: String,
    pub turns: Vec<Turn>,
    pub tokens_prefix: usize,
    pub tokens_history: usize,
}

/// Estimated tokens: half the non-whitespace characters, rounded up.
pub open spec fn est_tokens(s: Seq<char>) -> nat {
    ((nonws_count(s) + 1) / 2) as nat
}

/// At most `max` characters: longer text keeps `max - 1` characters and an ellipsis.
pub open spec fn cap_chars(s: Seq<char>, max: nat) -> Seq<char> {
    if s.len() <= max {
        s
    } else {
        s.take(if max >= 1 { max - 1 } else { 0 }) + "…"@
    }
}

/// Role tag of a compressed turn.
pub open spec fn turn_tag(role: Seq<char>) -> Seq<char> {
    if role == "ai"@ {
        "【面试官】"@
    } else {
        "【候选人】"@
    }
}

/// One-line compression of an older turn.
pub open spec fn compress_spec(t: (Seq<char>, Seq<char>)) -> Seq<char> {
    cap_chars(turn_tag(t.0) + trim(t.1), 80)
}

/// Turns older than the most recent three.
pub open spec fn older_part<T>(turns: Seq<T>) -> Seq<T> {
    if turns.len() > 3 {
        turns.take(turns.len() - 3)
    } else {
        Seq::empty()
    }
}

/// The most recent three turns (or all of them).
pub open spec fn recent_part<T>(turns: Seq<T>) -> Seq<T> {
    if turns.len() > 3 {
        turns.skip(turns.len() - 3)
    } else {
        turns
    }
}

/// Sum of the estimated tokens of the turn contents.
pub open spec fn turn_tokens(turns: Seq<(Seq<char>, Seq<char>)>) -> nat
    decreases turns.len(),
{
    if turns.len() == 0 {
        0
    } else {
        turn_tokens(turns.drop_last()) + est_tokens(turns.last().1)
    }
}

/// Drops the oldest compressed lines until they fit `budget` (or none are left).
pub open spec fn drop_until_fits(lines: Seq<Seq<char>>, budget: nat) -> Seq<Seq<char>>
    decreases lines.len(),
{
    if lines.len() == 0 || est_tokens(join(lines, "\n"@)) <= budget {
        lines
    } else {
        drop_until_fits(lines.drop_first(), budget)
    }
}

/// Sum of the estimated tokens of blocks.
pub open spec fn blocks_tokens(blocks: Seq<Seq<char>>) -> nat
    decreases blocks.len(),
{
    if blocks.len() == 0 {
        0
    } else {
        blocks_tokens(blocks.drop_last()) + est_tokens(blocks.last())
    }
}

/// Drops the last (lowest priority) blocks until the rest fits the budget.
pub open spec fn pop_until_fits(blocks: Seq<Seq<char>>) -> Seq<Seq<char>>
    decreases blocks.len(),
{
    if blocks.len() == 0 || blocks_tokens(blocks) <= CONTEXT_TOKEN_BUDGET {
        blocks
    } else {
        pop_until_fits(blocks.drop_last())
    }
}

/// Concatenation of blocks.
pub open spec fn concat_blocks(blocks: Seq<Seq<char>>) -> Seq<char>
    decreases blocks.len(),
{
    if blocks.len() == 0 {
        Seq::empty()
    } else {
        concat_blocks(blocks.drop_last()) + blocks.last()
    }
}

/// The non-blank string items of a notes array (kept untrimmed).
pub open spec fn note_items(a: Seq<JsonView>) -> Seq<Seq<char>>
    decreases a.len(),
{
    if a.len() == 0 {
        Seq::empty()
    } else {
        let rest = note_items(a.drop_last());
        match a.last() {
            JsonView::Str(s) => if trim(s).len() > 0 {
                rest.push(s)
            } else {
                rest
            },
            _ => rest,
        }
    }
}

/// One summary line of the notes: `- label：item；item` (empty when nothing to show).
pub open spec fn note_line(n: JsonView, label: Seq<char>, key: Seq<char>) -> Seq<char> {
    match array_of(member(n, key)) {
        Some(a) => if note_items(a).len() > 0 {
            "- "@ + label + "："@ + join(note_items(a), "；"@) + "\n"@
        } else {
            Seq::empty()
        },
        None => Seq::empty(),
    }
}

/// Header of the notes block.
pub open spec fn notes_header() -> Seq<char> {
    "【面试官笔记 (Interviewer Notes)】（课前备课结论，本场提问与追问以此为导向）：\n"@
}

/// Footer of the notes block.
pub open spec fn notes_footer() -> Seq<char> {
    "请围绕笔记中的「风险信号」与「建议追问」定向考察。\n"@
}

/// The notes block: four summary lines (missing ones skipped); `None` when all are missing.
pub open spec fn notes_spec(notes: Option<JsonView>) -> Option<Seq<char>> {
    match notes {
        None => None,
        Some(n) => {
            let body = note_line(n, "岗位要求"@, "job_requirements"@) + note_line(
                n,
                "候选人事实"@,
                "candidate_facts"@,
            ) + note_line(n, "风险信号"@, "risk_signals"@) + note_line(
                n,
                "建议追问"@,
                "next_followups"@,
            );
            if body.len() == 0 {
                None
            } else {
                Some(notes_header() + body + notes_footer())
            }
        },
    }
}

/// One numbered dossier question (`idx1` counts from 1).
pub open spec fn dossier_item(q: JsonView, idx1: nat) -> Seq<char> {
    let content = text_or_empty(str_of(member(q, "content"@)));
    let ref_answer = text_or_empty(str_of(member(q, "ref_answer"@)));
    "  "@ + decimal(idx1) + ". 题目："@ + content + "\n"@ + if ref_answer.len() > 0 {
        "     标准参考："@ + ref_answer + "\n"@
    } else {
        Seq::empty()
    }
}

/// The first `n` numbered dossier questions.
pub open spec fn dossier_items(qs: Seq<JsonView>, n: nat) -> Seq<char>
    decreases n,
{
    if n == 0 || n > qs.len() {
        Seq::empty()
    } else {
        dossier_items(qs, (n - 1) as nat) + dossier_item(qs[n - 1], n)
    }
}

/// The dossier block (focus summary and reference questions).
pub open spec fn dossier_spec(d: JsonView) -> Seq<char> {
    (match str_of(member(d, "summary"@)) {
        Some(s) => "考核侧重："@ + s + "\n"@,
        None => Seq::empty(),
    }) + match array_of(member(d, "questions"@)) {
        Some(qs) => "重点考核题目与标准参考：\n"@ + dossier_items(qs, qs.len()),
        None => Seq::empty(),
    }
}

/// The persona and notes prefix (never trimmed).
pub open spec fn prefix_spec(persona: Option<Seq<char>>, notes: Option<JsonView>) -> Seq<char> {
    "【本场信息】\n"@ + (match persona {
        Some(p) => if trim(p).len() > 0 {
            "【面试官人设】"@ + trim(p) + "\n"@
        } else {
            Seq::empty()
        },
        None => Seq::empty(),
    }) + match notes_spec(notes) {
        Some(b) => b,
        None => Seq::empty(),
    }
}

/// Budget left for the compressed lines.
pub open spec fn history_budget(recent_tokens: nat) -> nat {
    if recent_tokens >= HISTORY_TOKEN_BUDGET {
        0
    } else {
        (HISTORY_TOKEN_BUDGET - recent_tokens) as nat
    }
}

/// The compressed history lines that are kept.
pub open spec fn kept_lines(turns: Seq<(Seq<char>, Seq<char>)>) -> Seq<Seq<char>> {
    drop_until_fits(
        older_part(turns).map_values(|t: (Seq<char>, Seq<char>)| compress_spec(t)),
        history_budget(turn_tokens(recent_part(turns))),
    )
}

/// The JD block (capped at twice the JD token budget in characters).
pub open spec fn jd_spec(jd: Option<Seq<char>>) -> Seq<char> {
    match jd {
        Some(j) => if trim(j).len() > 0 {
            "【目标岗位 JD】（出题与追问以此为准）：\n"@ + cap_chars(trim(j), 2000) + "\n"@
        } else {
            Seq::empty()
        },
        None => Seq::empty(),
    }
}

/// The candidate middle blocks in priority order (dossier, bank, references).
pub open spec fn mid_candidates(
    dossier: Option<JsonView>,
    bank: Seq<Seq<char>>,
    references: Option<Seq<char>>,
) -> Seq<Seq<char>> {
    let d: Seq<Seq<char>> = match dossier {
        Some(dv) => if dossier_spec(dv).len() > 0 {
            seq![dossier_spec(dv)]
        } else {
            Seq::empty()
        },
        None => Seq::empty(),
    };
    let b: Seq<Seq<char>> = if bank.len() > 0 {
        seq!["自有题库候选（出题可优先复用或改编）：\n"@ + join(bank, "\n"@) + "\n"@]
    } else {
        Seq::empty()
    };
    let r: Seq<Seq<char>> = match references {
        Some(x) => if trim(x).len() > 0 {
            seq!["参考内容（岗位要求/面经/参考题，出题请优先参考）：\n"@ + trim(x) + "\n"@]
        } else {
            Seq::empty()
        },
        None => Seq::empty(),
    };
    d + b + r
}

/// The assembled system prefix.
pub open spec fn system_prefix_spec(
    persona: Option<Seq<char>>,
    notes: Option<JsonView>,
    dossier: Option<JsonView>,
    bank: Seq<Seq<char>>,
    references: Option<Seq<char>>,
    jd: Option<Seq<char>>,
) -> Seq<char> {
    prefix_spec(persona, notes) + concat_blocks(pop_until_fits(mid_candidates(dossier, bank, references)))
        + jd_spec(jd)
}

/// The processed turns: kept compressed lines as user turns, then the recent turns.
pub open spec fn turns_spec(turns: Seq<(Seq<char>, Seq<char>)>) -> Seq<(Seq<char>, Seq<char>)> {
    kept_lines(turns).map_values(|l: Seq<char>| ("user"@, "（历史摘要）"@ + l)) + recent_part(turns)
}

/// `drop_until_fits` keeps a suffix that fits, or nothing.
pub proof fn lemma_drop_until_fits(lines: Seq<Seq<char>>, budget: nat)
    ensures
        drop_until_fits(lines, budget).len() <= lines.len(),
        drop_until_fits(lines, budget) == lines.skip(lines.len() - drop_until_fits(lines, budget).len()),
        drop_until_fits(lines, budget).len() == 0 || est_tokens(join(drop_until_fits(lines, budget), "\n"@))
            <= budget,
    decreases lines.len(),
{
    if lines.len() == 0 || est_tokens(join(lines, "\n"@)) <= budget {
        assert(lines.skip(0) == lines);
    } else {
        lemma_drop_until_fits(lines.drop_first(), budget);
        let r = drop_until_fits(lines.drop_first(), budget);
        assert(lines.drop_first().skip(lines.drop_first().len() - r.len()) == lines.skip(
            lines.len() - r.len(),
        ));
    }
}

/// `pop_until_fits` keeps a prefix that fits the budget.
pub proof fn lemma_pop_until_fits(blocks: Seq<Seq<char>>)
    ensures
        pop_until_fits(blocks).len() <= blocks.len(),
        pop_until_fits(blocks) == blocks.take(pop_until_fits(blocks).len() as int),
        blocks_tokens(pop_until_fits(blocks)) <= CONTEXT_TOKEN_BUDGET,
    decreases blocks.len(),
{
    if blocks.len() == 0 || blocks_tokens(blocks) <= CONTEXT_TOKEN_BUDGET {
        assert(blocks.take(blocks.len() as int) == blocks);
    } else {
        lemma_pop_until_fits(blocks.drop_last());
        let r = pop_until_fits(blocks.drop_last());
        assert(blocks.drop_last().take(r.len() as int) == blocks.take(r.len() as int));
    }
}

/// Capping keeps at most `max` characters (for `max >= 1`).
pub proof fn lemma_cap_chars_len(s: Seq<char>, max: nat)
    requires
        max >= 1,
    ensures
        cap_chars(s, max).len() <= max,
{
    reveal_strlit("…");
}

/// Estimated tokens of a text.
pub fn estimate_tokens(s: &[char]) -> (r: usize)
    ensures
        r == est_tokens(s@),
        r <= s@.len(),
{
    let n = count_nonws(s);
    proof {
        lemma_nonws_count_le(s@);
    }
    if n == 0 {
        0
    } else {
        (n - 1) / 2 + 1
    }
}

/// Caps a text at `max_chars` characters, marking a cut with an ellipsis.
pub fn truncate_chars_cap(s: &[char], max_chars: usize) -> (r: Vec<char>)
    ensures
        r@ == cap_chars(s@, max_chars as nat),
{
    if s.len() <= max_chars {
        sub_chars(s, 0, s.len())
    } else {
        let keep = if max_chars >= 1 {
            max_chars - 1
        } else {
            0
        };
        let mut r = sub_chars(s, 0, keep);
        extend_chars(&mut r, "…");
        r
    }
}

/// One-line compression of an older turn (role tag, trimmed content, at most 80 characters).
pub fn compress_turn(t: &Turn) -> (r: Vec<char>)
    ensures
        r@ == compress_spec(t@),
{
    let mut line: Vec<char> = if str_eq(t.role.as_str(), "ai") {
        chars_of("【面试官】")
    } else {
        chars_of("【候选人】")
    };
    let mut body = trim_chars(&chars_of(t.content.as_str()));
    line.append(&mut body);
    truncate_chars_cap(&line, 80)
}

/// The notes line for one key.
fn note_line_exec(n: &Json, label: &str, key: &str) -> (r: Vec<char>)
    ensures
        r@ == note_line(n@, label@, key@),
{
    let mut out: Vec<char> = Vec::new();
    let arr = match n.get(key) {
        Some(x) => match x.as_array() {
            Some(a) => a,
            None => return out,
        },
        None => return out,
    };
    let ghost av = arr@.map_values(|j: Json| j@);
    assert(av == array_of(member(n@, key@))->Some_0);
    let mut joined: Vec<char> = Vec::new();
    let mut count: usize = 0;
    let mut i: usize = 0;
    while i < arr.len()
        invariant
            i <= arr@.len(),
            av == arr@.map_values(|j: Json| j@),
            count == note_items(av.take(i as int)).len(),
            joined@ == join(note_items(av.take(i as int)), "；"@),
            count <= i,
        decreases arr@.len() - i,
    {
        proof {
            assert(av.take(i + 1).drop_last() == av.take(i as int));
            assert(av.take(i + 1).last() == arr@[i as int]@);
        }
        let ghost items = note_items(av.take(i as int));
        if let Some(s) = arr[i].as_str() {
            let sc = chars_of(s.as_str());
            let t = trim_chars(&sc);
            if t.len() > 0 {
                proof {
                    assert(note_items(av.take(i + 1)) == items.push(s@));
                    assert(items.push(s@).drop_last() == items);
                }
                if count > 0 {
                    extend_chars(&mut joined, "；");
                }
                extend_chars(&mut joined, s.as_str());
                count += 1;
            }
        }
        i += 1;
    }
    assert(av.take(arr@.len() as int) == av);
    if count > 0 {
        extend_chars(&mut out, "- ");
        extend_chars(&mut out, label);
        extend_chars(&mut out, "：");
        out.append(&mut joined);
        extend_chars(&mut out, "\n");
    }
    out
}

/// Interviewer notes as a four-part summary block (missing parts skipped).
fn render_notes_block(notes: Option<&Json>) -> (r: Option<String>)
    ensures
        notes_spec(
            match notes {
                Some(n) => Some(n@),
                None => None,
            },
        ) == match r {
            Some(s) => Some(s@),
            None => None,
        },
{
    let n = match notes {
        Some(n) => n,
        None => return None,
    };
    let mut body = note_line_exec(n, "岗位要求", "job_requirements");
    let mut l2 = note_line_exec(n, "候选人事实", "candidate_facts");
    let mut l3 = note_line_exec(n, "风险信号", "risk_signals");
    let mut l4 = note_line_exec(n, "建议追问", "next_followups");
    body.append(&mut l2);
    body.append(&mut l3);
    body.append(&mut l4);
    if body.len() == 0 {
        return None;
    }
    let mut out = chars_of("【面试官笔记 (Interviewer Notes)】（课前备课结论，本场提问与追问以此为导向）：\n");
    out.append(&mut body);
    extend_chars(&mut out, "请围绕笔记中的「风险信号」与「建议追问」定向考察。\n");
    Some(string_of(&out))
}

/// The dossier block: focus summary and numbered reference questions.
fn render_dossier_block(d: &Json) -> (r: String)
    ensures
        r@ == dossier_spec(d@),
{
    let mut out: Vec<char> = Vec::new();
    if let Some(x) = d.get("summary") {
        if let Some(summary) = x.as_str() {
            extend_chars(&mut out, "考核侧重：");
            extend_chars(&mut out, summary.as_str());
            extend_chars(&mut out, "\n");
        }
    }
    let ghost first = out@;
    if let Some(x) = d.get("questions") {
        if let Some(qs) = x.as_array() {
            let ghost qv = qs@.map_values(|j: Json| j@);
            assert(qv == array_of(member(d@, "questions"@))->Some_0);
            extend_chars(&mut out, "重点考核题目与标准参考：\n");
            let ghost head = out@;
            let mut i: usize = 0;
            while i < qs.len()
                invariant
                    i <= qs@.len(),
                    qv == qs@.map_values(|j: Json| j@),
                    out@ == head + dossier_items(qv, i as nat),
                decreases qs@.len() - i,
            {
                let q = &qs[i];
                let q_text: Vec<char> = match q.get("content") {
                    Some(c) => match c.as_str() {
                        Some(s) => chars_of(s.as_str()),
                        None => Vec::new(),
                    },
                    None => Vec::new(),
                };
                let ref_ans: Vec<char> = match q.get("ref_answer") {
                    Some(c) => match c.as_str() {
                        Some(s) => chars_of(s.as_str()),
                        None => Vec::new(),
                    },
                    None => Vec::new(),
                };
                assert(qv[i as int] == q@);
                let ghost before = out@;
                extend_chars(&mut out, "  ");
                push_decimal(&mut out, (i + 1) as u64);
                extend_chars(&mut out, ". 题目：");
                let mut qt = q_text;
                out.append(&mut qt);
                extend_chars(&mut out, "\n");
                if ref_ans.len() > 0 {
                    extend_chars(&mut out, "     标准参考：");
                    let mut ra = ref_ans;
                    out.append(&mut ra);
                    extend_chars(&mut out, "\n");
                }
                assert(out@ == before + dossier_item(qv[i as int], (i + 1) as nat));
                i += 1;
            }
        }
    }
    string_of(&out)
}

/// Sum of the token estimates of turn contents.
fn recent_tokens_of(turns: &[Turn]) -> (r: usize)
    requires
        turns@.len() <= 3,
        forall|i: int| 0 <= i < turns@.len() ==> #[trigger] turns@[i].content@.len() < usize::MAX / 8,
    ensures
        r == turn_tokens(turns@.map_values(|t: Turn| t@)),
        r as int <= 3 * (usize::MAX / 8) as int,
{
    let ghost tv = turns@.map_values(|t: Turn| t@);
    let mut total: usize = 0;
    let mut i: usize = 0;
    while i < turns.len()
        invariant
            i <= turns@.len() <= 3,
            tv == turns@.map_values(|t: Turn| t@),
            forall|k: int| 0 <= k < turns@.len() ==> #[trigger] turns@[k].content@.len() < usize::MAX / 8,
            total == turn_tokens(tv.take(i as int)),
            total as int <= (if i == 0 {
                0int
            } else if i == 1 {
                (usize::MAX / 8) as int
            } else if i == 2 {
                2 * (usize::MAX / 8) as int
            } else {
                3 * (usize::MAX / 8) as int
            }),
        decreases turns@.len() - i,
    {
        proof {
            assert(tv.take(i + 1).drop_last() == tv.take(i as int));
            assert(tv.take(i + 1).last() == turns@[i as int]@);
        }
        let c = chars_of(turns[i].content.as_str());
        let t = estimate_tokens(&c);
        total = total + t;
        i += 1;
    }
    assert(tv.take(turns@.len() as int) == tv);
    total
}

/// Lines of at most 80 characters join into at most 81 characters per line.
pub proof fn lemma_join_short_lines(lines: Seq<Seq<char>>)
    requires
        forall|i: int| 0 <= i < lines.len() ==> (#[trigger] lines[i]).len() <= 80,
    ensures
        join(lines, "\n"@).len() <= 81 * lines.len(),
    decreases lines.len(),
{
    reveal_strlit("\n");
    if lines.len() > 1 {
        assert forall|i: int| 0 <= i < lines.drop_last().len() implies (#[trigger] lines.drop_last()[i]).len()
            <= 80 by {
            assert(lines.drop_last()[i] == lines[i]);
        }
        lemma_join_short_lines(lines.drop_last());
    }
}

/// The middle blocks kept by the budget, as a buffer.
fn kept_mid_blocks(blocks: &mut Vec<Vec<char>>)
    ensures
        final(blocks)@.map_values(|b: Vec<char>| b@) == pop_until_fits(
            old(blocks)@.map_values(|b: Vec<char>| b@),
        ),
{
    let ghost start = old(blocks)@.map_values(|b: Vec<char>| b@);
    loop
        invariant
            pop_until_fits(start) == pop_until_fits(blocks@.map_values(|b: Vec<char>| b@)),
        ensures
            pop_until_fits(start) == blocks@.map_values(|b: Vec<char>| b@),
        decreases blocks@.len(),
    {
        let ghost bv = blocks@.map_values(|b: Vec<char>| b@);
        let mut total: usize = 0;
        let mut i: usize = 0;
        while i < blocks.len()
            invariant
                i <= blocks@.len(),
                bv == blocks@.map_values(|b: Vec<char>| b@),
                total == (if blocks_tokens(bv.take(i as int)) > usize::MAX {
                    usize::MAX as nat
                } else {
                    blocks_tokens(bv.take(i as int))
                }),
            decreases blocks@.len() - i,
        {
            proof {
                assert(bv.take(i + 1).drop_last() == bv.take(i as int));
                assert(bv.take(i + 1).last() == blocks@[i as int]@);
            }
            let t = estimate_tokens(&blocks[i]);
            total = total.saturating_add(t);
            i += 1;
        }
        assert(bv.take(blocks@.len() as int) == bv);
        if total > CONTEXT_TOKEN_BUDGET && blocks.len() > 0 {
            blocks.pop();
            assert(blocks@.map_values(|b: Vec<char>| b@) =~= bv.drop_last());
        } else {
            assert(pop_until_fits(bv) == bv);
            break;
        }
    }
}

/// Assembles the session context in layers, trimming each layer to its own budget.
#[verifier::rlimit(40)]
#[verifier::spinoff_prover]
pub fn assemble_session(input: &SessionInput<'_>) -> (ctx: SessionContext)
    requires
        input.turns@.len() < usize::MAX / 256,
        forall|i: int| 0 <= i < input.turns@.len() ==> (#[trigger] input.turns@[i]).content@.len() < usize::MAX
            / 8,
    ensures
        ctx.system_prefix@ == system_prefix_spec(
            match input.persona_prefix {
                Some(p) => Some(p@),
                None => None,
            },
            match input.notes {
                Some(n) => Some(n@),
                None => None,
            },
            match input.dossier {
                Some(d) => Some(d@),
                None => None,
            },
            input.bank_lines@.map_values(|b: String| b@),
            match input.references {
                Some(r) => Some(r@),
                None => None,
            },
            match input.jd_text {
                Some(j) => Some(j@),
                None => None,
            },
        ),
        ctx.turns@.map_values(|t: Turn| t@) == turns_spec(input.turns@.map_values(|t: Turn| t@)),
        ctx.tokens_prefix == est_tokens(ctx.system_prefix@),
        ctx.tokens_history == turn_tokens(recent_part(input.turns@.map_values(|t: Turn| t@))) + est_tokens(
            join(kept_lines(input.turns@.map_values(|t: Turn| t@)), "\n"@),
        ),
{
    let ghost tv = input.turns@.map_values(|t: Turn| t@);
    // persona and notes: never trimmed
    let mut prefix = chars_of("【本场信息】\n");
    if let Some(p) = input.persona_prefix {
        let pt = trim_chars(&chars_of(p));
        if pt.len() > 0 {
            extend_chars(&mut prefix, "【面试官人设】");
            let mut ptc = pt;
            prefix.append(&mut ptc);
            extend_chars(&mut prefix, "\n");
        }
    }
    if let Some(notes) = render_notes_block(input.notes) {
        extend_chars(&mut prefix, notes.as_str());
    }
    let ghost persona_v = match input.persona_prefix {
        Some(p) => Some(p@),
        None => None,
    };
    let ghost notes_v = match input.notes {
        Some(n) => Some(n@),
        None => None,
    };
    assert(prefix@ == prefix_spec(persona_v, notes_v));

    // history window: recent turns in full, older ones compressed
    let n = input.turns.len();
    let split = if n > RECENT_FULL_TURNS {
        n - RECENT_FULL_TURNS
    } else {
        0
    };
    let mut compressed: Vec<Vec<char>> = Vec::new();
    let mut i: usize = 0;
    while i < split
        invariant
            i <= split <= n == input.turns@.len(),
            split == (if n > 3 { n - 3 } else { 0 }),
            tv == input.turns@.map_values(|t: Turn| t@),
            compressed@.map_values(|c: Vec<char>| c@) == tv.take(i as int).map_values(
                |t: (Seq<char>, Seq<char>)| compress_spec(t),
            ),
        decreases split - i,
    {
        let c = compress_turn(&input.turns[i]);
        let ghost before = compressed@.map_values(|c: Vec<char>| c@);
        compressed.push(c);
        proof {
            assert(tv.take(i + 1) =~= tv.take(i as int).push(tv[i as int]));
            assert(compressed@.map_values(|c: Vec<char>| c@) =~= before.push(c@));
            assert(tv.take(i + 1).map_values(|t: (Seq<char>, Seq<char>)| compress_spec(t)) =~= tv.take(
                i as int,
            ).map_values(|t: (Seq<char>, Seq<char>)| compress_spec(t)).push(compress_spec(tv[i as int])));
        }
        i += 1;
    }
    let ghost all_lines = older_part(tv).map_values(|t: (Seq<char>, Seq<char>)| compress_spec(t));
    assert(tv.take(split as int) =~= older_part(tv));
    assert(compressed@.map_values(|c: Vec<char>| c@) == all_lines);
    assert(all_lines.skip(0) =~= all_lines);
    let recent = &input.turns[split..n];
    assert(recent@ == input.turns@.subrange(split as int, n as int));
    assert(recent@.map_values(|t: Turn| t@) == recent_part(tv));
    let recent_tokens = recent_tokens_of(recent);
    let budget = HISTORY_TOKEN_BUDGET.saturating_sub(recent_tokens);
    let ghost hb = history_budget(turn_tokens(recent_part(tv)));
    assert(budget == hb);
    loop
        invariant
            drop_until_fits(all_lines, hb) == drop_until_fits(
                compressed@.map_values(|c: Vec<char>| c@),
                hb,
            ),
            budget == hb,
            compressed@.len() <= all_lines.len(),
            compressed@.map_values(|c: Vec<char>| c@) == all_lines.skip(all_lines.len() - compressed@.len()),
        ensures
            drop_until_fits(all_lines, hb) == compressed@.map_values(|c: Vec<char>| c@),
            compressed@.len() <= all_lines.len(),
            compressed@.map_values(|c: Vec<char>| c@) == all_lines.skip(all_lines.len() - compressed@.len()),
        decreases compressed@.len(),
    {
        let ghost cv = compressed@.map_values(|c: Vec<char>| c@);
        let joined = join_lines(&compressed, "\n");
        let t = estimate_tokens(&joined);
        if t > budget && compressed.len() > 0 {
            compressed.remove(0);
            proof {
                assert(compressed@.map_values(|c: Vec<char>| c@) =~= cv.drop_first());
                assert(cv.drop_first() =~= all_lines.skip(all_lines.len() - compressed@.len()));
            }
        } else {
            assert(drop_until_fits(cv, hb) == cv);
            break;
        }
    }
    let ghost kept = compressed@.map_values(|c: Vec<char>| c@);
    assert(kept == kept_lines(tv));
    let joined = join_lines(&compressed, "\n");
    proof {
        assert forall|k: int| 0 <= k < all_lines.len() implies (#[trigger] all_lines[k]).len() <= 80 by {
            lemma_cap_chars_len(older_part(tv)[k].0 + older_part(tv)[k].1, 80);
            lemma_cap_chars_len(turn_tag(older_part(tv)[k].0) + trim(older_part(tv)[k].1), 80);
        }
        assert forall|k: int| 0 <= k < kept.len() implies (#[trigger] kept[k]).len() <= 80 by {
            assert(kept[k] == all_lines[all_lines.len() - kept.len() + k]);
        }
        lemma_join_short_lines(kept);
    }
    let history_rest = estimate_tokens(&joined);
    assert(kept.len() <= all_lines.len());
    assert(all_lines.len() <= n);
    assert(history_rest <= 81 * kept.len());
    assert(recent_tokens + history_rest <= usize::MAX);
    let tokens_history = recent_tokens + history_rest;

    // JD: capped on its own
    let mut jd_block: Vec<char> = Vec::new();
    if let Some(j) = input.jd_text {
        let jt = trim_chars(&chars_of(j));
        if jt.len() > 0 {
            let cut = truncate_chars_cap(&jt, JD_TOKEN_BUDGET * 2);
            extend_chars(&mut jd_block, "【目标岗位 JD】（出题与追问以此为准）：\n");
            let mut cutv = cut;
            jd_block.append(&mut cutv);
            extend_chars(&mut jd_block, "\n");
        }
    }

    // middle blocks: dossier, bank, references (lowest priority dropped first)
    let mut mid_blocks: Vec<Vec<char>> = Vec::new();
    let ghost mut mv: Seq<Seq<char>> = Seq::empty();
    if let Some(d) = input.dossier {
        let rendered = render_dossier_block(d);
        let rc = chars_of(rendered.as_str());
        if rc.len() > 0 {
            mid_blocks.push(rc);
            proof {
                mv = mv.push(rc@);
            }
        }
    }
    assert(mid_blocks@.map_values(|b: Vec<char>| b@) =~= mv);
    if input.bank_lines.len() > 0 {
        let mut rendered = chars_of("自有题库候选（出题可优先复用或改编）：\n");
        let mut lines = join_strings(input.bank_lines, "\n");
        rendered.append(&mut lines);
        extend_chars(&mut rendered, "\n");
        let ghost rv = rendered@;
        mid_blocks.push(rendered);
        proof {
            mv = mv.push(rv);
        }
    }
    assert(mid_blocks@.map_values(|b: Vec<char>| b@) =~= mv);
    if let Some(r) = input.references {
        let rt = trim_chars(&chars_of(r));
        if rt.len() > 0 {
            let mut rendered = chars_of("参考内容（岗位要求/面经/参考题，出题请优先参考）：\n");
            let mut rtv = rt;
            rendered.append(&mut rtv);
            extend_chars(&mut rendered, "\n");
            let ghost rv = rendered@;
            mid_blocks.push(rendered);
            proof {
                mv = mv.push(rv);
            }
        }
    }
    assert(mid_blocks@.map_values(|b: Vec<char>| b@) =~= mv);
    let ghost cands = mid_candidates(
        match input.dossier {
            Some(d) => Some(d@),
            None => None,
        },
        input.bank_lines@.map_values(|b: String| b@),
        match input.references {
            Some(r) => Some(r@),
            None => None,
        },
    );
    assert(mv =~= cands);
    kept_mid_blocks(&mut mid_blocks);

    // output
    let mut turns_out: Vec<Turn> = Vec::new();
    let mut k: usize = 0;
    while k < compressed.len()
        invariant
            k <= compressed@.len(),
            kept == compressed@.map_values(|c: Vec<char>| c@),
            turns_out@.map_values(|t: Turn| t@) == kept.take(k as int).map_values(
                |l: Seq<char>| ("user"@, "（历史摘要）"@ + l),
            ),
        decreases compressed@.len() - k,
    {
        let mut content = chars_of("（历史摘要）");
        let mut line = sub_chars(&compressed[k], 0, compressed[k].len());
        content.append(&mut line);
        let ghost before = turns_out@.map_values(|t: Turn| t@);
        let new_turn = Turn { role: String::from_str("user"), content: string_of(&content) };
        assert(new_turn@ == ("user"@, "（历史摘要）"@ + kept[k as int]));
        turns_out.push(new_turn);
        proof {
            assert(kept.take(k + 1) =~= kept.take(k as int).push(kept[k as int]));
            assert(turns_out@.map_values(|t: Turn| t@) =~= before.push(new_turn@));
            assert(kept.take(k + 1).map_values(|l: Seq<char>| ("user"@, "（历史摘要）"@ + l)) =~= kept.take(
                k as int,
            ).map_values(|l: Seq<char>| ("user"@, "（历史摘要）"@ + l)).push(("user"@, "（历史摘要）"@ + kept[k as int])));
        }
        k += 1;
    }
    assert(kept.take(kept.len() as int) == kept);
    assert(recent@.map_values(|t: Turn| t@).take(0) =~= Seq::<(Seq<char>, Seq<char>)>::empty());
    let ghost hist = turns_out@.map_values(|t: Turn| t@);
    let mut r: usize = 0;
    while r < recent.len()
        invariant
            r <= recent@.len(),
            turns_out@.map_values(|t: Turn| t@) == hist + recent@.map_values(|t: Turn| t@).take(r as int),
        decreases recent@.len() - r,
    {
        let ghost before = turns_out@.map_values(|t: Turn| t@);
        let new_turn = Turn { role: recent[r].role.clone(), content: recent[r].content.clone() };
        assert(new_turn@ == recent@[r as int]@);
        turns_out.push(new_turn);
        proof {
            assert(recent@.map_values(|t: Turn| t@).take(r + 1) =~= recent@.map_values(|t: Turn| t@).take(
                r as int,
            ).push(recent@[r as int]@));
            assert(turns_out@.map_values(|t: Turn| t@) =~= before.push(new_turn@));
        }
        r += 1;
    }
    assert(recent@.map_values(|t: Turn| t@).take(recent@.len() as int) == recent@.map_values(|t: Turn| t@));

    let mut system_prefix = prefix;
    let ghost kept_mid = mid_blocks@.map_values(|b: Vec<char>| b@);
    let mut m: usize = 0;
    let ghost head = system_prefix@;
    while m < mid_blocks.len()
        invariant
            m <= mid_blocks@.len(),
            kept_mid == mid_blocks@.map_values(|b: Vec<char>| b@),
            system_prefix@ == head + concat_blocks(kept_mid.take(m as int)),
        decreases mid_blocks@.len() - m,
    {
        proof {
            assert(kept_mid.take(m + 1).drop_last() == kept_mid.take(m as int));
            assert(kept_mid.take(m + 1).last() == mid_blocks@[m as int]@);
        }
        let mut b = sub_chars(&mid_blocks[m], 0, mid_blocks[m].len());
        system_prefix.append(&mut b);
        m += 1;
    }
    assert(kept_mid.take(kept_mid.len() as int) == kept_mid);
    system_prefix.append(&mut jd_block);
    let tokens_prefix = estimate_tokens(&system_prefix);
    SessionContext { system_prefix: string_of(&system_prefix), turns: turns_out, tokens_prefix, tokens_history }
}

/// Budget laws of an assembled session: the kept middle blocks fit
/// [`CONTEXT_TOKEN_BUDGET`] and are the highest-priority ones (a prefix of
/// dossier, bank, references); the kept history lines are the newest compressed
/// lines and fit what the recent turns leave of [`HISTORY_TOKEN_BUDGET`]; the
/// recent (at most three) turns come last and unchanged; the JD excerpt keeps
/// at most twice [`JD_TOKEN_BUDGET`] characters; the persona and notes prefix
/// is never trimmed.
pub proof fn lemma_session_laws(
    persona: Option<Seq<char>>,
    notes: Option<JsonView>,
    dossier: Option<JsonView>,
    bank: Seq<Seq<char>>,
    references: Option<Seq<char>>,
    jd: Option<Seq<char>>,
    turns: Seq<(Seq<char>, Seq<char>)>,
)
    ensures
        blocks_tokens(pop_until_fits(mid_candidates(dossier, bank, references))) <= CONTEXT_TOKEN_BUDGET,
        pop_until_fits(mid_candidates(dossier, bank, references)) == mid_candidates(
            dossier,
            bank,
            references,
        ).take(pop_until_fits(mid_candidates(dossier, bank, references)).len() as int),
        kept_lines(turns).len() == 0 || est_tokens(join(kept_lines(turns), "\n"@)) <= history_budget(
            turn_tokens(recent_part(turns)),
        ),
        ({
            let all = older_part(turns).map_values(|t: (Seq<char>, Seq<char>)| compress_spec(t));
            kept_lines(turns) == all.skip(all.len() - kept_lines(turns).len())
        }),
        recent_part(turns).len() == (if turns.len() > 3 { 3 } else { turns.len() }),
        turns_spec(turns).skip(turns_spec(turns).len() - recent_part(turns).len()) == recent_part(turns),
        starts_with(
            system_prefix_spec(persona, notes, dossier, bank, references, jd),
            prefix_spec(persona, notes),
        ),
        ends_with(system_prefix_spec(persona, notes, dossier, bank, references, jd), jd_spec(jd)),
        jd_spec(jd).len() <= "【目标岗位 JD】（出题与追问以此为准）：\n"@.len() + 2 * JD_TOKEN_BUDGET + 1,
{
    lemma_pop_until_fits(mid_candidates(dossier, bank, references));
    let all = older_part(turns).map_values(|t: (Seq<char>, Seq<char>)| compress_spec(t));
    lemma_drop_until_fits(all, history_budget(turn_tokens(recent_part(turns))));
    let ts = turns_spec(turns);
    let k = kept_lines(turns).map_values(|l: Seq<char>| ("user"@, "（历史摘要）"@ + l));
    assert(ts.skip(ts.len() - recent_part(turns).len()) =~= recent_part(turns));
    let sp = system_prefix_spec(persona, notes, dossier, bank, references, jd);
    let p = prefix_spec(persona, notes);
    assert(sp.take(p.len() as int) =~= p);
    assert(sp.skip(sp.len() - jd_spec(jd).len()) =~= jd_spec(jd));
    if let Some(j) = jd {
        if trim(j).len() > 0 {
            lemma_cap_chars_len(trim(j), 2000);
        }
    }
    reveal_strlit("\n");
}

/// The classic mode (no persona) renders no persona block: the prefix is the
/// session header followed by the notes block alone.
pub proof fn lemma_classic_mode_has_no_persona(notes: Option<JsonView>)
    ensures
        prefix_spec(None, notes) == "【本场信息】\n"@ + match notes_spec(notes) {
            Some(b) => b,
            None => Seq::empty(),
        },
{
    assert(prefix_spec(None, notes) =~= "【本场信息】\n"@ + match notes_spec(notes) {
        Some(b) => b,
        None => Seq::empty(),
    });
}

/// The notes array under `key` holds the non-blank string `s`.
pub open spec fn has_note_item(n: JsonView, key: Seq<char>, s: Seq<char>) -> bool {
    trim(s).len() > 0 && match array_of(member(n, key)) {
        Some(a) => exists|j: int| 0 <= j < a.len() && a[j] == JsonView::Str(s),
        None => false,
    }
}

/// `s` appears in `b` after the line head `- label：`.
pub open spec fn shown_under(b: Seq<char>, label: Seq<char>, s: Seq<char>) -> bool {
    exists|x: Seq<char>, y: Seq<char>, z: Seq<char>| b == x + "- "@ + label + "："@ + y + s + z
}

proof fn lemma_note_items_keep(a: Seq<JsonView>, j: int, s: Seq<char>)
    requires
        0 <= j < a.len(),
        a[j] == JsonView::Str(s),
        trim(s).len() > 0,
    ensures
        exists|k: int| 0 <= k < note_items(a).len() && note_items(a)[k] == s,
    decreases a.len(),
{
    if j == a.len() - 1 {
        let k = note_items(a.drop_last()).len() as int;
        assert(note_items(a) == note_items(a.drop_last()).push(s));
        assert(note_items(a)[k] == s);
    } else {
        assert(a.drop_last()[j] == a[j]);
        lemma_note_items_keep(a.drop_last(), j, s);
        let k = choose|k: int| 0 <= k < note_items(a.drop_last()).len() && note_items(a.drop_last())[k] == s;
        let rest = note_items(a.drop_last());
        match a.last() {
            JsonView::Str(t) => if trim(t).len() > 0 {
                assert(note_items(a) == rest.push(t));
                assert(note_items(a)[k] == s);
            } else {
                assert(note_items(a) == rest);
            },
            _ => {
                assert(note_items(a) == rest);
            },
        }
    }
}

proof fn lemma_join_holds(items: Seq<Seq<char>>, sep: Seq<char>, k: int)
    requires
        0 <= k < items.len(),
    ensures
        exists|x: Seq<char>, y: Seq<char>| join(items, sep) == x + items[k] + y,
    decreases items.len(),
{
    if items.len() == 1 {
        assert(join(items, sep) =~= Seq::<char>::empty() + items[k] + Seq::<char>::empty());
    } else if k == items.len() - 1 {
        let x = join(items.drop_last(), sep) + sep;
        assert(join(items, sep) =~= x + items[k] + Seq::<char>::empty());
    } else {
        assert(items.drop_last()[k] == items[k]);
        lemma_join_holds(items.drop_last(), sep, k);
        let (x, y) = choose|x: Seq<char>, y: Seq<char>| join(items.drop_last(), sep) == x + items[k] + y;
        assert(join(items, sep) =~= x + items[k] + (y + sep + items.last()));
    }
}

proof fn lemma_note_line_shows(n: JsonView, label: Seq<char>, key: Seq<char>, s: Seq<char>)
    requires
        has_note_item(n, key, s),
    ensures
        exists|y: Seq<char>, z: Seq<char>| note_line(n, label, key) == "- "@ + label + "："@ + y + s + z,
{
    let a = array_of(member(n, key))->Some_0;
    let j = choose|j: int| 0 <= j < a.len() && a[j] == JsonView::Str(s);
    lemma_note_items_keep(a, j, s);
    let k = choose|k: int| 0 <= k < note_items(a).len() && note_items(a)[k] == s;
    lemma_join_holds(note_items(a), "；"@, k);
    let (y, z) = choose|y: Seq<char>, z: Seq<char>| join(note_items(a), "；"@) == y + note_items(a)[k] + z;
    assert(note_line(n, label, key) =~= "- "@ + label + "："@ + y + s + (z + "\n"@));
}

/// Every non-blank string noted under one of the four keys reaches the notes
/// block under its label (job_requirements as 岗位要求, candidate_facts as
/// 候选人事实, risk_signals as 风险信号, next_followups as 建议追问); the
/// block is left out only when none of the four holds such an item.
#[verifier::rlimit(40)]
pub proof fn lemma_notes_show_every_item(n: JsonView, s: Seq<char>)
    ensures
        has_note_item(n, "job_requirements"@, s) ==> (notes_spec(Some(n)) matches Some(b) && shown_under(
            b,
            "岗位要求"@,
            s,
        )),
        has_note_item(n, "candidate_facts"@, s) ==> (notes_spec(Some(n)) matches Some(b) && shown_under(
            b,
            "候选人事实"@,
            s,
        )),
        has_note_item(n, "risk_signals"@, s) ==> (notes_spec(Some(n)) matches Some(b) && shown_under(
            b,
            "风险信号"@,
            s,
        )),
        has_note_item(n, "next_followups"@, s) ==> (notes_spec(Some(n)) matches Some(b) && shown_under(
            b,
            "建议追问"@,
            s,
        )),
        notes_spec(Some(n)) is None ==> !has_note_item(n, "job_requirements"@, s) && !has_note_item(
            n,
            "candidate_facts"@,
            s,
        ) && !has_note_item(n, "risk_signals"@, s) && !has_note_item(n, "next_followups"@, s),
{
    let l1 = note_line(n, "岗位要求"@, "job_requirements"@);
    let l2 = note_line(n, "候选人事实"@, "candidate_facts"@);
    let l3 = note_line(n, "风险信号"@, "risk_signals"@);
    let l4 = note_line(n, "建议追问"@, "next_followups"@);
    let h = notes_header();
    let f = notes_footer();
    let body = l1 + l2 + l3 + l4;
    let b = h + body + f;
    if has_note_item(n, "job_requirements"@, s) {
        lemma_note_line_shows(n, "岗位要求"@, "job_requirements"@, s);
        assert(b =~= h + l1 + (l2 + l3 + l4 + f));
        lemma_shown_in(b, h, l1, l2 + l3 + l4 + f, "岗位要求"@, s);
    }
    if has_note_item(n, "candidate_facts"@, s) {
        lemma_note_line_shows(n, "候选人事实"@, "candidate_facts"@, s);
        assert(b =~= (h + l1) + l2 + (l3 + l4 + f));
        lemma_shown_in(b, h + l1, l2, l3 + l4 + f, "候选人事实"@, s);
    }
    if has_note_item(n, "risk_signals"@, s) {
        lemma_note_line_shows(n, "风险信号"@, "risk_signals"@, s);
        assert(b =~= (h + l1 + l2) + l3 + (l4 + f));
        lemma_shown_in(b, h + l1 + l2, l3, l4 + f, "风险信号"@, s);
    }
    if has_note_item(n, "next_followups"@, s) {
        lemma_note_line_shows(n, "建议追问"@, "next_followups"@, s);
        assert(b =~= (h + l1 + l2 + l3) + l4 + f);
        lemma_shown_in(b, h + l1 + l2 + l3, l4, f, "建议追问"@, s);
    }
}

proof fn lemma_shown_in(b: Seq<char>, pre: Seq<char>, line: Seq<char>, post: Seq<char>, label: Seq<char>, s: Seq<char>)
    requires
        b == pre + line + post,
        line.len() > 0,
        exists|y: Seq<char>, z: Seq<char>| line == "- "@ + label + "："@ + y + s + z,
    ensures
        shown_under(b, label, s),
{
    let (y, z) = choose|y: Seq<char>, z: Seq<char>| line == "- "@ + label + "："@ + y + s + z;
    assert(b =~= pre + "- "@ + label + "："@ + y + s + (z + post));
}

/// The session prefix, whatever the persona, shows each noted item under its label.
pub proof fn lemma_prefix_shows_notes(persona: Option<Seq<char>>, n: JsonView, s: Seq<char>)
    ensures
        has_note_item(n, "job_requirements"@, s) ==> shown_under(prefix_spec(persona, Some(n)), "岗位要求"@, s),
        has_note_item(n, "candidate_facts"@, s) ==> shown_under(prefix_spec(persona, Some(n)), "候选人事实"@, s),
        has_note_item(n, "risk_signals"@, s) ==> shown_under(prefix_spec(persona, Some(n)), "风险信号"@, s),
        has_note_item(n, "next_followups"@, s) ==> shown_under(prefix_spec(persona, Some(n)), "建议追问"@, s),
{
    lemma_notes_show_every_item(n, s);
    let head = "【本场信息】\n"@ + match persona {
        Some(p) => if trim(p).len() > 0 {
            "【面试官人设】"@ + trim(p) + "\n"@
        } else {
            Seq::empty()
        },
        None => Seq::empty(),
    };
    if let Some(b) = notes_spec(Some(n)) {
        assert(prefix_spec(persona, Some(n)) == head + b);
        lemma_shown_after(head, b, "岗位要求"@, s);
        lemma_shown_after(head, b, "候选人事实"@, s);
        lemma_shown_after(head, b, "风险信号"@, s);
        lemma_shown_after(head, b, "建议追问"@, s);
    }
}

proof fn lemma_shown_after(head: Seq<char>, b: Seq<char>, label: Seq<char>, s: Seq<char>)
    ensures
        shown_under(b, label, s) ==> shown_under(head + b, label, s),
{
    if shown_under(b, label, s) {
        let (x, y, z) = choose|x: Seq<char>, y: Seq<char>, z: Seq<char>| b == x + "- "@ + label + "："@ + y + s + z;
        assert(head + b =~= (head + x) + "- "@ + label + "："@ + y + s + z);
    }
}

} // verus!
