//! Output protocol of a single streamed answer call: an optional probe metadata
//! line (`<<<PROBE>>>{...}`), the continuation text, and an optional report
//! section (`<<<REPORT>>>` followed by a JSON object) that grades the previous
//! question.  [`split_answer_output`] splits a complete text; [`SentinelGate`]
//! filters the live stream: the probe metadata line is swallowed, and after the
//! first line the report section is held back.
use vstd::prelude::*;

use crate::json::{array_of, json_parse, member, parse_json, str_of, Json, JsonView};
use crate::text::{
    chars_eq, chars_of, contains, extend_chars, find, find_char, find_char_in, find_chars,
    lemma_find_from_found, lemma_prefix_keeps_absence, lemma_rfind_before_bounds, rfind_char,
    rfind_char_in, starts_with,
    starts_with_chars, string_of, sub_chars, trim, trim_chars, trim_start, trim_start_chars,
};

verus! {

/// The closed set of probe reasons.
pub const PROBE_REASONS: [&'static str; 5] = [
    "depth_probe",
    "clarification",
    "edge_case",
    "contradiction",
    "breadth_pivot",
];

/// Display labels of the probe reasons.
pub const PROBE_REASON_LABELS: [(&'static str, &'static str); 5] = [
    ("depth_probe", "深挖"),
    ("clarification", "澄清"),
    ("edge_case", "边界"),
    ("contradiction", "矛盾"),
    ("breadth_pivot", "拓展"),
];

pub const SENTINEL_PROBE: &'static str = "<<<PROBE>>>";

pub const SENTINEL_REPORT: &'static str = "<<<REPORT>>>";

/// Probe metadata: the anchor keyword and one of the closed probe reasons.
#[derive(Debug, Clone, PartialEq)]
pub struct ProbeMeta {
    pub anchor_keyword: String,
    pub reason: String,
}

impl View for ProbeMeta {
    type V = (Seq<char>, Seq<char>);

    open spec fn view(&self) -> (Seq<char>, Seq<char>) {
        (self.anchor_keyword@, self.reason@)
    }
}

/// What the continuation text is.
#[derive(Debug, Clone, PartialEq)]
pub enum Continuation {
    /// A follow-up probe; `meta` is `None` when its metadata was rejected.
    Probe { meta: Option<ProbeMeta> },
    Question,
    Summary,
}

pub enum ContinuationView {
    Probe(Option<(Seq<char>, Seq<char>)>),
    Question,
    Summary,
}

impl View for Continuation {
    type V = ContinuationView;

    open spec fn view(&self) -> ContinuationView {
        match self {
            Continuation::Probe { meta } => ContinuationView::Probe(
                match meta {
                    Some(m) => Some(m@),
                    None => None,
                },
            ),
            Continuation::Question => ContinuationView::Question,
            Continuation::Summary => ContinuationView::Summary,
        }
    }
}

/// A complete answer split into its parts.
#[derive(Debug, PartialEq)]
pub struct AnswerFlowOutput {
    pub continuation: Continuation,
    pub continuation_text: String,
    /// The grading report of the previous question, when the model gave one.
    pub report: Option<Json>,
}

/// `r` is one of the closed probe reasons.
pub open spec fn is_probe_reason(r: Seq<char>) -> bool {
    ||| r == "depth_probe"@
    ||| r == "clarification"@
    ||| r == "edge_case"@
    ||| r == "contradiction"@
    ||| r == "breadth_pivot"@
}

/// Brace-depth scan from position `i`: the position of the `}` that closes the
/// first object, skipping braces inside strings and escaped characters.
pub open spec fn scan_end(s: Seq<char>, i: int, depth: int, in_str: bool, esc: bool) -> Option<int>
    decreases s.len() - i,
{
    if i < 0 || i >= s.len() {
        None
    } else if esc {
        scan_end(s, i + 1, depth, in_str, false)
    } else if s[i] == '\\' && in_str {
        scan_end(s, i + 1, depth, in_str, true)
    } else if s[i] == '"' {
        scan_end(s, i + 1, depth, !in_str, false)
    } else if s[i] == '{' && !in_str {
        scan_end(s, i + 1, depth + 1, in_str, false)
    } else if s[i] == '}' && !in_str {
        if depth - 1 == 0 {
            Some(i)
        } else {
            scan_end(s, i + 1, depth - 1, in_str, false)
        }
    } else {
        scan_end(s, i + 1, depth, in_str, false)
    }
}

/// A scan result lies inside the text.
pub proof fn lemma_scan_end_bounds(s: Seq<char>, i: int, depth: int, in_str: bool, esc: bool)
    ensures
        scan_end(s, i, depth, in_str, esc) matches Some(e) ==> 0 <= i <= e < s.len(),
    decreases s.len() - i,
{
    if i < 0 || i >= s.len() {
    } else if esc {
        lemma_scan_end_bounds(s, i + 1, depth, in_str, false);
    } else if s[i] == '\\' && in_str {
        lemma_scan_end_bounds(s, i + 1, depth, in_str, true);
    } else if s[i] == '"' {
        lemma_scan_end_bounds(s, i + 1, depth, !in_str, false);
    } else if s[i] == '{' && !in_str {
        lemma_scan_end_bounds(s, i + 1, depth + 1, in_str, false);
    } else if s[i] == '}' && !in_str {
        if depth - 1 != 0 {
            lemma_scan_end_bounds(s, i + 1, depth - 1, in_str, false);
        }
    } else {
        lemma_scan_end_bounds(s, i + 1, depth, in_str, false);
    }
}

/// End of the first balanced JSON object at the start of `s` (`s` must begin with `{`).
pub open spec fn balanced_end(s: Seq<char>) -> Option<int> {
    if s.len() > 0 && s[0] == '{' {
        scan_end(s, 0, 0, false, false)
    } else {
        None
    }
}

/// Result of parsing probe metadata: `(anchor, reason, remaining text)`.
pub open spec fn probe_meta_spec(after: Seq<char>) -> Option<(Seq<char>, Seq<char>, Seq<char>)> {
    let s = trim(after);
    match balanced_end(s) {
        None => None,
        Some(e) => match json_parse(s.take(e + 1)) {
            None => None,
            Some(v) => match (str_of(member(v, "anchor_keyword"@)), str_of(member(v, "reason"@))) {
                (Some(a), Some(r)) => {
                    if trim(a).len() == 0 || !is_probe_reason(trim(r)) {
                        None
                    } else {
                        Some((trim(a), trim(r), trim(s.skip(e + 1))))
                    }
                },
                _ => None,
            },
        },
    }
}

/// The report part of a text after the report sentinel: kept when it parses as
/// JSON with a `score` or a `feedback` member.
pub open spec fn report_spec(raw: Option<Seq<char>>) -> Option<JsonView> {
    match raw {
        None => None,
        Some(r) => match json_parse(r) {
            Some(v) => if member(v, "score"@) is Some || member(v, "feedback"@) is Some {
                Some(v)
            } else {
                None
            },
            None => None,
        },
    }
}

/// The split of a complete answer text: continuation kind, continuation text and report.
pub open spec fn split_spec(text: Seq<char>, expect_summary: bool) -> (ContinuationView, Seq<char>, Option<JsonView>) {
    let rep = find(text, SENTINEL_REPORT@);
    let cont_raw = match rep {
        Some(i) => text.take(i),
        None => text,
    };
    let report_raw = match rep {
        Some(i) => Some(trim(text.skip(i + SENTINEL_REPORT@.len()))),
        None => None,
    };
    let trimmed = trim_start(cont_raw);
    let (cont, body) = if starts_with(trimmed, SENTINEL_PROBE@) {
        let after = trimmed.skip(SENTINEL_PROBE@.len() as int);
        match probe_meta_spec(after) {
            Some((a, r, b)) => (ContinuationView::Probe(Some((a, r))), b),
            None => (
                ContinuationView::Probe(None),
                match find_char(after, '\n') {
                    Some(i) => trim(after.skip(i + 1)),
                    None => trim(after),
                },
            ),
        }
    } else if expect_summary {
        (ContinuationView::Summary, trimmed)
    } else {
        (ContinuationView::Question, trimmed)
    };
    (cont, body, report_spec(report_raw))
}

/// Position of the `}` that closes the object at the start of `s`.
fn balanced_end_index(s: &[char]) -> (r: Option<usize>)
    ensures
        r matches Some(e) ==> balanced_end(s@) == Some(e as int),
        r is None ==> balanced_end(s@) is None,
{
    if s.len() == 0 || s[0] != '{' {
        return None;
    }
    let mut depth: usize = 0;
    let mut in_str = false;
    let mut esc = false;
    let mut i: usize = 0;
    while i < s.len()
        invariant
            i <= s@.len(),
            s@.len() > 0,
            s@[0] == '{',
            balanced_end(s@) == scan_end(s@, i as int, depth as int, in_str, esc),
            (i == 0 && depth == 0 && !in_str && !esc) || (i > 0 && depth >= 1),
            depth <= i,
        decreases s@.len() - i,
    {
        if esc {
            esc = false;
        } else {
            let c = s[i];
            if c == '\\' && in_str {
                esc = true;
            } else if c == '"' {
                in_str = !in_str;
            } else if c == '{' && !in_str {
                depth += 1;
            } else if c == '}' && !in_str {
                depth -= 1;
                if depth == 0 {
                    return Some(i);
                }
            }
        }
        i += 1;
    }
    None
}

/// Whether the braces after the sentinel are already balanced (used by the
/// streaming filter to decide whether to wait for more text).
fn s_has_balanced_object(s: &[char]) -> (r: bool)
    ensures
        r == (balanced_end(s@) is Some),
{
    balanced_end_index(s).is_some()
}

/// Position of the first occurrence of `needle` in `haystack`.
fn s_find(haystack: &[char], needle: &[char]) -> (r: Option<usize>)
    ensures
        r matches Some(p) ==> find(haystack@, needle@) == Some(p as int),
        r is None ==> find(haystack@, needle@) is None,
{
    find_chars(haystack, needle)
}

/// Whether `r` is one of the closed probe reasons.
pub fn probe_reason_allowed(r: &[char]) -> (b: bool)
    ensures
        b == is_probe_reason(r@),
{
    let mut i: usize = 0;
    let mut found = false;
    while i < 5
        invariant
            i <= 5,
            found == (exists|k: int| 0 <= k < i && r@ == (#[trigger] PROBE_REASONS@[k])@),
        decreases 5 - i,
    {
        let cand = chars_of(PROBE_REASONS[i]);
        if chars_eq(r, &cand) {
            found = true;
        }
        i += 1;
    }
    proof {
        assert(PROBE_REASONS@[0]@ == "depth_probe"@);
        assert(PROBE_REASONS@[1]@ == "clarification"@);
        assert(PROBE_REASONS@[2]@ == "edge_case"@);
        assert(PROBE_REASONS@[3]@ == "contradiction"@);
        assert(PROBE_REASONS@[4]@ == "breadth_pivot"@);
    }
    found
}

/// Probe metadata from character buffers.
fn probe_meta_chars(after: &[char]) -> (r: Option<(ProbeMeta, Vec<char>)>)
    ensures
        r matches Some((m, rest)) ==> probe_meta_spec(after@) == Some((m.anchor_keyword@, m.reason@, rest@)),
        r is None ==> probe_meta_spec(after@) is None,
{
    let s = trim_chars(after);
    let end = match balanced_end_index(&s) {
        Some(e) => e,
        None => return None,
    };
    let s_len = s.len();
    proof {
        lemma_scan_end_bounds(s@, 0, 0, false, false);
    }
    assert(end < s_len);
    let obj = sub_chars(&s, 0, end + 1);
    proof {
        assert(obj@ == s@.take(end + 1));
    }
    let obj_text = string_of(&obj);
    let v = match parse_json(obj_text.as_str()) {
        Some(v) => v,
        None => return None,
    };
    let anchor_raw = match v.get("anchor_keyword") {
        Some(x) => match x.as_str() {
            Some(a) => a,
            None => return None,
        },
        None => return None,
    };
    let reason_raw = match v.get("reason") {
        Some(x) => match x.as_str() {
            Some(a) => a,
            None => return None,
        },
        None => return None,
    };
    let anchor = trim_chars(&chars_of(anchor_raw.as_str()));
    let reason = trim_chars(&chars_of(reason_raw.as_str()));
    if anchor.len() == 0 || !probe_reason_allowed(&reason) {
        return None;
    }
    let rest_raw = sub_chars(&s, end + 1, s.len());
    proof {
        assert(rest_raw@ == s@.skip(end + 1));
    }
    let rest = trim_chars(&rest_raw);
    Some((ProbeMeta { anchor_keyword: string_of(&anchor), reason: string_of(&reason) }, rest))
}

/// Parses the `{...}` metadata after the probe sentinel.  The first balanced
/// object is located by a brace scan (so the body may follow on the same line);
/// the reason must be one of [`PROBE_REASONS`] and the anchor must not be blank.
/// Returns the metadata and the trimmed remaining text.
pub fn parse_probe_meta(after_sentinel: &str) -> (r: Option<(ProbeMeta, String)>)
    ensures
        r matches Some((m, rest)) ==> probe_meta_spec(after_sentinel@) == Some(
            (m.anchor_keyword@, m.reason@, rest@),
        ),
        r is None ==> probe_meta_spec(after_sentinel@) is None,
{
    let a = chars_of(after_sentinel);
    match probe_meta_chars(&a) {
        Some((m, rest)) => Some((m, string_of(&rest))),
        None => None,
    }
}

/// Splits the complete output of one streamed answer call.  With
/// `expect_summary` (closing turn) a continuation without probe sentinel is a
/// summary; otherwise it is the next question.
pub fn split_answer_output(text: &str, expect_summary: bool) -> (r: AnswerFlowOutput)
    ensures
        split_spec(text@, expect_summary) == (
            r.continuation@,
            r.continuation_text@,
            match r.report {
                Some(j) => Some(j@),
                None => None,
            },
        ),
{
    let t = chars_of(text);
    let report_sentinel = chars_of(SENTINEL_REPORT);
    let rep = find_chars(&t, &report_sentinel);
    proof {
        lemma_find_from_found(t@, report_sentinel@, 0);
    }
    let (continuation_raw, report_raw) = match rep {
        Some(idx) => {
            let t_len = t.len();
            let sl = report_sentinel.len();
            assert(idx + sl <= t_len);
            let c = sub_chars(&t, 0, idx);
            let tail = sub_chars(&t, idx + report_sentinel.len(), t.len());
            proof {
                assert(c@ == t@.take(idx as int));
                assert(tail@ == t@.skip(idx + SENTINEL_REPORT@.len()));
            }
            (c, Some(trim_chars(&tail)))
        },
        None => (t, None),
    };
    let trimmed = trim_start_chars(&continuation_raw);
    let probe_sentinel = chars_of(SENTINEL_PROBE);
    let (continuation, body) = if starts_with_chars(&trimmed, &probe_sentinel) {
        let after = sub_chars(&trimmed, probe_sentinel.len(), trimmed.len());
        proof {
            assert(after@ == trimmed@.skip(SENTINEL_PROBE@.len() as int));
        }
        match probe_meta_chars(&after) {
            Some((meta, body)) => (Continuation::Probe { meta: Some(meta) }, body),
            None => {
                let stripped = match find_char_in(&after, '\n') {
                    Some(i) => {
                        proof {
                            lemma_find_from_found(after@, seq!['\n'], 0);
                        }
                        let tail = sub_chars(&after, i + 1, after.len());
                        proof {
                            assert(tail@ == after@.skip(i + 1));
                        }
                        trim_chars(&tail)
                    },
                    None => trim_chars(&after),
                };
                (Continuation::Probe { meta: None }, stripped)
            },
        }
    } else if expect_summary {
        (Continuation::Summary, trimmed)
    } else {
        (Continuation::Question, trimmed)
    };
    let report = match report_raw {
        None => None,
        Some(r) => {
            let rs = string_of(&r);
            match parse_json(rs.as_str()) {
                Some(v) => {
                    if v.get("score").is_some() || v.get("feedback").is_some() {
                        Some(v)
                    } else {
                        None
                    }
                },
                None => None,
            }
        },
    };
    AnswerFlowOutput { continuation, continuation_text: string_of(&body), report }
}

/// Phase of the streaming filter.
#[derive(Debug, Clone, Copy, PartialEq, Eq, Structural)]
pub enum GatePhase {
    /// Waiting for the first complete line or a parseable probe metadata.
    Head,
    /// Passing complete lines through until the report sentinel appears.
    Body,
    /// After the report sentinel: everything is held back.
    Sealed,
}

/// Rank of a phase: the filter only moves forward.
pub open spec fn phase_rank(p: GatePhase) -> int {
    match p {
        GatePhase::Head => 0,
        GatePhase::Body => 1,
        GatePhase::Sealed => 2,
    }
}

/// The text after the first line break (empty when there is none).
pub open spec fn after_first_line(p: Seq<char>) -> Seq<char> {
    match find_char(p, '\n') {
        Some(nl) => p.skip(nl + 1),
        None => Seq::empty(),
    }
}

/// One step in the head phase: `(emitted, pending, phase)`.
pub open spec fn head_step(p: Seq<char>) -> (Seq<char>, Seq<char>, GatePhase) {
    let t = trim_start(p);
    if starts_with(t, SENTINEL_PROBE@) {
        match probe_meta_spec(t.skip(SENTINEL_PROBE@.len() as int)) {
            Some((_a, _r, rest)) => (
                if rest.len() > 0 {
                    rest.push('\n')
                } else {
                    Seq::empty()
                },
                after_first_line(p),
                GatePhase::Body,
            ),
            None => if find_char(t, '\n') is None {
                (Seq::empty(), p, GatePhase::Head)
            } else {
                (Seq::empty(), after_first_line(p), GatePhase::Body)
            },
        }
    } else if t.len() == 0 {
        (Seq::empty(), p, GatePhase::Head)
    } else {
        match find_char(p, '\n') {
            Some(nl) => (p.take(nl + 1), p.skip(nl + 1), GatePhase::Body),
            None => if !starts_with(t, seq!['<']) {
                (p, Seq::empty(), GatePhase::Body)
            } else {
                (Seq::empty(), p, GatePhase::Head)
            },
        }
    }
}

/// One step in the body phase: up to the report sentinel (then sealed), or up
/// to the last line break.
pub open spec fn body_step(p: Seq<char>) -> (Seq<char>, Seq<char>, GatePhase) {
    match find(p, SENTINEL_REPORT@) {
        Some(i) => (p.take(i), p.skip(i), GatePhase::Sealed),
        None => match rfind_char(p, '\n') {
            Some(nl) => (p.take(nl + 1), p.skip(nl + 1), GatePhase::Body),
            None => (Seq::empty(), p, GatePhase::Body),
        },
    }
}

/// Draining the pending text in a phase: `(emitted, pending, phase)`.
pub open spec fn drain_spec(p: Seq<char>, ph: GatePhase) -> (Seq<char>, Seq<char>, GatePhase) {
    match ph {
        GatePhase::Sealed => (Seq::empty(), p, GatePhase::Sealed),
        GatePhase::Body => body_step(p),
        GatePhase::Head => {
            let (o1, p1, ph1) = head_step(p);
            if ph1 == GatePhase::Body {
                let (o2, p2, ph2) = body_step(p1);
                (o1 + o2, p2, ph2)
            } else {
                (o1, p1, ph1)
            }
        },
    }
}

/// The filter state after pushing `delta`, and the text released for display.
pub open spec fn gate_push(g: (Seq<char>, GatePhase), delta: Seq<char>) -> ((Seq<char>, GatePhase), Seq<char>) {
    let (o, p, ph) = drain_spec(g.0 + delta, g.1);
    ((p, ph), o)
}

/// What the filter hands back when the stream ends.
pub open spec fn gate_finish(g: (Seq<char>, GatePhase)) -> Seq<char> {
    if g.1 == GatePhase::Sealed {
        Seq::empty()
    } else {
        g.0
    }
}

/// Facts about one body step: nothing is lost or invented, no report sentinel is
/// released, and released text ends at a line break unless the filter seals.
pub proof fn lemma_body_step_facts(p: Seq<char>)
    ensures
        body_step(p).0 + body_step(p).1 == p,
        !contains(body_step(p).0, SENTINEL_REPORT@),
        body_step(p).2 == GatePhase::Body ==> (body_step(p).0.len() == 0 || body_step(p).0.last() == '\n'),
{
    let r = SENTINEL_REPORT@;
    reveal_strlit("<<<REPORT>>>");
    assert(r.len() > 0);
    lemma_find_from_found(p, r, 0);
    match find(p, r) {
        Some(i) => {
            assert(p.take(i) + p.skip(i) =~= p);
            lemma_prefix_keeps_absence(p, r, i);
        },
        None => {
            lemma_rfind_before_bounds(p, '\n', p.len() as int);
            match rfind_char(p, '\n') {
                Some(nl) => {
                    assert(p.take(nl + 1) + p.skip(nl + 1) =~= p);
                    lemma_prefix_keeps_absence(p, r, nl + 1);
                },
                None => {
                    assert(Seq::<char>::empty() + p =~= p);
                    lemma_find_from_found(Seq::<char>::empty(), r, 0);
                },
            }
        },
    }
}

/// Streaming sentinel filter: forwards live deltas while keeping sentinel lines
/// and the report section off the screen.
/// - Head: a first line starting with the probe sentinel has its metadata
///   swallowed and its remaining body released; any other first line is
///   released whole.
/// - Body: complete lines are released; the report sentinel seals the filter.
/// - [`SentinelGate::finish`] hands back the tail that was never released.
pub struct SentinelGate {
    pending: Vec<char>,
    phase: GatePhase,
}

impl View for SentinelGate {
    type V = (Seq<char>, GatePhase);

    closed spec fn view(&self) -> (Seq<char>, GatePhase) {
        (self.pending@, self.phase)
    }
}

impl SentinelGate {
    /// A filter in the head phase with nothing pending.
    pub fn new() -> (g: Self)
        ensures
            g@ == (Seq::<char>::empty(), GatePhase::Head),
    {
        SentinelGate { pending: Vec::new(), phase: GatePhase::Head }
    }

    /// The current phase.
    pub fn phase(&self) -> (p: GatePhase)
        ensures
            p == self@.1,
    {
        self.phase
    }

    /// Pushes one delta and returns the text that may be shown now (possibly empty).
    pub fn push(&mut self, delta: &str) -> (out: String)
        ensures
            gate_push(old(self)@, delta@) == (final(self)@, out@),
            phase_rank(old(self)@.1) <= phase_rank(final(self)@.1),
            old(self)@.1 == GatePhase::Sealed ==> out@.len() == 0 && final(self)@.1 == GatePhase::Sealed,
            old(self)@.1 == GatePhase::Body ==> out@ + final(self)@.0 == old(self)@.0 + delta@,
            old(self)@.1 == GatePhase::Body ==> !contains(out@, SENTINEL_REPORT@),
            final(self)@.1 == GatePhase::Body && old(self)@.1 == GatePhase::Body ==> (out@.len() == 0
                || out@.last() == '\n'),
    {
        extend_chars(&mut self.pending, delta);
        let ghost before = self@;
        let out = self.drain();
        proof {
            lemma_body_step_facts(before.0);
        }
        string_of(&out)
    }

    /// Ends the stream: the tail that was never released (empty once sealed:
    /// the report is parsed from the complete text instead).
    pub fn finish(self) -> (tail: String)
        ensures
            tail@ == gate_finish(self@),
    {
        if self.phase == GatePhase::Sealed {
            String::new()
        } else {
            string_of(&self.pending)
        }
    }

    fn drain(&mut self) -> (out: Vec<char>)
        ensures
            drain_spec(old(self)@.0, old(self)@.1) == (out@, final(self)@.0, final(self)@.1),
    {
        let mut out: Vec<char> = Vec::new();
        if self.phase == GatePhase::Head {
            out = self.head_step();
        }
        if self.phase == GatePhase::Body {
            let mut more = self.body_step();
            out.append(&mut more);
        }
        out
    }

    fn head_step(&mut self) -> (out: Vec<char>)
        requires
            old(self)@.1 == GatePhase::Head,
        ensures
            head_step(old(self)@.0) == (out@, final(self)@.0, final(self)@.1),
    {
        let trimmed = trim_start_chars(&self.pending);
        let probe = chars_of(SENTINEL_PROBE);
        let mut out: Vec<char> = Vec::new();
        if starts_with_chars(&trimmed, &probe) {
            let after = sub_chars(&trimmed, probe.len(), trimmed.len());
            proof {
                assert(after@ == trimmed@.skip(SENTINEL_PROBE@.len() as int));
            }
            match probe_meta_chars(&after) {
                Some((_, rest)) => {
                    if rest.len() > 0 {
                        out = rest;
                        out.push('\n');
                    }
                    self.consume_through_first_line();
                    self.phase = GatePhase::Body;
                },
                None => {
                    let has_newline = find_char_in(&trimmed, '\n').is_some();
                    let balanced = s_has_balanced_object(&after);
                    if !has_newline && !balanced {
                        return out;
                    }
                    if balanced && !has_newline {
                        return out;
                    }
                    self.consume_through_first_line();
                    self.phase = GatePhase::Body;
                },
            }
        } else if trimmed.len() == 0 {
        } else if let Some(nl) = find_char_in(&self.pending, '\n') {
            proof {
                lemma_find_from_found(self.pending@, seq!['\n'], 0);
            }
            let n = self.pending.len();
            assert(nl < n);
            let mut rest = self.pending.split_off(nl + 1);
            std::mem::swap(&mut self.pending, &mut rest);
            out = rest;
            self.phase = GatePhase::Body;
        } else {
            let lt = vec!['<'];
            assert(lt@ == seq!['<']);
            if !starts_with_chars(&trimmed, &lt) {
                let mut rest: Vec<char> = Vec::new();
                std::mem::swap(&mut self.pending, &mut rest);
                out = rest;
                self.phase = GatePhase::Body;
            }
        }
        out
    }

    fn body_step(&mut self) -> (out: Vec<char>)
        requires
            old(self)@.1 == GatePhase::Body,
        ensures
            body_step(old(self)@.0) == (out@, final(self)@.0, final(self)@.1),
    {
        let report = chars_of(SENTINEL_REPORT);
        if let Some(p) = s_find(&self.pending, &report) {
            proof {
                lemma_find_from_found(self.pending@, report@, 0);
            }
            let mut out = self.pending.split_off(p);
            std::mem::swap(&mut self.pending, &mut out);
            self.phase = GatePhase::Sealed;
            out
        } else if let Some(nl) = rfind_char_in(&self.pending, '\n') {
            proof {
                lemma_rfind_before_bounds(self.pending@, '\n', self.pending@.len() as int);
            }
            let n = self.pending.len();
            assert(nl < n);
            let mut out = self.pending.split_off(nl + 1);
            std::mem::swap(&mut self.pending, &mut out);
            out
        } else {
            Vec::new()
        }
    }

    /// Drops the first complete line (with its line break) from the pending text.
    fn consume_through_first_line(&mut self)
        ensures
            final(self)@.0 == after_first_line(old(self)@.0),
            final(self)@.1 == old(self)@.1,
    {
        if let Some(nl) = find_char_in(&self.pending, '\n') {
            proof {
                lemma_find_from_found(self.pending@, seq!['\n'], 0);
            }
            let n = self.pending.len();
            assert(nl < n);
            self.pending = self.pending.split_off(nl + 1);
        } else {
            self.pending.clear();
        }
    }
}

} // verus!
