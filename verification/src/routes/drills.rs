//! Drill helpers: message assembly for the full-replay and the chained modes,
//! recognition of chain errors, and the matching of bank questions against a
//! dossier request (search terms, scoring and ranking).
use vstd::prelude::*;
use vstd::string::StringExecFns;

use crate::error::{AppError, AppErrorView};
use crate::json::{Json, JsonView};
use crate::text::{
    sorted_unique, strictly_sorted, text_views, opt_view, signed_decimal, str_eq, extend_chars, push_signed_decimal, bytes_from, bytes_len, chars_of, contains, contains_chars, is_whitespace, is_ws, join, join_strings, owned, string_of,
    trim, trim_chars,
};

verus! {

/// A chat message `{"content": .., "role": ..}` (members in serde_json's key order).
pub open spec fn message_spec(role: Seq<char>, content: Seq<char>) -> JsonView {
    JsonView::Object(seq![("content"@, JsonView::Str(content)), ("role"@, JsonView::Str(role))])
}

/// Builds a chat message.
pub fn message(role: &str, content: String) -> (r: Json)
    ensures
        r@ == message_spec(role@, content@),
{
    let ghost cv = content@;
    let k1 = owned("content");
    let k2 = owned("role");
    let v1 = Json::Str(content);
    let v2 = Json::Str(owned(role));
    assert(v1@ == JsonView::Str(cv));
    assert(v2@ == JsonView::Str(role@));
    let mut members: Vec<(String, Json)> = Vec::new();
    members.push((k1, v1));
    members.push((k2, v2));
    let r = Json::Object(members);
    proof {
        let s = seq![("content"@, JsonView::Str(cv)), ("role"@, JsonView::Str(role@))];
        assert(members@.len() == 2);
        assert(members@[0].0@ == "content"@);
        assert(members@[1].0@ == "role"@);
        let t = r@->Object_0;
        assert(t.len() == 2);
        assert(t[0] == s[0]);
        assert(t[1] == s[1]);
        assert(t =~= s);
    }
    r
}

/// The user message of the full-replay mode: the session context first (when
/// not blank), then the history (a placeholder when empty) and the task.
pub open spec fn replay_user_spec(context: Seq<char>, history: Seq<Seq<char>>, task: Seq<char>) -> Seq<char> {
    (if trim(context).len() > 0 {
        context + "\n\n"@
    } else {
        Seq::empty()
    }) + "【对话历史】\n"@ + (if history.len() == 0 {
        "（暂无）"@
    } else {
        join(history, "\n"@)
    }) + "\n\n【当前任务】\n"@ + task
}

/// Full-replay messages: the system prompt and one single user message that
/// merges context, history and task (consecutive user messages are never sent).
pub fn turn_messages(system: &str, context: &str, history: &[String], task: &str) -> (r: Vec<Json>)
    ensures
        r@.len() == 2,
        r@[0]@ == message_spec("system"@, system@),
        r@[1]@ == message_spec(
            "user"@,
            replay_user_spec(context@, history@.map_values(|h: String| h@), task@),
        ),
{
    let mut user = String::new();
    if trim_chars(&chars_of(context)).len() > 0 {
        user.append(context);
        user.append("\n\n");
    }
    let ghost head = user@;
    user.append("【对话历史】\n");
    let ghost mid = user@;
    if history.len() == 0 {
        user.append("（暂无）");
    } else {
        let h = string_of(&join_strings(history, "\n"));
        user.append(h.as_str());
    }
    user.append("\n\n【当前任务】\n");
    user.append(task);
    assert(user@ =~= replay_user_spec(context@, history@.map_values(|h: String| h@), task@));
    let mut r: Vec<Json> = Vec::new();
    r.push(message("system", owned(system)));
    r.push(message("user", user));
    r
}

/// The user message of the chained mode: the session context (when present and
/// not blank), the latest answer and the task; the history is not replayed.
pub open spec fn chain_user_spec(latest_answer: Seq<char>, task: Seq<char>, context: Option<Seq<char>>) -> Seq<
    char,
> {
    (match context {
        Some(c) => if trim(c).len() > 0 {
            c + "\n\n"@
        } else {
            Seq::empty()
        },
        None => Seq::empty(),
    }) + "【候选人最新回答】\n"@ + latest_answer + "\n\n【当前任务】\n"@ + task
}

/// Chained-mode messages (the previous response id carries the history).
pub fn chain_turn_messages(system: &str, latest_answer: &str, task: &str, context: Option<&str>) -> (r: Vec<
    Json,
>)
    ensures
        r@.len() == 2,
        r@[0]@ == message_spec("system"@, system@),
        r@[1]@ == message_spec(
            "user"@,
            chain_user_spec(
                latest_answer@,
                task@,
                match context {
                    Some(c) => Some(c@),
                    None => None,
                },
            ),
        ),
{
    let mut user = String::new();
    if let Some(ctx) = context {
        if trim_chars(&chars_of(ctx)).len() > 0 {
            user.append(ctx);
            user.append("\n\n");
        }
    }
    user.append("【候选人最新回答】\n");
    user.append(latest_answer);
    user.append("\n\n【当前任务】\n");
    user.append(task);
    assert(user@ =~= chain_user_spec(
        latest_answer@,
        task@,
        match context {
            Some(c) => Some(c@),
            None => None,
        },
    ));
    let mut r: Vec<Json> = Vec::new();
    r.push(message("system", owned(system)));
    r.push(message("user", user));
    r
}

/// What `str::to_lowercase` returns for a text (full Unicode lowercase mapping).
pub uninterp spec fn lowercase(s: Seq<char>) -> Seq<char>;

/// `str::to_lowercase`.
#[verifier::external_body]
pub(crate) fn to_lowercase(s: &str) -> (r: String)
    ensures
        r@ == lowercase(s@),
{
    s.to_lowercase()
}

/// A chain error: the previous response was not stored, has expired, or the
/// endpoint does not support chaining.
pub open spec fn chain_error_spec(msg: Seq<char>) -> bool {
    let m = lowercase(msg);
    contains(m, "previous_response"@) || (contains(m, "response"@) && (contains(m, "not found"@) || contains(
        m,
        "not_found"@,
    ) || contains(m, "expired"@) || contains(m, "不存在"@) || contains(m, "过期"@)))
}

/// Recognises a chain error (then the turn is retried once in full-replay mode).
pub fn looks_like_chain_error(msg: &str) -> (r: bool)
    ensures
        r == chain_error_spec(msg@),
{
    let m = chars_of(to_lowercase(msg).as_str());
    contains_chars(&m, &chars_of("previous_response")) || (contains_chars(&m, &chars_of("response")) && (
    contains_chars(&m, &chars_of("not found")) || contains_chars(&m, &chars_of("not_found"))
        || contains_chars(&m, &chars_of("expired")) || contains_chars(&m, &chars_of("不存在"))
        || contains_chars(&m, &chars_of("过期"))))
}

/// Separators of the keyword field (`true`) or of the position field (`false`).
pub open spec fn term_sep(keyword: bool) -> spec_fn(char) -> bool {
    if keyword {
        |c: char| is_ws(c) || c == ',' || c == '，' || c == '、' || c == '/'
    } else {
        |c: char| is_ws(c) || c == '/' || c == '-'
    }
}

/// `str::split` by a character predicate: the pieces between separators,
/// empty ones included.
pub open spec fn split_by(s: Seq<char>, sep: spec_fn(char) -> bool) -> Seq<Seq<char>>
    decreases s.len(),
{
    if s.len() == 0 {
        seq![Seq::empty()]
    } else {
        let prev = split_by(s.drop_last(), sep);
        if sep(s.last()) {
            prev.push(Seq::empty())
        } else {
            prev.update(prev.len() - 1, prev.last().push(s.last()))
        }
    }
}

/// There is always at least one piece.
pub proof fn lemma_split_by_nonempty(s: Seq<char>, sep: spec_fn(char) -> bool)
    ensures
        split_by(s, sep).len() >= 1,
    decreases s.len(),
{
    if s.len() > 0 {
        lemma_split_by_nonempty(s.drop_last(), sep);
    }
}

/// The search terms of a field's pieces: each trimmed piece of at least two
/// UTF-8 bytes, lowercased, in order.
pub open spec fn field_terms(parts: Seq<Seq<char>>) -> Seq<Seq<char>>
    decreases parts.len(),
{
    if parts.len() == 0 {
        Seq::empty()
    } else {
        field_terms(parts.drop_last()) + if bytes_len(trim(parts.last())) >= 2 {
            seq![lowercase(trim(parts.last()))]
        } else {
            Seq::empty()
        }
    }
}

/// Technology words looked for in a job description.
pub open spec fn jd_words() -> Seq<Seq<char>> {
    seq![
        "redis"@,
        "mysql"@,
        "kafka"@,
        "jvm"@,
        "spring"@,
        "并发"@,
        "分布式"@,
        "微服务"@,
        "架构"@,
        "设计模式"@,
        "算法"@,
        "网络"@,
        "linux"@,
        "docker"@,
        "k8s"@,
    ]
}

/// The terms with each word that the lowercased job description contains
/// appended, unless already a term.
pub open spec fn with_jd_words(terms: Seq<Seq<char>>, jd_lower: Seq<char>, words: Seq<Seq<char>>) -> Seq<Seq<char>>
    decreases words.len(),
{
    if words.len() == 0 {
        terms
    } else {
        let prev = with_jd_words(terms, jd_lower, words.drop_last());
        let w = words.last();
        if contains(jd_lower, w) && !prev.contains(w) {
            prev.push(w)
        } else {
            prev
        }
    }
}

/// The search terms of a dossier request: keyword terms, position terms and
/// the technology words of the job description.
pub open spec fn dossier_terms_spec(keywords: Option<Seq<char>>, position: Option<Seq<char>>, jd: Option<Seq<char>>) -> Seq<
    Seq<char>,
> {
    let a = match keywords {
        Some(k) => field_terms(split_by(k, term_sep(true))),
        None => Seq::empty(),
    };
    let b = match position {
        Some(p) => field_terms(split_by(p, term_sep(false))),
        None => Seq::empty(),
    };
    match jd {
        Some(j) => with_jd_words(a + b, lowercase(j), jd_words()),
        None => a + b,
    }
}

fn is_term_sep(c: char, keyword: bool) -> (r: bool)
    ensures
        r == (term_sep(keyword))(c),
{
    if keyword {
        is_whitespace(c) || c == ',' || c == '，' || c == '、' || c == '/'
    } else {
        is_whitespace(c) || c == '/' || c == '-'
    }
}

/// Appends the term of one piece.
fn push_piece_term(terms: &mut Vec<String>, piece: &Vec<char>)
    ensures
        final(terms)@.map_values(|t: String| t@) == old(terms)@.map_values(|t: String| t@) + if bytes_len(
            trim(piece@),
        ) >= 2 {
            seq![lowercase(trim(piece@))]
        } else {
            Seq::empty()
        },
{
    let ghost before = terms@.map_values(|t: String| t@);
    let t = trim_chars(piece);
    if bytes_from(&t, 0) >= 2 {
        assert(t@.skip(0) =~= t@);
        let lower = to_lowercase(string_of(&t).as_str());
        let ghost lv = lower@;
        terms.push(lower);
        assert(terms@.map_values(|x: String| x@) =~= before.push(lv));
    } else {
        assert(t@.skip(0) =~= t@);
        assert(terms@.map_values(|x: String| x@) =~= before + Seq::<Seq<char>>::empty());
    }
}

/// Appends the terms of a field.
fn push_field_terms(terms: &mut Vec<String>, text: &str, keyword: bool)
    ensures
        final(terms)@.map_values(|t: String| t@) == old(terms)@.map_values(|t: String| t@) + field_terms(
            split_by(text@, term_sep(keyword)),
        ),
{
    let ghost start = terms@.map_values(|t: String| t@);
    let ghost sep = term_sep(keyword);
    let c = chars_of(text);
    let mut cur: Vec<char> = Vec::new();
    let mut i: usize = 0;
    assert(c@.take(0) =~= Seq::<char>::empty());
    while i < c.len()
        invariant
            i <= c@.len(),
            sep == term_sep(keyword),
            split_by(c@.take(i as int), sep).len() >= 1,
            split_by(c@.take(i as int), sep).last() == cur@,
            terms@.map_values(|t: String| t@) == start + field_terms(split_by(c@.take(i as int), sep).drop_last()),
        decreases c@.len() - i,
    {
        let ghost prev = split_by(c@.take(i as int), sep);
        proof {
            assert(c@.take(i + 1).drop_last() =~= c@.take(i as int));
            assert(c@.take(i + 1).last() == c@[i as int]);
        }
        if is_term_sep(c[i], keyword) {
            push_piece_term(terms, &cur);
            cur = Vec::new();
            proof {
                let next = prev.push(Seq::<char>::empty());
                assert(split_by(c@.take(i + 1), sep) == next);
                assert(next.drop_last() =~= prev);
                assert(prev == prev.drop_last().push(prev.last()));
                assert(field_terms(prev) == field_terms(prev.drop_last()) + if bytes_len(trim(prev.last())) >= 2 {
                    seq![lowercase(trim(prev.last()))]
                } else {
                    Seq::empty()
                });
                assert(cur@ =~= Seq::<char>::empty());
            }
        } else {
            cur.push(c[i]);
            proof {
                let next = prev.update(prev.len() - 1, prev.last().push(c@[i as int]));
                assert(split_by(c@.take(i + 1), sep) == next);
                assert(next.drop_last() =~= prev.drop_last());
            }
        }
        i += 1;
    }
    assert(c@.take(c@.len() as int) =~= text@);
    let ghost parts = split_by(text@, sep);
    push_piece_term(terms, &cur);
    proof {
        assert(parts == parts.drop_last().push(parts.last()));
        assert(field_terms(parts) == field_terms(parts.drop_last()) + if bytes_len(trim(parts.last())) >= 2 {
            seq![lowercase(trim(parts.last()))]
        } else {
            Seq::empty()
        });
    }
}

/// The search terms of a dossier request: the keyword field split at
/// whitespace, `,`, `，`, `、` and `/`; the position split at whitespace, `/`
/// and `-` (pieces trimmed, at least two bytes, lowercased); then each
/// technology word of the job description (lowercased) not yet a term.
pub fn dossier_terms(keywords: Option<&str>, position: Option<&str>, jd_text: Option<&str>) -> (r: Vec<String>)
    ensures
        r@.map_values(|t: String| t@) == dossier_terms_spec(
            match keywords {
                Some(k) => Some(k@),
                None => None,
            },
            match position {
                Some(p) => Some(p@),
                None => None,
            },
            match jd_text {
                Some(j) => Some(j@),
                None => None,
            },
        ),
{
    let mut terms: Vec<String> = Vec::new();
    assert(terms@.map_values(|t: String| t@) =~= Seq::<Seq<char>>::empty());
    if let Some(k) = keywords {
        push_field_terms(&mut terms, k, true);
    }
    if let Some(p) = position {
        push_field_terms(&mut terms, p, false);
    }
    let ghost base = terms@.map_values(|t: String| t@);
    if let Some(j) = jd_text {
        let jl = chars_of(to_lowercase(j).as_str());
        let words: [&str; 15] = [
            "redis",
            "mysql",
            "kafka",
            "jvm",
            "spring",
            "并发",
            "分布式",
            "微服务",
            "架构",
            "设计模式",
            "算法",
            "网络",
            "linux",
            "docker",
            "k8s",
        ];
        let ghost wv = words@.map_values(|w: &str| w@);
        assert(wv =~= jd_words());
        let mut k: usize = 0;
        while k < words.len()
            invariant
                k <= words@.len(),
                wv == words@.map_values(|w: &str| w@),
                terms@.map_values(|t: String| t@) == with_jd_words(base, jl@, wv.take(k as int)),
            decreases words@.len() - k,
        {
            proof {
                assert(wv.take(k + 1).drop_last() =~= wv.take(k as int));
                assert(wv.take(k + 1).last() == words@[k as int]@);
            }
            let w = words[k];
            let ghost tv = terms@.map_values(|t: String| t@);
            if contains_chars(&jl, &chars_of(w)) {
                let mut present = false;
                let mut q: usize = 0;
                while q < terms.len()
                    invariant
                        q <= terms@.len(),
                        tv == terms@.map_values(|t: String| t@),
                        present == (exists|t: int| 0 <= t < q && tv[t] == w@),
                    decreases terms@.len() - q,
                {
                    assert(tv[q as int] == terms@[q as int]@);
                    if str_eq(terms[q].as_str(), w) {
                        present = true;
                    }
                    q += 1;
                }
                proof {
                    if tv.contains(w@) {
                        let t = choose|t: int| 0 <= t < tv.len() && tv[t] == w@;
                    }
                }
                if !present {
                    terms.push(owned(w));
                    assert(terms@.map_values(|t: String| t@) =~= tv.push(w@));
                }
            }
            k += 1;
        }
        assert(wv.take(15) =~= wv);
    }
    terms
}

/// The tags whose lowercase form contains the term, in order.
pub open spec fn tag_matches(tags: Seq<Seq<char>>, term: Seq<char>) -> Seq<Seq<char>>
    decreases tags.len(),
{
    if tags.len() == 0 {
        Seq::empty()
    } else {
        tag_matches(tags.drop_last(), term) + if contains(lowercase(tags.last()), term) {
            seq![tags.last()]
        } else {
            Seq::empty()
        }
    }
}

/// The reason of a tag hit.
pub open spec fn tag_reason(tag: Seq<char>) -> Seq<char> {
    "命中标签「"@ + tag + "」"@
}

/// The points of one term: 30 when the lowercased content contains it, and
/// 40 per matching tag.
pub open spec fn term_points(content_lower: Seq<char>, tags: Seq<Seq<char>>, term: Seq<char>) -> int {
    (if contains(content_lower, term) {
        30int
    } else {
        0int
    }) + 40 * tag_matches(tags, term).len()
}

/// The reasons of one term: the content hit, then each tag hit.
pub open spec fn term_reasons(content_lower: Seq<char>, tags: Seq<Seq<char>>, term: Seq<char>) -> Seq<Seq<char>> {
    (if contains(content_lower, term) {
        seq!["题干匹配「"@ + term + "」"@]
    } else {
        Seq::empty()
    }) + tag_matches(tags, term).map_values(|t: Seq<char>| tag_reason(t))
}

/// Points over all terms.
pub open spec fn match_points(content_lower: Seq<char>, tags: Seq<Seq<char>>, terms: Seq<Seq<char>>) -> int
    decreases terms.len(),
{
    if terms.len() == 0 {
        0
    } else {
        match_points(content_lower, tags, terms.drop_last()) + term_points(content_lower, tags, terms.last())
    }
}

/// Reasons over all terms, in order.
pub open spec fn match_reasons(content_lower: Seq<char>, tags: Seq<Seq<char>>, terms: Seq<Seq<char>>) -> Seq<
    Seq<char>,
>
    decreases terms.len(),
{
    if terms.len() == 0 {
        Seq::empty()
    } else {
        match_reasons(content_lower, tags, terms.drop_last()) + term_reasons(content_lower, tags, terms.last())
    }
}

/// Matching tags over all terms, in order (a tag once per term it matches).
pub open spec fn match_tags(tags: Seq<Seq<char>>, terms: Seq<Seq<char>>) -> Seq<Seq<char>>
    decreases terms.len(),
{
    if terms.len() == 0 {
        Seq::empty()
    } else {
        match_tags(tags, terms.drop_last()) + tag_matches(tags, terms.last())
    }
}

/// How a question matches the terms: its score, its reason text and the
/// tags that matched; `None` when nothing matched.  A matched question gains
/// 15 when analysed and 25 when its last score is below 60 (a weak point).
pub open spec fn question_match_spec(
    terms: Seq<Seq<char>>,
    content: Seq<char>,
    tags: Seq<Seq<char>>,
    analyzed: bool,
    last_score: Option<i32>,
) -> Option<(int, Seq<char>, Seq<Seq<char>>)> {
    let cl = lowercase(content);
    let base = match_points(cl, tags, terms);
    if base == 0 {
        None
    } else {
        let with_analysis = base + if analyzed {
            15int
        } else {
            0int
        };
        let weak = match last_score {
            Some(v) => v < 60,
            None => false,
        };
        let score = with_analysis + if weak {
            25int
        } else {
            0int
        };
        let reasons = match_reasons(cl, tags, terms) + if weak {
            seq!["薄弱考点（历史 "@ + signed_decimal(last_score->0 as int) + "分）"@]
        } else {
            Seq::empty()
        };
        Some(
            (
                score,
                if reasons.len() == 0 {
                    "关联度匹配"@
                } else {
                    join(reasons, " · "@)
                },
                match_tags(tags, terms),
            ),
        )
    }
}

/// How a question matches the terms.
#[derive(Debug, Clone, PartialEq)]
pub struct QuestionMatch {
    pub score: i32,
    pub reason: String,
    /// Tags that matched a term (a tag once per term it matches).
    pub matched_tags: Vec<String>,
}

proof fn lemma_tag_matches_len(tags: Seq<Seq<char>>, term: Seq<char>)
    ensures
        tag_matches(tags, term).len() <= tags.len(),
    decreases tags.len(),
{
    if tags.len() > 0 {
        lemma_tag_matches_len(tags.drop_last(), term);
    }
}

/// Scores a question against the terms.
pub fn score_question(terms: &[String], content: &str, tags: &[String], analyzed: bool, last_score: Option<i32>) -> (r:
    Option<QuestionMatch>)
    requires
        terms@.len() * (tags@.len() + 1) <= 40_000_000,
    ensures
        question_match_spec(
            terms@.map_values(|t: String| t@),
            content@,
            tags@.map_values(|t: String| t@),
            analyzed,
            last_score,
        ) == match r {
            Some(m) => Some((m.score as int, m.reason@, m.matched_tags@.map_values(|t: String| t@))),
            None => None,
        },
{
    let ghost tv = terms@.map_values(|t: String| t@);
    let ghost gv = tags@.map_values(|t: String| t@);
    let cl = chars_of(to_lowercase(content).as_str());
    let mut score: i32 = 0;
    let mut reasons: Vec<String> = Vec::new();
    let mut matched: Vec<String> = Vec::new();
    let mut i: usize = 0;
    while i < terms.len()
        invariant
            i <= terms@.len(),
            terms@.len() * (tags@.len() + 1) <= 40_000_000,
            tv == terms@.map_values(|t: String| t@),
            gv == tags@.map_values(|t: String| t@),
            cl@ == lowercase(content@),
            score as int == match_points(cl@, gv, tv.take(i as int)),
            i * (tags@.len() + 1) <= 40_000_000,
            0 <= score <= 40 * (i * (tags@.len() + 1)),
            reasons@.map_values(|t: String| t@) == match_reasons(cl@, gv, tv.take(i as int)),
            matched@.map_values(|t: String| t@) == match_tags(gv, tv.take(i as int)),
        decreases terms@.len() - i,
    {
        proof {
            assert(tv.take(i + 1).drop_last() =~= tv.take(i as int));
            assert(tv.take(i + 1).last() == terms@[i as int]@);
            assert(i * (tags@.len() + 1) + (tags@.len() + 1) == (i + 1) * (tags@.len() + 1)) by (nonlinear_arith);
            assert((i + 1) * (tags@.len() + 1) <= terms@.len() * (tags@.len() + 1)) by (nonlinear_arith)
                requires
                    i + 1 <= terms@.len(),
            ;
        }
        let term = &terms[i];
        let tc = chars_of(term.as_str());
        let ghost r0 = reasons@.map_values(|t: String| t@);
        let ghost m0 = matched@.map_values(|t: String| t@);
        let ghost s0 = score as int;
        let content_hit = contains_chars(&cl, &tc);
        if content_hit {
            score = score + 30;
            let mut why = owned("题干匹配「");
            why.append(term.as_str());
            why.append("」");
            let ghost wv = why@;
            reasons.push(why);
            assert(reasons@.map_values(|t: String| t@) =~= r0.push(wv));
        }
        let ghost r1 = reasons@.map_values(|t: String| t@);
        let ghost s1 = score as int;
        let mut j: usize = 0;
        while j < tags.len()
            invariant
                j <= tags@.len(),
                gv == tags@.map_values(|t: String| t@),
                tc@ == term@,
                score as int == s1 + 40 * tag_matches(gv.take(j as int), term@).len(),
                s1 <= s0 + 30,
                0 <= s0 <= 40 * (i * (tags@.len() + 1)),
                (i + 1) * (tags@.len() + 1) <= 40_000_000,
                i * (tags@.len() + 1) + (tags@.len() + 1) == (i + 1) * (tags@.len() + 1),
                tag_matches(gv.take(j as int), term@).len() <= j,
                reasons@.map_values(|t: String| t@) == r1 + tag_matches(gv.take(j as int), term@).map_values(
                    |t: Seq<char>| tag_reason(t),
                ),
                matched@.map_values(|t: String| t@) == m0 + tag_matches(gv.take(j as int), term@),
            decreases tags@.len() - j,
        {
            proof {
                assert(gv.take(j + 1).drop_last() =~= gv.take(j as int));
                assert(gv.take(j + 1).last() == tags@[j as int]@);
            }
            let tag = &tags[j];
            let ghost prev_tm = tag_matches(gv.take(j as int), term@);
            let ghost rr = reasons@.map_values(|t: String| t@);
            let ghost mm = matched@.map_values(|t: String| t@);
            if contains_chars(&chars_of(to_lowercase(tag.as_str()).as_str()), &tc) {
                score = score + 40;
                let mut why = owned("命中标签「");
                why.append(tag.as_str());
                why.append("」");
                let ghost wv = why@;
                reasons.push(why);
                matched.push(tag.clone());
                proof {
                    assert(tag_matches(gv.take(j + 1), term@) =~= prev_tm.push(tag@));
                    assert(prev_tm.push(tag@).map_values(|t: Seq<char>| tag_reason(t)) =~= prev_tm.map_values(
                        |t: Seq<char>| tag_reason(t),
                    ).push(tag_reason(tag@)));
                    assert(reasons@.map_values(|t: String| t@) =~= rr.push(wv));
                    assert(matched@.map_values(|t: String| t@) =~= mm.push(tag@));
                }
            } else {
                assert(tag_matches(gv.take(j + 1), term@) =~= prev_tm);
            }
            j += 1;
        }
        proof {
            assert(gv.take(tags@.len() as int) =~= gv);
            assert(match_reasons(cl@, gv, tv.take(i + 1)) =~= match_reasons(cl@, gv, tv.take(i as int))
                + term_reasons(cl@, gv, term@));
            assert(match_tags(gv, tv.take(i + 1)) =~= match_tags(gv, tv.take(i as int)) + tag_matches(gv, term@));
        }
        i += 1;
    }
    assert(tv.take(terms@.len() as int) =~= tv);
    if score == 0 {
        return None;
    }
    if analyzed {
        score = score + 15;
    }
    let weak = match last_score {
        Some(v) => v < 60,
        None => false,
    };
    if weak {
        score = score + 25;
        let v = last_score.unwrap();
        let mut why: Vec<char> = chars_of("薄弱考点（历史 ");
        crate::text::push_signed_decimal(&mut why, v as i64);
        crate::text::extend_chars(&mut why, "分）");
        let ghost rr = reasons@.map_values(|t: String| t@);
        let ws = string_of(&why);
        let ghost wv = ws@;
        reasons.push(ws);
        assert(reasons@.map_values(|t: String| t@) =~= rr.push(wv));
    }
    let ghost all = reasons@.map_values(|t: String| t@);
    let reason = if reasons.len() == 0 {
        owned("关联度匹配")
    } else {
        string_of(&join_strings(&reasons, " · "))
    };
    proof {
        let cl_s = lowercase(content@);
        let weak_s = match last_score {
            Some(v) => v < 60,
            None => false,
        };
        assert(weak == weak_s);
        let spec_reasons = match_reasons(cl_s, gv, tv) + if weak_s {
            seq!["薄弱考点（历史 "@ + signed_decimal(last_score->0 as int) + "分）"@]
        } else {
            Seq::empty()
        };
        assert(all =~= spec_reasons);
        assert(match_points(cl_s, gv, tv) != 0);
    }
    Some(QuestionMatch { score, reason, matched_tags: matched })
}

/// A question proposed for a dossier.
#[derive(Debug, Clone, PartialEq)]
pub struct MatchedQuestion {
    pub id: i64,
    pub content: String,
    pub company: Option<String>,
    pub tags: Vec<String>,
    pub last_score: Option<i32>,
    pub match_reason: String,
}

pub struct MatchedQuestionV {
    pub id: i64,
    pub content: Seq<char>,
    pub company: Option<Seq<char>>,
    pub tags: Seq<Seq<char>>,
    pub last_score: Option<i32>,
    pub match_reason: Seq<char>,
}

impl View for MatchedQuestion {
    type V = MatchedQuestionV;

    open spec fn view(&self) -> MatchedQuestionV {
        MatchedQuestionV {
            id: self.id,
            content: self.content@,
            company: opt_view(self.company),
            tags: self.tags@.map_values(|t: String| t@),
            last_score: self.last_score,
            match_reason: self.match_reason@,
        }
    }
}

/// A scored question by its view.
pub open spec fn scored_view(p: (i32, MatchedQuestion)) -> (i32, MatchedQuestionV) {
    (p.0, p.1@)
}

/// Inserts a scored item after every item that scores at least as much.
pub open spec fn insert_desc<T>(sorted: Seq<(i32, T)>, x: (i32, T)) -> Seq<(i32, T)>
    decreases sorted.len(),
{
    if sorted.len() == 0 || sorted.last().0 >= x.0 {
        sorted.push(x)
    } else {
        insert_desc(sorted.drop_last(), x).push(sorted.last())
    }
}

/// Stable sort by descending score: equal scores keep their order.
pub open spec fn sort_desc<T>(s: Seq<(i32, T)>) -> Seq<(i32, T)>
    decreases s.len(),
{
    if s.len() == 0 {
        Seq::empty()
    } else {
        insert_desc(sort_desc(s.drop_last()), s.last())
    }
}

/// The items of the eight best scores (ties in their given order).
pub open spec fn top_eight<T>(s: Seq<(i32, T)>) -> Seq<T> {
    let sorted = sort_desc(s);
    sorted.take(if sorted.len() < 8 {
        sorted.len() as int
    } else {
        8
    }).map_values(|p: (i32, T)| p.1)
}

/// Scores in descending order.
pub open spec fn is_desc<T>(s: Seq<(i32, T)>) -> bool {
    forall|a: int, b: int| 0 <= a < b < s.len() ==> #[trigger] s[a].0 >= #[trigger] s[b].0
}

/// Inserting before the trailing run of lower scores is `insert_desc`.
proof fn lemma_insert_desc_at<T>(s: Seq<(i32, T)>, x: (i32, T), p: int)
    requires
        0 <= p <= s.len(),
        forall|q: int| p <= q < s.len() ==> (#[trigger] s[q]).0 < x.0,
        p == 0 || s[p - 1].0 >= x.0,
    ensures
        insert_desc(s, x) == s.insert(p, x),
    decreases s.len(),
{
    if s.len() == 0 {
        assert(s.insert(p, x) =~= s.push(x));
    } else if s.last().0 >= x.0 {
        assert(p == s.len());
        assert(s.insert(p, x) =~= s.push(x));
    } else {
        let d = s.drop_last();
        assert forall|q: int| p <= q < d.len() implies (#[trigger] d[q]).0 < x.0 by {
            assert(d[q] == s[q]);
        }
        if p > 0 {
            assert(d[p - 1] == s[p - 1]);
        }
        lemma_insert_desc_at(d, x, p);
        assert(d.insert(p, x).push(s.last()) =~= s.insert(p, x));
    }
}

/// `insert_desc` keeps the order and adds exactly the new item.
pub proof fn lemma_insert_desc<T>(s: Seq<(i32, T)>, x: (i32, T))
    requires
        is_desc(s),
    ensures
        is_desc(insert_desc(s, x)),
        insert_desc(s, x).to_multiset() == s.to_multiset().insert(x),
    decreases s.len(),
{
    broadcast use vstd::seq_lib::group_to_multiset_ensures;

    if s.len() == 0 || s.last().0 >= x.0 {
        assert forall|a: int, b: int| 0 <= a < b < s.push(x).len() implies #[trigger] s.push(x)[a].0
            >= #[trigger] s.push(x)[b].0 by {
            if b == s.len() {
                assert(s[a].0 >= s.last().0);
            }
        }
    } else {
        let d = s.drop_last();
        assert(is_desc(d)) by {
            assert forall|a: int, b: int| 0 <= a < b < d.len() implies #[trigger] d[a].0 >= #[trigger] d[b].0 by {
                assert(d[a] == s[a] && d[b] == s[b]);
            }
        }
        lemma_insert_desc(d, x);
        let r = insert_desc(d, x);
        let l = s.last();
        assert forall|a: int| 0 <= a < r.len() implies (#[trigger] r[a]).0 >= l.0 by {
            assert(r.to_multiset().count(r[a]) > 0);
            assert(d.to_multiset().insert(x).count(r[a]) > 0);
            if r[a] != x {
                assert(d.to_multiset().count(r[a]) > 0);
                assert(d.contains(r[a]));
                let t = choose|t: int| 0 <= t < d.len() && d[t] == r[a];
                assert(s[t] == d[t]);
            }
        }
        assert forall|a: int, b: int| 0 <= a < b < r.push(l).len() implies #[trigger] r.push(l)[a].0
            >= #[trigger] r.push(l)[b].0 by {
            if b == r.len() {
                assert(r[a].0 >= l.0);
            } else {
                assert(r.push(l)[a] == r[a] && r.push(l)[b] == r[b]);
            }
        }
        assert(s =~= d.push(l));
        assert(r.push(l).to_multiset() =~= s.to_multiset().insert(x));
    }
}

/// The stable descending sort is ordered by score and keeps exactly the items.
pub proof fn lemma_sort_desc<T>(s: Seq<(i32, T)>)
    ensures
        is_desc(sort_desc(s)),
        sort_desc(s).to_multiset() == s.to_multiset(),
    decreases s.len(),
{
    broadcast use vstd::seq_lib::group_to_multiset_ensures;

    if s.len() > 0 {
        lemma_sort_desc(s.drop_last());
        lemma_insert_desc(sort_desc(s.drop_last()), s.last());
        assert(s =~= s.drop_last().push(s.last()));
    } else {
        assert(s.to_multiset() =~= vstd::multiset::Multiset::empty());
        assert(sort_desc(s).to_multiset() =~= vstd::multiset::Multiset::empty());
    }
}

/// The eight best matches by score, ties kept in their given order.
pub fn rank_questions(scored: Vec<(i32, MatchedQuestion)>) -> (r: Vec<MatchedQuestion>)
    ensures
        r@.map_values(|q: MatchedQuestion| q@) == top_eight(scored@.map_values(|p: (i32, MatchedQuestion)| scored_view(p))),
{
    let ghost orig = scored@.map_values(|p: (i32, MatchedQuestion)| scored_view(p));
    let ghost raw = scored@;
    let mut src = scored;
    let mut sorted: Vec<(i32, MatchedQuestion)> = Vec::new();
    let ghost mut k: int = 0;
    while src.len() > 0
        invariant
            0 <= k <= orig.len(),
            orig == raw.map_values(|p: (i32, MatchedQuestion)| scored_view(p)),
            src@ == raw.skip(k),
            sorted@.map_values(|p: (i32, MatchedQuestion)| scored_view(p)) == sort_desc(orig.take(k)),
        decreases src@.len(),
    {
        let ghost before = src@;
        let x = src.remove(0);
        proof {
            assert(before[0] == raw[k]);
            assert(src@ =~= raw.skip(k + 1));
            assert(orig.take(k + 1).drop_last() =~= orig.take(k));
            assert(orig.take(k + 1).last() == scored_view(x));
        }
        let ghost sv = sorted@.map_values(|p: (i32, MatchedQuestion)| scored_view(p));
        let mut p: usize = sorted.len();
        while p > 0 && sorted[p - 1].0 < x.0
            invariant
                p <= sorted@.len(),
                sv == sorted@.map_values(|p: (i32, MatchedQuestion)| scored_view(p)),
                forall|q: int| p <= q < sv.len() ==> (#[trigger] sv[q]).0 < x.0,
            decreases p,
        {
            assert(sv[p - 1] == scored_view(sorted@[p - 1]));
            p -= 1;
        }
        proof {
            if p > 0 {
                assert(sv[p - 1] == scored_view(sorted@[p - 1]));
            }
            lemma_insert_desc_at(sv, scored_view(x), p as int);
            k = k + 1;
        }
        sorted.insert(p, x);
        assert(sorted@.map_values(|p: (i32, MatchedQuestion)| scored_view(p)) =~= sv.insert(p as int, scored_view(x)));
    }
    assert(orig.take(orig.len() as int) =~= orig);
    let ghost all = sorted@.map_values(|p: (i32, MatchedQuestion)| scored_view(p));
    let ghost all_raw = sorted@;
    let n: usize = if sorted.len() < 8 {
        sorted.len()
    } else {
        8
    };
    let mut out: Vec<MatchedQuestion> = Vec::new();
    let mut t: usize = 0;
    while t < n
        invariant
            t <= n,
            n <= all.len(),
            all == all_raw.map_values(|p: (i32, MatchedQuestion)| scored_view(p)),
            n == (if all.len() < 8 { all.len() } else { 8 }),
            sorted@ == all_raw.skip(t as int),
            out@.map_values(|q: MatchedQuestion| q@) == all.take(t as int).map_values(|p: (i32, MatchedQuestionV)| p.1),
        decreases n - t,
    {
        let ghost before = sorted@;
        let ghost ov = out@.map_values(|q: MatchedQuestion| q@);
        let (_, q) = sorted.remove(0);
        proof {
            assert(before[0] == all_raw[t as int]);
            assert(sorted@ =~= all_raw.skip(t + 1));
        }
        let ghost qv = q@;
        out.push(q);
        proof {
            assert(out@.map_values(|q: MatchedQuestion| q@) =~= ov.push(qv));
            assert(all.take(t + 1).map_values(|p: (i32, MatchedQuestionV)| p.1) =~= all.take(t as int).map_values(
                |p: (i32, MatchedQuestionV)| p.1,
            ).push(all[t as int].1));
        }
        t += 1;
    }
    out
}

/// A bank question considered for a dossier.
#[derive(Debug, Clone, PartialEq)]
pub struct Candidate {
    pub id: i64,
    pub content: String,
    pub company: Option<String>,
    pub tags: Vec<String>,
    /// Score of the latest analysis.
    pub last_score: Option<i32>,
    /// Whether the question has been analysed.
    pub analyzed: bool,
}

pub struct CandidateV {
    pub id: i64,
    pub content: Seq<char>,
    pub company: Option<Seq<char>>,
    pub tags: Seq<Seq<char>>,
    pub last_score: Option<i32>,
    pub analyzed: bool,
}

impl View for Candidate {
    type V = CandidateV;

    open spec fn view(&self) -> CandidateV {
        CandidateV {
            id: self.id,
            content: self.content@,
            company: opt_view(self.company),
            tags: text_views(self.tags@),
            last_score: self.last_score,
            analyzed: self.analyzed,
        }
    }
}

/// The proposal of a candidate (empty when it does not match).
pub open spec fn candidate_entry(terms: Seq<Seq<char>>, c: CandidateV) -> Seq<(i32, MatchedQuestionV)> {
    match question_match_spec(terms, c.content, c.tags, c.analyzed, c.last_score) {
        Some((score, why, _)) => seq![
            (
                score as i32,
                MatchedQuestionV {
                    id: c.id,
                    content: c.content,
                    company: c.company,
                    tags: c.tags,
                    last_score: c.last_score,
                    match_reason: why,
                },
            ),
        ],
        None => Seq::empty(),
    }
}

/// The scored proposals of the candidates, in candidate order.
pub open spec fn scored_candidates(terms: Seq<Seq<char>>, cs: Seq<CandidateV>) -> Seq<(i32, MatchedQuestionV)>
    decreases cs.len(),
{
    if cs.len() == 0 {
        Seq::empty()
    } else {
        scored_candidates(terms, cs.drop_last()) + candidate_entry(terms, cs.last())
    }
}

/// The tags that matched a term, over all candidates.
pub open spec fn candidate_tags(terms: Seq<Seq<char>>, cs: Seq<CandidateV>) -> Seq<Seq<char>>
    decreases cs.len(),
{
    if cs.len() == 0 {
        Seq::empty()
    } else {
        candidate_tags(terms, cs.drop_last()) + match_tags(cs.last().tags, terms)
    }
}

/// A dossier match request: free keywords, a position title, and the
/// application whose job description is searched too.
#[derive(Debug, Clone, PartialEq)]
pub struct DossierMatchReq {
    pub keywords: Option<String>,
    pub position: Option<String>,
    pub application_id: Option<i64>,
}

/// The answer of a dossier match.
#[derive(Debug, Clone, PartialEq)]
pub struct DossierMatchResp {
    /// The tags that matched, distinct and sorted.
    pub matched_tags: Vec<String>,
    /// The eight best proposals.
    pub questions: Vec<MatchedQuestion>,
}

/// Matches bank questions against the terms: each candidate is scored
/// ([`score_question`]); the eight best proposals are kept (ties in candidate
/// order) and the tags that matched are listed once each, sorted.
pub fn match_questions(terms: &[String], candidates: Vec<Candidate>) -> (r: DossierMatchResp)
    requires
        forall|k: int| 0 <= k < candidates@.len() ==> terms@.len() * ((#[trigger] candidates@[k]).tags@.len() + 1) <= 40_000_000,
    ensures
        r.questions@.map_values(|q: MatchedQuestion| q@) == top_eight(
            scored_candidates(text_views(terms@), candidates@.map_values(|c: Candidate| c@)),
        ),
        strictly_sorted(text_views(r.matched_tags@)),
        forall|t: Seq<char>| #[trigger] text_views(r.matched_tags@).contains(t) <==> candidate_tags(
            text_views(terms@),
            candidates@.map_values(|c: Candidate| c@),
        ).contains(t),
{
    let ghost tv = text_views(terms@);
    let ghost raw = candidates@;
    let ghost cv = candidates@.map_values(|c: Candidate| c@);
    let mut src = candidates;
    let mut scored: Vec<(i32, MatchedQuestion)> = Vec::new();
    let mut all_tags: Vec<String> = Vec::new();
    let ghost mut k: int = 0;
    assert(tv =~= terms@.map_values(|t: String| t@));
    while src.len() > 0
        invariant
            0 <= k <= raw.len(),
            cv == raw.map_values(|c: Candidate| c@),
            tv == text_views(terms@),
            tv == terms@.map_values(|t: String| t@),
            src@ == raw.skip(k),
            forall|q: int| 0 <= q < raw.len() ==> terms@.len() * ((#[trigger] raw[q]).tags@.len() + 1) <= 40_000_000,
            scored@.map_values(|p: (i32, MatchedQuestion)| scored_view(p)) == scored_candidates(tv, cv.take(k)),
            text_views(all_tags@) == candidate_tags(tv, cv.take(k)),
        decreases src@.len(),
    {
        let ghost before = src@;
        let c = src.remove(0);
        proof {
            assert(before[0] == raw[k]);
            assert(src@ =~= raw.skip(k + 1));
            assert(cv.take(k + 1).drop_last() =~= cv.take(k));
            assert(cv.take(k + 1).last() == c@);
            assert(c@.tags == c.tags@.map_values(|t: String| t@));
        }
        let m = score_question(terms, c.content.as_str(), &c.tags, c.analyzed, c.last_score);
        let ghost sv = scored@.map_values(|p: (i32, MatchedQuestion)| scored_view(p));
        let ghost av = text_views(all_tags@);
        match m {
            Some(qm) => {
                let ghost mt = text_views(qm.matched_tags@);
                let QuestionMatch { score, reason, matched_tags } = qm;
                let mut mtags = matched_tags;
                all_tags.append(&mut mtags);
                let Candidate { id, content, company, tags, last_score, analyzed: _ } = c;
                let entry = MatchedQuestion { id, content, company, tags, last_score, match_reason: reason };
                let ghost ev = scored_view((score, entry));
                scored.push((score, entry));
                proof {
                    assert(scored@.map_values(|p: (i32, MatchedQuestion)| scored_view(p)) =~= sv.push(ev));
                    assert(text_views(all_tags@) =~= av + mt);
                }
            },
            None => {
                proof {
                    assert(scored@.map_values(|p: (i32, MatchedQuestion)| scored_view(p)) =~= sv + Seq::<
                        (i32, MatchedQuestionV),
                    >::empty());
                    assert(match_tags(c@.tags, tv).len() == 0) by {
                        lemma_no_points_no_tags(lowercase(c@.content), c@.tags, tv);
                    }
                    assert(text_views(all_tags@) =~= av + match_tags(c@.tags, tv));
                }
            },
        }
        proof {
            k = k + 1;
        }
    }
    assert(cv.take(raw.len() as int) =~= cv);
    let questions = rank_questions(scored);
    let matched_tags = sorted_unique(&all_tags);
    DossierMatchResp { matched_tags, questions }
}

/// No points means no matching tag.
proof fn lemma_no_points_no_tags(content_lower: Seq<char>, tags: Seq<Seq<char>>, terms: Seq<Seq<char>>)
    requires
        match_points(content_lower, tags, terms) == 0,
    ensures
        match_tags(tags, terms).len() == 0,
    decreases terms.len(),
{
    if terms.len() > 0 {
        lemma_points_nonneg(content_lower, tags, terms.drop_last());
        lemma_no_points_no_tags(content_lower, tags, terms.drop_last());
    }
}

proof fn lemma_points_nonneg(content_lower: Seq<char>, tags: Seq<Seq<char>>, terms: Seq<Seq<char>>)
    ensures
        match_points(content_lower, tags, terms) >= 0,
    decreases terms.len(),
{
    if terms.len() > 0 {
        lemma_points_nonneg(content_lower, tags, terms.drop_last());
    }
}

/// The speaker label of a transcript line: 面试官 for the interviewer's
/// questions, scores and other messages, 总结 for the summary, 我 for the
/// candidate.
pub open spec fn speaker(role: Seq<char>, kind: Seq<char>) -> Seq<char> {
    if role == "ai"@ && kind == "summary"@ {
        "总结"@
    } else if role == "user"@ {
        "我"@
    } else {
        "面试官"@
    }
}

/// One transcript entry: a score message is preceded by its score line.
pub open spec fn transcript_entry(m: (Seq<char>, Seq<char>, Seq<char>, Option<i32>)) -> Seq<char> {
    (if m.0 == "ai"@ && m.1 == "score"@ {
        "【判分 "@ + signed_decimal(
            match m.3 {
                Some(v) => v as int,
                None => 0,
            },
        ) + " 分】\n"@
    } else {
        Seq::empty()
    }) + speaker(m.0, m.1) + "："@ + m.2 + "\n\n"@
}

pub open spec fn transcript_spec(ms: Seq<(Seq<char>, Seq<char>, Seq<char>, Option<i32>)>) -> Seq<char>
    decreases ms.len(),
{
    if ms.len() == 0 {
        Seq::empty()
    } else {
        transcript_spec(ms.drop_last()) + transcript_entry(ms.last())
    }
}

pub open spec fn transcript_rows(ms: Seq<(String, String, String, Option<i32>)>) -> Seq<
    (Seq<char>, Seq<char>, Seq<char>, Option<i32>),
> {
    ms.map_values(|m: (String, String, String, Option<i32>)| (m.0@, m.1@, m.2@, m.3))
}

/// The plain-text transcript of a drill from its messages `(role, kind,
/// content, score)` in order.
pub fn transcript_text(messages: &[(String, String, String, Option<i32>)]) -> (r: String)
    ensures
        r@ == transcript_spec(transcript_rows(messages@)),
{
    let ghost mv = transcript_rows(messages@);
    let mut out: Vec<char> = Vec::new();
    let mut i: usize = 0;
    while i < messages.len()
        invariant
            i <= messages@.len(),
            mv == transcript_rows(messages@),
            out@ == transcript_spec(mv.take(i as int)),
        decreases messages@.len() - i,
    {
        proof {
            assert(mv.take(i + 1).drop_last() =~= mv.take(i as int));
        }
        let (role, kind, content, score) = &messages[i];
        let ghost before = out@;
        let is_ai = str_eq(role.as_str(), "ai");
        if is_ai && str_eq(kind.as_str(), "score") {
            extend_chars(&mut out, "【判分 ");
            let v: i64 = match score {
                Some(x) => *x as i64,
                None => 0,
            };
            push_signed_decimal(&mut out, v);
            extend_chars(&mut out, " 分】\n");
        }
        let ghost with_score = out@;
        proof {
            reveal_strlit("ai");
            reveal_strlit("user");
            assert("ai"@ != "user"@) by {
                assert("ai"@.len() != "user"@.len());
            }
        }
        if is_ai && str_eq(kind.as_str(), "summary") {
            extend_chars(&mut out, "总结");
        } else if str_eq(role.as_str(), "user") {
            extend_chars(&mut out, "我");
        } else {
            extend_chars(&mut out, "面试官");
        }
        extend_chars(&mut out, "：");
        extend_chars(&mut out, content.as_str());
        extend_chars(&mut out, "\n\n");
        proof {
            assert(out@ =~= before + transcript_entry(mv[i as int]));
        }
        i += 1;
    }
    assert(mv.take(mv.len() as int) =~= mv);
    string_of(&out)
}

/// The file name of a drill's transcript: `drill_{id}.txt`.
pub fn transcript_file_name(id: i64) -> (r: String)
    ensures
        r@ == "drill_"@ + signed_decimal(id as int) + ".txt"@,
{
    let mut c: Vec<char> = Vec::new();
    extend_chars(&mut c, "drill_");
    push_signed_decimal(&mut c, id);
    extend_chars(&mut c, ".txt");
    string_of(&c)
}

/// The question text the model produced, trimmed; a blank one is refused.
pub fn sink_content(content: &str) -> (r: Result<String, AppError>)
    ensures
        trim(content@).len() > 0 ==> (r matches Ok(c) && c@ == trim(content@)),
        trim(content@).len() == 0 ==> (r matches Err(e) && e@ == AppErrorView::BadRequest("AI 未产出有效题目"@)),
{
    let c = trim_chars(&chars_of(content));
    if c.len() == 0 {
        Err(AppError::BadRequest(owned("AI 未产出有效题目")))
    } else {
        Ok(string_of(&c))
    }
}

/// Finishing a drill that changed no row (missing or already finished) is refused.
pub fn finish_outcome(rows_affected: u64) -> (r: Result<(), AppError>)
    ensures
        r is Ok <==> rows_affected > 0,
        r matches Err(e) ==> e@ == AppErrorView::BadRequest("场次不存在或已结束"@),
{
    if rows_affected == 0 {
        Err(AppError::BadRequest(owned("场次不存在或已结束")))
    } else {
        Ok(())
    }
}

/// The feedback recorded when grading an answer failed with `reason`.
pub fn grading_failed_feedback(reason: &str) -> (r: String)
    ensures
        r@ == "（本回答判分失败："@ + reason@ + "，已记录回答，可重新判卷或到题目详情补分析）"@,
{
    let mut s = owned("（本回答判分失败：");
    s.append(reason);
    s.append("，已记录回答，可重新判卷或到题目详情补分析）");
    s
}

} // verus!
