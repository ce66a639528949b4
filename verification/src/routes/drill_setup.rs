//! Rules of opening a drill session: the accepted kind, the session title,
//! the questions an interviewer dossier selects and how they are written back
//! into it, and which personas a user may pick.
use vstd::prelude::*;
use vstd::pervasive::VecAdditionalExecFns;
use vstd::string::StringExecFns;

use crate::clock::local_time_label;
use crate::error::{AppError, AppErrorView};
use crate::json::{i64_of, lemma_array_view, lemma_object_view, member, Json, JsonView};
use crate::text::{
    chars_eq, chars_of, opt_str_view, opt_view, owned, push_signed_decimal, signed_decimal, str_eq, string_of, trim,
    trim_chars,
};

verus! {

/// Message of the refusal of any kind but `interview`.
pub const KIND_RETIRED: &'static str = "kind 必须是 interview（paper/试卷与 resume_grill 已按 ADR-0023 全链路退役）";

/// Only interview drills can be opened.
pub fn validate_drill_kind(kind: &str) -> (r: Result<(), AppError>)
    ensures
        r is Ok <==> kind@ == "interview"@,
        r matches Err(e) ==> e@ == AppErrorView::BadRequest(KIND_RETIRED@),
{
    if str_eq(kind, "interview") {
        Ok(())
    } else {
        Err(AppError::BadRequest(owned(KIND_RETIRED)))
    }
}

/// The session title: the given title trimmed, or when it is blank
/// `模拟面试 · {position} · {now}`.
pub open spec fn drill_title_spec(title: Option<Seq<char>>, position: Option<Seq<char>>, now: Seq<char>) -> Seq<
    char,
> {
    let fallback = "模拟面试 · "@ + (match position {
        Some(p) => p,
        None => Seq::empty(),
    }) + " · "@ + now;
    match title {
        Some(t) => if trim(t).len() > 0 {
            trim(t)
        } else {
            fallback
        },
        None => fallback,
    }
}

/// Builds the session title for the time label `now`.
pub fn drill_title(title: Option<&str>, position: Option<&str>, now: &str) -> (r: String)
    ensures
        r@ == drill_title_spec(opt_str_view(title), opt_str_view(position), now@),
{
    if let Some(t) = title {
        let tc = trim_chars(&chars_of(t));
        if tc.len() > 0 {
            return string_of(&tc);
        }
    }
    let mut s = owned("模拟面试 · ");
    match position {
        Some(p) => s.append(p),
        None => {
            assert(s@ + Seq::<char>::empty() == s@);
        },
    }
    s.append(" · ");
    s.append(now);
    s
}

/// The title of a session opened now: the given title, or the default one
/// labelled with the current local time.
pub fn new_drill_title(title: Option<&str>, position: Option<&str>) -> (r: String)
    ensures
        exists|now: Seq<char>| r@ == drill_title_spec(opt_str_view(title), opt_str_view(position), now),
{
    let now = local_time_label();
    let r = drill_title(title, position, now.as_str());
    assert(r@ == drill_title_spec(opt_str_view(title), opt_str_view(position), now@));
    r
}

/// A persona row as stored: whether it is built in, and its owner.
/// A user may pick a persona that exists and is built in or their own.
pub open spec fn persona_usable_spec(row: Option<(bool, Option<i64>)>, uid: i64) -> bool {
    match row {
        Some((builtin, owner)) => builtin || owner == Some(uid),
        None => false,
    }
}

/// Whether user `uid` may pick the persona `row` (`None`: missing or deleted).
pub fn persona_usable(row: Option<(bool, Option<i64>)>, uid: i64) -> (r: bool)
    ensures
        r == persona_usable_spec(row, uid),
{
    match row {
        Some((_, Some(owner))) if owner == uid => true,
        Some((true, _)) => true,
        _ => false,
    }
}

/// The integers among array items (`filter_map(as_i64)`).
pub open spec fn ints_of(items: Seq<JsonView>) -> Seq<i64>
    decreases items.len(),
{
    if items.len() == 0 {
        Seq::empty()
    } else {
        ints_of(items.drop_last()) + match i64_of(items.last()) {
            Some(x) => seq![x],
            None => Seq::empty(),
        }
    }
}

/// The strings among array items (`filter_map(as_str)`).
pub open spec fn texts_of(items: Seq<JsonView>) -> Seq<Seq<char>>
    decreases items.len(),
{
    if items.len() == 0 {
        Seq::empty()
    } else {
        texts_of(items.drop_last()) + match items.last() {
            JsonView::Str(s) => seq![s],
            _ => Seq::empty(),
        }
    }
}

/// The integers of an array member; empty when absent or not an array.
pub open spec fn int_list(d: JsonView, key: Seq<char>) -> Seq<i64> {
    match member(d, key) {
        Some(JsonView::Array(a)) => ints_of(a),
        _ => Seq::empty(),
    }
}

/// The strings of an array member; empty when absent or not an array.
pub open spec fn text_list(d: JsonView, key: Seq<char>) -> Seq<Seq<char>> {
    match member(d, key) {
        Some(JsonView::Array(a)) => texts_of(a),
        _ => Seq::empty(),
    }
}

/// An integer member.
pub open spec fn int_member(d: JsonView, key: Seq<char>) -> Option<i64> {
    match member(d, key) {
        Some(x) => i64_of(x),
        None => None,
    }
}

fn int_items(d: &Json, key: &str) -> (r: Vec<i64>)
    ensures
        r@ == int_list(d@, key@),
{
    match d.get(key) {
        Some(x) => match x.as_array() {
            Some(a) => {
                let ghost av = x@->Array_0;
                let mut out: Vec<i64> = Vec::new();
                let mut i: usize = 0;
                while i < a.len()
                    invariant
                        i <= a@.len(),
                        a@.len() == av.len(),
                        forall|t: int| 0 <= t < a@.len() ==> #[trigger] a@[t]@ == av[t],
                        out@ == ints_of(av.take(i as int)),
                    decreases a@.len() - i,
                {
                    proof {
                        assert(av.take(i + 1).drop_last() =~= av.take(i as int));
                        assert(av.take(i + 1).last() == a@[i as int]@);
                    }
                    if let Some(n) = a[i].as_i64() {
                        out.push(n);
                    }
                    i += 1;
                }
                assert(av.take(av.len() as int) =~= av);
                out
            },
            None => Vec::new(),
        },
        None => Vec::new(),
    }
}

fn text_items(d: &Json, key: &str) -> (r: Vec<String>)
    ensures
        r@.map_values(|s: String| s@) == text_list(d@, key@),
{
    match d.get(key) {
        Some(x) => match x.as_array() {
            Some(a) => {
                let ghost av = x@->Array_0;
                let mut out: Vec<String> = Vec::new();
                let mut i: usize = 0;
                while i < a.len()
                    invariant
                        i <= a@.len(),
                        a@.len() == av.len(),
                        forall|t: int| 0 <= t < a@.len() ==> #[trigger] a@[t]@ == av[t],
                        out@.map_values(|s: String| s@) == texts_of(av.take(i as int)),
                    decreases a@.len() - i,
                {
                    proof {
                        assert(av.take(i + 1).drop_last() =~= av.take(i as int));
                        assert(av.take(i + 1).last() == a@[i as int]@);
                    }
                    let ghost before = out@.map_values(|s: String| s@);
                    if let Some(s) = a[i].as_str() {
                        out.push(s.clone());
                        assert(out@.map_values(|s: String| s@) =~= before.push(s@));
                    }
                    i += 1;
                }
                assert(av.take(av.len() as int) =~= av);
                out
            },
            None => Vec::new(),
        },
        None => Vec::new(),
    }
}

/// The questions a dossier asks for.
#[derive(Debug, Clone, PartialEq)]
pub enum DossierSelection {
    /// The ids listed under `question_ids`.
    Listed(Vec<i64>),
    /// No ids listed: the questions of a skill subtree or of tags.
    Targeted { skill_id: Option<i64>, skill_ids: Vec<i64>, tags: Vec<String> },
    /// Nothing selected.
    Unselected,
}

pub enum DossierSelectionView {
    Listed(Seq<i64>),
    Targeted { skill_id: Option<i64>, skill_ids: Seq<i64>, tags: Seq<Seq<char>> },
    Unselected,
}

impl View for DossierSelection {
    type V = DossierSelectionView;

    open spec fn view(&self) -> DossierSelectionView {
        match self {
            DossierSelection::Listed(ids) => DossierSelectionView::Listed(ids@),
            DossierSelection::Targeted { skill_id, skill_ids, tags } => DossierSelectionView::Targeted {
                skill_id: *skill_id,
                skill_ids: skill_ids@,
                tags: tags@.map_values(|s: String| s@),
            },
            DossierSelection::Unselected => DossierSelectionView::Unselected,
        }
    }
}

/// What a dossier selects: its listed ids when there are any, else its skill
/// and tag targets when it has any.
pub open spec fn selection_spec(d: JsonView) -> DossierSelectionView {
    let ids = int_list(d, "question_ids"@);
    let skill_id = int_member(d, "skill_id"@);
    let skill_ids = int_list(d, "skill_ids"@);
    let tags = text_list(d, "tags"@);
    if ids.len() > 0 {
        DossierSelectionView::Listed(ids)
    } else if skill_id is Some || skill_ids.len() > 0 || tags.len() > 0 {
        DossierSelectionView::Targeted { skill_id, skill_ids, tags }
    } else {
        DossierSelectionView::Unselected
    }
}

/// Reads the selection of a dossier.
pub fn dossier_selection(d: &Json) -> (r: DossierSelection)
    ensures
        r@ == selection_spec(d@),
{
    let ids = int_items(d, "question_ids");
    if ids.len() > 0 {
        return DossierSelection::Listed(ids);
    }
    let skill_id = match d.get("skill_id") {
        Some(x) => x.as_i64(),
        None => None,
    };
    let skill_ids = int_items(d, "skill_ids");
    let tags = text_items(d, "tags");
    if skill_id.is_some() || skill_ids.len() > 0 || tags.len() > 0 {
        DossierSelection::Targeted { skill_id, skill_ids, tags }
    } else {
        DossierSelection::Unselected
    }
}

/// A question the dossier refers to, as loaded for it.
#[derive(Debug, Clone, PartialEq)]
pub struct DossierQuestion {
    pub id: i64,
    pub content: String,
    /// The reference answer of its latest analysis.
    pub ref_answer: Option<String>,
}

/// The JSON number of an integer.
pub open spec fn int_json(v: i64) -> JsonView {
    JsonView::Number(signed_decimal(v as int))
}

/// The object a question is written into the dossier as (keys in sorted order).
pub open spec fn question_json(id: i64, content: Seq<char>, ref_answer: Option<Seq<char>>) -> JsonView {
    JsonView::Object(
        seq![
            ("content"@, JsonView::Str(content)),
            ("id"@, int_json(id)),
            ("question_id"@, int_json(id)),
            ("ref_answer"@, match ref_answer {
                Some(a) => JsonView::Str(a),
                None => JsonView::Null,
            }),
        ],
    )
}

fn number_of(v: i64) -> (r: Json)
    ensures
        r@ == int_json(v),
{
    let mut c: Vec<char> = Vec::new();
    push_signed_decimal(&mut c, v);
    Json::Number(string_of(&c))
}

fn question_object(q: &DossierQuestion) -> (r: Json)
    ensures
        r@ == question_json(q.id, q.content@, opt_view(q.ref_answer)),
{
    let answer = match &q.ref_answer {
        Some(a) => Json::Str(a.clone()),
        None => Json::Null,
    };
    let mut m: Vec<(String, Json)> = Vec::new();
    m.push((owned("content"), Json::Str(q.content.clone())));
    m.push((owned("id"), number_of(q.id)));
    m.push((owned("question_id"), number_of(q.id)));
    m.push((owned("ref_answer"), answer));
    proof {
        lemma_object_view(m);
        assert(m@.map_values(|e: (String, Json)| (e.0@, e.1@)) =~= question_json(
            q.id,
            q.content@,
            opt_view(q.ref_answer),
        )->Object_0);
    }
    Json::Object(m)
}

/// Writes the selected ids and their questions into a dossier object: members
/// `question_ids` (the ids) and `questions` (one object per question).  With
/// no ids, or when the dossier is not an object, it is returned unchanged.
pub fn fill_dossier(d: Json, ids: &[i64], questions: &[DossierQuestion]) -> (r: Json)
    ensures
        ids@.len() > 0 && d@ is Object ==> {
            &&& r@ is Object
            &&& member(r@, "question_ids"@) == Some(JsonView::Array(ids@.map_values(|x: i64| int_json(x))))
            &&& member(r@, "questions"@) == Some(
                JsonView::Array(
                    questions@.map_values(
                        |q: DossierQuestion| question_json(q.id, q.content@, opt_view(q.ref_answer)),
                    ),
                ),
            )
            &&& forall|k: Seq<char>|
                k != "question_ids"@ && k != "questions"@ ==> #[trigger] member(r@, k) == member(d@, k)
        },
        !(ids@.len() > 0 && d@ is Object) ==> r@ == d@,
{
    if ids.len() == 0 {
        return d;
    }
    let mut nums: Vec<Json> = Vec::new();
    let mut i: usize = 0;
    while i < ids.len()
        invariant
            i <= ids@.len(),
            nums@.len() == i,
            forall|t: int| 0 <= t < i ==> #[trigger] nums@[t]@ == int_json(ids@[t]),
        decreases ids@.len() - i,
    {
        nums.push(number_of(ids[i]));
        i += 1;
    }
    let mut qs: Vec<Json> = Vec::new();
    let mut j: usize = 0;
    while j < questions.len()
        invariant
            j <= questions@.len(),
            qs@.len() == j,
            forall|t: int|
                0 <= t < j ==> #[trigger] qs@[t]@ == question_json(
                    questions@[t].id,
                    questions@[t].content@,
                    opt_view(questions@[t].ref_answer),
                ),
        decreases questions@.len() - j,
    {
        qs.push(question_object(&questions[j]));
        j += 1;
    }
    proof {
        lemma_array_view(nums);
        lemma_array_view(qs);
        assert(nums@.map_values(|x: Json| x@) =~= ids@.map_values(|x: i64| int_json(x)));
        assert(qs@.map_values(|x: Json| x@) =~= questions@.map_values(
            |q: DossierQuestion| question_json(q.id, q.content@, opt_view(q.ref_answer)),
        ));
        reveal_strlit("question_ids");
        reveal_strlit("questions");
        assert("question_ids"@.len() != "questions"@.len());
    }
    let ids_json = Json::Array(nums);
    let qs_json = Json::Array(qs);
    let ghost dv = d@;
    let with_ids = d.insert_member("question_ids", ids_json);
    with_ids.insert_member("questions", qs_json)
}

} // verus!
