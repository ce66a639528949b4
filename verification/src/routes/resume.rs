//! Resume rendering: the parsed resume document as a Markdown page.
use vstd::prelude::*;

use crate::json::{array_of, member, text_member, text_member_of, Json, JsonView};
use crate::text::{chars_of, extend_chars, join, join_lines, string_of, trim, trim_chars, trim_end, trim_end_chars};

verus! {

/// An array member; empty when absent or not an array.
pub open spec fn array_member(v: JsonView, key: Seq<char>) -> Seq<JsonView> {
    match array_of(member(v, key)) {
        Some(a) => a,
        None => Seq::empty(),
    }
}

/// The non-blank strings of an array, trimmed, in order.
pub open spec fn text_items(a: Seq<JsonView>) -> Seq<Seq<char>>
    decreases a.len(),
{
    if a.len() == 0 {
        Seq::empty()
    } else {
        let rest = text_items(a.drop_last());
        match a.last() {
            JsonView::Str(s) => if trim(s).len() > 0 {
                rest.push(trim(s))
            } else {
                rest
            },
            _ => rest,
        }
    }
}

/// The non-empty texts of the given keys, in order.
pub open spec fn present_texts(p: JsonView, keys: Seq<Seq<char>>) -> Seq<Seq<char>>
    decreases keys.len(),
{
    if keys.len() == 0 {
        Seq::empty()
    } else {
        let rest = present_texts(p, keys.drop_last());
        let v = text_member(p, keys.last());
        if v.len() > 0 {
            rest.push(v)
        } else {
            rest
        }
    }
}

/// `a`, then `b` when it is not empty, with `sep` between two non-empty texts.
pub open spec fn pair_text(a: Seq<char>, b: Seq<char>, sep: Seq<char>) -> Seq<char> {
    a + if b.len() > 0 {
        (if a.len() > 0 {
            sep
        } else {
            Seq::empty()
        }) + b
    } else {
        Seq::empty()
    }
}

/// `- item` lines.
pub open spec fn bullets(items: Seq<Seq<char>>) -> Seq<char>
    decreases items.len(),
{
    if items.len() == 0 {
        Seq::empty()
    } else {
        bullets(items.drop_last()) + "- "@ + items.last() + "\n"@
    }
}

/// A titled bullet list; empty when there are no items.
pub open spec fn titled_bullets(title: Seq<char>, items: Seq<Seq<char>>) -> Seq<char> {
    if items.len() > 0 {
        title + bullets(items)
    } else {
        Seq::empty()
    }
}

/// `before + body + after` when `body` is not empty.
pub open spec fn optional_block(before: Seq<char>, body: Seq<char>, after: Seq<char>) -> Seq<char> {
    if body.len() > 0 {
        before + body + after
    } else {
        Seq::empty()
    }
}

/// The rendering of each element, concatenated.
pub open spec fn render_each(a: Seq<JsonView>, f: spec_fn(JsonView) -> Seq<char>) -> Seq<char>
    decreases a.len(),
{
    if a.len() == 0 {
        Seq::empty()
    } else {
        render_each(a.drop_last(), f) + f(a.last())
    }
}

/// A section: its heading and each element; nothing for no elements.
pub open spec fn section(heading: Seq<char>, a: Seq<JsonView>, f: spec_fn(JsonView) -> Seq<char>) -> Seq<char> {
    if a.len() > 0 {
        heading + render_each(a, f)
    } else {
        Seq::empty()
    }
}

/// `- school · degree`.
pub open spec fn education_line(e: JsonView) -> Seq<char> {
    trim_end("- "@ + pair_text(text_member(e, "school"@), text_member(e, "degree"@), " · "@)) + "\n"@
}

/// `### company · title`, the period, the duties and the achievements.
pub open spec fn experience_entry(e: JsonView) -> Seq<char> {
    let period = text_member(e, "period"@);
    trim_end("### "@ + pair_text(text_member(e, "company"@), text_member(e, "title"@), " · "@)) + "  \n"@
        + optional_block(Seq::empty(), period, "\n"@) + titled_bullets(
        "职责：\n"@,
        text_items(array_member(e, "responsibilities"@)),
    ) + titled_bullets("业绩：\n"@, text_items(array_member(e, "achievements"@)))
}

/// `### name`, the detail and a blank line.
pub open spec fn project_entry(pr: JsonView) -> Seq<char> {
    optional_block("### "@, text_member(pr, "name"@), "\n"@) + optional_block(
        Seq::empty(),
        text_member(pr, "detail"@),
        "\n"@,
    ) + "\n"@
}

/// `- name（date）`, or whichever of the two is present.
pub open spec fn certificate_line(c: JsonView) -> Seq<char> {
    let n = text_member(c, "name"@);
    let d = text_member(c, "date"@);
    if n.len() > 0 && d.len() > 0 {
        "- "@ + n + "（"@ + d + "）\n"@
    } else if n.len() > 0 {
        "- "@ + n + "\n"@
    } else if d.len() > 0 {
        "- "@ + d + "\n"@
    } else {
        Seq::empty()
    }
}

/// `- [label](url)`, or whichever of the two is present.
pub open spec fn link_line(l: JsonView) -> Seq<char> {
    let label = text_member(l, "label"@);
    let url = text_member(l, "url"@);
    if label.len() == 0 && url.len() == 0 {
        Seq::empty()
    } else if label.len() == 0 {
        "- "@ + url + "\n"@
    } else if url.len() == 0 {
        "- "@ + label + "\n"@
    } else {
        "- ["@ + label + "]("@ + url + ")\n"@
    }
}

pub open spec fn education_fn() -> spec_fn(JsonView) -> Seq<char> {
    |e: JsonView| education_line(e)
}

pub open spec fn experience_fn() -> spec_fn(JsonView) -> Seq<char> {
    |e: JsonView| experience_entry(e)
}

pub open spec fn project_fn() -> spec_fn(JsonView) -> Seq<char> {
    |e: JsonView| project_entry(e)
}

pub open spec fn certificate_fn() -> spec_fn(JsonView) -> Seq<char> {
    |e: JsonView| certificate_line(e)
}

pub open spec fn link_fn() -> spec_fn(JsonView) -> Seq<char> {
    |e: JsonView| link_line(e)
}

/// Keys of the contact line, in display order.
pub open spec fn contact_keys() -> Seq<Seq<char>> {
    seq!["gender"@, "age"@, "phone"@, "email"@, "city"@, "years"@, "political"@]
}

/// Keys of the job intention line, in display order.
pub open spec fn intent_keys() -> Seq<Seq<char>> {
    seq!["intent_position"@, "intent_city"@, "intent_salary"@]
}

/// The Markdown page of a parsed resume (an absent document renders the
/// default title only).
pub open spec fn markdown_spec(parsed: Option<JsonView>) -> Seq<char> {
    let p = match parsed {
        Some(v) => v,
        None => JsonView::Null,
    };
    let name = text_member(p, "name"@);
    let contacts = present_texts(p, contact_keys());
    let intent = present_texts(p, intent_keys());
    let skills = text_items(array_member(p, "skills"@));
    "# "@ + (if name.len() == 0 {
        "简历"@
    } else {
        name
    }) + "\n"@ + optional_block("\n> "@, text_member(p, "summary"@), "\n"@) + optional_block(
        "\n"@,
        join(contacts, " ｜ "@),
        "\n"@,
    ) + optional_block("\n**求职意向**："@, join(intent, " · "@), "\n"@) + section(
        "\n## 教育经历\n"@,
        array_member(p, "education"@),
        education_fn(),
    ) + section("\n## 工作经历\n"@, array_member(p, "experience"@), experience_fn()) + section(
        "\n## 项目经历\n"@,
        array_member(p, "projects"@),
        project_fn(),
    ) + optional_block("\n## 技能特长\n"@, join(skills, "、"@), "\n"@) + section(
        "\n## 证书荣誉\n"@,
        array_member(p, "certificates"@),
        certificate_fn(),
    ) + optional_block("\n## 自我评价\n"@, text_member(p, "self_evaluation"@), "\n"@) + section(
        "\n## 相关链接\n"@,
        array_member(p, "links"@),
        link_fn(),
    )
}

/// The elements of an array member; `None` when there are none to show.
fn elements_of<'a>(v: &'a Json, key: &str) -> (r: Option<&'a Vec<Json>>)
    ensures
        r matches Some(a) ==> a@.map_values(|j: Json| j@) == array_member(v@, key@),
        r is None ==> array_member(v@, key@).len() == 0,
{
    match v.get(key) {
        Some(x) => match x.as_array() {
            Some(a) => {
                assert(a@.map_values(|j: Json| j@) =~= array_member(v@, key@));
                Some(a)
            },
            None => None,
        },
        None => None,
    }
}

/// The non-blank strings of an array, trimmed.
fn text_items_of(a: &Vec<Json>) -> (r: Vec<Vec<char>>)
    ensures
        r@.map_values(|x: Vec<char>| x@) == text_items(a@.map_values(|j: Json| j@)),
{
    let ghost av = a@.map_values(|j: Json| j@);
    let mut r: Vec<Vec<char>> = Vec::new();
    let mut i: usize = 0;
    while i < a.len()
        invariant
            i <= a@.len(),
            av == a@.map_values(|j: Json| j@),
            r@.map_values(|x: Vec<char>| x@) == text_items(av.take(i as int)),
        decreases a@.len() - i,
    {
        proof {
            assert(av.take(i + 1).drop_last() == av.take(i as int));
            assert(av.take(i + 1).last() == a@[i as int]@);
        }
        let ghost before = r@.map_values(|x: Vec<char>| x@);
        if let Some(s) = a[i].as_str() {
            let t = trim_chars(&chars_of(s.as_str()));
            if t.len() > 0 {
                let ghost tv = t@;
                r.push(t);
                assert(r@.map_values(|x: Vec<char>| x@) =~= before.push(tv));
            }
        }
        i += 1;
    }
    assert(av.take(a@.len() as int) == av);
    r
}

/// The non-empty texts of the given keys.
fn present_texts_of(p: &Json, keys: &[&str]) -> (r: Vec<Vec<char>>)
    ensures
        r@.map_values(|x: Vec<char>| x@) == present_texts(p@, keys@.map_values(|k: &str| k@)),
{
    let ghost kv = keys@.map_values(|k: &str| k@);
    let mut r: Vec<Vec<char>> = Vec::new();
    let mut i: usize = 0;
    while i < keys.len()
        invariant
            i <= keys@.len(),
            kv == keys@.map_values(|k: &str| k@),
            r@.map_values(|x: Vec<char>| x@) == present_texts(p@, kv.take(i as int)),
        decreases keys@.len() - i,
    {
        proof {
            assert(kv.take(i + 1).drop_last() == kv.take(i as int));
            assert(kv.take(i + 1).last() == keys@[i as int]@);
        }
        let ghost before = r@.map_values(|x: Vec<char>| x@);
        let v = text_member_of(p, keys[i]);
        if v.len() > 0 {
            let ghost vv = v@;
            r.push(v);
            assert(r@.map_values(|x: Vec<char>| x@) =~= before.push(vv));
        }
        i += 1;
    }
    assert(kv.take(keys@.len() as int) == kv);
    r
}

/// Appends `- item` lines.
fn push_bullets(out: &mut Vec<char>, items: &Vec<Vec<char>>)
    ensures
        final(out)@ == old(out)@ + bullets(items@.map_values(|x: Vec<char>| x@)),
{
    let ghost iv = items@.map_values(|x: Vec<char>| x@);
    let ghost start = out@;
    let mut i: usize = 0;
    while i < items.len()
        invariant
            i <= items@.len(),
            iv == items@.map_values(|x: Vec<char>| x@),
            out@ == start + bullets(iv.take(i as int)),
        decreases items@.len() - i,
    {
        proof {
            assert(iv.take(i + 1).drop_last() == iv.take(i as int));
            assert(iv.take(i + 1).last() == items@[i as int]@);
        }
        extend_chars(out, "- ");
        let mut item = items[i].clone();
        out.append(&mut item);
        extend_chars(out, "\n");
        i += 1;
    }
    assert(iv.take(items@.len() as int) == iv);
}

/// Appends `before + body + after` when `body` is not empty.
fn push_optional(out: &mut Vec<char>, before: &str, body: Vec<char>, after: &str)
    ensures
        final(out)@ == old(out)@ + optional_block(before@, body@, after@),
{
    if body.len() > 0 {
        extend_chars(out, before);
        let mut b = body;
        out.append(&mut b);
        extend_chars(out, after);
    }
}

/// `pair_text` on buffers.
fn pair_text_of(a: Vec<char>, b: Vec<char>, sep: &str) -> (r: Vec<char>)
    ensures
        r@ == pair_text(a@, b@, sep@),
{
    let mut r = a;
    if b.len() > 0 {
        if r.len() > 0 {
            extend_chars(&mut r, sep);
        }
        let mut bb = b;
        r.append(&mut bb);
    }
    r
}

fn education_line_of(e: &Json) -> (r: Vec<char>)
    ensures
        r@ == education_line(e@),
{
    let mut line = chars_of("- ");
    let mut rest = pair_text_of(text_member_of(e, "school"), text_member_of(e, "degree"), " · ");
    line.append(&mut rest);
    let mut r = trim_end_chars(&line);
    extend_chars(&mut r, "\n");
    r
}

fn experience_entry_of(e: &Json) -> (r: Vec<char>)
    ensures
        r@ == experience_entry(e@),
{
    let mut head = chars_of("### ");
    let mut rest = pair_text_of(text_member_of(e, "company"), text_member_of(e, "title"), " · ");
    head.append(&mut rest);
    let mut r = trim_end_chars(&head);
    extend_chars(&mut r, "  \n");
    proof {
        reveal_strlit("");
    }
    push_optional(&mut r, "", text_member_of(e, "period"), "\n");
    let ghost before_duties = r@;
    match elements_of(e, "responsibilities") {
        Some(a) => {
            let duties = text_items_of(a);
            if duties.len() > 0 {
                extend_chars(&mut r, "职责：\n");
                push_bullets(&mut r, &duties);
            }
        },
        None => {},
    }
    assert(r@ == before_duties + titled_bullets(
        "职责：\n"@,
        text_items(array_member(e@, "responsibilities"@)),
    ));
    let ghost before_ach = r@;
    match elements_of(e, "achievements") {
        Some(a) => {
            let ach = text_items_of(a);
            if ach.len() > 0 {
                extend_chars(&mut r, "业绩：\n");
                push_bullets(&mut r, &ach);
            }
        },
        None => {},
    }
    assert(r@ == before_ach + titled_bullets("业绩：\n"@, text_items(array_member(e@, "achievements"@))));
    r
}

fn project_entry_of(pr: &Json) -> (r: Vec<char>)
    ensures
        r@ == project_entry(pr@),
{
    let mut r: Vec<char> = Vec::new();
    push_optional(&mut r, "### ", text_member_of(pr, "name"), "\n");
    proof {
        reveal_strlit("");
    }
    push_optional(&mut r, "", text_member_of(pr, "detail"), "\n");
    extend_chars(&mut r, "\n");
    r
}

fn certificate_line_of(c: &Json) -> (r: Vec<char>)
    ensures
        r@ == certificate_line(c@),
{
    let mut n = text_member_of(c, "name");
    let mut d = text_member_of(c, "date");
    let mut r: Vec<char> = Vec::new();
    if n.len() > 0 && d.len() > 0 {
        extend_chars(&mut r, "- ");
        r.append(&mut n);
        extend_chars(&mut r, "（");
        r.append(&mut d);
        extend_chars(&mut r, "）\n");
    } else if n.len() > 0 {
        extend_chars(&mut r, "- ");
        r.append(&mut n);
        extend_chars(&mut r, "\n");
    } else if d.len() > 0 {
        extend_chars(&mut r, "- ");
        r.append(&mut d);
        extend_chars(&mut r, "\n");
    }
    r
}

fn link_line_of(l: &Json) -> (r: Vec<char>)
    ensures
        r@ == link_line(l@),
{
    let mut label = text_member_of(l, "label");
    let mut url = text_member_of(l, "url");
    let mut r: Vec<char> = Vec::new();
    if label.len() == 0 && url.len() == 0 {
    } else if label.len() == 0 {
        extend_chars(&mut r, "- ");
        r.append(&mut url);
        extend_chars(&mut r, "\n");
    } else if url.len() == 0 {
        extend_chars(&mut r, "- ");
        r.append(&mut label);
        extend_chars(&mut r, "\n");
    } else {
        extend_chars(&mut r, "- [");
        r.append(&mut label);
        extend_chars(&mut r, "](");
        r.append(&mut url);
        extend_chars(&mut r, ")\n");
    }
    r
}

/// The sections rendered element by element.
enum Part {
    Education,
    Experience,
    Project,
    Certificate,
    Link,
}

spec fn part_fn(p: Part) -> spec_fn(JsonView) -> Seq<char> {
    match p {
        Part::Education => education_fn(),
        Part::Experience => experience_fn(),
        Part::Project => project_fn(),
        Part::Certificate => certificate_fn(),
        Part::Link => link_fn(),
    }
}

fn entry_of(p: &Part, e: &Json) -> (r: Vec<char>)
    ensures
        r@ == (part_fn(*p))(e@),
{
    match p {
        Part::Education => education_line_of(e),
        Part::Experience => experience_entry_of(e),
        Part::Project => project_entry_of(e),
        Part::Certificate => certificate_line_of(e),
        Part::Link => link_line_of(e),
    }
}

/// Appends a section built from the array member `key` of `v`.
fn push_section(out: &mut Vec<char>, v: &Json, key: &str, heading: &str, p: Part)
    ensures
        final(out)@ == old(out)@ + section(heading@, array_member(v@, key@), part_fn(p)),
{
    let a = match elements_of(v, key) {
        Some(a) => a,
        None => return ,
    };
    let ghost av = a@.map_values(|j: Json| j@);
    if a.len() == 0 {
        return ;
    }
    extend_chars(out, heading);
    let ghost start = out@;
    let mut i: usize = 0;
    while i < a.len()
        invariant
            i <= a@.len(),
            av == a@.map_values(|j: Json| j@),
            out@ == start + render_each(av.take(i as int), part_fn(p)),
        decreases a@.len() - i,
    {
        proof {
            assert(av.take(i + 1).drop_last() == av.take(i as int));
            assert(av.take(i + 1).last() == a@[i as int]@);
        }
        let mut item = entry_of(&p, &a[i]);
        out.append(&mut item);
        i += 1;
    }
    assert(av.take(a@.len() as int) == av);
}

/// Renders a parsed resume as Markdown: the name as title (a default title when
/// missing), the summary, the contact and job intention lines, then education,
/// experience, projects, skills, certificates, self evaluation and links; empty
/// parts are left out.
pub fn render_markdown(parsed: Option<&Json>) -> (r: String)
    ensures
        r@ == markdown_spec(
            match parsed {
                Some(v) => Some(v@),
                None => None,
            },
        ),
{
    let null = Json::Null;
    let p: &Json = match parsed {
        Some(v) => v,
        None => &null,
    };
    let mut out = chars_of("# ");
    let mut name = text_member_of(p, "name");
    if name.len() == 0 {
        extend_chars(&mut out, "简历");
    } else {
        out.append(&mut name);
    }
    extend_chars(&mut out, "\n");
    push_optional(&mut out, "\n> ", text_member_of(p, "summary"), "\n");
    let contact_list: [&str; 7] = ["gender", "age", "phone", "email", "city", "years", "political"];
    proof {
        assert(contact_list@.map_values(|k: &str| k@) =~= contact_keys());
    }
    let contacts = present_texts_of(p, &contact_list);
    push_optional(&mut out, "\n", join_lines(&contacts, " ｜ "), "\n");
    let intent_list: [&str; 3] = ["intent_position", "intent_city", "intent_salary"];
    proof {
        assert(intent_list@.map_values(|k: &str| k@) =~= intent_keys());
    }
    let intent = present_texts_of(p, &intent_list);
    push_optional(&mut out, "\n**求职意向**：", join_lines(&intent, " · "), "\n");
    push_section(&mut out, p, "education", "\n## 教育经历\n", Part::Education);
    push_section(&mut out, p, "experience", "\n## 工作经历\n", Part::Experience);
    push_section(&mut out, p, "projects", "\n## 项目经历\n", Part::Project);
    let skills: Vec<Vec<char>> = match elements_of(p, "skills") {
        Some(a) => text_items_of(a),
        None => Vec::new(),
    };
    proof {
        if array_member(p@, "skills"@).len() == 0 {
            assert(array_member(p@, "skills"@) =~= Seq::<JsonView>::empty());
        }
    }
    push_optional(&mut out, "\n## 技能特长\n", join_lines(&skills, "、"), "\n");
    push_section(&mut out, p, "certificates", "\n## 证书荣誉\n", Part::Certificate);
    push_optional(&mut out, "\n## 自我评价\n", text_member_of(p, "self_evaluation"), "\n");
    push_section(&mut out, p, "links", "\n## 相关链接\n", Part::Link);
    string_of(&out)
}

} // verus!
