//! Rules of editing the skill tree: new skills, their paths, and the managed
//! top-level domains that cannot be renamed or deleted.
use vstd::prelude::*;
use vstd::string::StringExecFns;

use crate::error::{AppError, AppErrorView};
use crate::routes::drills::{lowercase, to_lowercase};
use crate::settings::{strip_slashes, strip_slashes_chars};
use crate::skill_service::{domain_names, TOP_LEVEL_DOMAINS};
use crate::text::{chars_of, owned, str_eq, string_of, trim, trim_chars};

verus! {

/// A skill name: trimmed and non-empty.
pub fn skill_name(name: &str) -> (r: Result<String, AppError>)
    ensures
        match r {
            Ok(n) => trim(name@).len() > 0 && n@ == trim(name@),
            Err(e) => trim(name@).len() == 0 && e@ == AppErrorView::BadRequest("技能名称不能为空"@),
        },
{
    let t = trim_chars(&chars_of(name));
    if t.len() == 0 {
        return Err(AppError::BadRequest(owned("技能名称不能为空")));
    }
    Ok(string_of(&t))
}

/// A new skill hangs under a top-level domain or another skill.
pub fn require_parent(parent_id: Option<i64>) -> (r: Result<i64, AppError>)
    ensures
        match r {
            Ok(p) => parent_id == Some(p),
            Err(e) => parent_id is None && e@ == AppErrorView::BadRequest(
                "新建技能必须选择所属顶级领域或父级技能节点"@,
            ),
        },
{
    match parent_id {
        Some(p) => Ok(p),
        None => Err(AppError::BadRequest(owned("新建技能必须选择所属顶级领域或父级技能节点"))),
    }
}

/// Spaces replaced by `-`.
pub open spec fn dashed(s: Seq<char>) -> Seq<char> {
    s.map_values(|c: char| if c == ' ' {
        '-'
    } else {
        c
    })
}

/// The path of a new skill: the parent's path without trailing `/`, `/`, and
/// the lowercased name with spaces as `-`.
pub open spec fn child_path_spec(parent_path: Seq<char>, lowered_name: Seq<char>) -> Seq<char> {
    strip_slashes(parent_path) + "/"@ + dashed(lowered_name)
}

/// Builds the path of a new skill from its lowercased name.
pub fn child_path_with(parent_path: &str, lowered_name: &str) -> (r: String)
    ensures
        r@ == child_path_spec(parent_path@, lowered_name@),
{
    let mut out = strip_slashes_chars(&chars_of(parent_path));
    out.push('/');
    proof {
        reveal_strlit("/");
    }
    assert(out@ =~= strip_slashes(parent_path@) + "/"@);
    let n = chars_of(lowered_name);
    let ghost base = out@;
    let mut i: usize = 0;
    while i < n.len()
        invariant
            i <= n@.len(),
            out@ == base + dashed(n@.take(i as int)),
        decreases n@.len() - i,
    {
        let c = n[i];
        out.push(if c == ' ' {
            '-'
        } else {
            c
        });
        assert(dashed(n@.take(i + 1)) =~= dashed(n@.take(i as int)).push(if c == ' ' {
            '-'
        } else {
            c
        }));
        i += 1;
    }
    assert(n@.take(n@.len() as int) =~= n@);
    string_of(&out)
}

/// The path of a new skill named `name` (already trimmed) under `parent_path`.
pub fn child_skill_path(parent_path: &str, name: &str) -> (r: String)
    ensures
        r@ == child_path_spec(parent_path@, lowercase(name@)),
{
    let lowered = to_lowercase(name);
    child_path_with(parent_path, lowered.as_str())
}

/// The icon of a new skill (a tree by default).
pub fn skill_icon(icon: Option<&str>) -> (r: &str)
    ensures
        r@ == match icon {
            Some(i) => i@,
            None => "TreeStructure"@,
        },
{
    match icon {
        Some(i) => i,
        None => "TreeStructure",
    }
}

/// A skill is a managed top-level domain when it has no parent and bears one
/// of their names.
pub open spec fn is_managed_domain(has_parent: bool, name: Seq<char>) -> bool {
    !has_parent && domain_names().contains(name)
}

fn managed_domain(has_parent: bool, name: &str) -> (r: bool)
    ensures
        r == is_managed_domain(has_parent, name@),
{
    if has_parent {
        return false;
    }
    let mut i: usize = 0;
    while i < 6
        invariant
            i <= 6,
            !has_parent,
            forall|k: int| 0 <= k < i ==> name@ != (#[trigger] TOP_LEVEL_DOMAINS@[k]).0@,
        decreases 6 - i,
    {
        if str_eq(TOP_LEVEL_DOMAINS[i].0, name) {
            proof {
                assert(domain_names()[i as int] == TOP_LEVEL_DOMAINS@[i as int].0@);
                assert(domain_names()[i as int] == name@);
                assert(domain_names().contains(name@));
            }
            return true;
        }
        i += 1;
    }
    proof {
        assert forall|k: int| 0 <= k < 6 implies domain_names()[k] == (#[trigger] TOP_LEVEL_DOMAINS@[k]).0@ by {}
        assert(!domain_names().contains(name@));
    }
    false
}

/// The managed top-level domains cannot be renamed.
pub fn check_renamable(has_parent: bool, name: &str) -> (r: Result<(), AppError>)
    ensures
        r is Ok <==> !is_managed_domain(has_parent, name@),
        r matches Err(e) ==> e@ == AppErrorView::BadRequest("系统顶级知识域不可直接重命名"@),
{
    if managed_domain(has_parent, name) {
        Err(AppError::BadRequest(owned("系统顶级知识域不可直接重命名")))
    } else {
        Ok(())
    }
}

/// The managed top-level domains cannot be deleted.
pub fn check_deletable(has_parent: bool, name: &str) -> (r: Result<(), AppError>)
    ensures
        r is Ok <==> !is_managed_domain(has_parent, name@),
        r matches Err(e) ==> e@ == AppErrorView::BadRequest("系统顶级知识域不可删除"@),
{
    if managed_domain(has_parent, name) {
        Err(AppError::BadRequest(owned("系统顶级知识域不可删除")))
    } else {
        Ok(())
    }
}

/// The name of a skill made from a free tag: trimmed and non-empty.
pub fn tag_skill_name(tag: &str) -> (r: Result<String, AppError>)
    ensures
        match r {
            Ok(n) => trim(tag@).len() > 0 && n@ == trim(tag@),
            Err(e) => trim(tag@).len() == 0 && e@ == AppErrorView::BadRequest("标签名称不能为空"@),
        },
{
    let t = trim_chars(&chars_of(tag));
    if t.len() == 0 {
        return Err(AppError::BadRequest(owned("标签名称不能为空")));
    }
    Ok(string_of(&t))
}

/// The path of a top-level skill: `/` and the lowercased name with spaces as `-`.
pub open spec fn root_path_spec(lowered_name: Seq<char>) -> Seq<char> {
    "/"@ + dashed(lowered_name)
}

/// Builds the path of a top-level skill from its lowercased name.
pub fn root_path_with(lowered_name: &str) -> (r: String)
    ensures
        r@ == root_path_spec(lowered_name@),
{
    let r = child_path_with("", lowered_name);
    proof {
        reveal_strlit("");
        assert(strip_slashes(""@) =~= Seq::<char>::empty());
        assert(r@ =~= root_path_spec(lowered_name@));
    }
    r
}

/// The path of a skill made from a tag: under the parent's path when there is
/// a parent, else at the top.
pub fn tag_skill_path(parent_path: Option<&str>, name: &str) -> (r: String)
    ensures
        r@ == match parent_path {
            Some(p) => child_path_spec(p@, lowercase(name@)),
            None => root_path_spec(lowercase(name@)),
        },
{
    let lowered = to_lowercase(name);
    match parent_path {
        Some(p) => child_path_with(p, lowered.as_str()),
        None => root_path_with(lowered.as_str()),
    }
}

} // verus!
