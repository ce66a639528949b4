//! Subtree query builder: the one shared SQL predicate that filters questions
//! by the subtree of a skill node, and the subtree membership test.  Question
//! list filters, the capability matrix, targeted drills and graph counts all
//! use it, so they agree.
use vstd::prelude::*;
use vstd::string::StringExecFns;

use crate::text::{chars_of, ends_with, ends_with_chars, owned, starts_with, starts_with_chars};

verus! {

/// The shared `EXISTS` skeleton: all skills of a question (its links and its own
/// skill) matched upwards against the subtree of the filtered nodes.
pub open spec fn exists_sql_spec(q_alias: Seq<char>, user_param: Seq<char>, filter: Seq<char>) -> Seq<char> {
    "EXISTS(\n            SELECT 1 FROM skills dom\n            JOIN (\n                SELECT skill_id FROM question_skills qs WHERE qs.question_id = "@ + q_alias + ".id\n                UNION\n                SELECT "@ + q_alias + ".skill_id WHERE "@ + q_alias + ".skill_id IS NOT NULL\n            ) q_all_skills ON true\n            JOIN skills s ON s.id = q_all_skills.skill_id\n            WHERE dom.user_id = "@ + user_param + "\n              AND ("@ + filter + ")\n              AND (s.id = dom.id OR s.path LIKE dom.path || '/%')\n        )"@
}

fn build_subtree_exists_sql(q_alias: &str, user_param: &str, dom_filter_clause: &str) -> (r: String)
    ensures
        r@ == exists_sql_spec(q_alias@, user_param@, dom_filter_clause@),
{
    let mut s = owned("EXISTS(\n            SELECT 1 FROM skills dom\n            JOIN (\n                SELECT skill_id FROM question_skills qs WHERE qs.question_id = ");
    s.append(q_alias);
    s.append(".id\n                UNION\n                SELECT ");
    s.append(q_alias);
    s.append(".skill_id WHERE ");
    s.append(q_alias);
    s.append(".skill_id IS NOT NULL\n            ) q_all_skills ON true\n            JOIN skills s ON s.id = q_all_skills.skill_id\n            WHERE dom.user_id = ");
    s.append(user_param);
    s.append("\n              AND (");
    s.append(dom_filter_clause);
    s.append(")\n              AND (s.id = dom.id OR s.path LIKE dom.path || '/%')\n        )");
    s
}

/// Filter of a single node by id and/or name (either may be the text `NULL`).
pub open spec fn single_filter_spec(id_param: Seq<char>, name_param: Seq<char>) -> Seq<char> {
    "("@ + id_param + "::bigint IS NULL OR dom.id = "@ + id_param + ") AND ("@ + name_param
        + "::text IS NULL OR dom.name = "@ + name_param + " OR dom.name ILIKE '%'||"@ + name_param
        + "||'%')"@
}

/// Filter of several nodes by id, id array or name array.
pub open spec fn multi_filter_spec(id_param: Seq<char>, ids_param: Seq<char>, names_param: Seq<char>) -> Seq<char> {
    "("@ + id_param + "::bigint IS NOT NULL AND dom.id = "@ + id_param + ") OR ("@ + ids_param
        + "::bigint[] IS NOT NULL AND dom.id = ANY("@ + ids_param + ")) OR ("@ + names_param
        + "::text[] IS NOT NULL AND dom.name = ANY("@ + names_param + "))"@
}

/// The subtree predicate for one node chosen by id and/or name.
///
/// - `q_alias`: alias of the questions table (such as `q`)
/// - `user_param`: placeholder of the user id (such as `$1`)
/// - `dom_id_param`: placeholder of the node id, or `NULL`
/// - `dom_name_param`: placeholder of the node name or tag, or `NULL`
pub fn subtree_condition_sql(q_alias: &str, user_param: &str, dom_id_param: &str, dom_name_param: &str) -> (r: String)
    ensures
        r@ == exists_sql_spec(q_alias@, user_param@, single_filter_spec(dom_id_param@, dom_name_param@)),
{
    let mut f = owned("(");
    f.append(dom_id_param);
    f.append("::bigint IS NULL OR dom.id = ");
    f.append(dom_id_param);
    f.append(") AND (");
    f.append(dom_name_param);
    f.append("::text IS NULL OR dom.name = ");
    f.append(dom_name_param);
    f.append(" OR dom.name ILIKE '%'||");
    f.append(dom_name_param);
    f.append("||'%')");
    build_subtree_exists_sql(q_alias, user_param, f.as_str())
}

/// The subtree predicate for several nodes (targeted drills): by id, by an id
/// array or by a name array (each placeholder may be `NULL`).
pub fn subtree_multi_condition_sql(
    q_alias: &str,
    user_param: &str,
    dom_id_param: &str,
    dom_ids_array_param: &str,
    dom_names_array_param: &str,
) -> (r: String)
    ensures
        r@ == exists_sql_spec(
            q_alias@,
            user_param@,
            multi_filter_spec(dom_id_param@, dom_ids_array_param@, dom_names_array_param@),
        ),
{
    let mut f = owned("(");
    f.append(dom_id_param);
    f.append("::bigint IS NOT NULL AND dom.id = ");
    f.append(dom_id_param);
    f.append(") OR (");
    f.append(dom_ids_array_param);
    f.append("::bigint[] IS NOT NULL AND dom.id = ANY(");
    f.append(dom_ids_array_param);
    f.append(")) OR (");
    f.append(dom_names_array_param);
    f.append("::text[] IS NOT NULL AND dom.name = ANY(");
    f.append(dom_names_array_param);
    f.append("))");
    build_subtree_exists_sql(q_alias, user_param, f.as_str())
}

/// Subtree membership: the same node, or a path under the node's path.
pub open spec fn in_subtree_spec(dom_id: i64, dom_path: Seq<char>, s_id: i64, s_path: Seq<char>) -> bool {
    if dom_id == s_id {
        true
    } else if dom_path.len() == 0 || s_path.len() == 0 {
        false
    } else {
        starts_with(
            s_path,
            if ends_with(dom_path, "/"@) {
                dom_path
            } else {
                dom_path + "/"@
            },
        )
    }
}

/// Whether node `s_id` / `s_path` belongs to the subtree of `dom_id` / `dom_path`.
pub fn is_in_subtree(dom_id: i64, dom_path: &str, s_id: i64, s_path: &str) -> (r: bool)
    ensures
        r == in_subtree_spec(dom_id, dom_path@, s_id, s_path@),
{
    if dom_id == s_id {
        return true;
    }
    let d = chars_of(dom_path);
    let s = chars_of(s_path);
    if d.len() == 0 || s.len() == 0 {
        return false;
    }
    let slash = chars_of("/");
    let prefix = if ends_with_chars(&d, &slash) {
        d
    } else {
        let mut p = d;
        let mut sl = chars_of("/");
        p.append(&mut sl);
        p
    };
    starts_with_chars(&s, &prefix)
}

/// Every node is in its own subtree, and a node whose path extends the
/// node's path by `/` and more is in it too.
pub proof fn lemma_subtree_membership(dom_id: i64, dom_path: Seq<char>, s_id: i64, rest: Seq<char>)
    requires
        dom_path.len() > 0,
        !ends_with(dom_path, "/"@),
    ensures
        in_subtree_spec(dom_id, dom_path, dom_id, dom_path),
        in_subtree_spec(dom_id, dom_path, s_id, dom_path + "/"@ + rest),
{
    let p = dom_path + "/"@;
    assert((dom_path + "/"@ + rest).take(p.len() as int) =~= p);
}

} // verus!
