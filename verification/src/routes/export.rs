//! The data export: which tables a user's backup holds, the query that reads
//! each of them, and how a column's database type is carried into JSON.
use vstd::prelude::*;
use vstd::string::StringExecFns;

use crate::error::{AppError, AppErrorView};
use crate::text::{owned, str_eq};

verus! {

/// The tables of a backup, by name (credentials and settings are left out).
pub const EXPORT_TABLES: [&'static str; 25] = [
    "companies",
    "interviewer_personas",
    "positions",
    "applications",
    "application_events",
    "sessions",
    "rounds",
    "questions",
    "question_tags",
    "question_answers",
    "question_rounds",
    "question_skills",
    "skills",
    "analyses",
    "comments",
    "tags",
    "review_records",
    "review_logs",
    "application_insights",
    "background_jobs",
    "drills",
    "drill_messages",
    "resumes",
    "mall_items",
    "points_ledger",
];

/// The query reading a table's rows of user `$1`, by table.
pub const EXPORT_QUERIES: [(&'static str, &'static str); 25] = [
    ("interviewer_personas", "SELECT * FROM interviewer_personas WHERE builtin OR owner_user_id=$1 ORDER BY id"),
    ("positions", "SELECT p.* FROM positions p WHERE p.user_id=$1 ORDER BY p.id"),
    ("companies", "SELECT * FROM companies WHERE user_id=$1 ORDER BY id"),
    ("applications", "SELECT * FROM applications WHERE user_id=$1 ORDER BY id"),
    ("application_events", "SELECT * FROM application_events WHERE user_id=$1 ORDER BY id"),
    ("sessions", "SELECT * FROM sessions WHERE user_id=$1 ORDER BY id"),
    ("rounds", "SELECT r.* FROM rounds r JOIN applications a ON a.id=r.application_id WHERE a.user_id=$1 ORDER BY r.id"),
    ("questions", "SELECT * FROM questions WHERE user_id=$1 ORDER BY id"),
    ("analyses", "SELECT a.* FROM analyses a JOIN questions q ON q.id=a.question_id WHERE q.user_id=$1 ORDER BY a.id"),
    ("comments", "SELECT * FROM comments WHERE user_id=$1 ORDER BY id"),
    ("tags", "SELECT * FROM tags WHERE user_id=$1 ORDER BY id"),
    ("question_tags", "SELECT qt.* FROM question_tags qt JOIN questions q ON q.id=qt.question_id WHERE q.user_id=$1 ORDER BY qt.question_id, qt.tag_id"),
    ("question_answers", "SELECT qa.* FROM question_answers qa JOIN questions q ON q.id=qa.question_id WHERE q.user_id=$1 ORDER BY qa.id"),
    ("question_rounds", "SELECT qr.* FROM question_rounds qr JOIN questions q ON q.id=qr.question_id WHERE q.user_id=$1 ORDER BY qr.question_id, qr.round_id"),
    ("question_skills", "SELECT qs.* FROM question_skills qs JOIN questions q ON q.id=qs.question_id WHERE q.user_id=$1 ORDER BY qs.question_id, qs.skill_id"),
    ("skills", "SELECT * FROM skills WHERE user_id=$1 ORDER BY id"),
    ("review_records", "SELECT rr.* FROM review_records rr JOIN questions q ON q.id=rr.question_id WHERE q.user_id=$1 ORDER BY rr.id"),
    ("review_logs", "SELECT rl.* FROM review_logs rl JOIN questions q ON q.id=rl.question_id WHERE q.user_id=$1 ORDER BY rl.id"),
    ("application_insights", "SELECT * FROM application_insights WHERE user_id=$1 ORDER BY id"),
    ("background_jobs", "SELECT * FROM background_jobs WHERE user_id=$1 AND status IN ('done','dead') ORDER BY id"),
    ("drills", "SELECT * FROM drills WHERE user_id=$1 ORDER BY id"),
    ("drill_messages", "SELECT * FROM drill_messages WHERE user_id=$1 ORDER BY id"),
    ("resumes", "SELECT * FROM resumes WHERE user_id=$1 ORDER BY id"),
    ("mall_items", "SELECT * FROM mall_items WHERE user_id=$1 ORDER BY id"),
    ("points_ledger", "SELECT * FROM points_ledger WHERE user_id=$1 ORDER BY id"),
];

/// The query of the first entry at or after `i` for `table`.
pub open spec fn query_from(table: Seq<char>, i: int) -> Option<Seq<char>>
    decreases 25 - i,
{
    if i < 0 || i >= 25 {
        None
    } else if EXPORT_QUERIES@[i].0@ == table {
        Some(EXPORT_QUERIES@[i].1@)
    } else {
        query_from(table, i + 1)
    }
}

/// The query reading a table; a table without one is refused.
pub fn export_query(table: &str) -> (r: Result<&'static str, AppError>)
    ensures
        match r {
            Ok(q) => query_from(table@, 0) == Some(q@),
            Err(e) => query_from(table@, 0) is None && e@ == AppErrorView::BadRequest(
                "未登记导出 SQL 的表: "@ + table@,
            ),
        },
{
    let mut i: usize = 0;
    while i < 25
        invariant
            i <= 25,
            query_from(table@, 0) == query_from(table@, i as int),
        decreases 25 - i,
    {
        if str_eq(EXPORT_QUERIES[i].0, table) {
            return Ok(EXPORT_QUERIES[i].1);
        }
        i += 1;
    }
    let mut m = owned("未登记导出 SQL 的表: ");
    m.append(table);
    Err(AppError::BadRequest(m))
}

/// A table with an entry at or after `i` has a query.
proof fn lemma_query_found(table: Seq<char>, i: int, j: int)
    requires
        0 <= i <= j < 25,
        EXPORT_QUERIES@[j].0@ == table,
    ensures
        query_from(table, i) is Some,
    decreases j - i,
{
    if EXPORT_QUERIES@[i].0@ != table {
        lemma_query_found(table, i + 1, j);
    }
}

/// Every table of the backup has its query.
pub proof fn lemma_every_table_has_a_query(k: int)
    requires
        0 <= k < 25,
    ensures
        query_from(EXPORT_TABLES@[k]@, 0) is Some,
{
    let j: int = if k == 0 {
        2
    } else if k == 1 {
        0
    } else if k == 2 {
        1
    } else if k <= 7 {
        k
    } else if k == 8 {
        11
    } else if k == 9 {
        12
    } else if k == 10 {
        13
    } else if k == 11 {
        14
    } else if k == 12 {
        15
    } else if k == 13 {
        8
    } else if k == 14 {
        9
    } else if k == 15 {
        10
    } else {
        k
    };
    assert(EXPORT_QUERIES@[j].0@ == EXPORT_TABLES@[k]@);
    lemma_query_found(EXPORT_TABLES@[k]@, 0, j);
}

/// How a column is carried into the backup, by its database type.
#[derive(Debug, Clone, Copy, PartialEq, Eq)]
pub enum ColumnKind {
    /// `INT8`, `INT4`, `INT2`: a number.
    Integer,
    /// `BOOL`.
    Boolean,
    /// `FLOAT8`, `NUMERIC`, `FLOAT4`: a number.
    Decimal,
    /// `JSON`, `JSONB`: the document itself.
    Document,
    /// `TIMESTAMPTZ`, `TIMESTAMP`: RFC 3339 text.
    Timestamp,
    /// `DATE`: `YYYY-MM-DD` text.
    Date,
    /// `TEXT[]`, `VARCHAR[]`: a list of strings.
    TextList,
    /// Anything else: tried as text, then as a document, then as an integer.
    Other,
}

pub open spec fn column_kind_spec(t: Seq<char>) -> ColumnKind {
    if t == "INT8"@ || t == "INT4"@ || t == "INT2"@ {
        ColumnKind::Integer
    } else if t == "BOOL"@ {
        ColumnKind::Boolean
    } else if t == "FLOAT8"@ || t == "NUMERIC"@ || t == "FLOAT4"@ {
        ColumnKind::Decimal
    } else if t == "JSON"@ || t == "JSONB"@ {
        ColumnKind::Document
    } else if t == "TIMESTAMPTZ"@ || t == "TIMESTAMP"@ {
        ColumnKind::Timestamp
    } else if t == "DATE"@ {
        ColumnKind::Date
    } else if t == "TEXT[]"@ || t == "VARCHAR[]"@ {
        ColumnKind::TextList
    } else {
        ColumnKind::Other
    }
}

/// Classifies a column by the name of its database type.
pub fn column_kind(db_type: &str) -> (r: ColumnKind)
    ensures
        r == column_kind_spec(db_type@),
{
    if str_eq(db_type, "INT8") || str_eq(db_type, "INT4") || str_eq(db_type, "INT2") {
        ColumnKind::Integer
    } else if str_eq(db_type, "BOOL") {
        ColumnKind::Boolean
    } else if str_eq(db_type, "FLOAT8") || str_eq(db_type, "NUMERIC") || str_eq(db_type, "FLOAT4") {
        ColumnKind::Decimal
    } else if str_eq(db_type, "JSON") || str_eq(db_type, "JSONB") {
        ColumnKind::Document
    } else if str_eq(db_type, "TIMESTAMPTZ") || str_eq(db_type, "TIMESTAMP") {
        ColumnKind::Timestamp
    } else if str_eq(db_type, "DATE") {
        ColumnKind::Date
    } else if str_eq(db_type, "TEXT[]") || str_eq(db_type, "VARCHAR[]") {
        ColumnKind::TextList
    } else {
        ColumnKind::Other
    }
}

} // verus!
