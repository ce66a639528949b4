use beview::error::AppError;
use beview::routes::export::{column_kind, export_query, ColumnKind, EXPORT_TABLES};

#[test]
fn every_exported_table_has_a_query() {
    for t in EXPORT_TABLES {
        let q = export_query(t).unwrap();
        assert!(q.contains(t) && q.contains("$1"));
    }
    assert_eq!(export_query("users"), Err(AppError::BadRequest("未登记导出 SQL 的表: users".into())));
    assert_eq!(
        export_query("background_jobs"),
        Ok("SELECT * FROM background_jobs WHERE user_id=$1 AND status IN ('done','dead') ORDER BY id")
    );
}

#[test]
fn column_kinds() {
    assert_eq!(column_kind("INT2"), ColumnKind::Integer);
    assert_eq!(column_kind("BOOL"), ColumnKind::Boolean);
    assert_eq!(column_kind("NUMERIC"), ColumnKind::Decimal);
    assert_eq!(column_kind("JSONB"), ColumnKind::Document);
    assert_eq!(column_kind("TIMESTAMP"), ColumnKind::Timestamp);
    assert_eq!(column_kind("DATE"), ColumnKind::Date);
    assert_eq!(column_kind("VARCHAR[]"), ColumnKind::TextList);
    assert_eq!(column_kind("UUID"), ColumnKind::Other);
}
