use beview::error::AppError;
use beview::routes::insights::{insights_context, InsightApplication, InsightEvent, InsightRetro, NO_APPLICATIONS};

fn app(id: i64, company: &str, title: &str, status: &str, channel: Option<&str>, day: &str, note: Option<&str>) -> InsightApplication {
    InsightApplication {
        id,
        company: company.to_string(),
        title: title.to_string(),
        status: status.to_string(),
        channel: channel.map(String::from),
        applied_on: day.to_string(),
        note: note.map(String::from),
        note_excerpt: note.unwrap_or("").to_string(),
    }
}

fn ev(id: i64, from: Option<&str>, to: &str, day: &str) -> InsightEvent {
    InsightEvent { application_id: id, from_status: from.map(String::from), to_status: to.to_string(), day: day.to_string() }
}

#[test]
fn insights_need_an_application() {
    assert_eq!(insights_context(&[], &[], &[]), Err(AppError::BadRequest(NO_APPLICATIONS.to_string())));
}

#[test]
fn insights_overview_groups_history_by_application() {
    let apps = vec![
        app(7, "字节", "后端", "interviewing", Some("内推"), "2024-05-01", Some("  ")),
        app(3, "腾讯", "客户端", "applied", None, "2024-04-20", Some("跟进 HR")),
    ];
    let events = vec![
        ev(7, None, "applied", "05-01"),
        ev(3, None, "applied", "04-20"),
        ev(9, None, "applied", "05-04"),
        ev(7, Some("applied"), "interviewing", "05-03"),
    ];
    let retros = vec![
        InsightRetro { application_id: 7, name: Some("一面".to_string()), excerpt: "{\"a\":1}".to_string() },
        InsightRetro { application_id: 42, name: None, excerpt: "{}".to_string() },
    ];
    let text = insights_context(&apps, &events, &retros).unwrap();
    let expected = [
        "【投递1】字节 · 后端 · 状态:interviewing · 渠道:内推 · 投递于 2024-05-01",
        "【投递2】腾讯 · 客户端 · 状态:applied · 投递于 2024-04-20",
        "  备注：跟进 HR",
        "",
        "【状态流水】",
        "  腾讯（#3）：applied@04-20",
        "  字节（#7）：applied@05-01 → applied@05-03→interviewing",
        "  未知公司（#9）：applied@05-04",
        "",
        "【轮次复盘摘要】",
        "  字节 · 一面：{\"a\":1}",
        "  未知 · 面试：{}",
    ]
    .join("\n");
    assert_eq!(text, expected);
}

#[test]
fn insights_overview_without_history_or_retrospectives() {
    let apps = vec![app(1, "A", "B", "offer", None, "2024-01-02", None)];
    assert_eq!(insights_context(&apps, &[], &[]).unwrap(), "【投递1】A · B · 状态:offer · 投递于 2024-01-02");
}
