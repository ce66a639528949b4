use beview::error::AppError;
use beview::routes::accounts::{
    auth_gate, require_admin, AuthGate, check_new_password, check_role_change, check_row_status, login_outcome, setup_open, validate_new_user,
    validate_setup, LoginOutcome,
};

fn bad(m: &str) -> AppError {
    AppError::BadRequest(m.to_string())
}

#[test]
fn setup_rules() {
    assert_eq!(validate_setup(" root ", "secret"), Ok("root".to_string()));
    assert_eq!(validate_setup("  ", "secret"), Err(bad("用户名不能为空，密码至少 6 位")));
    assert_eq!(validate_setup("root", "12345"), Err(bad("用户名不能为空，密码至少 6 位")));
    assert_eq!(validate_setup("root", "密码"), Ok("root".to_string()));
    assert_eq!(setup_open(0), Ok(()));
    assert_eq!(setup_open(1), Err(AppError::Conflict("系统已初始化，不能重复创建管理员".into())));
}

#[test]
fn user_administration() {
    assert_eq!(validate_new_user(" amy ", "123456", None), Ok(("amy".to_string(), "user")));
    assert_eq!(validate_new_user("amy", "123456", Some("admin")), Ok(("amy".to_string(), "admin")));
    assert_eq!(validate_new_user("amy", "123456", Some("root")), Err(bad("非法角色: root")));
    assert_eq!(validate_new_user(" ", "123456", None), Err(bad("用户名不能为空")));
    assert_eq!(validate_new_user("amy", "12345", Some("root")), Err(bad("密码至少 6 位")));
    assert_eq!(check_row_status("disabled"), Ok(()));
    assert_eq!(check_row_status("gone"), Err(bad("row_status 必须是 active/disabled")));
    assert_eq!(check_new_password("abcdef"), Ok(()));
    assert_eq!(check_new_password("abc"), Err(bad("密码至少 6 位")));
    assert_eq!(check_role_change(2, 1, "user"), Ok(()));
    assert_eq!(check_role_change(1, 1, "user"), Err(bad("不能降级自己的 admin 角色")));
    assert_eq!(check_role_change(1, 1, "admin"), Ok(()));
    assert_eq!(check_role_change(2, 1, "owner"), Err(bad("role 必须是 admin/user")));
}

#[test]
fn login_outcomes() {
    assert_eq!(login_outcome(true, Some("active"), true), LoginOutcome::Throttled);
    assert_eq!(login_outcome(false, None, true), LoginOutcome::UnknownUser);
    assert_eq!(login_outcome(false, Some("disabled"), true), LoginOutcome::Disabled);
    assert_eq!(login_outcome(false, Some("active"), false), LoginOutcome::WrongPassword);
    assert_eq!(login_outcome(false, Some("active"), true), LoginOutcome::Success);
    assert_eq!(LoginOutcome::Throttled.error(), Some(AppError::TooManyRequests("尝试过于频繁，请稍后再试".into())));
    assert_eq!(LoginOutcome::UnknownUser.error(), Some(AppError::Unauthorized));
    assert_eq!(LoginOutcome::WrongPassword.error(), Some(AppError::Unauthorized));
    assert_eq!(LoginOutcome::Disabled.error(), Some(AppError::Forbidden));
    assert_eq!(LoginOutcome::Success.error(), None);
    assert!(LoginOutcome::UnknownUser.records_failure() && LoginOutcome::WrongPassword.records_failure());
    assert!(!LoginOutcome::Disabled.records_failure() && !LoginOutcome::Throttled.records_failure());
}

#[test]
fn authentication_gate() {
    for p in ["/health", "/login", "/setup", "/setup/status", "/calendar.ics"] {
        assert_eq!(auth_gate(p, None), AuthGate::Open);
    }
    assert_eq!(auth_gate("/drills", Some(3)), AuthGate::User(3));
    assert_eq!(auth_gate("/drills", None), AuthGate::Refused);
    assert_eq!(auth_gate("/login/", None), AuthGate::Refused);
    assert_eq!(require_admin("admin"), Ok(()));
    assert_eq!(require_admin("user"), Err(AppError::Forbidden));
}
