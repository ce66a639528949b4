//! Account rules: first setup, creating and editing users, and the outcome
//! of a login attempt.
use vstd::prelude::*;
use vstd::string::{StringExecFns, StringSliceAdditionalSpecFns};

use crate::error::{AppError, AppErrorView};
use crate::text::{chars_of, opt_str_view, owned, str_eq, string_of, trim, trim_chars};

verus! {

/// Shortest accepted password, in bytes.
pub const MIN_PASSWORD_BYTES: usize = 6;

/// First setup: a non-blank user name (trimmed) and a password of at least
/// six bytes.
pub fn validate_setup(username: &str, password: &str) -> (r: Result<String, AppError>)
    requires
        password.spec_bytes().len() <= usize::MAX,
    ensures
        match r {
            Ok(u) => trim(username@).len() > 0 && password.spec_bytes().len() >= 6 && u@ == trim(username@),
            Err(e) => !(trim(username@).len() > 0 && password.spec_bytes().len() >= 6) && e@
                == AppErrorView::BadRequest("用户名不能为空，密码至少 6 位"@),
        },
{
    let u = trim_chars(&chars_of(username));
    if u.len() == 0 || password.len() < MIN_PASSWORD_BYTES {
        return Err(AppError::BadRequest(owned("用户名不能为空，密码至少 6 位")));
    }
    Ok(string_of(&u))
}

/// The first administrator can only be created while there is no user.
pub fn setup_open(user_count: i64) -> (r: Result<(), AppError>)
    ensures
        r is Ok <==> user_count <= 0,
        r matches Err(e) ==> e@ == AppErrorView::Conflict("系统已初始化，不能重复创建管理员"@),
{
    if user_count > 0 {
        Err(AppError::Conflict(owned("系统已初始化，不能重复创建管理员")))
    } else {
        Ok(())
    }
}

/// A new user: its trimmed name and its role (`user` by default).
pub open spec fn new_user_spec(username: Seq<char>, password_bytes: nat, role: Option<Seq<char>>) -> Result<
    (Seq<char>, Seq<char>),
    AppErrorView,
> {
    if trim(username).len() == 0 {
        Err(AppErrorView::BadRequest("用户名不能为空"@))
    } else if password_bytes < 6 {
        Err(AppErrorView::BadRequest("密码至少 6 位"@))
    } else {
        match role {
            None => Ok((trim(username), "user"@)),
            Some(r) => if r == "user"@ {
                Ok((trim(username), "user"@))
            } else if r == "admin"@ {
                Ok((trim(username), "admin"@))
            } else {
                Err(AppErrorView::BadRequest("非法角色: "@ + r))
            },
        }
    }
}

/// Validates a user created by an administrator.
pub fn validate_new_user(username: &str, password: &str, role: Option<&str>) -> (r: Result<
    (String, &'static str),
    AppError,
>)
    requires
        password.spec_bytes().len() <= usize::MAX,
    ensures
        new_user_spec(username@, password.spec_bytes().len(), opt_str_view(role)) == match r {
            Ok((u, ro)) => Ok((u@, ro@)),
            Err(e) => Err(e@),
        },
{
    let u = trim_chars(&chars_of(username));
    if u.len() == 0 {
        return Err(AppError::BadRequest(owned("用户名不能为空")));
    }
    if password.len() < MIN_PASSWORD_BYTES {
        return Err(AppError::BadRequest(owned("密码至少 6 位")));
    }
    let ro: &'static str = match role {
        None => "user",
        Some(r) => if str_eq(r, "user") {
            "user"
        } else if str_eq(r, "admin") {
            "admin"
        } else {
            let mut m = owned("非法角色: ");
            m.append(r);
            return Err(AppError::BadRequest(m));
        },
    };
    Ok((string_of(&u), ro))
}

/// An account status set by an administrator: `active` or `disabled`.
pub fn check_row_status(status: &str) -> (r: Result<(), AppError>)
    ensures
        r is Ok <==> (status@ == "active"@ || status@ == "disabled"@),
        r matches Err(e) ==> e@ == AppErrorView::BadRequest("row_status 必须是 active/disabled"@),
{
    if str_eq(status, "active") || str_eq(status, "disabled") {
        Ok(())
    } else {
        Err(AppError::BadRequest(owned("row_status 必须是 active/disabled")))
    }
}

/// A password reset by an administrator: at least six bytes.
pub fn check_new_password(password: &str) -> (r: Result<(), AppError>)
    requires
        password.spec_bytes().len() <= usize::MAX,
    ensures
        r is Ok <==> password.spec_bytes().len() >= 6,
        r matches Err(e) ==> e@ == AppErrorView::BadRequest("密码至少 6 位"@),
{
    if password.len() < MIN_PASSWORD_BYTES {
        Err(AppError::BadRequest(owned("密码至少 6 位")))
    } else {
        Ok(())
    }
}

/// A role set by an administrator: `admin` or `user`, and an administrator
/// cannot demote themselves.
pub fn check_role_change(target_id: i64, admin_id: i64, role: &str) -> (r: Result<(), AppError>)
    ensures
        r is Ok <==> ((role@ == "admin"@ || role@ == "user"@) && !(target_id == admin_id && role@ != "admin"@)),
        !(role@ == "admin"@ || role@ == "user"@) ==> (r matches Err(e) && e@ == AppErrorView::BadRequest(
            "role 必须是 admin/user"@,
        )),
        (role@ == "user"@ && target_id == admin_id) ==> (r matches Err(e) && e@ == AppErrorView::BadRequest(
            "不能降级自己的 admin 角色"@,
        )),
{
    proof {
        reveal_strlit("user");
        reveal_strlit("admin");
        assert("user"@.len() != "admin"@.len());
    }
    let is_admin = str_eq(role, "admin");
    if !is_admin && !str_eq(role, "user") {
        return Err(AppError::BadRequest(owned("role 必须是 admin/user")));
    }
    if target_id == admin_id && !is_admin {
        return Err(AppError::BadRequest(owned("不能降级自己的 admin 角色")));
    }
    Ok(())
}

/// How a login attempt ends.
#[derive(Debug, Clone, Copy, PartialEq, Eq)]
pub enum LoginOutcome {
    /// Too many recent failures for the name: refused before any lookup.
    Throttled,
    /// No such user: a failure.
    UnknownUser,
    /// The account is disabled: refused, not counted as a failure.
    Disabled,
    /// The password does not match: a failure.
    WrongPassword,
    /// Logged in: the failures of the name are cleared.
    Success,
}

pub open spec fn login_outcome_spec(throttled: bool, row_status: Option<Seq<char>>, password_ok: bool) -> LoginOutcome {
    if throttled {
        LoginOutcome::Throttled
    } else {
        match row_status {
            None => LoginOutcome::UnknownUser,
            Some(s) => if s != "active"@ {
                LoginOutcome::Disabled
            } else if !password_ok {
                LoginOutcome::WrongPassword
            } else {
                LoginOutcome::Success
            },
        }
    }
}

/// Decides a login attempt from the throttle state, the account's status
/// (`None` when the name is unknown) and whether the password matched (read
/// only for an active account).
pub fn login_outcome(throttled: bool, row_status: Option<&str>, password_ok: bool) -> (r: LoginOutcome)
    ensures
        r == login_outcome_spec(throttled, opt_str_view(row_status), password_ok),
{
    if throttled {
        return LoginOutcome::Throttled;
    }
    match row_status {
        None => LoginOutcome::UnknownUser,
        Some(s) => if !str_eq(s, "active") {
            LoginOutcome::Disabled
        } else if !password_ok {
            LoginOutcome::WrongPassword
        } else {
            LoginOutcome::Success
        },
    }
}

impl LoginOutcome {
    /// The error the attempt is answered with; `None` on success.
    pub fn error(self) -> (r: Option<AppError>)
        ensures
            match self {
                LoginOutcome::Throttled => r matches Some(e) && e@ == AppErrorView::TooManyRequests(
                    "尝试过于频繁，请稍后再试"@,
                ),
                LoginOutcome::UnknownUser => r == Some(AppError::Unauthorized),
                LoginOutcome::Disabled => r == Some(AppError::Forbidden),
                LoginOutcome::WrongPassword => r == Some(AppError::Unauthorized),
                LoginOutcome::Success => r is None,
            },
    {
        match self {
            LoginOutcome::Throttled => Some(AppError::TooManyRequests(owned("尝试过于频繁，请稍后再试"))),
            LoginOutcome::UnknownUser => Some(AppError::Unauthorized),
            LoginOutcome::Disabled => Some(AppError::Forbidden),
            LoginOutcome::WrongPassword => Some(AppError::Unauthorized),
            LoginOutcome::Success => None,
        }
    }

    /// Whether the attempt counts as a failure of the name.
    pub fn records_failure(self) -> (r: bool)
        ensures
            r <==> (self == LoginOutcome::UnknownUser || self == LoginOutcome::WrongPassword),
    {
        match self {
            LoginOutcome::UnknownUser | LoginOutcome::WrongPassword => true,
            _ => false,
        }
    }
}

/// A login succeeds exactly for a non-throttled, active account with the
/// right password; an unknown name and a wrong password are answered alike.
pub proof fn lemma_login_success(throttled: bool, row_status: Option<Seq<char>>, password_ok: bool)
    ensures
        login_outcome_spec(throttled, row_status, password_ok) == LoginOutcome::Success <==> (!throttled
            && row_status == Some("active"@) && password_ok),
        (login_outcome_spec(throttled, row_status, password_ok) == LoginOutcome::UnknownUser
            || login_outcome_spec(throttled, row_status, password_ok) == LoginOutcome::WrongPassword) ==> !throttled,
{
}

/// Only administrators administer users.
pub fn require_admin(role: &str) -> (r: Result<(), AppError>)
    ensures
        r is Ok <==> role@ == "admin"@,
        r matches Err(e) ==> e == AppError::Forbidden,
{
    if str_eq(role, "admin") {
        Ok(())
    } else {
        Err(AppError::Forbidden)
    }
}

/// The routes reachable without a session: liveness, first setup, login and
/// the calendar feed (which checks its own token).
pub open spec fn public_path(path: Seq<char>) -> bool {
    path == "/health"@ || path == "/login"@ || path == "/setup"@ || path == "/setup/status"@ || path
        == "/calendar.ics"@
}

/// How the authentication check treats a request.
#[derive(Debug, Clone, Copy, PartialEq, Eq)]
pub enum AuthGate {
    /// A public route: passed on as it is.
    Open,
    /// Passed on as this user's request.
    User(i64),
    /// Answered as unauthorized.
    Refused,
}

/// Decides a request from its path and the user of its session cookie, if any.
pub fn auth_gate(path: &str, session_user: Option<i64>) -> (r: AuthGate)
    ensures
        r == if public_path(path@) {
            AuthGate::Open
        } else {
            match session_user {
                Some(u) => AuthGate::User(u),
                None => AuthGate::Refused,
            }
        },
{
    if str_eq(path, "/health") || str_eq(path, "/login") || str_eq(path, "/setup") || str_eq(path, "/setup/status")
        || str_eq(path, "/calendar.ics") {
        return AuthGate::Open;
    }
    match session_user {
        Some(u) => AuthGate::User(u),
        None => AuthGate::Refused,
    }
}

} // verus!
