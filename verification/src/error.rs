//! Errors that the rules of the library report to callers.
use vstd::prelude::*;

verus! {

/// A rejected request: a bad request with its message, a missing record, a
/// conflict with existing data, a missing or refused identity, or too many
/// attempts.
#[derive(Debug, Clone, PartialEq)]
pub enum AppError {
    BadRequest(String),
    NotFound,
    Conflict(String),
    Unauthorized,
    Forbidden,
    TooManyRequests(String),
}

pub enum AppErrorView {
    BadRequest(Seq<char>),
    NotFound,
    Conflict(Seq<char>),
    Unauthorized,
    Forbidden,
    TooManyRequests(Seq<char>),
}

impl View for AppError {
    type V = AppErrorView;

    open spec fn view(&self) -> AppErrorView {
        match self {
            AppError::BadRequest(m) => AppErrorView::BadRequest(m@),
            AppError::NotFound => AppErrorView::NotFound,
            AppError::Conflict(m) => AppErrorView::Conflict(m@),
            AppError::Unauthorized => AppErrorView::Unauthorized,
            AppError::Forbidden => AppErrorView::Forbidden,
            AppError::TooManyRequests(m) => AppErrorView::TooManyRequests(m@),
        }
    }
}

} // verus!
