//! The local wall clock, read through chrono.
use vstd::prelude::*;

verus! {

/// The local date and time as `MM-DD HH:MM`, from `chrono::Local::now` and
/// `format`; nothing is stated of the text, which depends on the clock and on
/// the machine's time zone.
#[verifier::external_body]
pub(crate) fn local_time_label() -> String {
    chrono::Local::now().format("%m-%d %H:%M").to_string()
}

/// The local date and time as `YYYY-MM-DD HH:MM`, from `chrono::Local::now`
/// and `format`; nothing is stated of the text, which depends on the clock and
/// on the machine's time zone.
#[verifier::external_body]
pub(crate) fn local_date_time_label() -> String {
    chrono::Local::now().format("%Y-%m-%d %H:%M").to_string()
}

} // verus!
