//! Request-level rules of the HTTP routes: validation, message assembly and
//! text rendering that the handlers apply around their storage calls.
pub mod accounts;
pub mod applications;
pub mod batch;
pub mod calendar;
pub mod companies;
pub mod drill_setup;
pub mod drills;
pub mod export;
pub mod insights;
pub mod personas;
pub mod questions;
pub mod records;
pub mod resume;
pub mod resume_versions;
pub mod review;
pub mod sessions;
pub mod settings;
pub mod skills;
pub mod turn;
