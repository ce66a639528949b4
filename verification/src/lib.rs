//! Decision logic of an interview-preparation workbench: application status
//! rules, the streamed answer protocol, session context budgeting, job
//! registries, configuration resolution and text helpers.
use vstd::prelude::*;

pub mod answer_flow;
pub mod application_service;
mod clock;
pub mod context_manager;
pub mod error;
pub mod job_queue;
pub mod jobs;
pub mod json;
pub mod memory_model;
pub mod random_id;
pub mod routes;
pub mod settings;
pub mod skill_query;
pub mod skill_service;
pub mod text;

verus! {
} // verus!
