//! Orchestration logic for data-driven browser tests of a quiz page: which
//! question-set files become test cases, which cases run, what each case does
//! on the page, how a wait decides, and how results are tallied.

pub mod text;
pub mod model;
pub mod loader;
pub mod selection;
pub mod poll;
pub mod plan;
pub mod run;
pub mod session;
