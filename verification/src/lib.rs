//! Exam generation engine: given a bank of multiple-choice question sets and a
//! declarative exam configuration (tag coverage quotas, per-type set, question
//! and answer quotas), produce a randomized, constraint-satisfying generated
//! exam, or a typed failure.
#![verifier::loop_isolation(false)]

pub mod allocate;
pub mod answers;
pub mod api;
pub mod attempt;
pub mod clock;
pub mod engine;
pub mod lemmas;
pub mod model;
pub mod prepare;
pub mod presence;
pub mod randomness;
pub mod validate;
pub mod wellformed;
