//! A single compute dispatch, described as verified data and decisions: the
//! payload that is uploaded, the plan and command sequence recorded for the
//! device, and the step machine that drives setup, submission and readback.

pub mod payload;
pub mod plan;
pub mod run;
