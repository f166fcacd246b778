//! Orchestration core for benchmarking compiled code across many compiler
//! toolchains: toolchain selection and resolution, run planning, CPU shield
//! masks, the resumable result collector, and the decisions of a measuring
//! session.
pub mod date;
pub mod error;
pub mod toolchain;
pub mod plan;
pub mod collector;
pub mod engine;
pub mod shield;
pub mod measure;
