//! Process lifecycle supervision for local LLM runtimes.
//!
//! The crate manages long-lived runtime processes across independent CLI
//! invocations: all state crosses process boundaries through per-service
//! records (a PID record and a runtime-config record), and every operation
//! re-verifies those records against the live process table before acting.

pub mod cli;
pub mod config;
pub mod driver;
pub mod env;
pub mod error;
pub mod laws;
pub mod num;
pub mod paths;
pub mod records;
pub mod services;
pub mod store;
pub mod supervisor;
pub mod text;
