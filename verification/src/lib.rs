//! Process supervisor core: configuration model, supervision rules and the
//! decision logic of the control shell and of the execution engine.

pub mod signals;
pub mod errors;
pub mod config;
pub mod umask;
pub mod text;
pub mod exec;
pub mod communication;
pub mod engine;
pub mod shell;
pub mod logger;
pub mod report;
pub mod laws;
