//! Structural analysis of a NotePlan vault: note parsing, project and backlog
//! control notes, backlog write planning, and the vault analyzers.
pub mod analyzer;
pub mod app_state;
pub mod backlog_write;
pub mod clock;
pub mod commands;
pub mod dump;
pub mod export;
pub mod mcp;
pub mod models;
pub mod parser;
pub mod report;
pub mod text;
pub mod write_run;
