//! Local fast cache of AI command solutions: transcript ingestion, search
//! query construction, and the decisions behind the interactive front end.

pub mod text;
pub mod model;
pub mod ingestor;
pub mod json;
pub mod storage;
pub mod ui;
pub mod executor;
pub mod updater;
pub mod cli;
