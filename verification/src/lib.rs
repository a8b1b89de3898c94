//! Verified core of kovre, a declarative backup orchestrator: configuration
//! validation, the naming scheme of the versioned mirror, template
//! resolution rules and the dashboard's request policies.

pub mod text;
pub mod table;
pub mod config;
pub mod paths;
pub mod win_path;
pub mod backup;
pub mod order;
pub mod ludusavi;
pub mod templates;
pub mod serve;
pub mod cli;
pub mod dpapi;
