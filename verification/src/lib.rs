//! Codex session and quota console.
pub mod billing;
pub mod clock;
pub mod console;
pub mod content;
pub mod decimal;
pub mod errors;
pub mod favorites;
pub mod fetching;
pub mod file_uri;
pub mod index;
pub mod instances;
pub mod json;
pub mod json_text;
pub mod listing;
pub mod naming;
pub mod order;
pub mod phrase;
pub mod quota;
pub mod records;
pub mod refresh;
pub mod search;
pub mod session_file;
pub mod snapshots;
pub mod table;
pub mod text;
pub mod threads;
pub mod timeline;
pub mod titles;
pub mod walk;
