//! Clipboard history core: text normalisation, payload classification,
//! fingerprinting, the capture decision procedure and the history store with
//! its retention policy and search.

pub mod capture;
pub mod clock;
pub mod commands;
pub mod events;
pub mod fingerprint;
pub mod item;
pub mod retention;
pub mod schema;
pub mod search;
pub mod seq_facts;
pub mod settings;
pub mod shortcut;
pub mod storage;
pub mod text;
pub mod ui;
pub mod watcher;
