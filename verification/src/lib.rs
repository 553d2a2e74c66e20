//! Verified core of a desktop application launcher: text-buffer editing,
//! application search, launcher navigation state and calendar notes.
pub mod text;
pub mod toml_doc;
pub mod entry_buffer;
pub mod desktop_entry;
pub mod search;
pub mod launcher;
pub mod calendar;
pub mod user_config;
pub mod clock;
