//! Verified core of the xiaokui_alive desktop companion: the Codex app-server
//! protocol state, the routing of its messages, the Discord activity tracker,
//! the session catalog and thread list, the Discord bot runtime decisions, and
//! where Codex keeps its files.

pub mod text;
pub mod json;
pub mod codex;
pub mod activity;
pub mod sessions;
pub mod disk;
pub mod bot;
pub mod watcher;
pub mod images;
pub mod home;
