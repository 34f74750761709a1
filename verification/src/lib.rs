//! Verified core of voiceflow, a push-to-talk dictation daemon.

pub mod asr;
pub mod audio;
pub mod chunks;
pub mod cli;
pub mod hotkey;
pub mod inject;
pub mod levels;
pub mod overlay;
pub mod store;
pub mod text;
pub mod ui;

pub use cli::{data_dir, pos_file, socket_path, WAYLAND_FALLBACK};
pub use levels::State;
