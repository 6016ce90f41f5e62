//! Key remapping core: configuration resolution, layer lookup, the input
//! state machine that turns device events into output commands, macro
//! playback, and the small text parsers used by the window watchers and
//! the volume controls.

pub mod keys;
pub mod config;
pub mod events;
pub mod watcher;
pub mod state;
pub mod parser;
pub mod macros;
pub mod text;
pub mod volume;
pub mod devices;
pub mod laws;
