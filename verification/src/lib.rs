//! A real-time cache-invalidation coordination service core: the
//! invalidation-state store, token and session registries, the clock-drift
//! guard, and the framing of the messages pushed to connected sessions.

pub mod clock;
pub mod digits;
pub mod laws;
pub mod msg;
pub mod paths;
pub mod sessions;
pub mod state;
pub mod store;
pub mod strmap;
pub mod tokens;
