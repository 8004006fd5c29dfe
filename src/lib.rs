//! Tracks metacognitive signals derived from markdown documents and
//! reports how each one trends over a window of observation sessions.
pub mod analyze;
pub mod anomaly;
pub mod clock;
pub mod collect;
pub mod format;
pub mod parser;
pub mod paths;
pub mod pulse;
pub mod signals;
pub mod state;
pub mod stats;
pub mod text;
pub mod value;
