//! Core logic of a desktop toast-notification daemon for coding-agent hooks.
//!
//! The library owns the decision logic: walking a process snapshot up to the
//! ancestor chain of a pid, picking the best source window for a chain, the
//! wire codec of the inter-process channel, the notification manager's state
//! (ids, stacking, focus reactions), and the server loop's retry backoff.
//! All operating-system state (process snapshots, window lists, the current
//! foreground window, the channel itself) is handed in as plain values by the
//! surrounding program, so every function here is deterministic and verified.

pub mod channel;
pub mod codec;
pub mod config;
pub mod dispatch;
pub mod manager;
pub mod position;
pub mod request;
pub mod resolver;
pub mod text;
pub mod version;
pub mod walker;

pub use channel::ServerBackoff;
pub use config::HookConfig;
pub use manager::{NotificationData, NotificationManager};
pub use request::{Cli, NotifyRequest};
pub use resolver::{WindowCandidate, WindowInfo};
pub use walker::ProcessEntry;
