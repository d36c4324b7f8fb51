//! Focus-session tracking.
//!
//! The crate turns samples of the environment (which processes run, which
//! one has the focus, what time it is) into focus sessions, usage intervals
//! and distraction counts. [`manager::SessionManager`] is the state machine,
//! [`machine`] its mathematical model with the laws that hold of every step,
//! [`poller::Poller`] one tick of the control loop around it, and
//! [`sync::merge_sessions`] the reconciliation of local and remote session
//! records. Nothing here reads a clock, a file or a socket: callers hand
//! in what they sampled and carry out what a step asks for.

pub mod allowance;
pub mod api;
pub mod apprules;
pub mod blacklist;
pub mod clock;
pub mod constants;
pub mod desktop;
pub mod effects;
pub mod error;
pub mod logger;
pub mod machine;
pub mod manager;
pub mod metrics;
pub mod modal;
pub mod names;
pub mod platform;
pub mod poller;
pub mod reconcile;
pub mod registry;
pub mod session;
pub mod spotify;
pub mod sync;
pub mod tracker;
pub mod types;

pub use apprules::AppRules;
pub use error::SynapseError;
pub use manager::SessionManager;
pub use metrics::Metrics;
pub use session::FocusSession;
pub use types::SessionId;
