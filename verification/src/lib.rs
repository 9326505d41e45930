//! Request-dispatch core of a web framework: a deferred build pipeline that
//! accumulates configuration operations and actualizes them into an immutable
//! snapshot, a per-request dispatch state machine with routing, error-catcher
//! fallback and lifecycle hooks, and a two-phase response transmission plan.

pub mod http;
pub mod uri;
pub mod router;
pub mod store;
pub mod cookies;
pub mod data;
pub mod response;
pub mod outcome;
pub mod catcher;
pub mod error;
pub mod config;
pub mod ops;
pub mod shutdown;
pub mod rocket;
pub mod request;
pub mod dispatch;
pub mod transmit;
