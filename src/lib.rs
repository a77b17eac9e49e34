//! Compiles a declarative network-access configuration (VLANs, network
//! objects, users with their devices and MAC bindings, passwords) into the
//! artifacts an access-control deployment needs, and decides how the live
//! per-user state and the running daemons are brought up to date.

pub mod audit;
pub mod change;
pub mod daemon;
pub mod daily;
pub mod decimal;
pub mod fields;
pub mod model;
pub mod reconcile;
pub mod text;
pub mod topology;
pub mod tree;
pub mod validate;

pub use daemon::signal_all;
