//! Verified core of a Windows time-synchronisation service: configuration
//! model, NTP packet codec, host selection, synchronisation decisions and the
//! runtime state machine that the service's actor drives.
pub mod config;
pub mod dashboard;
pub mod ntp;
pub mod order;
pub mod runtime;
pub mod service;
pub mod sync;
pub mod text;
pub mod time;
pub mod winsys;
