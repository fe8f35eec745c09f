//! The decisions of two Wayland debug helpers: a monitor that follows
//! wlr-foreign-toplevel-management events, and a tester that locks a session
//! through ext-session-lock for a few seconds.
//!
//! Everything here works on plain values. The programs that own the Wayland
//! connection feed in what the compositor sent and carry out what comes back.

pub mod text;
pub mod toplevel;
pub mod monitor;
pub mod requests;
pub mod history;
pub mod event_laws;
pub mod options;
pub mod monitor_run;
pub mod lock;
pub mod lock_run;
