//! Satellite tracking core: TLE text parsing, the bounded in-app event log,
//! log-line assembly and the interactive view/selection state machine.
pub mod app;
pub mod calendar;
pub mod log;
pub mod text;
pub mod tle;
pub mod views;
