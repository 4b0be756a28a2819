//! Security audit logic: findings, scoring, parsing of kernel tables and the
//! state kept by the monitor and the terminal interface.

pub mod audit;
pub mod harden;
pub mod monitor;
pub mod path;
pub mod text;
pub mod ui;
