//! Whole-body control of a biped: schedule, contact bookkeeping, command
//! policy and bring-up rules.

pub mod actuate;
pub mod bringup;
pub mod contact;
pub mod dcm;
pub mod flow;
pub mod gait;
pub mod log;
pub mod pressure;
pub mod profile;
pub mod rig;
pub mod rows;
pub mod state;
pub mod swing;
pub mod tasks;
