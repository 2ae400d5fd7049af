//! Lower-body tracking from fixed webcams: the rules behind the cameras, the
//! calibration walk, the fusion clock and the panels.
//!
//! Everything here works on plain values. Instants and durations are whole
//! nanoseconds ([`time`]), real numbers are carried as the bits of a double
//! ([`scalar`]), and the arithmetic on them, the devices and the windows belong
//! to the application around this crate.

pub mod app;
pub mod calib;
pub mod capture;
pub mod config;
pub mod fusion;
pub mod geometry;
pub mod list;
pub mod models;
pub mod order;
pub mod output;
pub mod pipeline;
pub mod scalar;
pub mod text;
pub mod time;
pub mod vr;
