//! Street-cleaning zone correlation and schedule inference.
//!
//! The correlation engine finds, for a street address, the cleaning zone
//! that governs it: the nearest zone within fifty metres. Five searches do
//! this, which differ in how they come by the zones that they measure. The
//! schedule analyzer infers from the past cleanings of an address how often,
//! on which weekday and at what hour it is cleaned.
//!
//! Lengths are whole centimetres, times whole seconds, confidences
//! millionths: the library holds no floating-point number. The distance
//! over the globe that decides between zones is the caller's to supply.

pub mod address_list;
pub mod calendar;
pub mod classification;
pub mod config;
pub mod correlation;
pub mod correlation_algorithms;
pub mod decimal;
pub mod error;
pub mod form;
pub mod geolocation;
pub mod geometry;
pub mod grouping;
pub mod handlers;
pub mod metric;
pub mod models;
pub mod scheduler;
pub mod sorting;
pub mod state;
pub mod structs;
pub mod text;

pub use correlation::CorrelationAnalyzer;
pub use error::AMPError;
pub use models::{AlertLevel, CleaningEvent, CleaningSchedule, GpsCoordinate};
pub use state::AppState;
