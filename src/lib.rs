//! Hybrid-rate agent control for a 5-vs-5 match simulation.
//!
//! Positions are fixed-point: one field unit is `geometry::MILLI` steps.
//! Behavioural factors (risk, stamina, utilities) are permille values.
pub mod geometry;
pub mod intent;
pub mod types;
pub mod physics;
pub mod utility;
pub mod events;
pub mod game;
pub mod context;
pub mod orchestrator;
pub mod wire;
pub mod prompt;
