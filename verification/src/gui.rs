//! View models for the desktop cockpit.

pub mod model;
