//! Where signals are shipped to.

pub mod pulseboard;
