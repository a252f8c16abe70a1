//! Motors.

pub mod dc_motor;
