//! Device discovery, attribute-handle caching and attribute codecs for
//! peripherals that an operating system exposes as a tree of attribute files.
//!
//! The library works on plain values: directory listings, attribute contents
//! and names. Reading and writing the files is left to the caller.

pub mod error;
pub mod text;
pub mod attribute;
pub mod driver;
pub mod sensors;
pub mod motors;

pub use crate::attribute::{Attribute, DRIVER_PATH};
pub use crate::driver::Driver;
pub use crate::error::{Ev3Error, Ev3Result};
