//! DfuSe firmware containers and pre-flight checks of firmware images.
//!
//! The crate turns an in-memory description of flashable targets into the
//! exact bytes of a DfuSe container, and checks the vector table of a raw
//! firmware image against the memory map of the device it is meant for.
//! Every function is verified against a contract stated over mathematical
//! models of the data.

pub mod args;
pub mod check;
pub mod checksum;
pub mod decode;
pub mod encode;
pub mod firmware;
pub mod flasher;
pub mod image;
pub mod layout;
pub mod packager;
pub mod wire;

pub use args::ArgError;
pub use firmware::{validate, ValidationConfig, ValidationError};
pub use image::{ConfigError, DfuElement, DfuFile, DfuTarget, SizeField};
