//! Verified core of an image-transformation plugin system.
//!
//! A host program lends a raw RGBA pixel buffer and a parameter text to
//! dynamically loaded plugin modules through a fixed C ABI. Everything that
//! crosses that boundary is governed by convention rather than by the type
//! system, so the rules themselves are the logic worth verifying: the status
//! code vocabulary, the boundary guards (null pointers, parameter decoding,
//! buffer sizing with overflow detection), and the pixel kernels each plugin
//! runs once the guards pass.
//!
//! This crate holds that logic over plain values, with contracts. The thin
//! unverifiable rim (dynamic loading, raw pointers, file and image I/O, and
//! the floating-point weighted blur) lives outside the library and hands it
//! integers, byte vectors and booleans.

pub mod args;
pub mod blur;
pub mod error;
pub mod image;
pub mod mirror;
pub mod params;
pub mod status;
