//! Low-level byte-buffer primitives with statically proven bounds.
//!
//! Two independent capabilities:
//!
//! * [`unchecked`]: element access on sequences whose bounds obligation is
//!   discharged once, by proof, instead of on every access at run time.
//! * [`bytes`] and [`cursor`]: moving fixed-size values in and out of raw byte
//!   buffers at arbitrary, possibly unaligned, byte offsets, either at an
//!   explicit offset or through a self-advancing cursor.

pub mod bytes;
pub mod cursor;
pub mod unchecked;
