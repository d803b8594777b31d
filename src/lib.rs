//! Decoding and re-encoding of a BER subset carrying a roadside traffic
//! classification module's configuration and telemetry file.

use vstd::prelude::*;

pub mod bytes;
pub mod timestamp;
pub mod value;
pub mod decode;
pub mod laws;
pub mod oid;
pub mod dcm;
pub mod records;
