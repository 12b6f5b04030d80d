//! Length-prefixed framing of register-protocol messages over a byte stream.

pub mod buffer;
pub mod frame;
pub mod serial;
pub mod codec;
