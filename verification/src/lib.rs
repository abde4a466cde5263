//! Encoding and decoding of the "modulated" bit-string protocol used to talk
//! to the galaxy game server: integers and list tokens are written as strings
//! of `0` and `1`, requests are built from them and responses are read back.

pub mod modulate;
pub mod demodulate;
pub mod numeral;
pub mod response;
pub mod request;
pub mod laws;
pub mod readback;
