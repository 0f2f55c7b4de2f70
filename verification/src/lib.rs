//! A pay-per-request protocol layer: an HTTP route is gated behind a
//! stablecoin micropayment expressed purely through HTTP semantics — a
//! 402 challenge listing acceptable price tags, a hex-encoded payment
//! proof carried in one request header, and out-of-band verification and
//! settlement by a facilitator service.  The amounts, the price-tag
//! policy, the wire codecs, and both sides' protocol state machines live
//! here, each behind a contract; the surrounding host supplies only
//! transport, clocks, keys, and the wrapped handler.

pub mod amount;
pub mod asset;
pub mod catalog;
pub mod client;
pub mod codec;
pub mod facilitator;
pub mod header;
pub mod hex;
pub mod numerals;
pub mod requirements;
pub mod server;
pub mod tag;
pub mod text;
pub mod wire;
