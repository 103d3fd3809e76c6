//! Remote execution boundary of a validator: the wire codec, message framing,
//! the client's retry discipline, the server's fail-safe service loop, and the
//! metered ed25519 natives that share its trust model.

pub mod client;
pub mod ed25519;
pub mod error;
pub mod framing;
pub mod native;
pub mod request;
pub mod response;
pub mod service;
pub mod signature;
pub mod uleb128;
pub mod wire;
