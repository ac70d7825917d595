//! Codec and request driver for the ethtool link-state query family of a
//! netlink-style attribute protocol.
//!
//! The wire format is a concatenation of type-length-value records: a 16-bit
//! kind (whose top bit marks a nested payload), a 16-bit payload length, the
//! payload bytes, and zero padding to a 4-byte boundary.  The codec turns such
//! buffers into ordered sequences of typed attribute values and back, keeping
//! unknown kinds intact for forward compatibility.

pub mod attr;
pub mod error;
pub mod handle;
pub mod header;
pub mod stream;
pub mod wire;

pub use attr::EthtoolAttr;
pub use attr::EthtoolLinkStateAttr;
pub use attr::emit_link_state_nlas;
pub use attr::parse_link_state_nlas;
pub use error::DecodeError;
pub use error::ErrorDetail;
pub use handle::EthtoolHandle;
pub use handle::EthtoolLinkStateGetRequest;
pub use handle::EthtoolLinkStateHandle;
pub use header::EthtoolHeader;
pub use stream::ResponseStream;
pub use stream::TransportEvent;
