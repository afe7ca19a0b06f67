//! Core of a selective forwarding unit for real-time media: RTP framing,
//! the session registry, bandwidth estimation, simulcast layer selection and
//! the decisions of the media router, each stated as a contract and proved.
pub mod error;
pub mod buffer;
pub mod media;
pub mod bandwidth;
pub mod feedback;
pub mod session;
pub mod signaling;
pub mod sfu;
pub mod simulcast;
pub mod transport;

pub use error::SfuError;
