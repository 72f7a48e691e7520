//! Buildpack and platform API versions and their negotiation.

pub mod buildpack;
pub mod platform;
pub mod version;

pub use version::Version;
