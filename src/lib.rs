//! Provisioning of a platform-specific Java runtime and its jar dependencies,
//! gated by content certificates, and the command line that launches it.

pub mod device;
pub mod hash;
pub mod manifest;
pub mod provision;
pub mod text;

