//! Source plugins: manifests, installation rules and the host runtime.
pub mod manifest;
pub mod installer;
pub mod runtime;
