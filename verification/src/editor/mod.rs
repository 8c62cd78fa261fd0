//! The prop editor's integer model: layer identities and the tool operations
//! that work on whole images and on guide geometry.

pub mod frames;
pub mod history;
pub mod layer;
pub mod tools;
