//! The value types of the format.
pub mod array;
pub mod hitman_resource;
pub mod resource;
pub mod variant;
