//! Mesh building, vertex-format resolution, instance batching and resource
//! caching for instanced rendering.
pub mod batch;
pub mod builder;
pub mod cache;
pub mod mesh;
pub mod pass;
pub mod resolve;
pub mod vertex;
