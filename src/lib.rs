//! Deduplication and clustering of peripheral register descriptions.
//!
//! Peripheral register trees are normalized into a canonical form,
//! serialized, fingerprinted, stored once per unique fingerprint, grouped
//! by naming family and compared by structural similarity.
pub mod canon;
pub mod catalog;
pub mod fingerprint;
pub mod groups;
pub mod laws;
pub mod lines;
pub mod model;
pub mod normalize;
pub mod pattern;
pub mod similarity;
pub mod sorting;
pub mod store;
pub mod text;
