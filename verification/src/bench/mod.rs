//! What the measuring programs compute.
pub mod blocks;
pub mod disk;
pub mod fill;
pub mod pipeline;
pub mod recall;
pub mod vecs;
