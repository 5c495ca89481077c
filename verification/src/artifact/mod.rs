//! Self-contained index files.
pub mod cached_search;
pub mod frame;
pub mod ivf_flat;
pub mod ivf_pq;
pub mod kernel;
pub mod kernel_host;
pub mod posting;
pub mod pq;
pub mod pq_build;
pub mod search;
