//! What the operations of the library are for, stated of their inputs and results.
pub mod artifacts;
pub mod assembling;
pub mod averages;
pub mod calls;
pub mod codes;
pub mod dictionaries;
pub mod digits;
pub mod finishing;
pub mod graph;
pub mod graph_build;
pub mod graph_walk;
pub mod guests;
pub mod index_columns;
pub mod indexes;
pub mod judging;
pub mod kernels;
pub mod layouts;
pub mod lists;
pub mod measuring;
pub mod metadata;
pub mod numbers;
pub mod physical_columns;
pub mod probing;
pub mod ranking;
pub mod reading;
pub mod sampling;
pub mod selecting;
pub mod steps;
pub mod stored_bytes;
pub mod stored_tables;
pub mod types;
pub mod vector_columns;
pub mod writing;
