//! Decoders that run as modules of their own: what a module exports, and how its
//! functions are called.
pub mod exports;
pub mod guest_call;
pub mod micro;
