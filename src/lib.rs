//! Signature analysis for exposing native functions to a scripting engine.
pub mod pattern;
pub mod signature;
pub mod wrapper;
pub mod ty;
