//! Tolerant package-metadata model and normalization pipeline.
//!
//! The library ingests loosely-schematized package-metadata records produced
//! by an external package database tool, resolves their drifting JSON shapes
//! into one canonical in-memory model, rewrites the tool's bulk listing text
//! into a stable delimiter-safe cache format, and renders canonical records
//! as human-readable text.  Process invocation, terminal output and the
//! on-disk cache file are kept outside; this crate holds the decisions and
//! proves them.

pub mod cache;
pub mod json;
pub mod nix;
pub mod proc;
pub mod render;
pub mod rewrite;
pub mod text;
