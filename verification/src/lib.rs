//! Build-time asset manifest compiler.
//!
//! The library scans a value describing a directory tree of raw media files,
//! derives a typed resource catalogue (the manifest), and serializes that
//! catalogue into a loading contract: a resource bundle schema with one field
//! per discovered asset, per-asset binding statements, an override pass for
//! hosts that must re-wrap every bound value, and one accessor per sprite
//! region. Reading the real filesystem and writing the generated artifact are
//! left to the surrounding build script; everything in here is pure.

pub mod bundle;
pub mod catalogue;
pub mod chain;
pub mod classify;
pub mod emit;
pub mod game;
pub mod geometry;
pub mod ident;
pub mod pipeline;
pub mod sprite;
pub mod text;
