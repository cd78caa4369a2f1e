//! Verified core of a multi-source file relocation ("move") engine.
//!
//! The library proves the logic that makes moving files subtle: deriving a
//! destination name from a path's final component, computing backup names
//! (plain-suffix and numbered families), deciding what to do when the
//! destination already exists (interactive / no-clobber / bare overwrite),
//! and falling back from an atomic rename to copy-then-remove when source
//! and destination live on different storage devices.
//!
//! All of it is specified and verified against a small in-memory filesystem
//! model ([`fsmodel::ModelFs`]); an unverified front end may mirror the same
//! decisions against a real filesystem.

pub mod backup;
pub mod batch;
pub mod engine;
pub mod fsmodel;
pub mod numerals;
pub mod options;
pub mod pathops;
