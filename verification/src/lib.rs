//! Core of a desktop application launcher: an index of launchable entries
//! built from desktop-entry files and PATH executables, merged into a
//! name-keyed cache, weighted by a persisted launch-count heatmap.
//!
//! Everything here is pure logic on plain values; reading directories,
//! files, the environment and spawning processes is left to the embedding
//! program, which hands the results in as strings.

pub mod cache;
pub mod config;
pub mod desktop;
pub mod entry;
pub mod file_entry;
pub mod heatmap;
pub mod heatmap_text;
pub mod scan;
pub mod text;
