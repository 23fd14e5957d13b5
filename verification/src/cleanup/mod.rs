//! Storage housekeeping: the overview of what the model store holds, the
//! "safe to delete" reports, output retention, and what a cleanup apply
//! does with a selection. Everything here decides; the caller walks the
//! disk and deletes.

pub mod outputs;
pub mod duplicates;
pub mod storage;
pub mod scan;
pub mod apply;
pub mod locations;
pub mod media;
pub mod caches;
pub mod caches_scan;
pub mod datasets;
pub mod runs;
pub mod report;
pub mod selection_laws;
pub mod apply_steps;
