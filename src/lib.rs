//! Extraction of ZIP and RAR archives into a directory named after the archive.
//!
//! The library decides everything about an extraction: where the output goes,
//! which entries may be written and what is written for each of them. The
//! program around it reads the archive file and carries out the plan.
pub mod error;
pub mod format;
pub mod paths;
pub mod plan;
pub mod zip_archive;
