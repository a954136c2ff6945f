//! Finds visually duplicate images: perceptual fingerprints, their pairwise
//! Hamming distances, and the bookkeeping of one scan run.

pub mod engine;
pub mod events;
pub mod fingerprint;
pub mod laws;
pub mod matcher;
pub mod paths;
pub mod report;
pub mod run;
pub mod scan;
pub mod state;
pub mod table;
