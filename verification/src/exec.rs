//! What a run does once its options are read.

pub mod interactive;
