//! Text normalization for BERT-style models and a sentinel-based
//! whitespace splitter, with their contracts proved by Verus.
use vstd::prelude::*;

pub mod aligned;
pub mod chars;
pub mod metaspace;
pub mod normalizer;
pub mod tables;
