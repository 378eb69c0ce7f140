//! The on-disk format adapters, re-exported under one roof.

pub use crate::cobertura::CoberturaParser;
pub use crate::lcov::LcovParser;
