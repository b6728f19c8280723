//! Configuration of the first pipeline generation.

use vstd::prelude::*;

verus! {

/// Settings of the Unicode to ASCII post-processor.
#[derive(Debug, Clone, Copy, PartialEq, Eq)]
pub struct DeEmdasherConfig {
    /// Turn " - " into " -- ".
    pub doubledash: bool,
}

/// Post-processing settings.
#[derive(Debug, Clone, Copy, PartialEq, Eq, Default)]
pub struct PostConfig {
    /// Symbol normalisation; disabled when `None`.
    pub deemdasher: Option<DeEmdasherConfig>,
}

} // verus!
