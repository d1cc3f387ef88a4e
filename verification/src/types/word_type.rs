//! Word type flags for deinflection matching.
//! Stored as a `u16` bitmask; values can be OR'd together.

use vstd::prelude::*;

verus! {

/// Ichidan (ru-) verbs.
pub const ICHIDAN_VERB: u16 = 1;
/// Godan (u-) verbs.
pub const GODAN_VERB: u16 = 2;
pub const I_ADJ: u16 = 4;
pub const KURU_VERB: u16 = 8;
pub const SURU_VERB: u16 = 16;
pub const SPECIAL_SURU_VERB: u16 = 32;
pub const NOUN_VS: u16 = 64;

/// All final word types (valid dictionary entries).
pub const ALL_FINAL: u16 = 127;

// Intermediate types (not valid dictionary entries).
pub const INITIAL: u16 = 128;
pub const TA_TE_STEM: u16 = 256;
pub const DA_DE_STEM: u16 = 512;
pub const MASU_STEM: u16 = 1024;
pub const IRREALIS_STEM: u16 = 2048;

} // verus!
