//! The dictionary backend interface.

use vstd::prelude::*;

use crate::error::TentokuError;
use crate::types::WordEntry;

verus! {

/// Trait for dictionary backends.
///
/// What a backend answers depends on its data; the word search states its
/// results in terms of the answers the backend gave to the calls it made.
pub trait Dictionary: Send + Sync {
    /// Look up words matching `input_text` exactly (or via hiragana normalization).
    fn get_words(
        &self,
        input_text: &str,
        max_results: usize,
        matching_text: Option<&str>,
    ) -> Result<Vec<WordEntry>, TentokuError>;

    /// Fast existence check — returns `true` if any entry matches `word`.
    fn contains_word(&self, word: &str) -> bool;
}

} // verus!
