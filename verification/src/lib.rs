//! A dictionary-driven Japanese tokenizer with rule-based deinflection.
//!
//! The public operations state what they compute over mathematical models
//! (`Seq<char>`, `Set`, `int`): the word search as a walk over shrinking
//! prefixes of the text, the tokenizer as a walk over the normalized text
//! that takes each token from the search at its position, the deinflector
//! as the set of candidates its rules reach.

pub mod types;
pub mod text;
pub mod yoon;
pub mod deinflect_rules;
pub mod normalize;
pub mod deinflect;
pub mod variations;
pub mod type_matching;
pub mod sorting;
pub mod error;
pub mod dictionary;
pub mod word_search;
pub mod search_consistency;
pub mod tokenizer;
pub mod key_index;
pub mod build_database;
pub mod sqlite_dict;
