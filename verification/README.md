# tentoku

A dictionary-driven Japanese tokenizer with rule-based deinflection, verified
with Verus.

## Layout

- `src/` — the verified library.
  - `normalize.rs`, `variations.rs`, `yoon.rs` — text normalization (katakana to
    hiragana, full-width digits, NFC, the position map back to the input),
    spelling variations (ー expansion, old kanji forms), yoon endings.
  - `deinflect_rules.rs`, `deinflect.rs` — the rule table and the breadth-first
    deinflection, specified exactly by `spec_deinflect`.
  - `type_matching.rs`, `sorting.rs` — part-of-speech checks and result order.
  - `word_search.rs`, `tokenizer.rs` — greedy longest-match search and
    tokenization against any `Dictionary`. The search is stated as a walk over
    shrinking prefixes in which every answer it uses is one the dictionary
    gave to the question the walk fixes (the candidate word, the entry limit,
    the text to match). Each token comes from such a search at its position.
  - `search_consistency.rs` — with a dictionary that answers the same
    question the same way, the search of a text has one result, so each
    token is exactly what `word_search` returns at its position.
  - `build_database.rs` — JMdict entity declarations and references, and the
    element-by-element builder that turns XML events into database records.
  - `sqlite_dict.rs` — dictionary entries assembled from database rows, and
    the step-by-step decisions of a lookup (length limit, known misses,
    readings before kanji).
  - `key_index.rs` — the compact binary key index, with its byte format and a
    proof that reading gives back what writing wrote.
- `app/` — the command line, the SQLite backend, the database build (download,
  SQLite import), the C API and the JSON types.
- `tests/` — tests of the library.
