//! Core data types shared by the tokenizer, the deinflector and the
//! dictionary backends.

use vstd::prelude::*;

pub mod word_type;

verus! {

/// Reasons for deinflection transformations.
#[derive(Copy, Clone, Debug, PartialEq, Eq, Hash, Structural)]
pub enum Reason {
    PolitePastNegative,
    PoliteNegative,
    PoliteVolitional,
    Chau,
    Sugiru,
    PolitePast,
    Tara,
    Tari,
    Causative,
    PotentialOrPassive,
    Toku,
    Sou,
    Tai,
    Polite,
    Respectful,
    Humble,
    HumbleOrKansaiDialect,
    Past,
    Negative,
    Passive,
    Ba,
    Volitional,
    Potential,
    EruUru,
    CausativePassive,
    Te,
    Zu,
    Imperative,
    MasuStem,
    Adv,
    Noun,
    ImperativeNegative,
    Continuous,
    Ki,
    SuruNoun,
    ZaruWoEnai,
    NegativeTe,
    Irregular,
}

/// A candidate word from deinflection.
#[derive(Clone, Debug)]
pub struct CandidateWord {
    pub word: String,
    pub word_type: u16,
    pub reason_chains: Vec<Vec<Reason>>,
}

/// Kanji reading (written form) of a dictionary entry.
#[derive(Clone, Debug)]
pub struct KanjiReading {
    pub text: String,
    pub priority: Option<String>,
    pub info: Option<String>,
    /// `Some((0, len))` if this reading matched the input, `None` otherwise.
    pub match_range: Option<(usize, usize)>,
    pub matched: bool,
}

/// Kana reading (pronunciation) of a dictionary entry.
#[derive(Clone, Debug)]
pub struct KanaReading {
    pub text: String,
    pub no_kanji: bool,
    pub priority: Option<String>,
    pub info: Option<String>,
    /// `Some((0, len))` if this reading matched the input, `None` otherwise.
    pub match_range: Option<(usize, usize)>,
    pub matched: bool,
}

/// Definition/gloss for a sense.
#[derive(Clone, Debug)]
pub struct Gloss {
    pub text: String,
    pub lang: String,
    pub g_type: Option<String>,
}

/// A sense (meaning) of a dictionary entry.
#[derive(Clone, Debug)]
pub struct Sense {
    pub index: usize,
    pub pos_tags: Vec<String>,
    pub glosses: Vec<Gloss>,
    pub info: Option<String>,
    pub field: Option<Vec<String>>,
    pub misc: Option<Vec<String>>,
    pub dial: Option<Vec<String>>,
}

/// A dictionary word entry.
#[derive(Clone, Debug)]
pub struct WordEntry {
    pub entry_id: i64,
    pub ent_seq: String,
    pub kanji_readings: Vec<KanjiReading>,
    pub kana_readings: Vec<KanaReading>,
    pub senses: Vec<Sense>,
}

/// Result from word search.
#[derive(Clone, Debug)]
pub struct WordResult {
    pub entry: WordEntry,
    pub match_len: usize,
    pub reason_chains: Option<Vec<Vec<Reason>>>,
}

/// A token from tokenization.
#[derive(Clone, Debug)]
pub struct Token {
    pub text: String,
    pub start: usize,
    pub end: usize,
    pub dictionary_entry: Option<WordEntry>,
    pub deinflection_reasons: Option<Vec<Vec<Reason>>>,
}

} // verus!
