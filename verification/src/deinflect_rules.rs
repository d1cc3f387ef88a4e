//! The deinflection rule table.
//!
//! Each rule rewrites an inflected ending (`from`) into a less inflected one
//! (`to`). A rule applies to a candidate whose word type shares a bit with
//! `from_type`; the rewritten candidate gets the type `to_type`, and the
//! rule's reasons are recorded in the candidate's reason chain. Stems (masu,
//! ta/te, da/de, irrealis) are intermediate types: the deinflector either
//! forwards them to an Ichidan/Kuru verb by appending る or rewrites them
//! further with a stem rule below.
//!
//! The table is written twice in identical form: once as a specification
//! (`spec_rule`) that contracts can speak of, and once as executable code
//! (`rule`), which Verus proves equal to it.

use vstd::prelude::*;

use crate::types::Reason;

verus! {

/// One deinflection rule.
#[derive(Copy, Clone, Debug)]
pub struct DeinflectRule {
    /// The inflected ending this rule removes.
    pub from: &'static str,
    /// The ending put in its place.
    pub to: &'static str,
    /// The word types the rule applies to (a bitmask of `word_type` flags).
    pub from_type: u16,
    /// The word type of the rewritten candidate.
    pub to_type: u16,
    /// The reasons recorded for this rewrite (possibly none).
    pub reasons: &'static [Reason],
}

/// Number of rules in the table.
pub const RULE_COUNT: usize = 187;

/// The `i`-th rule of the table, as a specification.
pub open spec fn spec_rule(i: usize) -> DeinflectRule {
    match i {
        0 => DeinflectRule { from: "ませんでした", to: "", from_type: 128, to_type: 1024, reasons: &[Reason::PolitePastNegative] },
        1 => DeinflectRule { from: "ましょう", to: "", from_type: 128, to_type: 1024, reasons: &[Reason::PoliteVolitional] },
        2 => DeinflectRule { from: "ませんで", to: "", from_type: 128, to_type: 1024, reasons: &[Reason::PoliteNegative, Reason::Te] },
        3 => DeinflectRule { from: "ました", to: "", from_type: 128, to_type: 1024, reasons: &[Reason::PolitePast] },
        4 => DeinflectRule { from: "ましたら", to: "", from_type: 128, to_type: 1024, reasons: &[Reason::PolitePast, Reason::Tara] },
        5 => DeinflectRule { from: "ましたり", to: "", from_type: 128, to_type: 1024, reasons: &[Reason::PolitePast, Reason::Tari] },
        6 => DeinflectRule { from: "まして", to: "", from_type: 128, to_type: 1024, reasons: &[Reason::Polite, Reason::Te] },
        7 => DeinflectRule { from: "ません", to: "", from_type: 128, to_type: 1024, reasons: &[Reason::PoliteNegative] },
        8 => DeinflectRule { from: "ますれば", to: "", from_type: 128, to_type: 1024, reasons: &[Reason::Polite, Reason::Ba] },
        9 => DeinflectRule { from: "ませ", to: "", from_type: 128, to_type: 1024, reasons: &[Reason::Polite, Reason::Imperative] },
        10 => DeinflectRule { from: "ます", to: "", from_type: 128, to_type: 1024, reasons: &[Reason::Polite] },
        11 => DeinflectRule { from: "なさい", to: "", from_type: 128, to_type: 1024, reasons: &[Reason::Respectful, Reason::Imperative] },
        12 => DeinflectRule { from: "なさる", to: "", from_type: 2, to_type: 1024, reasons: &[Reason::Respectful] },
        13 => DeinflectRule { from: "たい", to: "", from_type: 4, to_type: 1024, reasons: &[Reason::Tai] },
        14 => DeinflectRule { from: "たがる", to: "", from_type: 2, to_type: 1024, reasons: &[Reason::Tai] },
        15 => DeinflectRule { from: "すぎる", to: "", from_type: 1, to_type: 1024, reasons: &[Reason::Sugiru] },
        16 => DeinflectRule { from: "すぎる", to: "い", from_type: 1, to_type: 4, reasons: &[Reason::Sugiru] },
        17 => DeinflectRule { from: "そう", to: "", from_type: 128, to_type: 1024, reasons: &[Reason::Sou] },
        18 => DeinflectRule { from: "そう", to: "い", from_type: 128, to_type: 4, reasons: &[Reason::Sou] },
        19 => DeinflectRule { from: "そう", to: "する", from_type: 128, to_type: 16, reasons: &[Reason::Sou] },
        20 => DeinflectRule { from: "い", to: "う", from_type: 1024, to_type: 2, reasons: &[Reason::MasuStem] },
        21 => DeinflectRule { from: "き", to: "く", from_type: 1024, to_type: 2, reasons: &[Reason::MasuStem] },
        22 => DeinflectRule { from: "ぎ", to: "ぐ", from_type: 1024, to_type: 2, reasons: &[Reason::MasuStem] },
        23 => DeinflectRule { from: "し", to: "す", from_type: 1024, to_type: 2, reasons: &[Reason::MasuStem] },
        24 => DeinflectRule { from: "ち", to: "つ", from_type: 1024, to_type: 2, reasons: &[Reason::MasuStem] },
        25 => DeinflectRule { from: "に", to: "ぬ", from_type: 1024, to_type: 2, reasons: &[Reason::MasuStem] },
        26 => DeinflectRule { from: "び", to: "ぶ", from_type: 1024, to_type: 2, reasons: &[Reason::MasuStem] },
        27 => DeinflectRule { from: "み", to: "む", from_type: 1024, to_type: 2, reasons: &[Reason::MasuStem] },
        28 => DeinflectRule { from: "り", to: "る", from_type: 1024, to_type: 2, reasons: &[Reason::MasuStem] },
        29 => DeinflectRule { from: "き", to: "くる", from_type: 1024, to_type: 8, reasons: &[Reason::MasuStem] },
        30 => DeinflectRule { from: "し", to: "する", from_type: 1024, to_type: 16, reasons: &[Reason::MasuStem] },
        31 => DeinflectRule { from: "た", to: "", from_type: 128, to_type: 256, reasons: &[Reason::Past] },
        32 => DeinflectRule { from: "だ", to: "", from_type: 128, to_type: 512, reasons: &[Reason::Past] },
        33 => DeinflectRule { from: "て", to: "", from_type: 128, to_type: 256, reasons: &[Reason::Te] },
        34 => DeinflectRule { from: "で", to: "", from_type: 128, to_type: 512, reasons: &[Reason::Te] },
        35 => DeinflectRule { from: "たら", to: "", from_type: 128, to_type: 256, reasons: &[Reason::Tara] },
        36 => DeinflectRule { from: "だら", to: "", from_type: 128, to_type: 512, reasons: &[Reason::Tara] },
        37 => DeinflectRule { from: "たり", to: "", from_type: 128, to_type: 256, reasons: &[Reason::Tari] },
        38 => DeinflectRule { from: "だり", to: "", from_type: 128, to_type: 512, reasons: &[Reason::Tari] },
        39 => DeinflectRule { from: "ちゃう", to: "", from_type: 2, to_type: 256, reasons: &[Reason::Chau] },
        40 => DeinflectRule { from: "じゃう", to: "", from_type: 2, to_type: 512, reasons: &[Reason::Chau] },
        41 => DeinflectRule { from: "ちまう", to: "", from_type: 2, to_type: 256, reasons: &[Reason::Chau] },
        42 => DeinflectRule { from: "じまう", to: "", from_type: 2, to_type: 512, reasons: &[Reason::Chau] },
        43 => DeinflectRule { from: "とく", to: "", from_type: 2, to_type: 256, reasons: &[Reason::Toku] },
        44 => DeinflectRule { from: "どく", to: "", from_type: 2, to_type: 512, reasons: &[Reason::Toku] },
        45 => DeinflectRule { from: "ている", to: "", from_type: 1, to_type: 256, reasons: &[Reason::Continuous] },
        46 => DeinflectRule { from: "てる", to: "", from_type: 1, to_type: 256, reasons: &[Reason::Continuous] },
        47 => DeinflectRule { from: "でいる", to: "", from_type: 1, to_type: 512, reasons: &[Reason::Continuous] },
        48 => DeinflectRule { from: "でる", to: "", from_type: 1, to_type: 512, reasons: &[Reason::Continuous] },
        49 => DeinflectRule { from: "ておる", to: "", from_type: 2, to_type: 256, reasons: &[Reason::Continuous, Reason::Humble] },
        50 => DeinflectRule { from: "とる", to: "", from_type: 2, to_type: 256, reasons: &[Reason::Continuous, Reason::HumbleOrKansaiDialect] },
        51 => DeinflectRule { from: "でおる", to: "", from_type: 2, to_type: 512, reasons: &[Reason::Continuous, Reason::Humble] },
        52 => DeinflectRule { from: "どる", to: "", from_type: 2, to_type: 512, reasons: &[Reason::Continuous, Reason::HumbleOrKansaiDialect] },
        53 => DeinflectRule { from: "ていらっしゃる", to: "", from_type: 2, to_type: 256, reasons: &[Reason::Continuous, Reason::Respectful] },
        54 => DeinflectRule { from: "でいらっしゃる", to: "", from_type: 2, to_type: 512, reasons: &[Reason::Continuous, Reason::Respectful] },
        55 => DeinflectRule { from: "っ", to: "う", from_type: 256, to_type: 2, reasons: &[] },
        56 => DeinflectRule { from: "っ", to: "つ", from_type: 256, to_type: 2, reasons: &[] },
        57 => DeinflectRule { from: "っ", to: "る", from_type: 256, to_type: 2, reasons: &[] },
        58 => DeinflectRule { from: "い", to: "く", from_type: 256, to_type: 2, reasons: &[] },
        59 => DeinflectRule { from: "し", to: "す", from_type: 256, to_type: 2, reasons: &[] },
        60 => DeinflectRule { from: "行っ", to: "行く", from_type: 256, to_type: 2, reasons: &[Reason::Irregular] },
        61 => DeinflectRule { from: "いっ", to: "いく", from_type: 256, to_type: 2, reasons: &[Reason::Irregular] },
        62 => DeinflectRule { from: "逝っ", to: "逝く", from_type: 256, to_type: 2, reasons: &[Reason::Irregular] },
        63 => DeinflectRule { from: "往っ", to: "往く", from_type: 256, to_type: 2, reasons: &[Reason::Irregular] },
        64 => DeinflectRule { from: "こう", to: "こう", from_type: 256, to_type: 2, reasons: &[] },
        65 => DeinflectRule { from: "問う", to: "問う", from_type: 256, to_type: 2, reasons: &[] },
        66 => DeinflectRule { from: "請う", to: "請う", from_type: 256, to_type: 2, reasons: &[] },
        67 => DeinflectRule { from: "ん", to: "む", from_type: 512, to_type: 2, reasons: &[] },
        68 => DeinflectRule { from: "ん", to: "ぶ", from_type: 512, to_type: 2, reasons: &[] },
        69 => DeinflectRule { from: "ん", to: "ぬ", from_type: 512, to_type: 2, reasons: &[] },
        70 => DeinflectRule { from: "い", to: "ぐ", from_type: 512, to_type: 2, reasons: &[] },
        71 => DeinflectRule { from: "し", to: "する", from_type: 2304, to_type: 16, reasons: &[] },
        72 => DeinflectRule { from: "き", to: "くる", from_type: 256, to_type: 8, reasons: &[] },
        73 => DeinflectRule { from: "来", to: "来る", from_type: 1280, to_type: 8, reasons: &[] },
        74 => DeinflectRule { from: "じ", to: "ずる", from_type: 3328, to_type: 32, reasons: &[] },
        75 => DeinflectRule { from: "ない", to: "", from_type: 4, to_type: 2048, reasons: &[Reason::Negative] },
        76 => DeinflectRule { from: "ず", to: "", from_type: 128, to_type: 2048, reasons: &[Reason::Zu] },
        77 => DeinflectRule { from: "ずに", to: "", from_type: 128, to_type: 2048, reasons: &[Reason::Zu] },
        78 => DeinflectRule { from: "ぬ", to: "", from_type: 128, to_type: 2048, reasons: &[Reason::Negative] },
        79 => DeinflectRule { from: "ないで", to: "", from_type: 128, to_type: 2048, reasons: &[Reason::NegativeTe] },
        80 => DeinflectRule { from: "ざるを得ない", to: "", from_type: 4, to_type: 2048, reasons: &[Reason::ZaruWoEnai] },
        81 => DeinflectRule { from: "ざるをえない", to: "", from_type: 4, to_type: 2048, reasons: &[Reason::ZaruWoEnai] },
        82 => DeinflectRule { from: "ねば", to: "", from_type: 128, to_type: 2048, reasons: &[Reason::Negative, Reason::Ba] },
        83 => DeinflectRule { from: "わ", to: "う", from_type: 2048, to_type: 2, reasons: &[] },
        84 => DeinflectRule { from: "か", to: "く", from_type: 2048, to_type: 2, reasons: &[] },
        85 => DeinflectRule { from: "が", to: "ぐ", from_type: 2048, to_type: 2, reasons: &[] },
        86 => DeinflectRule { from: "さ", to: "す", from_type: 2048, to_type: 2, reasons: &[] },
        87 => DeinflectRule { from: "た", to: "つ", from_type: 2048, to_type: 2, reasons: &[] },
        88 => DeinflectRule { from: "な", to: "ぬ", from_type: 2048, to_type: 2, reasons: &[] },
        89 => DeinflectRule { from: "ば", to: "ぶ", from_type: 2048, to_type: 2, reasons: &[] },
        90 => DeinflectRule { from: "ま", to: "む", from_type: 2048, to_type: 2, reasons: &[] },
        91 => DeinflectRule { from: "ら", to: "る", from_type: 2048, to_type: 2, reasons: &[] },
        92 => DeinflectRule { from: "さ", to: "する", from_type: 2048, to_type: 16, reasons: &[] },
        93 => DeinflectRule { from: "せ", to: "する", from_type: 2048, to_type: 16, reasons: &[] },
        94 => DeinflectRule { from: "こ", to: "くる", from_type: 2048, to_type: 8, reasons: &[] },
        95 => DeinflectRule { from: "くない", to: "い", from_type: 4, to_type: 4, reasons: &[Reason::Negative] },
        96 => DeinflectRule { from: "かった", to: "い", from_type: 128, to_type: 4, reasons: &[Reason::Past] },
        97 => DeinflectRule { from: "かったら", to: "い", from_type: 128, to_type: 4, reasons: &[Reason::Tara] },
        98 => DeinflectRule { from: "かったり", to: "い", from_type: 128, to_type: 4, reasons: &[Reason::Tari] },
        99 => DeinflectRule { from: "ければ", to: "い", from_type: 128, to_type: 4, reasons: &[Reason::Ba] },
        100 => DeinflectRule { from: "くて", to: "い", from_type: 128, to_type: 4, reasons: &[Reason::Te] },
        101 => DeinflectRule { from: "く", to: "い", from_type: 128, to_type: 4, reasons: &[Reason::Adv] },
        102 => DeinflectRule { from: "さ", to: "い", from_type: 128, to_type: 4, reasons: &[Reason::Noun] },
        103 => DeinflectRule { from: "き", to: "い", from_type: 128, to_type: 4, reasons: &[Reason::Ki] },
        104 => DeinflectRule { from: "かろう", to: "い", from_type: 128, to_type: 4, reasons: &[Reason::Volitional] },
        105 => DeinflectRule { from: "くなかった", to: "い", from_type: 128, to_type: 4, reasons: &[Reason::Negative, Reason::Past] },
        106 => DeinflectRule { from: "くありません", to: "い", from_type: 128, to_type: 4, reasons: &[Reason::PoliteNegative] },
        107 => DeinflectRule { from: "よう", to: "る", from_type: 128, to_type: 9, reasons: &[Reason::Volitional] },
        108 => DeinflectRule { from: "おう", to: "う", from_type: 128, to_type: 2, reasons: &[Reason::Volitional] },
        109 => DeinflectRule { from: "こう", to: "く", from_type: 128, to_type: 2, reasons: &[Reason::Volitional] },
        110 => DeinflectRule { from: "ごう", to: "ぐ", from_type: 128, to_type: 2, reasons: &[Reason::Volitional] },
        111 => DeinflectRule { from: "そう", to: "す", from_type: 128, to_type: 2, reasons: &[Reason::Volitional] },
        112 => DeinflectRule { from: "とう", to: "つ", from_type: 128, to_type: 2, reasons: &[Reason::Volitional] },
        113 => DeinflectRule { from: "のう", to: "ぬ", from_type: 128, to_type: 2, reasons: &[Reason::Volitional] },
        114 => DeinflectRule { from: "ぼう", to: "ぶ", from_type: 128, to_type: 2, reasons: &[Reason::Volitional] },
        115 => DeinflectRule { from: "もう", to: "む", from_type: 128, to_type: 2, reasons: &[Reason::Volitional] },
        116 => DeinflectRule { from: "ろう", to: "る", from_type: 128, to_type: 2, reasons: &[Reason::Volitional] },
        117 => DeinflectRule { from: "しよう", to: "する", from_type: 128, to_type: 16, reasons: &[Reason::Volitional] },
        118 => DeinflectRule { from: "こよう", to: "くる", from_type: 128, to_type: 8, reasons: &[Reason::Volitional] },
        119 => DeinflectRule { from: "られる", to: "", from_type: 1, to_type: 2048, reasons: &[Reason::PotentialOrPassive] },
        120 => DeinflectRule { from: "れる", to: "", from_type: 1, to_type: 2048, reasons: &[Reason::Passive] },
        121 => DeinflectRule { from: "れる", to: "る", from_type: 1, to_type: 1, reasons: &[Reason::Potential] },
        122 => DeinflectRule { from: "える", to: "う", from_type: 1, to_type: 2, reasons: &[Reason::Potential] },
        123 => DeinflectRule { from: "ける", to: "く", from_type: 1, to_type: 2, reasons: &[Reason::Potential] },
        124 => DeinflectRule { from: "げる", to: "ぐ", from_type: 1, to_type: 2, reasons: &[Reason::Potential] },
        125 => DeinflectRule { from: "せる", to: "す", from_type: 1, to_type: 2, reasons: &[Reason::Potential] },
        126 => DeinflectRule { from: "てる", to: "つ", from_type: 1, to_type: 2, reasons: &[Reason::Potential] },
        127 => DeinflectRule { from: "ねる", to: "ぬ", from_type: 1, to_type: 2, reasons: &[Reason::Potential] },
        128 => DeinflectRule { from: "べる", to: "ぶ", from_type: 1, to_type: 2, reasons: &[Reason::Potential] },
        129 => DeinflectRule { from: "める", to: "む", from_type: 1, to_type: 2, reasons: &[Reason::Potential] },
        130 => DeinflectRule { from: "れる", to: "る", from_type: 1, to_type: 2, reasons: &[Reason::Potential] },
        131 => DeinflectRule { from: "される", to: "する", from_type: 1, to_type: 16, reasons: &[Reason::Passive] },
        132 => DeinflectRule { from: "できる", to: "する", from_type: 1, to_type: 16, reasons: &[Reason::Potential] },
        133 => DeinflectRule { from: "こられる", to: "くる", from_type: 1, to_type: 8, reasons: &[Reason::PotentialOrPassive] },
        134 => DeinflectRule { from: "これる", to: "くる", from_type: 1, to_type: 8, reasons: &[Reason::Potential] },
        135 => DeinflectRule { from: "せる", to: "", from_type: 1, to_type: 2048, reasons: &[Reason::Causative] },
        136 => DeinflectRule { from: "させる", to: "", from_type: 1, to_type: 2048, reasons: &[Reason::Causative] },
        137 => DeinflectRule { from: "させる", to: "る", from_type: 1, to_type: 9, reasons: &[Reason::Causative] },
        138 => DeinflectRule { from: "させる", to: "する", from_type: 1, to_type: 16, reasons: &[Reason::Causative] },
        139 => DeinflectRule { from: "こさせる", to: "くる", from_type: 1, to_type: 8, reasons: &[Reason::Causative] },
        140 => DeinflectRule { from: "さす", to: "る", from_type: 2, to_type: 9, reasons: &[Reason::Causative] },
        141 => DeinflectRule { from: "させられる", to: "る", from_type: 1, to_type: 9, reasons: &[Reason::CausativePassive] },
        142 => DeinflectRule { from: "される", to: "", from_type: 1, to_type: 2048, reasons: &[Reason::CausativePassive] },
        143 => DeinflectRule { from: "うる", to: "る", from_type: 128, to_type: 9, reasons: &[Reason::EruUru] },
        144 => DeinflectRule { from: "える", to: "る", from_type: 128, to_type: 9, reasons: &[Reason::EruUru] },
        145 => DeinflectRule { from: "ろ", to: "る", from_type: 128, to_type: 1, reasons: &[Reason::Imperative] },
        146 => DeinflectRule { from: "よ", to: "る", from_type: 128, to_type: 1, reasons: &[Reason::Imperative] },
        147 => DeinflectRule { from: "え", to: "う", from_type: 128, to_type: 2, reasons: &[Reason::Imperative] },
        148 => DeinflectRule { from: "け", to: "く", from_type: 128, to_type: 2, reasons: &[Reason::Imperative] },
        149 => DeinflectRule { from: "げ", to: "ぐ", from_type: 128, to_type: 2, reasons: &[Reason::Imperative] },
        150 => DeinflectRule { from: "せ", to: "す", from_type: 128, to_type: 2, reasons: &[Reason::Imperative] },
        151 => DeinflectRule { from: "て", to: "つ", from_type: 128, to_type: 2, reasons: &[Reason::Imperative] },
        152 => DeinflectRule { from: "ね", to: "ぬ", from_type: 128, to_type: 2, reasons: &[Reason::Imperative] },
        153 => DeinflectRule { from: "べ", to: "ぶ", from_type: 128, to_type: 2, reasons: &[Reason::Imperative] },
        154 => DeinflectRule { from: "め", to: "む", from_type: 128, to_type: 2, reasons: &[Reason::Imperative] },
        155 => DeinflectRule { from: "れ", to: "る", from_type: 128, to_type: 2, reasons: &[Reason::Imperative] },
        156 => DeinflectRule { from: "しろ", to: "する", from_type: 128, to_type: 16, reasons: &[Reason::Imperative] },
        157 => DeinflectRule { from: "せよ", to: "する", from_type: 128, to_type: 16, reasons: &[Reason::Imperative] },
        158 => DeinflectRule { from: "こい", to: "くる", from_type: 128, to_type: 8, reasons: &[Reason::Imperative] },
        159 => DeinflectRule { from: "るな", to: "る", from_type: 128, to_type: 27, reasons: &[Reason::ImperativeNegative] },
        160 => DeinflectRule { from: "うな", to: "う", from_type: 128, to_type: 2, reasons: &[Reason::ImperativeNegative] },
        161 => DeinflectRule { from: "くな", to: "く", from_type: 128, to_type: 2, reasons: &[Reason::ImperativeNegative] },
        162 => DeinflectRule { from: "ぐな", to: "ぐ", from_type: 128, to_type: 2, reasons: &[Reason::ImperativeNegative] },
        163 => DeinflectRule { from: "すな", to: "す", from_type: 128, to_type: 2, reasons: &[Reason::ImperativeNegative] },
        164 => DeinflectRule { from: "つな", to: "つ", from_type: 128, to_type: 2, reasons: &[Reason::ImperativeNegative] },
        165 => DeinflectRule { from: "ぬな", to: "ぬ", from_type: 128, to_type: 2, reasons: &[Reason::ImperativeNegative] },
        166 => DeinflectRule { from: "ぶな", to: "ぶ", from_type: 128, to_type: 2, reasons: &[Reason::ImperativeNegative] },
        167 => DeinflectRule { from: "むな", to: "む", from_type: 128, to_type: 2, reasons: &[Reason::ImperativeNegative] },
        168 => DeinflectRule { from: "れば", to: "る", from_type: 128, to_type: 9, reasons: &[Reason::Ba] },
        169 => DeinflectRule { from: "えば", to: "う", from_type: 128, to_type: 2, reasons: &[Reason::Ba] },
        170 => DeinflectRule { from: "けば", to: "く", from_type: 128, to_type: 2, reasons: &[Reason::Ba] },
        171 => DeinflectRule { from: "げば", to: "ぐ", from_type: 128, to_type: 2, reasons: &[Reason::Ba] },
        172 => DeinflectRule { from: "せば", to: "す", from_type: 128, to_type: 2, reasons: &[Reason::Ba] },
        173 => DeinflectRule { from: "てば", to: "つ", from_type: 128, to_type: 2, reasons: &[Reason::Ba] },
        174 => DeinflectRule { from: "ねば", to: "ぬ", from_type: 128, to_type: 2, reasons: &[Reason::Ba] },
        175 => DeinflectRule { from: "べば", to: "ぶ", from_type: 128, to_type: 2, reasons: &[Reason::Ba] },
        176 => DeinflectRule { from: "めば", to: "む", from_type: 128, to_type: 2, reasons: &[Reason::Ba] },
        177 => DeinflectRule { from: "れば", to: "る", from_type: 128, to_type: 2, reasons: &[Reason::Ba] },
        178 => DeinflectRule { from: "すれば", to: "する", from_type: 128, to_type: 16, reasons: &[Reason::Ba] },
        179 => DeinflectRule { from: "くれば", to: "くる", from_type: 128, to_type: 8, reasons: &[Reason::Ba] },
        180 => DeinflectRule { from: "する", to: "", from_type: 16, to_type: 64, reasons: &[Reason::SuruNoun] },
        181 => DeinflectRule { from: "ずる", to: "じる", from_type: 128, to_type: 1, reasons: &[Reason::Irregular] },
        182 => DeinflectRule { from: "いらっしゃる", to: "", from_type: 2, to_type: 1024, reasons: &[Reason::Respectful] },
        183 => DeinflectRule { from: "になる", to: "", from_type: 2, to_type: 1024, reasons: &[Reason::Respectful] },
        184 => DeinflectRule { from: "いたす", to: "する", from_type: 2, to_type: 16, reasons: &[Reason::Humble] },
        185 => DeinflectRule { from: "なさる", to: "する", from_type: 2, to_type: 16, reasons: &[Reason::Respectful] },
        _ => DeinflectRule { from: "おる", to: "いる", from_type: 2, to_type: 1, reasons: &[Reason::HumbleOrKansaiDialect] },
    }
}

/// The whole rule table, as a specification.
pub open spec fn rule_table() -> Seq<DeinflectRule> {
    Seq::new(RULE_COUNT as nat, |i: int| spec_rule(i as usize))
}

/// The `i`-th rule of the table.
pub fn rule(i: usize) -> (r: DeinflectRule)
    requires
        i < RULE_COUNT,
    ensures
        r == spec_rule(i),
{
    match i {
        0 => DeinflectRule { from: "ませんでした", to: "", from_type: 128, to_type: 1024, reasons: &[Reason::PolitePastNegative] },
        1 => DeinflectRule { from: "ましょう", to: "", from_type: 128, to_type: 1024, reasons: &[Reason::PoliteVolitional] },
        2 => DeinflectRule { from: "ませんで", to: "", from_type: 128, to_type: 1024, reasons: &[Reason::PoliteNegative, Reason::Te] },
        3 => DeinflectRule { from: "ました", to: "", from_type: 128, to_type: 1024, reasons: &[Reason::PolitePast] },
        4 => DeinflectRule { from: "ましたら", to: "", from_type: 128, to_type: 1024, reasons: &[Reason::PolitePast, Reason::Tara] },
        5 => DeinflectRule { from: "ましたり", to: "", from_type: 128, to_type: 1024, reasons: &[Reason::PolitePast, Reason::Tari] },
        6 => DeinflectRule { from: "まして", to: "", from_type: 128, to_type: 1024, reasons: &[Reason::Polite, Reason::Te] },
        7 => DeinflectRule { from: "ません", to: "", from_type: 128, to_type: 1024, reasons: &[Reason::PoliteNegative] },
        8 => DeinflectRule { from: "ますれば", to: "", from_type: 128, to_type: 1024, reasons: &[Reason::Polite, Reason::Ba] },
        9 => DeinflectRule { from: "ませ", to: "", from_type: 128, to_type: 1024, reasons: &[Reason::Polite, Reason::Imperative] },
        10 => DeinflectRule { from: "ます", to: "", from_type: 128, to_type: 1024, reasons: &[Reason::Polite] },
        11 => DeinflectRule { from: "なさい", to: "", from_type: 128, to_type: 1024, reasons: &[Reason::Respectful, Reason::Imperative] },
        12 => DeinflectRule { from: "なさる", to: "", from_type: 2, to_type: 1024, reasons: &[Reason::Respectful] },
        13 => DeinflectRule { from: "たい", to: "", from_type: 4, to_type: 1024, reasons: &[Reason::Tai] },
        14 => DeinflectRule { from: "たがる", to: "", from_type: 2, to_type: 1024, reasons: &[Reason::Tai] },
        15 => DeinflectRule { from: "すぎる", to: "", from_type: 1, to_type: 1024, reasons: &[Reason::Sugiru] },
        16 => DeinflectRule { from: "すぎる", to: "い", from_type: 1, to_type: 4, reasons: &[Reason::Sugiru] },
        17 => DeinflectRule { from: "そう", to: "", from_type: 128, to_type: 1024, reasons: &[Reason::Sou] },
        18 => DeinflectRule { from: "そう", to: "い", from_type: 128, to_type: 4, reasons: &[Reason::Sou] },
        19 => DeinflectRule { from: "そう", to: "する", from_type: 128, to_type: 16, reasons: &[Reason::Sou] },
        20 => DeinflectRule { from: "い", to: "う", from_type: 1024, to_type: 2, reasons: &[Reason::MasuStem] },
        21 => DeinflectRule { from: "き", to: "く", from_type: 1024, to_type: 2, reasons: &[Reason::MasuStem] },
        22 => DeinflectRule { from: "ぎ", to: "ぐ", from_type: 1024, to_type: 2, reasons: &[Reason::MasuStem] },
        23 => DeinflectRule { from: "し", to: "す", from_type: 1024, to_type: 2, reasons: &[Reason::MasuStem] },
        24 => DeinflectRule { from: "ち", to: "つ", from_type: 1024, to_type: 2, reasons: &[Reason::MasuStem] },
        25 => DeinflectRule { from: "に", to: "ぬ", from_type: 1024, to_type: 2, reasons: &[Reason::MasuStem] },
        26 => DeinflectRule { from: "び", to: "ぶ", from_type: 1024, to_type: 2, reasons: &[Reason::MasuStem] },
        27 => DeinflectRule { from: "み", to: "む", from_type: 1024, to_type: 2, reasons: &[Reason::MasuStem] },
        28 => DeinflectRule { from: "り", to: "る", from_type: 1024, to_type: 2, reasons: &[Reason::MasuStem] },
        29 => DeinflectRule { from: "き", to: "くる", from_type: 1024, to_type: 8, reasons: &[Reason::MasuStem] },
        30 => DeinflectRule { from: "し", to: "する", from_type: 1024, to_type: 16, reasons: &[Reason::MasuStem] },
        31 => DeinflectRule { from: "た", to: "", from_type: 128, to_type: 256, reasons: &[Reason::Past] },
        32 => DeinflectRule { from: "だ", to: "", from_type: 128, to_type: 512, reasons: &[Reason::Past] },
        33 => DeinflectRule { from: "て", to: "", from_type: 128, to_type: 256, reasons: &[Reason::Te] },
        34 => DeinflectRule { from: "で", to: "", from_type: 128, to_type: 512, reasons: &[Reason::Te] },
        35 => DeinflectRule { from: "たら", to: "", from_type: 128, to_type: 256, reasons: &[Reason::Tara] },
        36 => DeinflectRule { from: "だら", to: "", from_type: 128, to_type: 512, reasons: &[Reason::Tara] },
        37 => DeinflectRule { from: "たり", to: "", from_type: 128, to_type: 256, reasons: &[Reason::Tari] },
        38 => DeinflectRule { from: "だり", to: "", from_type: 128, to_type: 512, reasons: &[Reason::Tari] },
        39 => DeinflectRule { from: "ちゃう", to: "", from_type: 2, to_type: 256, reasons: &[Reason::Chau] },
        40 => DeinflectRule { from: "じゃう", to: "", from_type: 2, to_type: 512, reasons: &[Reason::Chau] },
        41 => DeinflectRule { from: "ちまう", to: "", from_type: 2, to_type: 256, reasons: &[Reason::Chau] },
        42 => DeinflectRule { from: "じまう", to: "", from_type: 2, to_type: 512, reasons: &[Reason::Chau] },
        43 => DeinflectRule { from: "とく", to: "", from_type: 2, to_type: 256, reasons: &[Reason::Toku] },
        44 => DeinflectRule { from: "どく", to: "", from_type: 2, to_type: 512, reasons: &[Reason::Toku] },
        45 => DeinflectRule { from: "ている", to: "", from_type: 1, to_type: 256, reasons: &[Reason::Continuous] },
        46 => DeinflectRule { from: "てる", to: "", from_type: 1, to_type: 256, reasons: &[Reason::Continuous] },
        47 => DeinflectRule { from: "でいる", to: "", from_type: 1, to_type: 512, reasons: &[Reason::Continuous] },
        48 => DeinflectRule { from: "でる", to: "", from_type: 1, to_type: 512, reasons: &[Reason::Continuous] },
        49 => DeinflectRule { from: "ておる", to: "", from_type: 2, to_type: 256, reasons: &[Reason::Continuous, Reason::Humble] },
        50 => DeinflectRule { from: "とる", to: "", from_type: 2, to_type: 256, reasons: &[Reason::Continuous, Reason::HumbleOrKansaiDialect] },
        51 => DeinflectRule { from: "でおる", to: "", from_type: 2, to_type: 512, reasons: &[Reason::Continuous, Reason::Humble] },
        52 => DeinflectRule { from: "どる", to: "", from_type: 2, to_type: 512, reasons: &[Reason::Continuous, Reason::HumbleOrKansaiDialect] },
        53 => DeinflectRule { from: "ていらっしゃる", to: "", from_type: 2, to_type: 256, reasons: &[Reason::Continuous, Reason::Respectful] },
        54 => DeinflectRule { from: "でいらっしゃる", to: "", from_type: 2, to_type: 512, reasons: &[Reason::Continuous, Reason::Respectful] },
        55 => DeinflectRule { from: "っ", to: "う", from_type: 256, to_type: 2, reasons: &[] },
        56 => DeinflectRule { from: "っ", to: "つ", from_type: 256, to_type: 2, reasons: &[] },
        57 => DeinflectRule { from: "っ", to: "る", from_type: 256, to_type: 2, reasons: &[] },
        58 => DeinflectRule { from: "い", to: "く", from_type: 256, to_type: 2, reasons: &[] },
        59 => DeinflectRule { from: "し", to: "す", from_type: 256, to_type: 2, reasons: &[] },
        60 => DeinflectRule { from: "行っ", to: "行く", from_type: 256, to_type: 2, reasons: &[Reason::Irregular] },
        61 => DeinflectRule { from: "いっ", to: "いく", from_type: 256, to_type: 2, reasons: &[Reason::Irregular] },
        62 => DeinflectRule { from: "逝っ", to: "逝く", from_type: 256, to_type: 2, reasons: &[Reason::Irregular] },
        63 => DeinflectRule { from: "往っ", to: "往く", from_type: 256, to_type: 2, reasons: &[Reason::Irregular] },
        64 => DeinflectRule { from: "こう", to: "こう", from_type: 256, to_type: 2, reasons: &[] },
        65 => DeinflectRule { from: "問う", to: "問う", from_type: 256, to_type: 2, reasons: &[] },
        66 => DeinflectRule { from: "請う", to: "請う", from_type: 256, to_type: 2, reasons: &[] },
        67 => DeinflectRule { from: "ん", to: "む", from_type: 512, to_type: 2, reasons: &[] },
        68 => DeinflectRule { from: "ん", to: "ぶ", from_type: 512, to_type: 2, reasons: &[] },
        69 => DeinflectRule { from: "ん", to: "ぬ", from_type: 512, to_type: 2, reasons: &[] },
        70 => DeinflectRule { from: "い", to: "ぐ", from_type: 512, to_type: 2, reasons: &[] },
        71 => DeinflectRule { from: "し", to: "する", from_type: 2304, to_type: 16, reasons: &[] },
        72 => DeinflectRule { from: "き", to: "くる", from_type: 256, to_type: 8, reasons: &[] },
        73 => DeinflectRule { from: "来", to: "来る", from_type: 1280, to_type: 8, reasons: &[] },
        74 => DeinflectRule { from: "じ", to: "ずる", from_type: 3328, to_type: 32, reasons: &[] },
        75 => DeinflectRule { from: "ない", to: "", from_type: 4, to_type: 2048, reasons: &[Reason::Negative] },
        76 => DeinflectRule { from: "ず", to: "", from_type: 128, to_type: 2048, reasons: &[Reason::Zu] },
        77 => DeinflectRule { from: "ずに", to: "", from_type: 128, to_type: 2048, reasons: &[Reason::Zu] },
        78 => DeinflectRule { from: "ぬ", to: "", from_type: 128, to_type: 2048, reasons: &[Reason::Negative] },
        79 => DeinflectRule { from: "ないで", to: "", from_type: 128, to_type: 2048, reasons: &[Reason::NegativeTe] },
        80 => DeinflectRule { from: "ざるを得ない", to: "", from_type: 4, to_type: 2048, reasons: &[Reason::ZaruWoEnai] },
        81 => DeinflectRule { from: "ざるをえない", to: "", from_type: 4, to_type: 2048, reasons: &[Reason::ZaruWoEnai] },
        82 => DeinflectRule { from: "ねば", to: "", from_type: 128, to_type: 2048, reasons: &[Reason::Negative, Reason::Ba] },
        83 => DeinflectRule { from: "わ", to: "う", from_type: 2048, to_type: 2, reasons: &[] },
        84 => DeinflectRule { from: "か", to: "く", from_type: 2048, to_type: 2, reasons: &[] },
        85 => DeinflectRule { from: "が", to: "ぐ", from_type: 2048, to_type: 2, reasons: &[] },
        86 => DeinflectRule { from: "さ", to: "す", from_type: 2048, to_type: 2, reasons: &[] },
        87 => DeinflectRule { from: "た", to: "つ", from_type: 2048, to_type: 2, reasons: &[] },
        88 => DeinflectRule { from: "な", to: "ぬ", from_type: 2048, to_type: 2, reasons: &[] },
        89 => DeinflectRule { from: "ば", to: "ぶ", from_type: 2048, to_type: 2, reasons: &[] },
        90 => DeinflectRule { from: "ま", to: "む", from_type: 2048, to_type: 2, reasons: &[] },
        91 => DeinflectRule { from: "ら", to: "る", from_type: 2048, to_type: 2, reasons: &[] },
        92 => DeinflectRule { from: "さ", to: "する", from_type: 2048, to_type: 16, reasons: &[] },
        93 => DeinflectRule { from: "せ", to: "する", from_type: 2048, to_type: 16, reasons: &[] },
        94 => DeinflectRule { from: "こ", to: "くる", from_type: 2048, to_type: 8, reasons: &[] },
        95 => DeinflectRule { from: "くない", to: "い", from_type: 4, to_type: 4, reasons: &[Reason::Negative] },
        96 => DeinflectRule { from: "かった", to: "い", from_type: 128, to_type: 4, reasons: &[Reason::Past] },
        97 => DeinflectRule { from: "かったら", to: "い", from_type: 128, to_type: 4, reasons: &[Reason::Tara] },
        98 => DeinflectRule { from: "かったり", to: "い", from_type: 128, to_type: 4, reasons: &[Reason::Tari] },
        99 => DeinflectRule { from: "ければ", to: "い", from_type: 128, to_type: 4, reasons: &[Reason::Ba] },
        100 => DeinflectRule { from: "くて", to: "い", from_type: 128, to_type: 4, reasons: &[Reason::Te] },
        101 => DeinflectRule { from: "く", to: "い", from_type: 128, to_type: 4, reasons: &[Reason::Adv] },
        102 => DeinflectRule { from: "さ", to: "い", from_type: 128, to_type: 4, reasons: &[Reason::Noun] },
        103 => DeinflectRule { from: "き", to: "い", from_type: 128, to_type: 4, reasons: &[Reason::Ki] },
        104 => DeinflectRule { from: "かろう", to: "い", from_type: 128, to_type: 4, reasons: &[Reason::Volitional] },
        105 => DeinflectRule { from: "くなかった", to: "い", from_type: 128, to_type: 4, reasons: &[Reason::Negative, Reason::Past] },
        106 => DeinflectRule { from: "くありません", to: "い", from_type: 128, to_type: 4, reasons: &[Reason::PoliteNegative] },
        107 => DeinflectRule { from: "よう", to: "る", from_type: 128, to_type: 9, reasons: &[Reason::Volitional] },
        108 => DeinflectRule { from: "おう", to: "う", from_type: 128, to_type: 2, reasons: &[Reason::Volitional] },
        109 => DeinflectRule { from: "こう", to: "く", from_type: 128, to_type: 2, reasons: &[Reason::Volitional] },
        110 => DeinflectRule { from: "ごう", to: "ぐ", from_type: 128, to_type: 2, reasons: &[Reason::Volitional] },
        111 => DeinflectRule { from: "そう", to: "す", from_type: 128, to_type: 2, reasons: &[Reason::Volitional] },
        112 => DeinflectRule { from: "とう", to: "つ", from_type: 128, to_type: 2, reasons: &[Reason::Volitional] },
        113 => DeinflectRule { from: "のう", to: "ぬ", from_type: 128, to_type: 2, reasons: &[Reason::Volitional] },
        114 => DeinflectRule { from: "ぼう", to: "ぶ", from_type: 128, to_type: 2, reasons: &[Reason::Volitional] },
        115 => DeinflectRule { from: "もう", to: "む", from_type: 128, to_type: 2, reasons: &[Reason::Volitional] },
        116 => DeinflectRule { from: "ろう", to: "る", from_type: 128, to_type: 2, reasons: &[Reason::Volitional] },
        117 => DeinflectRule { from: "しよう", to: "する", from_type: 128, to_type: 16, reasons: &[Reason::Volitional] },
        118 => DeinflectRule { from: "こよう", to: "くる", from_type: 128, to_type: 8, reasons: &[Reason::Volitional] },
        119 => DeinflectRule { from: "られる", to: "", from_type: 1, to_type: 2048, reasons: &[Reason::PotentialOrPassive] },
        120 => DeinflectRule { from: "れる", to: "", from_type: 1, to_type: 2048, reasons: &[Reason::Passive] },
        121 => DeinflectRule { from: "れる", to: "る", from_type: 1, to_type: 1, reasons: &[Reason::Potential] },
        122 => DeinflectRule { from: "える", to: "う", from_type: 1, to_type: 2, reasons: &[Reason::Potential] },
        123 => DeinflectRule { from: "ける", to: "く", from_type: 1, to_type: 2, reasons: &[Reason::Potential] },
        124 => DeinflectRule { from: "げる", to: "ぐ", from_type: 1, to_type: 2, reasons: &[Reason::Potential] },
        125 => DeinflectRule { from: "せる", to: "す", from_type: 1, to_type: 2, reasons: &[Reason::Potential] },
        126 => DeinflectRule { from: "てる", to: "つ", from_type: 1, to_type: 2, reasons: &[Reason::Potential] },
        127 => DeinflectRule { from: "ねる", to: "ぬ", from_type: 1, to_type: 2, reasons: &[Reason::Potential] },
        128 => DeinflectRule { from: "べる", to: "ぶ", from_type: 1, to_type: 2, reasons: &[Reason::Potential] },
        129 => DeinflectRule { from: "める", to: "む", from_type: 1, to_type: 2, reasons: &[Reason::Potential] },
        130 => DeinflectRule { from: "れる", to: "る", from_type: 1, to_type: 2, reasons: &[Reason::Potential] },
        131 => DeinflectRule { from: "される", to: "する", from_type: 1, to_type: 16, reasons: &[Reason::Passive] },
        132 => DeinflectRule { from: "できる", to: "する", from_type: 1, to_type: 16, reasons: &[Reason::Potential] },
        133 => DeinflectRule { from: "こられる", to: "くる", from_type: 1, to_type: 8, reasons: &[Reason::PotentialOrPassive] },
        134 => DeinflectRule { from: "これる", to: "くる", from_type: 1, to_type: 8, reasons: &[Reason::Potential] },
        135 => DeinflectRule { from: "せる", to: "", from_type: 1, to_type: 2048, reasons: &[Reason::Causative] },
        136 => DeinflectRule { from: "させる", to: "", from_type: 1, to_type: 2048, reasons: &[Reason::Causative] },
        137 => DeinflectRule { from: "させる", to: "る", from_type: 1, to_type: 9, reasons: &[Reason::Causative] },
        138 => DeinflectRule { from: "させる", to: "する", from_type: 1, to_type: 16, reasons: &[Reason::Causative] },
        139 => DeinflectRule { from: "こさせる", to: "くる", from_type: 1, to_type: 8, reasons: &[Reason::Causative] },
        140 => DeinflectRule { from: "さす", to: "る", from_type: 2, to_type: 9, reasons: &[Reason::Causative] },
        141 => DeinflectRule { from: "させられる", to: "る", from_type: 1, to_type: 9, reasons: &[Reason::CausativePassive] },
        142 => DeinflectRule { from: "される", to: "", from_type: 1, to_type: 2048, reasons: &[Reason::CausativePassive] },
        143 => DeinflectRule { from: "うる", to: "る", from_type: 128, to_type: 9, reasons: &[Reason::EruUru] },
        144 => DeinflectRule { from: "える", to: "る", from_type: 128, to_type: 9, reasons: &[Reason::EruUru] },
        145 => DeinflectRule { from: "ろ", to: "る", from_type: 128, to_type: 1, reasons: &[Reason::Imperative] },
        146 => DeinflectRule { from: "よ", to: "る", from_type: 128, to_type: 1, reasons: &[Reason::Imperative] },
        147 => DeinflectRule { from: "え", to: "う", from_type: 128, to_type: 2, reasons: &[Reason::Imperative] },
        148 => DeinflectRule { from: "け", to: "く", from_type: 128, to_type: 2, reasons: &[Reason::Imperative] },
        149 => DeinflectRule { from: "げ", to: "ぐ", from_type: 128, to_type: 2, reasons: &[Reason::Imperative] },
        150 => DeinflectRule { from: "せ", to: "す", from_type: 128, to_type: 2, reasons: &[Reason::Imperative] },
        151 => DeinflectRule { from: "て", to: "つ", from_type: 128, to_type: 2, reasons: &[Reason::Imperative] },
        152 => DeinflectRule { from: "ね", to: "ぬ", from_type: 128, to_type: 2, reasons: &[Reason::Imperative] },
        153 => DeinflectRule { from: "べ", to: "ぶ", from_type: 128, to_type: 2, reasons: &[Reason::Imperative] },
        154 => DeinflectRule { from: "め", to: "む", from_type: 128, to_type: 2, reasons: &[Reason::Imperative] },
        155 => DeinflectRule { from: "れ", to: "る", from_type: 128, to_type: 2, reasons: &[Reason::Imperative] },
        156 => DeinflectRule { from: "しろ", to: "する", from_type: 128, to_type: 16, reasons: &[Reason::Imperative] },
        157 => DeinflectRule { from: "せよ", to: "する", from_type: 128, to_type: 16, reasons: &[Reason::Imperative] },
        158 => DeinflectRule { from: "こい", to: "くる", from_type: 128, to_type: 8, reasons: &[Reason::Imperative] },
        159 => DeinflectRule { from: "るな", to: "る", from_type: 128, to_type: 27, reasons: &[Reason::ImperativeNegative] },
        160 => DeinflectRule { from: "うな", to: "う", from_type: 128, to_type: 2, reasons: &[Reason::ImperativeNegative] },
        161 => DeinflectRule { from: "くな", to: "く", from_type: 128, to_type: 2, reasons: &[Reason::ImperativeNegative] },
        162 => DeinflectRule { from: "ぐな", to: "ぐ", from_type: 128, to_type: 2, reasons: &[Reason::ImperativeNegative] },
        163 => DeinflectRule { from: "すな", to: "す", from_type: 128, to_type: 2, reasons: &[Reason::ImperativeNegative] },
        164 => DeinflectRule { from: "つな", to: "つ", from_type: 128, to_type: 2, reasons: &[Reason::ImperativeNegative] },
        165 => DeinflectRule { from: "ぬな", to: "ぬ", from_type: 128, to_type: 2, reasons: &[Reason::ImperativeNegative] },
        166 => DeinflectRule { from: "ぶな", to: "ぶ", from_type: 128, to_type: 2, reasons: &[Reason::ImperativeNegative] },
        167 => DeinflectRule { from: "むな", to: "む", from_type: 128, to_type: 2, reasons: &[Reason::ImperativeNegative] },
        168 => DeinflectRule { from: "れば", to: "る", from_type: 128, to_type: 9, reasons: &[Reason::Ba] },
        169 => DeinflectRule { from: "えば", to: "う", from_type: 128, to_type: 2, reasons: &[Reason::Ba] },
        170 => DeinflectRule { from: "けば", to: "く", from_type: 128, to_type: 2, reasons: &[Reason::Ba] },
        171 => DeinflectRule { from: "げば", to: "ぐ", from_type: 128, to_type: 2, reasons: &[Reason::Ba] },
        172 => DeinflectRule { from: "せば", to: "す", from_type: 128, to_type: 2, reasons: &[Reason::Ba] },
        173 => DeinflectRule { from: "てば", to: "つ", from_type: 128, to_type: 2, reasons: &[Reason::Ba] },
        174 => DeinflectRule { from: "ねば", to: "ぬ", from_type: 128, to_type: 2, reasons: &[Reason::Ba] },
        175 => DeinflectRule { from: "べば", to: "ぶ", from_type: 128, to_type: 2, reasons: &[Reason::Ba] },
        176 => DeinflectRule { from: "めば", to: "む", from_type: 128, to_type: 2, reasons: &[Reason::Ba] },
        177 => DeinflectRule { from: "れば", to: "る", from_type: 128, to_type: 2, reasons: &[Reason::Ba] },
        178 => DeinflectRule { from: "すれば", to: "する", from_type: 128, to_type: 16, reasons: &[Reason::Ba] },
        179 => DeinflectRule { from: "くれば", to: "くる", from_type: 128, to_type: 8, reasons: &[Reason::Ba] },
        180 => DeinflectRule { from: "する", to: "", from_type: 16, to_type: 64, reasons: &[Reason::SuruNoun] },
        181 => DeinflectRule { from: "ずる", to: "じる", from_type: 128, to_type: 1, reasons: &[Reason::Irregular] },
        182 => DeinflectRule { from: "いらっしゃる", to: "", from_type: 2, to_type: 1024, reasons: &[Reason::Respectful] },
        183 => DeinflectRule { from: "になる", to: "", from_type: 2, to_type: 1024, reasons: &[Reason::Respectful] },
        184 => DeinflectRule { from: "いたす", to: "する", from_type: 2, to_type: 16, reasons: &[Reason::Humble] },
        185 => DeinflectRule { from: "なさる", to: "する", from_type: 2, to_type: 16, reasons: &[Reason::Respectful] },
        _ => DeinflectRule { from: "おる", to: "いる", from_type: 2, to_type: 1, reasons: &[Reason::HumbleOrKansaiDialect] },
    }
}

/// All rules of the table, in table order.
pub fn deinflect_rules() -> (rules: Vec<DeinflectRule>)
    ensures
        rules@ == rule_table(),
{
    let mut rules: Vec<DeinflectRule> = Vec::new();
    let mut i: usize = 0;
    while i < RULE_COUNT
        invariant
            i <= RULE_COUNT,
            rules@ == rule_table().take(i as int),
        decreases RULE_COUNT - i,
    {
        rules.push(rule(i));
        proof {
            assert(rule_table().take(i as int + 1) =~= rule_table().take(i as int).push(spec_rule(i)));
        }
        i = i + 1;
    }
    proof {
        assert(rule_table().take(RULE_COUNT as int) =~= rule_table());
    }
    rules
}

/// The reasons recorded for removing an inflected ending, for each ending
/// whose removal always records the same reasons: ました is the polite past,
/// ます the polite form, ません the polite negative, ない the negative,
/// かった the past, ている the continuous, ければ the conditional, and so on
/// (none for the stem endings such as っ and ん). Endings whose reasons depend
/// on the word type (such as た, て, れる) are not listed.
pub open spec fn reasons_for_ending(e: Seq<char>) -> Option<Seq<Reason>> {
    if e.len() == 6 && e[0] == 'ま' && e[1] == 'せ' && e[2] == 'ん' && e[3] == 'で' && e[4] == 'し' && e[5] == 'た' {
        Some(seq![Reason::PolitePastNegative])
    } else if e.len() == 4 && e[0] == 'ま' && e[1] == 'し' && e[2] == 'ょ' && e[3] == 'う' {
        Some(seq![Reason::PoliteVolitional])
    } else if e.len() == 4 && e[0] == 'ま' && e[1] == 'せ' && e[2] == 'ん' && e[3] == 'で' {
        Some(seq![Reason::PoliteNegative, Reason::Te])
    } else if e.len() == 3 && e[0] == 'ま' && e[1] == 'し' && e[2] == 'た' {
        Some(seq![Reason::PolitePast])
    } else if e.len() == 4 && e[0] == 'ま' && e[1] == 'し' && e[2] == 'た' && e[3] == 'ら' {
        Some(seq![Reason::PolitePast, Reason::Tara])
    } else if e.len() == 4 && e[0] == 'ま' && e[1] == 'し' && e[2] == 'た' && e[3] == 'り' {
        Some(seq![Reason::PolitePast, Reason::Tari])
    } else if e.len() == 3 && e[0] == 'ま' && e[1] == 'し' && e[2] == 'て' {
        Some(seq![Reason::Polite, Reason::Te])
    } else if e.len() == 3 && e[0] == 'ま' && e[1] == 'せ' && e[2] == 'ん' {
        Some(seq![Reason::PoliteNegative])
    } else if e.len() == 4 && e[0] == 'ま' && e[1] == 'す' && e[2] == 'れ' && e[3] == 'ば' {
        Some(seq![Reason::Polite, Reason::Ba])
    } else if e.len() == 2 && e[0] == 'ま' && e[1] == 'せ' {
        Some(seq![Reason::Polite, Reason::Imperative])
    } else if e.len() == 2 && e[0] == 'ま' && e[1] == 'す' {
        Some(seq![Reason::Polite])
    } else if e.len() == 3 && e[0] == 'な' && e[1] == 'さ' && e[2] == 'い' {
        Some(seq![Reason::Respectful, Reason::Imperative])
    } else if e.len() == 3 && e[0] == 'な' && e[1] == 'さ' && e[2] == 'る' {
        Some(seq![Reason::Respectful])
    } else if e.len() == 2 && e[0] == 'た' && e[1] == 'い' {
        Some(seq![Reason::Tai])
    } else if e.len() == 3 && e[0] == 'た' && e[1] == 'が' && e[2] == 'る' {
        Some(seq![Reason::Tai])
    } else if e.len() == 3 && e[0] == 'す' && e[1] == 'ぎ' && e[2] == 'る' {
        Some(seq![Reason::Sugiru])
    } else if e.len() == 1 && e[0] == 'ぎ' {
        Some(seq![Reason::MasuStem])
    } else if e.len() == 1 && e[0] == 'ち' {
        Some(seq![Reason::MasuStem])
    } else if e.len() == 1 && e[0] == 'に' {
        Some(seq![Reason::MasuStem])
    } else if e.len() == 1 && e[0] == 'び' {
        Some(seq![Reason::MasuStem])
    } else if e.len() == 1 && e[0] == 'み' {
        Some(seq![Reason::MasuStem])
    } else if e.len() == 1 && e[0] == 'り' {
        Some(seq![Reason::MasuStem])
    } else if e.len() == 1 && e[0] == 'だ' {
        Some(seq![Reason::Past])
    } else if e.len() == 1 && e[0] == 'で' {
        Some(seq![Reason::Te])
    } else if e.len() == 2 && e[0] == 'た' && e[1] == 'ら' {
        Some(seq![Reason::Tara])
    } else if e.len() == 2 && e[0] == 'だ' && e[1] == 'ら' {
        Some(seq![Reason::Tara])
    } else if e.len() == 2 && e[0] == 'た' && e[1] == 'り' {
        Some(seq![Reason::Tari])
    } else if e.len() == 2 && e[0] == 'だ' && e[1] == 'り' {
        Some(seq![Reason::Tari])
    } else if e.len() == 3 && e[0] == 'ち' && e[1] == 'ゃ' && e[2] == 'う' {
        Some(seq![Reason::Chau])
    } else if e.len() == 3 && e[0] == 'じ' && e[1] == 'ゃ' && e[2] == 'う' {
        Some(seq![Reason::Chau])
    } else if e.len() == 3 && e[0] == 'ち' && e[1] == 'ま' && e[2] == 'う' {
        Some(seq![Reason::Chau])
    } else if e.len() == 3 && e[0] == 'じ' && e[1] == 'ま' && e[2] == 'う' {
        Some(seq![Reason::Chau])
    } else if e.len() == 2 && e[0] == 'と' && e[1] == 'く' {
        Some(seq![Reason::Toku])
    } else if e.len() == 2 && e[0] == 'ど' && e[1] == 'く' {
        Some(seq![Reason::Toku])
    } else if e.len() == 3 && e[0] == 'て' && e[1] == 'い' && e[2] == 'る' {
        Some(seq![Reason::Continuous])
    } else if e.len() == 3 && e[0] == 'で' && e[1] == 'い' && e[2] == 'る' {
        Some(seq![Reason::Continuous])
    } else if e.len() == 2 && e[0] == 'で' && e[1] == 'る' {
        Some(seq![Reason::Continuous])
    } else if e.len() == 3 && e[0] == 'て' && e[1] == 'お' && e[2] == 'る' {
        Some(seq![Reason::Continuous, Reason::Humble])
    } else if e.len() == 2 && e[0] == 'と' && e[1] == 'る' {
        Some(seq![Reason::Continuous, Reason::HumbleOrKansaiDialect])
    } else if e.len() == 3 && e[0] == 'で' && e[1] == 'お' && e[2] == 'る' {
        Some(seq![Reason::Continuous, Reason::Humble])
    } else if e.len() == 2 && e[0] == 'ど' && e[1] == 'る' {
        Some(seq![Reason::Continuous, Reason::HumbleOrKansaiDialect])
    } else if e.len() == 7 && e[0] == 'て' && e[1] == 'い' && e[2] == 'ら' && e[3] == 'っ' && e[4] == 'し' && e[5] == 'ゃ' && e[6] == 'る' {
        Some(seq![Reason::Continuous, Reason::Respectful])
    } else if e.len() == 7 && e[0] == 'で' && e[1] == 'い' && e[2] == 'ら' && e[3] == 'っ' && e[4] == 'し' && e[5] == 'ゃ' && e[6] == 'る' {
        Some(seq![Reason::Continuous, Reason::Respectful])
    } else if e.len() == 1 && e[0] == 'っ' {
        Some(Seq::empty())
    } else if e.len() == 2 && e[0] == '行' && e[1] == 'っ' {
        Some(seq![Reason::Irregular])
    } else if e.len() == 2 && e[0] == 'い' && e[1] == 'っ' {
        Some(seq![Reason::Irregular])
    } else if e.len() == 2 && e[0] == '逝' && e[1] == 'っ' {
        Some(seq![Reason::Irregular])
    } else if e.len() == 2 && e[0] == '往' && e[1] == 'っ' {
        Some(seq![Reason::Irregular])
    } else if e.len() == 2 && e[0] == '問' && e[1] == 'う' {
        Some(Seq::empty())
    } else if e.len() == 2 && e[0] == '請' && e[1] == 'う' {
        Some(Seq::empty())
    } else if e.len() == 1 && e[0] == 'ん' {
        Some(Seq::empty())
    } else if e.len() == 1 && e[0] == '来' {
        Some(Seq::empty())
    } else if e.len() == 1 && e[0] == 'じ' {
        Some(Seq::empty())
    } else if e.len() == 2 && e[0] == 'な' && e[1] == 'い' {
        Some(seq![Reason::Negative])
    } else if e.len() == 1 && e[0] == 'ず' {
        Some(seq![Reason::Zu])
    } else if e.len() == 2 && e[0] == 'ず' && e[1] == 'に' {
        Some(seq![Reason::Zu])
    } else if e.len() == 1 && e[0] == 'ぬ' {
        Some(seq![Reason::Negative])
    } else if e.len() == 3 && e[0] == 'な' && e[1] == 'い' && e[2] == 'で' {
        Some(seq![Reason::NegativeTe])
    } else if e.len() == 6 && e[0] == 'ざ' && e[1] == 'る' && e[2] == 'を' && e[3] == '得' && e[4] == 'な' && e[5] == 'い' {
        Some(seq![Reason::ZaruWoEnai])
    } else if e.len() == 6 && e[0] == 'ざ' && e[1] == 'る' && e[2] == 'を' && e[3] == 'え' && e[4] == 'な' && e[5] == 'い' {
        Some(seq![Reason::ZaruWoEnai])
    } else if e.len() == 1 && e[0] == 'わ' {
        Some(Seq::empty())
    } else if e.len() == 1 && e[0] == 'か' {
        Some(Seq::empty())
    } else if e.len() == 1 && e[0] == 'が' {
        Some(Seq::empty())
    } else if e.len() == 1 && e[0] == 'な' {
        Some(Seq::empty())
    } else if e.len() == 1 && e[0] == 'ば' {
        Some(Seq::empty())
    } else if e.len() == 1 && e[0] == 'ま' {
        Some(Seq::empty())
    } else if e.len() == 1 && e[0] == 'ら' {
        Some(Seq::empty())
    } else if e.len() == 1 && e[0] == 'こ' {
        Some(Seq::empty())
    } else if e.len() == 3 && e[0] == 'く' && e[1] == 'な' && e[2] == 'い' {
        Some(seq![Reason::Negative])
    } else if e.len() == 3 && e[0] == 'か' && e[1] == 'っ' && e[2] == 'た' {
        Some(seq![Reason::Past])
    } else if e.len() == 4 && e[0] == 'か' && e[1] == 'っ' && e[2] == 'た' && e[3] == 'ら' {
        Some(seq![Reason::Tara])
    } else if e.len() == 4 && e[0] == 'か' && e[1] == 'っ' && e[2] == 'た' && e[3] == 'り' {
        Some(seq![Reason::Tari])
    } else if e.len() == 3 && e[0] == 'け' && e[1] == 'れ' && e[2] == 'ば' {
        Some(seq![Reason::Ba])
    } else if e.len() == 2 && e[0] == 'く' && e[1] == 'て' {
        Some(seq![Reason::Te])
    } else if e.len() == 1 && e[0] == 'く' {
        Some(seq![Reason::Adv])
    } else if e.len() == 3 && e[0] == 'か' && e[1] == 'ろ' && e[2] == 'う' {
        Some(seq![Reason::Volitional])
    } else if e.len() == 5 && e[0] == 'く' && e[1] == 'な' && e[2] == 'か' && e[3] == 'っ' && e[4] == 'た' {
        Some(seq![Reason::Negative, Reason::Past])
    } else if e.len() == 6 && e[0] == 'く' && e[1] == 'あ' && e[2] == 'り' && e[3] == 'ま' && e[4] == 'せ' && e[5] == 'ん' {
        Some(seq![Reason::PoliteNegative])
    } else if e.len() == 2 && e[0] == 'よ' && e[1] == 'う' {
        Some(seq![Reason::Volitional])
    } else if e.len() == 2 && e[0] == 'お' && e[1] == 'う' {
        Some(seq![Reason::Volitional])
    } else if e.len() == 2 && e[0] == 'ご' && e[1] == 'う' {
        Some(seq![Reason::Volitional])
    } else if e.len() == 2 && e[0] == 'と' && e[1] == 'う' {
        Some(seq![Reason::Volitional])
    } else if e.len() == 2 && e[0] == 'の' && e[1] == 'う' {
        Some(seq![Reason::Volitional])
    } else if e.len() == 2 && e[0] == 'ぼ' && e[1] == 'う' {
        Some(seq![Reason::Volitional])
    } else if e.len() == 2 && e[0] == 'も' && e[1] == 'う' {
        Some(seq![Reason::Volitional])
    } else if e.len() == 2 && e[0] == 'ろ' && e[1] == 'う' {
        Some(seq![Reason::Volitional])
    } else if e.len() == 3 && e[0] == 'し' && e[1] == 'よ' && e[2] == 'う' {
        Some(seq![Reason::Volitional])
    } else if e.len() == 3 && e[0] == 'こ' && e[1] == 'よ' && e[2] == 'う' {
        Some(seq![Reason::Volitional])
    } else if e.len() == 3 && e[0] == 'ら' && e[1] == 'れ' && e[2] == 'る' {
        Some(seq![Reason::PotentialOrPassive])
    } else if e.len() == 2 && e[0] == 'け' && e[1] == 'る' {
        Some(seq![Reason::Potential])
    } else if e.len() == 2 && e[0] == 'げ' && e[1] == 'る' {
        Some(seq![Reason::Potential])
    } else if e.len() == 2 && e[0] == 'ね' && e[1] == 'る' {
        Some(seq![Reason::Potential])
    } else if e.len() == 2 && e[0] == 'べ' && e[1] == 'る' {
        Some(seq![Reason::Potential])
    } else if e.len() == 2 && e[0] == 'め' && e[1] == 'る' {
        Some(seq![Reason::Potential])
    } else if e.len() == 3 && e[0] == 'で' && e[1] == 'き' && e[2] == 'る' {
        Some(seq![Reason::Potential])
    } else if e.len() == 4 && e[0] == 'こ' && e[1] == 'ら' && e[2] == 'れ' && e[3] == 'る' {
        Some(seq![Reason::PotentialOrPassive])
    } else if e.len() == 3 && e[0] == 'こ' && e[1] == 'れ' && e[2] == 'る' {
        Some(seq![Reason::Potential])
    } else if e.len() == 3 && e[0] == 'さ' && e[1] == 'せ' && e[2] == 'る' {
        Some(seq![Reason::Causative])
    } else if e.len() == 4 && e[0] == 'こ' && e[1] == 'さ' && e[2] == 'せ' && e[3] == 'る' {
        Some(seq![Reason::Causative])
    } else if e.len() == 2 && e[0] == 'さ' && e[1] == 'す' {
        Some(seq![Reason::Causative])
    } else if e.len() == 5 && e[0] == 'さ' && e[1] == 'せ' && e[2] == 'ら' && e[3] == 'れ' && e[4] == 'る' {
        Some(seq![Reason::CausativePassive])
    } else if e.len() == 2 && e[0] == 'う' && e[1] == 'る' {
        Some(seq![Reason::EruUru])
    } else if e.len() == 1 && e[0] == 'ろ' {
        Some(seq![Reason::Imperative])
    } else if e.len() == 1 && e[0] == 'よ' {
        Some(seq![Reason::Imperative])
    } else if e.len() == 1 && e[0] == 'え' {
        Some(seq![Reason::Imperative])
    } else if e.len() == 1 && e[0] == 'け' {
        Some(seq![Reason::Imperative])
    } else if e.len() == 1 && e[0] == 'げ' {
        Some(seq![Reason::Imperative])
    } else if e.len() == 1 && e[0] == 'ね' {
        Some(seq![Reason::Imperative])
    } else if e.len() == 1 && e[0] == 'べ' {
        Some(seq![Reason::Imperative])
    } else if e.len() == 1 && e[0] == 'め' {
        Some(seq![Reason::Imperative])
    } else if e.len() == 1 && e[0] == 'れ' {
        Some(seq![Reason::Imperative])
    } else if e.len() == 2 && e[0] == 'し' && e[1] == 'ろ' {
        Some(seq![Reason::Imperative])
    } else if e.len() == 2 && e[0] == 'せ' && e[1] == 'よ' {
        Some(seq![Reason::Imperative])
    } else if e.len() == 2 && e[0] == 'こ' && e[1] == 'い' {
        Some(seq![Reason::Imperative])
    } else if e.len() == 2 && e[0] == 'る' && e[1] == 'な' {
        Some(seq![Reason::ImperativeNegative])
    } else if e.len() == 2 && e[0] == 'う' && e[1] == 'な' {
        Some(seq![Reason::ImperativeNegative])
    } else if e.len() == 2 && e[0] == 'く' && e[1] == 'な' {
        Some(seq![Reason::ImperativeNegative])
    } else if e.len() == 2 && e[0] == 'ぐ' && e[1] == 'な' {
        Some(seq![Reason::ImperativeNegative])
    } else if e.len() == 2 && e[0] == 'す' && e[1] == 'な' {
        Some(seq![Reason::ImperativeNegative])
    } else if e.len() == 2 && e[0] == 'つ' && e[1] == 'な' {
        Some(seq![Reason::ImperativeNegative])
    } else if e.len() == 2 && e[0] == 'ぬ' && e[1] == 'な' {
        Some(seq![Reason::ImperativeNegative])
    } else if e.len() == 2 && e[0] == 'ぶ' && e[1] == 'な' {
        Some(seq![Reason::ImperativeNegative])
    } else if e.len() == 2 && e[0] == 'む' && e[1] == 'な' {
        Some(seq![Reason::ImperativeNegative])
    } else if e.len() == 2 && e[0] == 'れ' && e[1] == 'ば' {
        Some(seq![Reason::Ba])
    } else if e.len() == 2 && e[0] == 'え' && e[1] == 'ば' {
        Some(seq![Reason::Ba])
    } else if e.len() == 2 && e[0] == 'け' && e[1] == 'ば' {
        Some(seq![Reason::Ba])
    } else if e.len() == 2 && e[0] == 'げ' && e[1] == 'ば' {
        Some(seq![Reason::Ba])
    } else if e.len() == 2 && e[0] == 'せ' && e[1] == 'ば' {
        Some(seq![Reason::Ba])
    } else if e.len() == 2 && e[0] == 'て' && e[1] == 'ば' {
        Some(seq![Reason::Ba])
    } else if e.len() == 2 && e[0] == 'べ' && e[1] == 'ば' {
        Some(seq![Reason::Ba])
    } else if e.len() == 2 && e[0] == 'め' && e[1] == 'ば' {
        Some(seq![Reason::Ba])
    } else if e.len() == 3 && e[0] == 'す' && e[1] == 'れ' && e[2] == 'ば' {
        Some(seq![Reason::Ba])
    } else if e.len() == 3 && e[0] == 'く' && e[1] == 'れ' && e[2] == 'ば' {
        Some(seq![Reason::Ba])
    } else if e.len() == 2 && e[0] == 'す' && e[1] == 'る' {
        Some(seq![Reason::SuruNoun])
    } else if e.len() == 2 && e[0] == 'ず' && e[1] == 'る' {
        Some(seq![Reason::Irregular])
    } else if e.len() == 6 && e[0] == 'い' && e[1] == 'ら' && e[2] == 'っ' && e[3] == 'し' && e[4] == 'ゃ' && e[5] == 'る' {
        Some(seq![Reason::Respectful])
    } else if e.len() == 3 && e[0] == 'に' && e[1] == 'な' && e[2] == 'る' {
        Some(seq![Reason::Respectful])
    } else if e.len() == 3 && e[0] == 'い' && e[1] == 'た' && e[2] == 'す' {
        Some(seq![Reason::Humble])
    } else if e.len() == 2 && e[0] == 'お' && e[1] == 'る' {
        Some(seq![Reason::HumbleOrKansaiDialect])
    } else {
        None
    }
}

/// Every rule that removes one of the endings listed in
/// `reasons_for_ending` records exactly the reasons listed there: removing
/// ました always records the polite past, removing ます the polite form, and
/// so on.
pub proof fn lemma_rule_reasons_by_ending(k: usize)
    requires
        k < RULE_COUNT,
    ensures
        reasons_for_ending(spec_rule(k).from@) matches Some(rs) ==> spec_rule(k).reasons@ == rs,
{
    if k == 0 {
        reveal_strlit("ませんでした");
    } else if k == 1 {
        reveal_strlit("ましょう");
    } else if k == 2 {
        reveal_strlit("ませんで");
    } else if k == 3 {
        reveal_strlit("ました");
    } else if k == 4 {
        reveal_strlit("ましたら");
    } else if k == 5 {
        reveal_strlit("ましたり");
    } else if k == 6 {
        reveal_strlit("まして");
    } else if k == 7 {
        reveal_strlit("ません");
    } else if k == 8 {
        reveal_strlit("ますれば");
    } else if k == 9 {
        reveal_strlit("ませ");
    } else if k == 10 {
        reveal_strlit("ます");
    } else if k == 11 {
        reveal_strlit("なさい");
    } else if k == 12 {
        reveal_strlit("なさる");
    } else if k == 13 {
        reveal_strlit("たい");
    } else if k == 14 {
        reveal_strlit("たがる");
    } else if k == 15 {
        reveal_strlit("すぎる");
    } else if k == 16 {
        reveal_strlit("すぎる");
    } else if k == 17 {
        reveal_strlit("そう");
    } else if k == 18 {
        reveal_strlit("そう");
    } else if k == 19 {
        reveal_strlit("そう");
    } else if k == 20 {
        reveal_strlit("い");
    } else if k == 21 {
        reveal_strlit("き");
    } else if k == 22 {
        reveal_strlit("ぎ");
    } else if k == 23 {
        reveal_strlit("し");
    } else if k == 24 {
        reveal_strlit("ち");
    } else if k == 25 {
        reveal_strlit("に");
    } else if k == 26 {
        reveal_strlit("び");
    } else if k == 27 {
        reveal_strlit("み");
    } else if k == 28 {
        reveal_strlit("り");
    } else if k == 29 {
        reveal_strlit("き");
    } else if k == 30 {
        reveal_strlit("し");
    } else if k == 31 {
        reveal_strlit("た");
    } else if k == 32 {
        reveal_strlit("だ");
    } else if k == 33 {
        reveal_strlit("て");
    } else if k == 34 {
        reveal_strlit("で");
    } else if k == 35 {
        reveal_strlit("たら");
    } else if k == 36 {
        reveal_strlit("だら");
    } else if k == 37 {
        reveal_strlit("たり");
    } else if k == 38 {
        reveal_strlit("だり");
    } else if k == 39 {
        reveal_strlit("ちゃう");
    } else if k == 40 {
        reveal_strlit("じゃう");
    } else if k == 41 {
        reveal_strlit("ちまう");
    } else if k == 42 {
        reveal_strlit("じまう");
    } else if k == 43 {
        reveal_strlit("とく");
    } else if k == 44 {
        reveal_strlit("どく");
    } else if k == 45 {
        reveal_strlit("ている");
    } else if k == 46 {
        reveal_strlit("てる");
    } else if k == 47 {
        reveal_strlit("でいる");
    } else if k == 48 {
        reveal_strlit("でる");
    } else if k == 49 {
        reveal_strlit("ておる");
    } else if k == 50 {
        reveal_strlit("とる");
    } else if k == 51 {
        reveal_strlit("でおる");
    } else if k == 52 {
        reveal_strlit("どる");
    } else if k == 53 {
        reveal_strlit("ていらっしゃる");
    } else if k == 54 {
        reveal_strlit("でいらっしゃる");
    } else if k == 55 {
        reveal_strlit("っ");
    } else if k == 56 {
        reveal_strlit("っ");
    } else if k == 57 {
        reveal_strlit("っ");
    } else if k == 58 {
        reveal_strlit("い");
    } else if k == 59 {
        reveal_strlit("し");
    } else if k == 60 {
        reveal_strlit("行っ");
    } else if k == 61 {
        reveal_strlit("いっ");
    } else if k == 62 {
        reveal_strlit("逝っ");
    } else if k == 63 {
        reveal_strlit("往っ");
    } else if k == 64 {
        reveal_strlit("こう");
    } else if k == 65 {
        reveal_strlit("問う");
    } else if k == 66 {
        reveal_strlit("請う");
    } else if k == 67 {
        reveal_strlit("ん");
    } else if k == 68 {
        reveal_strlit("ん");
    } else if k == 69 {
        reveal_strlit("ん");
    } else if k == 70 {
        reveal_strlit("い");
    } else if k == 71 {
        reveal_strlit("し");
    } else if k == 72 {
        reveal_strlit("き");
    } else if k == 73 {
        reveal_strlit("来");
    } else if k == 74 {
        reveal_strlit("じ");
    } else if k == 75 {
        reveal_strlit("ない");
    } else if k == 76 {
        reveal_strlit("ず");
    } else if k == 77 {
        reveal_strlit("ずに");
    } else if k == 78 {
        reveal_strlit("ぬ");
    } else if k == 79 {
        reveal_strlit("ないで");
    } else if k == 80 {
        reveal_strlit("ざるを得ない");
    } else if k == 81 {
        reveal_strlit("ざるをえない");
    } else if k == 82 {
        reveal_strlit("ねば");
    } else if k == 83 {
        reveal_strlit("わ");
    } else if k == 84 {
        reveal_strlit("か");
    } else if k == 85 {
        reveal_strlit("が");
    } else if k == 86 {
        reveal_strlit("さ");
    } else if k == 87 {
        reveal_strlit("た");
    } else if k == 88 {
        reveal_strlit("な");
    } else if k == 89 {
        reveal_strlit("ば");
    } else if k == 90 {
        reveal_strlit("ま");
    } else if k == 91 {
        reveal_strlit("ら");
    } else if k == 92 {
        reveal_strlit("さ");
    } else if k == 93 {
        reveal_strlit("せ");
    } else if k == 94 {
        reveal_strlit("こ");
    } else if k == 95 {
        reveal_strlit("くない");
    } else if k == 96 {
        reveal_strlit("かった");
    } else if k == 97 {
        reveal_strlit("かったら");
    } else if k == 98 {
        reveal_strlit("かったり");
    } else if k == 99 {
        reveal_strlit("ければ");
    } else if k == 100 {
        reveal_strlit("くて");
    } else if k == 101 {
        reveal_strlit("く");
    } else if k == 102 {
        reveal_strlit("さ");
    } else if k == 103 {
        reveal_strlit("き");
    } else if k == 104 {
        reveal_strlit("かろう");
    } else if k == 105 {
        reveal_strlit("くなかった");
    } else if k == 106 {
        reveal_strlit("くありません");
    } else if k == 107 {
        reveal_strlit("よう");
    } else if k == 108 {
        reveal_strlit("おう");
    } else if k == 109 {
        reveal_strlit("こう");
    } else if k == 110 {
        reveal_strlit("ごう");
    } else if k == 111 {
        reveal_strlit("そう");
    } else if k == 112 {
        reveal_strlit("とう");
    } else if k == 113 {
        reveal_strlit("のう");
    } else if k == 114 {
        reveal_strlit("ぼう");
    } else if k == 115 {
        reveal_strlit("もう");
    } else if k == 116 {
        reveal_strlit("ろう");
    } else if k == 117 {
        reveal_strlit("しよう");
    } else if k == 118 {
        reveal_strlit("こよう");
    } else if k == 119 {
        reveal_strlit("られる");
    } else if k == 120 {
        reveal_strlit("れる");
    } else if k == 121 {
        reveal_strlit("れる");
    } else if k == 122 {
        reveal_strlit("える");
    } else if k == 123 {
        reveal_strlit("ける");
    } else if k == 124 {
        reveal_strlit("げる");
    } else if k == 125 {
        reveal_strlit("せる");
    } else if k == 126 {
        reveal_strlit("てる");
    } else if k == 127 {
        reveal_strlit("ねる");
    } else if k == 128 {
        reveal_strlit("べる");
    } else if k == 129 {
        reveal_strlit("める");
    } else if k == 130 {
        reveal_strlit("れる");
    } else if k == 131 {
        reveal_strlit("される");
    } else if k == 132 {
        reveal_strlit("できる");
    } else if k == 133 {
        reveal_strlit("こられる");
    } else if k == 134 {
        reveal_strlit("これる");
    } else if k == 135 {
        reveal_strlit("せる");
    } else if k == 136 {
        reveal_strlit("させる");
    } else if k == 137 {
        reveal_strlit("させる");
    } else if k == 138 {
        reveal_strlit("させる");
    } else if k == 139 {
        reveal_strlit("こさせる");
    } else if k == 140 {
        reveal_strlit("さす");
    } else if k == 141 {
        reveal_strlit("させられる");
    } else if k == 142 {
        reveal_strlit("される");
    } else if k == 143 {
        reveal_strlit("うる");
    } else if k == 144 {
        reveal_strlit("える");
    } else if k == 145 {
        reveal_strlit("ろ");
    } else if k == 146 {
        reveal_strlit("よ");
    } else if k == 147 {
        reveal_strlit("え");
    } else if k == 148 {
        reveal_strlit("け");
    } else if k == 149 {
        reveal_strlit("げ");
    } else if k == 150 {
        reveal_strlit("せ");
    } else if k == 151 {
        reveal_strlit("て");
    } else if k == 152 {
        reveal_strlit("ね");
    } else if k == 153 {
        reveal_strlit("べ");
    } else if k == 154 {
        reveal_strlit("め");
    } else if k == 155 {
        reveal_strlit("れ");
    } else if k == 156 {
        reveal_strlit("しろ");
    } else if k == 157 {
        reveal_strlit("せよ");
    } else if k == 158 {
        reveal_strlit("こい");
    } else if k == 159 {
        reveal_strlit("るな");
    } else if k == 160 {
        reveal_strlit("うな");
    } else if k == 161 {
        reveal_strlit("くな");
    } else if k == 162 {
        reveal_strlit("ぐな");
    } else if k == 163 {
        reveal_strlit("すな");
    } else if k == 164 {
        reveal_strlit("つな");
    } else if k == 165 {
        reveal_strlit("ぬな");
    } else if k == 166 {
        reveal_strlit("ぶな");
    } else if k == 167 {
        reveal_strlit("むな");
    } else if k == 168 {
        reveal_strlit("れば");
    } else if k == 169 {
        reveal_strlit("えば");
    } else if k == 170 {
        reveal_strlit("けば");
    } else if k == 171 {
        reveal_strlit("げば");
    } else if k == 172 {
        reveal_strlit("せば");
    } else if k == 173 {
        reveal_strlit("てば");
    } else if k == 174 {
        reveal_strlit("ねば");
    } else if k == 175 {
        reveal_strlit("べば");
    } else if k == 176 {
        reveal_strlit("めば");
    } else if k == 177 {
        reveal_strlit("れば");
    } else if k == 178 {
        reveal_strlit("すれば");
    } else if k == 179 {
        reveal_strlit("くれば");
    } else if k == 180 {
        reveal_strlit("する");
    } else if k == 181 {
        reveal_strlit("ずる");
    } else if k == 182 {
        reveal_strlit("いらっしゃる");
    } else if k == 183 {
        reveal_strlit("になる");
    } else if k == 184 {
        reveal_strlit("いたす");
    } else if k == 185 {
        reveal_strlit("なさる");
    } else if k == 186 {
        reveal_strlit("おる");
    }
}

} // verus!
