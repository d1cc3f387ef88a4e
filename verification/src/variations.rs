//! Spelling variations tried during word search: expansion of the long
//! vowel mark ー and kyuujitai (旧字体) to shinjitai (新字体) conversion.

use vstd::prelude::*;

use crate::text::{string_from_chars, to_chars};

verus! {

/// The long vowel mark.
pub const CHOON: char = 'ー';

/// The five vowels that may stand for ー, in order.
pub open spec fn choon_vowel(k: int) -> char {
    if k == 0 {
        'あ'
    } else if k == 1 {
        'い'
    } else if k == 2 {
        'う'
    } else if k == 3 {
        'え'
    } else {
        'お'
    }
}

/// Index of the first ー in `s`, if any.
pub open spec fn first_choon(s: Seq<char>, p: int) -> bool {
    0 <= p < s.len() && s[p] == CHOON && forall|j: int| 0 <= j < p ==> s[j] != CHOON
}

/// Expand the first ー in `text` to its 5 possible vowel replacements.
/// Returns an empty vec if there is no ー.
pub fn expand_choon(text: &str) -> (res: Vec<String>)
    ensures
        (forall|j: int| 0 <= j < text@.len() ==> text@[j] != CHOON) ==> res@.len() == 0,
        forall|k: int| 0 <= k < res@.len() ==> (#[trigger] res@[k])@.len() == text@.len(),
        forall|p: int|
            first_choon(text@, p) ==> res@.len() == 5 && forall|k: int|
                0 <= k < 5 ==> (#[trigger] res@[k])@ == text@.update(p, choon_vowel(k)),
{
    let chars = to_chars(text);
    let mut pos: usize = 0;
    while pos < chars.len() && chars[pos] != CHOON
        invariant
            pos <= chars@.len(),
            chars@ == text@,
            forall|j: int| 0 <= j < pos ==> chars@[j] != CHOON,
        decreases chars@.len() - pos,
    {
        pos = pos + 1;
    }
    let mut res: Vec<String> = Vec::new();
    if pos == chars.len() {
        return res;
    }
    let vowels: [char; 5] = ['あ', 'い', 'う', 'え', 'お'];
    let mut k: usize = 0;
    while k < 5
        invariant
            k <= 5,
            pos < chars@.len(),
            chars@ == text@,
            chars@[pos as int] == CHOON,
            forall|j: int| 0 <= j < pos ==> chars@[j] != CHOON,
            vowels@ == seq!['あ', 'い', 'う', 'え', 'お'],
            res@.len() == k,
            forall|t: int| 0 <= t < k ==> (#[trigger] res@[t])@ == text@.update(pos as int, choon_vowel(t)),
        decreases 5 - k,
    {
        let mut variant = chars.clone();
        variant.set(pos, vowels[k]);
        res.push(string_from_chars(variant.as_slice()));
        k = k + 1;
    }
    proof {
        assert forall|p: int| first_choon(text@, p) implies p == pos by {
            if p < pos {
            } else if p > pos {
                assert(text@[pos as int] == CHOON);
            }
        }
    }
    res
}

/// The shinjitai form of a kyuujitai character, if it has one.
pub open spec fn spec_kyuu_map(c: char) -> Option<char> {
    if c == '舊' { Some('旧') }
    else if c == '體' { Some('体') }
    else if c == '國' { Some('国') }
    else if c == '學' { Some('学') }
    else if c == '會' { Some('会') }
    else if c == '實' { Some('実') }
    else if c == '寫' { Some('写') }
    else if c == '讀' { Some('読') }
    else if c == '賣' { Some('売') }
    else if c == '來' { Some('来') }
    else if c == '歸' { Some('帰') }
    else if c == '變' { Some('変') }
    else if c == '傳' { Some('伝') }
    else if c == '轉' { Some('転') }
    else if c == '廣' { Some('広') }
    else if c == '應' { Some('応') }
    else if c == '當' { Some('当') }
    else if c == '擔' { Some('担') }
    else if c == '戰' { Some('戦') }
    else if c == '殘' { Some('残') }
    else if c == '歲' { Some('歳') }
    else if c == '圖' { Some('図') }
    else if c == '團' { Some('団') }
    else if c == '圓' { Some('円') }
    else if c == '壓' { Some('圧') }
    else if c == '圍' { Some('囲') }
    else if c == '醫' { Some('医') }
    else if c == '鹽' { Some('塩') }
    else if c == '處' { Some('処') }
    else if c == '廳' { Some('庁') }
    else if c == '與' { Some('与') }
    else if c == '餘' { Some('余') }
    else if c == '價' { Some('価') }
    else if c == '兒' { Some('児') }
    else if c == '產' { Some('産') }
    else if c == '縣' { Some('県') }
    else if c == '顯' { Some('顕') }
    else if c == '驗' { Some('験') }
    else if c == '險' { Some('険') }
    else if c == '獻' { Some('献') }
    else if c == '嚴' { Some('厳') }
    else if c == '靈' { Some('霊') }
    else if c == '齡' { Some('齢') }
    else if c == '勞' { Some('労') }
    else if c == '營' { Some('営') }
    else if c == '榮' { Some('栄') }
    else if c == '櫻' { Some('桜') }
    else if c == '驛' { Some('駅') }
    else { None }
}

/// The shinjitai form of `c`, if `c` is one of the known kyuujitai characters.
pub fn kyuu_map(c: char) -> (r: Option<char>)
    ensures
        r == spec_kyuu_map(c),
{
    if c == '舊' { Some('旧') }
    else if c == '體' { Some('体') }
    else if c == '國' { Some('国') }
    else if c == '學' { Some('学') }
    else if c == '會' { Some('会') }
    else if c == '實' { Some('実') }
    else if c == '寫' { Some('写') }
    else if c == '讀' { Some('読') }
    else if c == '賣' { Some('売') }
    else if c == '來' { Some('来') }
    else if c == '歸' { Some('帰') }
    else if c == '變' { Some('変') }
    else if c == '傳' { Some('伝') }
    else if c == '轉' { Some('転') }
    else if c == '廣' { Some('広') }
    else if c == '應' { Some('応') }
    else if c == '當' { Some('当') }
    else if c == '擔' { Some('担') }
    else if c == '戰' { Some('戦') }
    else if c == '殘' { Some('残') }
    else if c == '歲' { Some('歳') }
    else if c == '圖' { Some('図') }
    else if c == '團' { Some('団') }
    else if c == '圓' { Some('円') }
    else if c == '壓' { Some('圧') }
    else if c == '圍' { Some('囲') }
    else if c == '醫' { Some('医') }
    else if c == '鹽' { Some('塩') }
    else if c == '處' { Some('処') }
    else if c == '廳' { Some('庁') }
    else if c == '與' { Some('与') }
    else if c == '餘' { Some('余') }
    else if c == '價' { Some('価') }
    else if c == '兒' { Some('児') }
    else if c == '產' { Some('産') }
    else if c == '縣' { Some('県') }
    else if c == '顯' { Some('顕') }
    else if c == '驗' { Some('験') }
    else if c == '險' { Some('険') }
    else if c == '獻' { Some('献') }
    else if c == '嚴' { Some('厳') }
    else if c == '靈' { Some('霊') }
    else if c == '齡' { Some('齢') }
    else if c == '勞' { Some('労') }
    else if c == '營' { Some('営') }
    else if c == '榮' { Some('栄') }
    else if c == '櫻' { Some('桜') }
    else if c == '驛' { Some('駅') }
    else { None }
}

/// One character converted from kyuujitai to shinjitai.
pub open spec fn shinjitai_char(c: char) -> char {
    match spec_kyuu_map(c) {
        Some(n) => n,
        None => c,
    }
}

/// Kyuujitai to shinjitai, character by character.
pub open spec fn spec_kyuujitai_to_shinjitai(s: Seq<char>) -> Seq<char> {
    s.map_values(|c: char| shinjitai_char(c))
}

/// Convert kyuujitai (旧字体) characters to shinjitai (新字体).
/// Returns the original string unchanged if no substitutions are needed.
pub fn kyuujitai_to_shinjitai(text: &str) -> (out: String)
    ensures
        out@ == spec_kyuujitai_to_shinjitai(text@),
{
    let chars = to_chars(text);
    let mut res: Vec<char> = Vec::new();
    let mut i: usize = 0;
    while i < chars.len()
        invariant
            i <= chars@.len(),
            chars@ == text@,
            res@ == spec_kyuujitai_to_shinjitai(chars@.take(i as int)),
        decreases chars@.len() - i,
    {
        let c = chars[i];
        let n = match kyuu_map(c) {
            Some(n) => n,
            None => c,
        };
        proof {
            assert(chars@.take(i as int + 1) =~= chars@.take(i as int).push(chars@[i as int]));
        }
        res.push(n);
        proof {
            assert(res@ =~= spec_kyuujitai_to_shinjitai(chars@.take(i as int + 1)));
        }
        i = i + 1;
    }
    proof {
        assert(chars@.take(chars@.len() as int) =~= chars@);
    }
    string_from_chars(res.as_slice())
}

/// The old (kyuujitai) forms that are converted, in order.
pub open spec fn kyuujitai_forms() -> Seq<char> {
    seq!['舊', '體', '國', '學', '會', '實', '寫', '讀', '賣', '來', '歸', '變', '傳', '轉', '廣', '應', '當', '擔', '戰', '殘', '歲', '圖', '團', '圓', '壓', '圍', '醫', '鹽', '處', '廳', '與', '餘', '價', '兒', '產', '縣', '顯', '驗', '險', '獻', '嚴', '靈', '齡', '勞', '營', '榮', '櫻', '驛']
}

/// The new (shinjitai) forms they become, in the same order.
pub open spec fn shinjitai_forms() -> Seq<char> {
    seq!['旧', '体', '国', '学', '会', '実', '写', '読', '売', '来', '帰', '変', '伝', '転', '広', '応', '当', '担', '戦', '残', '歳', '図', '団', '円', '圧', '囲', '医', '塩', '処', '庁', '与', '余', '価', '児', '産', '県', '顕', '験', '険', '献', '厳', '霊', '齢', '労', '営', '栄', '桜', '駅']
}

proof fn lemma_forms_listed()
    ensures
        kyuujitai_forms().len() == 48,
        shinjitai_forms().len() == 48,
        forall|i: int| 0 <= i < 48 ==> spec_kyuu_map(#[trigger] kyuujitai_forms()[i]) == Some(shinjitai_forms()[i]),
        forall|c: char| spec_kyuu_map(c) is Some ==> kyuujitai_forms().contains(c),
{
    let kyu = kyuujitai_forms();
    let shin = shinjitai_forms();
    assert(kyu[0] == '舊' && shin[0] == '旧');
    assert(kyu[1] == '體' && shin[1] == '体');
    assert(kyu[2] == '國' && shin[2] == '国');
    assert(kyu[3] == '學' && shin[3] == '学');
    assert(kyu[4] == '會' && shin[4] == '会');
    assert(kyu[5] == '實' && shin[5] == '実');
    assert(kyu[6] == '寫' && shin[6] == '写');
    assert(kyu[7] == '讀' && shin[7] == '読');
    assert(kyu[8] == '賣' && shin[8] == '売');
    assert(kyu[9] == '來' && shin[9] == '来');
    assert(kyu[10] == '歸' && shin[10] == '帰');
    assert(kyu[11] == '變' && shin[11] == '変');
    assert(kyu[12] == '傳' && shin[12] == '伝');
    assert(kyu[13] == '轉' && shin[13] == '転');
    assert(kyu[14] == '廣' && shin[14] == '広');
    assert(kyu[15] == '應' && shin[15] == '応');
    assert(kyu[16] == '當' && shin[16] == '当');
    assert(kyu[17] == '擔' && shin[17] == '担');
    assert(kyu[18] == '戰' && shin[18] == '戦');
    assert(kyu[19] == '殘' && shin[19] == '残');
    assert(kyu[20] == '歲' && shin[20] == '歳');
    assert(kyu[21] == '圖' && shin[21] == '図');
    assert(kyu[22] == '團' && shin[22] == '団');
    assert(kyu[23] == '圓' && shin[23] == '円');
    assert(kyu[24] == '壓' && shin[24] == '圧');
    assert(kyu[25] == '圍' && shin[25] == '囲');
    assert(kyu[26] == '醫' && shin[26] == '医');
    assert(kyu[27] == '鹽' && shin[27] == '塩');
    assert(kyu[28] == '處' && shin[28] == '処');
    assert(kyu[29] == '廳' && shin[29] == '庁');
    assert(kyu[30] == '與' && shin[30] == '与');
    assert(kyu[31] == '餘' && shin[31] == '余');
    assert(kyu[32] == '價' && shin[32] == '価');
    assert(kyu[33] == '兒' && shin[33] == '児');
    assert(kyu[34] == '產' && shin[34] == '産');
    assert(kyu[35] == '縣' && shin[35] == '県');
    assert(kyu[36] == '顯' && shin[36] == '顕');
    assert(kyu[37] == '驗' && shin[37] == '験');
    assert(kyu[38] == '險' && shin[38] == '険');
    assert(kyu[39] == '獻' && shin[39] == '献');
    assert(kyu[40] == '嚴' && shin[40] == '厳');
    assert(kyu[41] == '靈' && shin[41] == '霊');
    assert(kyu[42] == '齡' && shin[42] == '齢');
    assert(kyu[43] == '勞' && shin[43] == '労');
    assert(kyu[44] == '營' && shin[44] == '営');
    assert(kyu[45] == '榮' && shin[45] == '栄');
    assert(kyu[46] == '櫻' && shin[46] == '桜');
    assert(kyu[47] == '驛' && shin[47] == '駅');
    assert forall|c: char| spec_kyuu_map(c) is Some implies kyu.contains(c) by {
        assert(exists|i: int| 0 <= i < 48 && #[trigger] kyu[i] == c);
    }
}

/// Kyuujitai to shinjitai converts exactly the listed old forms: each
/// character that is one of the old forms becomes the corresponding new
/// form, every other character is kept, and the length is kept.
pub proof fn lemma_kyuujitai_conversion(s: Seq<char>)
    ensures
        spec_kyuujitai_to_shinjitai(s).len() == s.len(),
        forall|k: int, i: int|
            #![trigger spec_kyuujitai_to_shinjitai(s)[k], kyuujitai_forms()[i]]
            0 <= k < s.len() && 0 <= i < kyuujitai_forms().len() && s[k] == kyuujitai_forms()[i]
                ==> spec_kyuujitai_to_shinjitai(s)[k] == shinjitai_forms()[i],
        forall|k: int|
            0 <= k < s.len() && !kyuujitai_forms().contains(s[k]) ==> #[trigger] spec_kyuujitai_to_shinjitai(
                s,
            )[k] == s[k],
{
    lemma_forms_listed();
    assert forall|k: int, i: int|
        #![trigger spec_kyuujitai_to_shinjitai(s)[k], kyuujitai_forms()[i]]
        0 <= k < s.len() && 0 <= i < kyuujitai_forms().len() && s[k] == kyuujitai_forms()[i]
            implies spec_kyuujitai_to_shinjitai(s)[k] == shinjitai_forms()[i] by {
        assert(spec_kyuu_map(kyuujitai_forms()[i]) == Some(shinjitai_forms()[i]));
    }
}

} // verus!
