use vstd::prelude::*;
use vstd::string::StringExecFns;

verus! {

/// The languages and scripts the classifier can report, plus the `Ascii`
/// and `Unknown` sentinels.
#[derive(Debug, Clone, Copy, Eq, Hash, PartialEq, Structural)]
pub enum Lang {
    English,
    Spanish,
    French,
    German,
    ChineseSimplified,
    Japanese,
    Russian,
    Arabic,
    Portuguese,
    Italian,
    Dutch,
    Swedish,
    Korean,
    Turkish,
    Greek,
    Hindi,
    Vietnamese,
    Finnish,
    Norwegian,
    Danish,
    Romanian,
    Polish,
    Hungarian,
    Hebrew,
    Thai,
    Czech,
    Serbian,
    Filipino,
    Ukrainian,
    Malay,
    Bengali,
    Swahili,
    Persian,
    Afrikaans,
    Bulgarian,
    Croatian,
    Slovenian,
    Estonian,
    Icelandic,
    Kurdish,
    Urdu,
    Tamil,
    PunjabiGurmukhi,
    Kannada,
    Amharic,
    Nepali,
    Yoruba,
    Zulu,
    Uzbek,
    Sinhala,
    Belarusian,
    Azerbaijani,
    Javanese,
    Burmese,
    AccentedLatin,
    Telugu,
    Malayalam,
    Unknown,
    Ascii,
}

/// One entry of the script range table: the closed codepoint interval
/// `[unidown, uniup]` is attributed to `lang`.
#[derive(Debug, Clone, Copy, Eq, PartialEq, Structural)]
pub struct LangType {
    pub lang: Lang,
    pub uniup: u64,
    pub unidown: u64,
}

/// The script range table: ordered, with overlapping Latin ranges resolved
/// by the first-match rule, and the `Unknown` sentinel last.
pub open spec fn spec_table() -> Seq<LangType> {
    seq![
        LangType { lang: Lang::English, unidown: 0x0041, uniup: 0x007A },
        LangType { lang: Lang::Spanish, unidown: 0x00C0, uniup: 0x00FF },
        LangType { lang: Lang::French, unidown: 0x00C0, uniup: 0x017F },
        LangType { lang: Lang::German, unidown: 0x00C4, uniup: 0x00FC },
        LangType { lang: Lang::ChineseSimplified, unidown: 0x4E00, uniup: 0x9FFF },
        LangType { lang: Lang::Japanese, unidown: 0x3040, uniup: 0x309F },
        LangType { lang: Lang::Russian, unidown: 0x0410, uniup: 0x044F },
        LangType { lang: Lang::Arabic, unidown: 0x0627, uniup: 0x064A },
        LangType { lang: Lang::Portuguese, unidown: 0x00C0, uniup: 0x00FF },
        LangType { lang: Lang::Italian, unidown: 0x00C0, uniup: 0x017E },
        LangType { lang: Lang::Dutch, unidown: 0x00C0, uniup: 0x017E },
        LangType { lang: Lang::Swedish, unidown: 0x00C0, uniup: 0x00E5 },
        LangType { lang: Lang::Korean, unidown: 0xAC00, uniup: 0xD7AF },
        LangType { lang: Lang::Turkish, unidown: 0x0041, uniup: 0x007A },
        LangType { lang: Lang::Greek, unidown: 0x0391, uniup: 0x03C9 },
        LangType { lang: Lang::Hindi, unidown: 0x0901, uniup: 0x097F },
        LangType { lang: Lang::Vietnamese, unidown: 0x1E00, uniup: 0x1EFF },
        LangType { lang: Lang::Finnish, unidown: 0x00C4, uniup: 0x00E4 },
        LangType { lang: Lang::Norwegian, unidown: 0x00C0, uniup: 0x00E5 },
        LangType { lang: Lang::Danish, unidown: 0x00C0, uniup: 0x00E5 },
        LangType { lang: Lang::Romanian, unidown: 0x0100, uniup: 0x021B },
        LangType { lang: Lang::Polish, unidown: 0x0104, uniup: 0x017C },
        LangType { lang: Lang::Hungarian, unidown: 0x00C1, uniup: 0x0170 },
        LangType { lang: Lang::Hebrew, unidown: 0x05D0, uniup: 0x05EA },
        LangType { lang: Lang::Thai, unidown: 0x0E01, uniup: 0x0E5B },
        LangType { lang: Lang::Czech, unidown: 0x0100, uniup: 0x01B6 },
        LangType { lang: Lang::Serbian, unidown: 0x0410, uniup: 0x045F },
        LangType { lang: Lang::Filipino, unidown: 0x0041, uniup: 0x007A },
        LangType { lang: Lang::Ukrainian, unidown: 0x0410, uniup: 0x045F },
        LangType { lang: Lang::Malay, unidown: 0x0041, uniup: 0x007A },
        LangType { lang: Lang::Bengali, unidown: 0x0981, uniup: 0x09FF },
        LangType { lang: Lang::Swahili, unidown: 0x0061, uniup: 0x007A },
        LangType { lang: Lang::Persian, unidown: 0x0621, uniup: 0x064A },
        LangType { lang: Lang::Afrikaans, unidown: 0x0041, uniup: 0x007A },
        LangType { lang: Lang::Bulgarian, unidown: 0x0410, uniup: 0x044F },
        LangType { lang: Lang::Croatian, unidown: 0x0100, uniup: 0x017E },
        LangType { lang: Lang::Slovenian, unidown: 0x0100, uniup: 0x017E },
        LangType { lang: Lang::Estonian, unidown: 0x00C0, uniup: 0x017E },
        LangType { lang: Lang::Icelandic, unidown: 0x0041, uniup: 0x00F6 },
        LangType { lang: Lang::Kurdish, unidown: 0x0626, uniup: 0x06D5 },
        LangType { lang: Lang::Urdu, unidown: 0x0601, uniup: 0x06D6 },
        LangType { lang: Lang::Tamil, unidown: 0x0B80, uniup: 0x0BFF },
        LangType { lang: Lang::PunjabiGurmukhi, unidown: 0x0A01, uniup: 0x0A76 },
        LangType { lang: Lang::Kannada, unidown: 0x0C80, uniup: 0x0CFF },
        LangType { lang: Lang::Amharic, unidown: 0x1200, uniup: 0x137F },
        LangType { lang: Lang::Nepali, unidown: 0x0901, uniup: 0x097F },
        LangType { lang: Lang::Yoruba, unidown: 0x0180, uniup: 0x024F },
        LangType { lang: Lang::Zulu, unidown: 0x0180, uniup: 0x024F },
        LangType { lang: Lang::Uzbek, unidown: 0x0400, uniup: 0x04F9 },
        LangType { lang: Lang::Sinhala, unidown: 0x0D80, uniup: 0x0DFF },
        LangType { lang: Lang::Belarusian, unidown: 0x0410, uniup: 0x044F },
        LangType { lang: Lang::Azerbaijani, unidown: 0x018F, uniup: 0x019B },
        LangType { lang: Lang::Javanese, unidown: 0xA980, uniup: 0xA9DF },
        LangType { lang: Lang::AccentedLatin, unidown: 0x00C0, uniup: 0x00FF },
        LangType { lang: Lang::Burmese, unidown: 0x1000, uniup: 0x109F },
        LangType { lang: Lang::Telugu, unidown: 0x0C00, uniup: 0x0C7F },
        LangType { lang: Lang::Malayalam, unidown: 0x0D00, uniup: 0x0D7F },
        LangType { lang: Lang::Ascii, unidown: 0x0020, uniup: 0x007E },
        LangType { lang: Lang::Unknown, unidown: 0x0000, uniup: 0x0000 },
    ]
}

/// Builds the script range table of `spec_table`.
pub fn script_table() -> (t: [LangType; 59])
    ensures
        t@ == spec_table(),
{
    let t: [LangType; 59] = [
        LangType { lang: Lang::English, unidown: 0x0041, uniup: 0x007A },
        LangType { lang: Lang::Spanish, unidown: 0x00C0, uniup: 0x00FF },
        LangType { lang: Lang::French, unidown: 0x00C0, uniup: 0x017F },
        LangType { lang: Lang::German, unidown: 0x00C4, uniup: 0x00FC },
        LangType { lang: Lang::ChineseSimplified, unidown: 0x4E00, uniup: 0x9FFF },
        LangType { lang: Lang::Japanese, unidown: 0x3040, uniup: 0x309F },
        LangType { lang: Lang::Russian, unidown: 0x0410, uniup: 0x044F },
        LangType { lang: Lang::Arabic, unidown: 0x0627, uniup: 0x064A },
        LangType { lang: Lang::Portuguese, unidown: 0x00C0, uniup: 0x00FF },
        LangType { lang: Lang::Italian, unidown: 0x00C0, uniup: 0x017E },
        LangType { lang: Lang::Dutch, unidown: 0x00C0, uniup: 0x017E },
        LangType { lang: Lang::Swedish, unidown: 0x00C0, uniup: 0x00E5 },
        LangType { lang: Lang::Korean, unidown: 0xAC00, uniup: 0xD7AF },
        LangType { lang: Lang::Turkish, unidown: 0x0041, uniup: 0x007A },
        LangType { lang: Lang::Greek, unidown: 0x0391, uniup: 0x03C9 },
        LangType { lang: Lang::Hindi, unidown: 0x0901, uniup: 0x097F },
        LangType { lang: Lang::Vietnamese, unidown: 0x1E00, uniup: 0x1EFF },
        LangType { lang: Lang::Finnish, unidown: 0x00C4, uniup: 0x00E4 },
        LangType { lang: Lang::Norwegian, unidown: 0x00C0, uniup: 0x00E5 },
        LangType { lang: Lang::Danish, unidown: 0x00C0, uniup: 0x00E5 },
        LangType { lang: Lang::Romanian, unidown: 0x0100, uniup: 0x021B },
        LangType { lang: Lang::Polish, unidown: 0x0104, uniup: 0x017C },
        LangType { lang: Lang::Hungarian, unidown: 0x00C1, uniup: 0x0170 },
        LangType { lang: Lang::Hebrew, unidown: 0x05D0, uniup: 0x05EA },
        LangType { lang: Lang::Thai, unidown: 0x0E01, uniup: 0x0E5B },
        LangType { lang: Lang::Czech, unidown: 0x0100, uniup: 0x01B6 },
        LangType { lang: Lang::Serbian, unidown: 0x0410, uniup: 0x045F },
        LangType { lang: Lang::Filipino, unidown: 0x0041, uniup: 0x007A },
        LangType { lang: Lang::Ukrainian, unidown: 0x0410, uniup: 0x045F },
        LangType { lang: Lang::Malay, unidown: 0x0041, uniup: 0x007A },
        LangType { lang: Lang::Bengali, unidown: 0x0981, uniup: 0x09FF },
        LangType { lang: Lang::Swahili, unidown: 0x0061, uniup: 0x007A },
        LangType { lang: Lang::Persian, unidown: 0x0621, uniup: 0x064A },
        LangType { lang: Lang::Afrikaans, unidown: 0x0041, uniup: 0x007A },
        LangType { lang: Lang::Bulgarian, unidown: 0x0410, uniup: 0x044F },
        LangType { lang: Lang::Croatian, unidown: 0x0100, uniup: 0x017E },
        LangType { lang: Lang::Slovenian, unidown: 0x0100, uniup: 0x017E },
        LangType { lang: Lang::Estonian, unidown: 0x00C0, uniup: 0x017E },
        LangType { lang: Lang::Icelandic, unidown: 0x0041, uniup: 0x00F6 },
        LangType { lang: Lang::Kurdish, unidown: 0x0626, uniup: 0x06D5 },
        LangType { lang: Lang::Urdu, unidown: 0x0601, uniup: 0x06D6 },
        LangType { lang: Lang::Tamil, unidown: 0x0B80, uniup: 0x0BFF },
        LangType { lang: Lang::PunjabiGurmukhi, unidown: 0x0A01, uniup: 0x0A76 },
        LangType { lang: Lang::Kannada, unidown: 0x0C80, uniup: 0x0CFF },
        LangType { lang: Lang::Amharic, unidown: 0x1200, uniup: 0x137F },
        LangType { lang: Lang::Nepali, unidown: 0x0901, uniup: 0x097F },
        LangType { lang: Lang::Yoruba, unidown: 0x0180, uniup: 0x024F },
        LangType { lang: Lang::Zulu, unidown: 0x0180, uniup: 0x024F },
        LangType { lang: Lang::Uzbek, unidown: 0x0400, uniup: 0x04F9 },
        LangType { lang: Lang::Sinhala, unidown: 0x0D80, uniup: 0x0DFF },
        LangType { lang: Lang::Belarusian, unidown: 0x0410, uniup: 0x044F },
        LangType { lang: Lang::Azerbaijani, unidown: 0x018F, uniup: 0x019B },
        LangType { lang: Lang::Javanese, unidown: 0xA980, uniup: 0xA9DF },
        LangType { lang: Lang::AccentedLatin, unidown: 0x00C0, uniup: 0x00FF },
        LangType { lang: Lang::Burmese, unidown: 0x1000, uniup: 0x109F },
        LangType { lang: Lang::Telugu, unidown: 0x0C00, uniup: 0x0C7F },
        LangType { lang: Lang::Malayalam, unidown: 0x0D00, uniup: 0x0D7F },
        LangType { lang: Lang::Ascii, unidown: 0x0020, uniup: 0x007E },
        LangType { lang: Lang::Unknown, unidown: 0x0000, uniup: 0x0000 },
    ];
    proof {
        assert(t@ =~= spec_table());
    }
    t
}

/// The display name of each language tag.
pub open spec fn lang_name(l: Lang) -> Seq<char> {
    match l {
        Lang::English => "English"@,
        Lang::Spanish => "Spanish"@,
        Lang::French => "French"@,
        Lang::German => "German"@,
        Lang::ChineseSimplified => "Chinese"@,
        Lang::Japanese => "Japanese"@,
        Lang::Russian => "Russian"@,
        Lang::Arabic => "Arabic"@,
        Lang::Portuguese => "Portuguese"@,
        Lang::Italian => "Italian"@,
        Lang::Dutch => "Dutch"@,
        Lang::Swedish => "Swedish"@,
        Lang::Korean => "Korean"@,
        Lang::Turkish => "Turkish"@,
        Lang::Greek => "Greek"@,
        Lang::Hindi => "Hindi"@,
        Lang::Vietnamese => "Vietnamese"@,
        Lang::Finnish => "Finnish"@,
        Lang::Norwegian => "Norwegian"@,
        Lang::Danish => "Danish"@,
        Lang::Romanian => "Romanian"@,
        Lang::Polish => "Polish"@,
        Lang::Hungarian => "Hungarian"@,
        Lang::Hebrew => "Hebrew"@,
        Lang::Thai => "Thai"@,
        Lang::Czech => "Czech"@,
        Lang::Serbian => "Serbian"@,
        Lang::Filipino => "Filipino"@,
        Lang::Ukrainian => "Ukrainian"@,
        Lang::Malay => "Malay"@,
        Lang::Bengali => "Bengali"@,
        Lang::Swahili => "Swahili"@,
        Lang::Persian => "Persian"@,
        Lang::Afrikaans => "Afrikaans"@,
        Lang::Bulgarian => "Bulgarian"@,
        Lang::Croatian => "Croatian"@,
        Lang::Slovenian => "Slovenian"@,
        Lang::Estonian => "Estonian"@,
        Lang::Icelandic => "Icelandic"@,
        Lang::Kurdish => "Kurdish"@,
        Lang::Urdu => "Urdu"@,
        Lang::Tamil => "Tamil"@,
        Lang::PunjabiGurmukhi => "Punjabi"@,
        Lang::Kannada => "Kannada"@,
        Lang::Amharic => "Amharic"@,
        Lang::Nepali => "Nepali"@,
        Lang::Yoruba => "Yoruba"@,
        Lang::Zulu => "Zulu"@,
        Lang::Uzbek => "Uzbek"@,
        Lang::Sinhala => "Sinhala"@,
        Lang::Belarusian => "Belarusian"@,
        Lang::Azerbaijani => "Azerbaijani"@,
        Lang::Javanese => "Javanese"@,
        Lang::AccentedLatin => "Accented Latin"@,
        Lang::Burmese => "Burmese"@,
        Lang::Telugu => "Telugu"@,
        Lang::Malayalam => "Malayalam"@,
        Lang::Ascii => "ASCII"@,
        Lang::Unknown => "Unknown"@,
    }
}

/// The display name of a language tag, as a fresh `String`.
pub fn return_lang(lang: Lang) -> (r: String)
    ensures
        r@ == lang_name(lang),
{
    match lang {
        Lang::English => String::from_str("English"),
        Lang::Spanish => String::from_str("Spanish"),
        Lang::French => String::from_str("French"),
        Lang::German => String::from_str("German"),
        Lang::ChineseSimplified => String::from_str("Chinese"),
        Lang::Japanese => String::from_str("Japanese"),
        Lang::Russian => String::from_str("Russian"),
        Lang::Arabic => String::from_str("Arabic"),
        Lang::Portuguese => String::from_str("Portuguese"),
        Lang::Italian => String::from_str("Italian"),
        Lang::Dutch => String::from_str("Dutch"),
        Lang::Swedish => String::from_str("Swedish"),
        Lang::Korean => String::from_str("Korean"),
        Lang::Turkish => String::from_str("Turkish"),
        Lang::Greek => String::from_str("Greek"),
        Lang::Hindi => String::from_str("Hindi"),
        Lang::Vietnamese => String::from_str("Vietnamese"),
        Lang::Finnish => String::from_str("Finnish"),
        Lang::Norwegian => String::from_str("Norwegian"),
        Lang::Danish => String::from_str("Danish"),
        Lang::Romanian => String::from_str("Romanian"),
        Lang::Polish => String::from_str("Polish"),
        Lang::Hungarian => String::from_str("Hungarian"),
        Lang::Hebrew => String::from_str("Hebrew"),
        Lang::Thai => String::from_str("Thai"),
        Lang::Czech => String::from_str("Czech"),
        Lang::Serbian => String::from_str("Serbian"),
        Lang::Filipino => String::from_str("Filipino"),
        Lang::Ukrainian => String::from_str("Ukrainian"),
        Lang::Malay => String::from_str("Malay"),
        Lang::Bengali => String::from_str("Bengali"),
        Lang::Swahili => String::from_str("Swahili"),
        Lang::Persian => String::from_str("Persian"),
        Lang::Afrikaans => String::from_str("Afrikaans"),
        Lang::Bulgarian => String::from_str("Bulgarian"),
        Lang::Croatian => String::from_str("Croatian"),
        Lang::Slovenian => String::from_str("Slovenian"),
        Lang::Estonian => String::from_str("Estonian"),
        Lang::Icelandic => String::from_str("Icelandic"),
        Lang::Kurdish => String::from_str("Kurdish"),
        Lang::Urdu => String::from_str("Urdu"),
        Lang::Tamil => String::from_str("Tamil"),
        Lang::PunjabiGurmukhi => String::from_str("Punjabi"),
        Lang::Kannada => String::from_str("Kannada"),
        Lang::Amharic => String::from_str("Amharic"),
        Lang::Nepali => String::from_str("Nepali"),
        Lang::Yoruba => String::from_str("Yoruba"),
        Lang::Zulu => String::from_str("Zulu"),
        Lang::Uzbek => String::from_str("Uzbek"),
        Lang::Sinhala => String::from_str("Sinhala"),
        Lang::Belarusian => String::from_str("Belarusian"),
        Lang::Azerbaijani => String::from_str("Azerbaijani"),
        Lang::Javanese => String::from_str("Javanese"),
        Lang::AccentedLatin => String::from_str("Accented Latin"),
        Lang::Burmese => String::from_str("Burmese"),
        Lang::Telugu => String::from_str("Telugu"),
        Lang::Malayalam => String::from_str("Malayalam"),
        Lang::Ascii => String::from_str("ASCII"),
        Lang::Unknown => String::from_str("Unknown"),
    }
}

/// Whether codepoint `u` falls in the closed range of entry `e`.
pub open spec fn in_range(e: LangType, u: int) -> bool {
    e.unidown <= u <= e.uniup
}

/// First-match scan of the table from position `i`: the tag of the first
/// entry among the first 58 whose range holds `u`, else `Unknown`.
pub open spec fn classify_at(t: Seq<LangType>, u: int, i: int) -> Lang
    decreases 58 - i,
{
    if i < 0 || i >= 58 {
        Lang::Unknown
    } else if in_range(t[i], u) {
        t[i].lang
    } else {
        classify_at(t, u, i + 1)
    }
}

/// The tag the table `t` assigns to character `c`.
pub open spec fn classify_char(t: Seq<LangType>, c: char) -> Lang {
    classify_at(t, c as u64 as int, 0)
}

/// Maps a character's codepoint to a language tag by scanning the table in
/// order and returning the tag of the first entry whose range contains it.
/// The last table entry is a sentinel and is never scanned; when no entry
/// matches, the result is `Unknown`.
pub fn find_unicode(langtype: [LangType; 59], c: char) -> (r: Lang)
    ensures
        r == classify_char(langtype@, c),
{
    let uni: u64 = c as u64;
    let mut i: usize = 0;
    while i < 58
        invariant
            i <= 58,
            classify_char(langtype@, c) == classify_at(langtype@, uni as int, i as int),
        decreases 58 - i,
    {
        if uni <= langtype[i].uniup && uni >= langtype[i].unidown {
            return langtype[i].lang;
        }
        i = i + 1;
    }
    Lang::Unknown
}

/// First-match tie-break: when entry `i` is the earliest entry of the scan
/// whose range holds the character, the classifier returns that entry's tag,
/// whatever later entries cover. Classification is a function of the table
/// and the character alone, so repeated queries agree.
pub proof fn lemma_first_match(t: Seq<LangType>, c: char, i: int)
    requires
        t.len() == 59,
        0 <= i < 58,
        in_range(t[i], c as u64 as int),
        forall|k: int| 0 <= k < i ==> !in_range(t[k], c as u64 as int),
    ensures
        classify_char(t, c) == t[i].lang,
{
    lemma_classify_skips(t, c as u64 as int, 0, i);
}

proof fn lemma_classify_skips(t: Seq<LangType>, u: int, j: int, i: int)
    requires
        0 <= j <= i < 58,
        in_range(t[i], u),
        forall|k: int| j <= k < i ==> !in_range(t[k], u),
    ensures
        classify_at(t, u, j) == t[i].lang,
    decreases i - j,
{
    if j < i {
        lemma_classify_skips(t, u, j + 1, i);
    }
}

/// First-match scan returning the table position instead of the tag: the
/// index of the first matching entry among the first 58, else 58, the
/// position of the `Unknown` sentinel.
pub open spec fn classify_idx_at(t: Seq<LangType>, u: int, i: int) -> int
    decreases 58 - i,
{
    if i < 0 || i >= 58 {
        58
    } else if in_range(t[i], u) {
        i
    } else {
        classify_idx_at(t, u, i + 1)
    }
}

/// The position in the script range table that character `c` is tallied
/// under.
pub open spec fn classify_idx(c: char) -> int {
    classify_idx_at(spec_table(), c as u64 as int, 0)
}

proof fn lemma_classify_idx_at_range(t: Seq<LangType>, u: int, i: int)
    requires
        t.len() == 59,
        t[58].lang == Lang::Unknown,
        0 <= i <= 58,
    ensures
        i <= classify_idx_at(t, u, i) <= 58,
        classify_at(t, u, i) == t[classify_idx_at(t, u, i)].lang,
    decreases 58 - i,
{
    if i < 58 && !in_range(t[i], u) {
        lemma_classify_idx_at_range(t, u, i + 1);
    }
}

/// The classifier's tag is the tag stored at the classifier's index.
pub proof fn lemma_classify_idx(c: char)
    ensures
        0 <= classify_idx(c) <= 58,
        classify_char(spec_table(), c) == spec_table()[classify_idx(c)].lang,
{
    lemma_classify_idx_at_range(spec_table(), c as u64 as int, 0);
}

/// Like `find_unicode`, but returns the matching table position.
fn find_unicode_idx(langtype: &[LangType; 59], c: char) -> (r: usize)
    requires
        langtype@ == spec_table(),
    ensures
        r as int == classify_idx(c),
        r <= 58,
{
    let uni: u64 = c as u64;
    let mut i: usize = 0;
    while i < 58
        invariant
            i <= 58,
            classify_idx(c) == classify_idx_at(langtype@, uni as int, i as int),
        decreases 58 - i,
    {
        if uni <= langtype[i].uniup && uni >= langtype[i].unidown {
            return i;
        }
        i = i + 1;
    }
    58
}

/// The non-space characters of `s`, in order: exactly the characters that
/// belong to the whitespace-delimited words of `s`.
pub open spec fn nonspace(s: Seq<char>) -> Seq<char>
    decreases s.len(),
{
    if s.len() == 0 {
        Seq::empty()
    } else if crate::text::is_space(s.last()) {
        nonspace(s.drop_last())
    } else {
        nonspace(s.drop_last()).push(s.last())
    }
}

/// All classified characters of a document: the non-space characters of its
/// lines, concatenated in order.
pub open spec fn doc_chars(lines: Seq<Seq<char>>) -> Seq<char>
    decreases lines.len(),
{
    if lines.len() == 0 {
        Seq::empty()
    } else {
        doc_chars(lines.drop_last()) + nonspace(lines.last())
    }
}

/// The per-position tally after classifying the characters `cs`: entry `t`
/// counts the characters whose `classify_idx` is `t`.
pub open spec fn counts_after(cs: Seq<char>) -> Seq<int>
    decreases cs.len(),
{
    if cs.len() == 0 {
        Seq::new(59, |i: int| 0)
    } else {
        let p = counts_after(cs.drop_last());
        let t = classify_idx(cs.last());
        p.update(t, p[t] + 1)
    }
}

/// The sum of a sequence of integers.
pub open spec fn sum_seq(s: Seq<int>) -> int
    decreases s.len(),
{
    if s.len() == 0 {
        0
    } else {
        sum_seq(s.drop_last()) + s.last()
    }
}

proof fn lemma_sum_update(s: Seq<int>, i: int, v: int)
    requires
        0 <= i < s.len(),
    ensures
        sum_seq(s.update(i, v)) == sum_seq(s) - s[i] + v,
    decreases s.len(),
{
    let u = s.update(i, v);
    if i == s.len() - 1 {
        assert(u.drop_last() =~= s.drop_last());
        assert(u.last() == v);
    } else {
        assert(u.drop_last() =~= s.drop_last().update(i, v));
        assert(u.last() == s.last());
        lemma_sum_update(s.drop_last(), i, v);
    }
}

/// The tally is well-formed: 59 entries, each between 0 and the number of
/// characters classified, and together summing to it — every character lands
/// in exactly one bucket.
pub proof fn lemma_counts_invariants(cs: Seq<char>)
    ensures
        counts_after(cs).len() == 59,
        forall|t: int| 0 <= t < 59 ==> 0 <= #[trigger] counts_after(cs)[t] <= cs.len(),
        sum_seq(counts_after(cs)) == cs.len(),
    decreases cs.len(),
{
    if cs.len() > 0 {
        lemma_counts_invariants(cs.drop_last());
        let p = counts_after(cs.drop_last());
        let t = classify_idx(cs.last());
        lemma_classify_idx(cs.last());
        lemma_sum_update(p, t, p[t] + 1);
        let c = counts_after(cs);
        assert(c == p.update(t, p[t] + 1));
        assert(forall|u: int| 0 <= u < 59 && u != t ==> #[trigger] c[u] == p[u]);
        assert(c[t] == p[t] + 1);
    } else {
        lemma_sum_zeros(counts_after(cs));
    }
}

proof fn lemma_sum_zeros(s: Seq<int>)
    requires
        forall|i: int| 0 <= i < s.len() ==> #[trigger] s[i] == 0,
    ensures
        sum_seq(s) == 0,
    decreases s.len(),
{
    if s.len() > 0 {
        lemma_sum_zeros(s.drop_last());
    }
}

/// The table positions holding a non-zero tally among the first `k`, in
/// table order.
pub open spec fn present_upto(counts: Seq<int>, k: int) -> Seq<int>
    decreases k,
{
    if k <= 0 {
        Seq::empty()
    } else if counts[k - 1] > 0 {
        present_upto(counts, k - 1).push(k - 1)
    } else {
        present_upto(counts, k - 1)
    }
}

/// The sum of the tallies at the given positions.
pub open spec fn sum_at(counts: Seq<int>, ps: Seq<int>) -> int
    decreases ps.len(),
{
    if ps.len() == 0 {
        0
    } else {
        sum_at(counts, ps.drop_last()) + counts[ps.last()]
    }
}

proof fn lemma_present_sum_upto(counts: Seq<int>, k: int)
    requires
        0 <= k <= counts.len(),
        forall|t: int| 0 <= t < counts.len() ==> #[trigger] counts[t] >= 0,
    ensures
        sum_at(counts, present_upto(counts, k)) == sum_seq(counts.take(k)),
    decreases k,
{
    if k > 0 {
        lemma_present_sum_upto(counts, k - 1);
        assert(counts.take(k).drop_last() =~= counts.take(k - 1));
        assert(counts.take(k).last() == counts[k - 1]);
        let prev = present_upto(counts, k - 1);
        if counts[k - 1] > 0 {
            let cur = prev.push(k - 1);
            assert(cur.drop_last() =~= prev);
            assert(cur.last() == k - 1);
            assert(sum_at(counts, cur) == sum_at(counts, prev) + counts[k - 1]);
        } else {
            assert(sum_seq(counts.take(k)) == sum_seq(counts.take(k - 1)) + counts[k - 1]);
        }
    }
}

/// The sum of the percentage numerators of a distribution's records.
pub open spec fn sum_pct_nums(d: Seq<LangInfo>) -> int
    decreases d.len(),
{
    if d.len() == 0 {
        0
    } else {
        sum_pct_nums(d.drop_last()) + d.last().percentage.num
    }
}

proof fn lemma_num_sum_eq(d: Seq<LangInfo>, ci: Seq<int>, ps: Seq<int>, k: int)
    requires
        0 <= k <= d.len(),
        d.len() == ps.len(),
        forall|j: int|
            0 <= j < d.len() ==> (#[trigger] d[j]).percentage.num == d[j].total_character
                && d[j].total_character as int == ci[ps[j]],
    ensures
        sum_pct_nums(d.take(k)) == sum_at(ci, ps.take(k)),
    decreases k,
{
    if k > 0 {
        lemma_num_sum_eq(d, ci, ps, k - 1);
        assert(d.take(k).drop_last() =~= d.take(k - 1));
        assert(ps.take(k).drop_last() =~= ps.take(k - 1));
        assert(d.take(k).last() == d[k - 1]);
        assert(ps.take(k).last() == ps[k - 1]);
    }
}

/// Percentage sum invariant: every record of a non-empty distribution
/// carries the same denominator — the document's total of classified
/// characters — and the numerators sum to exactly that denominator. As
/// exact rationals, the percentages of a classified document therefore sum
/// to exactly 100.
pub proof fn lemma_percentage_sum(d: Seq<LangInfo>, lines: Seq<Seq<char>>)
    requires
        is_distribution_of(d, lines),
    ensures
        forall|j: int|
            0 <= j < d.len() ==> (#[trigger] d[j]).percentage.den as int == doc_chars(lines).len(),
        sum_pct_nums(d) == doc_chars(lines).len(),
{
    let dc = doc_chars(lines);
    let ci = counts_after(dc);
    let ps = present_upto(ci, 59);
    lemma_counts_invariants(dc);
    lemma_present_sum_upto(ci, 59);
    assert(ci.take(59) =~= ci);
    lemma_num_sum_eq(d, ci, ps, d.len() as int);
    assert(d.take(d.len() as int) =~= d);
    assert(ps.take(ps.len() as int) =~= ps);
}

proof fn lemma_present_of_zeros(counts: Seq<int>, k: int)
    requires
        forall|t: int| 0 <= t < k ==> #[trigger] counts[t] <= 0,
    ensures
        present_upto(counts, k).len() == 0,
    decreases k,
{
    if k > 0 {
        lemma_present_of_zeros(counts, k - 1);
    }
}

/// A percentage as an exact rational number: the share it stands for is
/// `100 * num / den`. A present language's percentage keeps the language's
/// character count as numerator over the document total as denominator; the
/// equal-split fallback is one part in the number of present languages.
#[derive(Debug, Clone, Copy, Eq, PartialEq, Structural)]
pub struct Percent {
    pub num: usize,
    pub den: usize,
}

/// A well-formed percentage: a positive denominator and a value of at most
/// 100.
pub open spec fn pct_wf(p: Percent) -> bool {
    0 < p.den && p.num <= p.den
}

/// One record of a per-document distribution: a language's display name,
/// its character count, and its normalized share of the document.
#[derive(Debug)]
pub struct LangInfo {
    pub lang: String,
    pub total_character: usize,
    pub percentage: Percent,
}

/// The percentage a record is assigned: the exact normalized share
/// `100 * count / total` when any character was classified, and the equal
/// split `100 / k` over the `k` present languages when none was.
pub open spec fn pct_of(count: usize, total: usize, k: usize) -> Percent {
    if total > 0 {
        Percent { num: count, den: total }
    } else {
        Percent { num: 1, den: k }
    }
}

/// The distribution records built from a 59-entry tally and a character
/// total: one record per position with a non-zero tally, in table order,
/// carrying the display name, the count, and the percentage of `pct_of`.
pub open spec fn is_lang_infos_of(d: Seq<LangInfo>, counts: Seq<usize>, total: usize) -> bool {
    let ci = counts.map_values(|x: usize| x as int);
    let ps = present_upto(ci, 59);
    &&& d.len() == ps.len()
    &&& forall|j: int|
        0 <= j < d.len() ==> {
            &&& (#[trigger] d[j]).lang@ == lang_name(spec_table()[ps[j]].lang)
            &&& d[j].total_character == counts[ps[j]]
            &&& d[j].percentage == pct_of(counts[ps[j]], total, d.len() as usize)
        }
}

/// Builds the distribution records for a tally.
///
/// With `total > 0` every record's percentage is the exact normalized share
/// `100 * count / total`; with `total == 0` and `k` present positions, every
/// record's percentage is exactly `100 / k`.
pub fn build_lang_infos(counts: &Vec<usize>, total: usize) -> (r: Vec<LangInfo>)
    requires
        counts@.len() == 59,
    ensures
        is_lang_infos_of(r@, counts@, total),
{
    let ghost ci = counts@.map_values(|x: usize| x as int);
    let mut r: Vec<LangInfo> = Vec::new();
    let table = script_table();
    if total > 0 {
        let mut t: usize = 0;
        while t < 59
            invariant
                counts@.len() == 59,
                ci == counts@.map_values(|x: usize| x as int),
                t <= 59,
                total > 0,
                table@ == spec_table(),
                r@.len() == present_upto(ci, t as int).len(),
                forall|j: int|
                    0 <= j < r@.len() ==> {
                        &&& (#[trigger] r@[j]).lang@ == lang_name(
                            spec_table()[present_upto(ci, t as int)[j]].lang,
                        )
                        &&& r@[j].total_character == counts@[present_upto(ci, t as int)[j]]
                        &&& r@[j].percentage == Percent {
                            num: counts@[present_upto(ci, t as int)[j]] as usize,
                            den: total,
                        }
                    },
            decreases 59 - t,
        {
            proof {
                assert(ci[t as int] == counts@[t as int] as int);
            }
            let ghost r0 = r@;
            let ghost ps0 = present_upto(ci, t as int);
            if counts[t] > 0 {
                let name = return_lang(table[t].lang);
                let info = LangInfo {
                    lang: name,
                    total_character: counts[t],
                    percentage: Percent { num: counts[t], den: total },
                };
                let ghost ginfo = info;
                r.push(info);
                proof {
                    let ps1 = present_upto(ci, t + 1);
                    assert(ps1 =~= ps0.push(t as int));
                    assert(r@ == r0.push(ginfo));
                    assert forall|j: int| 0 <= j < r@.len() implies {
                        &&& (#[trigger] r@[j]).lang@ == lang_name(spec_table()[ps1[j]].lang)
                        &&& r@[j].total_character == counts@[ps1[j]]
                        &&& r@[j].percentage == Percent { num: counts@[ps1[j]] as usize, den: total }
                    } by {
                        if j < r0.len() {
                            assert(r@[j] == r0[j]);
                            assert(ps1[j] == ps0[j]);
                        } else {
                            assert(r@[j] == ginfo);
                            assert(ps1[j] == t as int);
                        }
                    }
                }
            } else {
                proof {
                    assert(present_upto(ci, t + 1) == ps0);
                }
            }
            t = t + 1;
        }
        r
    } else {
        let mut k: usize = 0;
        let mut t: usize = 0;
        while t < 59
            invariant
                counts@.len() == 59,
                ci == counts@.map_values(|x: usize| x as int),
                t <= 59,
                k <= t,
                k as int == present_upto(ci, t as int).len(),
            decreases 59 - t,
        {
            proof {
                assert(ci[t as int] == counts@[t as int] as int);
            }
            if counts[t] > 0 {
                k = k + 1;
            }
            t = t + 1;
        }
        let ghost ps = present_upto(ci, 59);
        let mut t: usize = 0;
        while t < 59
            invariant
                counts@.len() == 59,
                ci == counts@.map_values(|x: usize| x as int),
                t <= 59,
                k as int == present_upto(ci, 59).len(),
                ps == present_upto(ci, 59),
                table@ == spec_table(),
                r@.len() == present_upto(ci, t as int).len(),
                forall|j: int|
                    0 <= j < r@.len() ==> {
                        &&& (#[trigger] r@[j]).lang@ == lang_name(
                            spec_table()[present_upto(ci, t as int)[j]].lang,
                        )
                        &&& r@[j].total_character == counts@[present_upto(ci, t as int)[j]]
                        &&& r@[j].percentage == Percent { num: 1, den: k }
                    },
            decreases 59 - t,
        {
            proof {
                assert(ci[t as int] == counts@[t as int] as int);
            }
            let ghost r0 = r@;
            let ghost ps0 = present_upto(ci, t as int);
            if counts[t] > 0 {
                let name = return_lang(table[t].lang);
                let info = LangInfo {
                    lang: name,
                    total_character: counts[t],
                    percentage: Percent { num: 1, den: k },
                };
                let ghost ginfo = info;
                r.push(info);
                proof {
                    let ps1 = present_upto(ci, t + 1);
                    assert(ps1 =~= ps0.push(t as int));
                    assert(r@ == r0.push(ginfo));
                    assert forall|j: int| 0 <= j < r@.len() implies {
                        &&& (#[trigger] r@[j]).lang@ == lang_name(spec_table()[ps1[j]].lang)
                        &&& r@[j].total_character == counts@[ps1[j]]
                        &&& r@[j].percentage == Percent { num: 1, den: k }
                    } by {
                        if j < r0.len() {
                            assert(r@[j] == r0[j]);
                            assert(ps1[j] == ps0[j]);
                        } else {
                            assert(r@[j] == ginfo);
                            assert(ps1[j] == t as int);
                        }
                    }
                }
            } else {
                proof {
                    assert(present_upto(ci, t + 1) == ps0);
                }
            }
            t = t + 1;
        }
        proof {
            assert(r@.len() as usize == k);
        }
        r
    }
}

proof fn lemma_nonspace_prefix(s: Seq<char>, i: int)
    requires
        0 <= i <= s.len(),
    ensures
        nonspace(s.take(i)).len() <= nonspace(s).len(),
    decreases s.len() - i,
{
    if i == s.len() {
        assert(s.take(i) =~= s);
    } else {
        assert(s.take(i + 1).drop_last() =~= s.take(i));
        assert(s.take(i + 1).last() == s[i]);
        lemma_nonspace_prefix(s, i + 1);
    }
}

proof fn lemma_doc_prefix(ls: Seq<Seq<char>>, k: int)
    requires
        0 <= k <= ls.len(),
    ensures
        doc_chars(ls.take(k)).len() <= doc_chars(ls).len(),
    decreases ls.len() - k,
{
    if k == ls.len() {
        assert(ls.take(k) =~= ls);
    } else {
        assert(ls.take(k + 1).drop_last() =~= ls.take(k));
        assert(ls.take(k + 1).last() == ls[k]);
        lemma_doc_prefix(ls, k + 1);
    }
}

proof fn lemma_partial_bound(ls: Seq<Seq<char>>, li: int, ci: int)
    requires
        0 <= li < ls.len(),
        0 <= ci <= ls[li].len(),
    ensures
        doc_chars(ls.take(li)).len() + nonspace(ls[li].take(ci)).len() <= doc_chars(ls).len(),
{
    lemma_nonspace_prefix(ls[li], ci);
    assert(ls.take(li + 1).drop_last() =~= ls.take(li));
    assert(ls.take(li + 1).last() == ls[li]);
    lemma_doc_prefix(ls, li + 1);
}

/// The classification a document's lines determine: one record per language
/// with a non-zero character tally, in table order, each carrying the
/// language's display name, its character count, and the exact normalized
/// percentage `100 * count / total` over the shared total of classified
/// characters. An empty tally yields an empty distribution.
pub open spec fn is_distribution_of(d: Seq<LangInfo>, lines: Seq<Seq<char>>) -> bool {
    let dc = doc_chars(lines);
    let ci = counts_after(dc);
    let ps = present_upto(ci, 59);
    &&& d.len() == ps.len()
    &&& forall|j: int|
        0 <= j < d.len() ==> {
            &&& (#[trigger] d[j]).lang@ == lang_name(spec_table()[ps[j]].lang)
            &&& d[j].total_character as int == ci[ps[j]]
            &&& d[j].percentage.num == d[j].total_character
            &&& d[j].percentage.den as int == dc.len()
        }
}

/// Classifies a document: splits its lines into words, attributes every
/// character of every word to the first matching script range, and returns
/// the per-language records of `is_distribution_of`.
///
/// Classification never fails: characters outside every range land in the
/// `Unknown` bucket. Empty input yields an empty distribution.
pub fn lang_detect(lines: Vec<String>) -> (r: Vec<LangInfo>)
    requires
        doc_chars(crate::text::views_of(lines@)).len() <= usize::MAX,
    ensures
        is_distribution_of(r@, crate::text::views_of(lines@)),
{
    let ghost ls = crate::text::views_of(lines@);
    let table = script_table();
    let mut counts: Vec<usize> = Vec::new();
    let mut t: usize = 0;
    while t < 59
        invariant
            t <= 59,
            counts@.len() == t as int,
            forall|u: int| 0 <= u < t ==> counts@[u] == 0,
        decreases 59 - t,
    {
        counts.push(0);
        t = t + 1;
    }
    let mut total: usize = 0;
    let ghost mut done: Seq<char> = Seq::empty();
    proof {
        assert(ls.take(0) =~= Seq::<Seq<char>>::empty());
        assert(counts@.map_values(|x: usize| x as int) =~= counts_after(done));
    }
    let mut li: usize = 0;
    while li < lines.len()
        invariant
            li <= lines.len(),
            ls == crate::text::views_of(lines@),
            doc_chars(ls).len() <= usize::MAX,
            table@ == spec_table(),
            counts@.len() == 59,
            done == doc_chars(ls.take(li as int)),
            total == done.len(),
            forall|u: int| 0 <= u < 59 ==> #[trigger] counts@[u] as int == counts_after(done)[u],
        decreases lines.len() - li,
    {
        let line: &String = &lines[li];
        proof {
            assert(ls[li as int] == lines@[li as int]@);
        }
        let n: usize = line.as_str().unicode_len();
        let ghost mut cur = done;
        proof {
            assert(line@.take(0) =~= Seq::<char>::empty());
            assert(cur =~= done + nonspace(line@.take(0)));
        }
        let mut j: usize = 0;
        while j < n
            invariant
                j <= n,
                n == line@.len(),
                li < lines.len(),
                line@ == ls[li as int],
                ls == crate::text::views_of(lines@),
                doc_chars(ls).len() <= usize::MAX,
                table@ == spec_table(),
                counts@.len() == 59,
                done == doc_chars(ls.take(li as int)),
                cur == done + nonspace(line@.take(j as int)),
                total == cur.len(),
                forall|u: int| 0 <= u < 59 ==> #[trigger] counts@[u] as int == counts_after(
                    cur,
                )[u],
            decreases n - j,
        {
            let c: char = line.as_str().get_char(j);
            proof {
                assert(line@.take(j + 1).drop_last() =~= line@.take(j as int));
                assert(line@.take(j + 1).last() == line@[j as int]);
            }
            if !crate::text::is_space_char(c) {
                proof {
                    lemma_partial_bound(ls, li as int, j + 1);
                    assert(nonspace(line@.take(j + 1)) == nonspace(line@.take(j as int)).push(c));
                    assert(cur.push(c) =~= done + nonspace(line@.take(j + 1)));
                    lemma_counts_invariants(cur);
                    lemma_classify_idx(c);
                }
                let idx: usize = find_unicode_idx(&table, c);
                counts[idx] = counts[idx] + 1;
                total = total + 1;
                proof {
                    let before = cur;
                    let prev = counts_after(before);
                    cur = before.push(c);
                    assert(cur.drop_last() =~= before);
                    assert(cur.last() == c);
                    assert(counts_after(cur) == prev.update(classify_idx(c), prev[classify_idx(c)]
                        + 1));
                    assert(idx as int == classify_idx(c));
                }
            } else {
                proof {
                    assert(nonspace(line@.take(j + 1)) == nonspace(line@.take(j as int)));
                    assert(cur =~= done + nonspace(line@.take(j + 1)));
                }
            }
            j = j + 1;
        }
        proof {
            assert(line@.take(n as int) =~= line@);
            assert(ls.take(li + 1).drop_last() =~= ls.take(li as int));
            assert(ls.take(li + 1).last() == ls[li as int]);
            assert(doc_chars(ls.take(li + 1)) == doc_chars(ls.take(li as int)) + nonspace(
                ls[li as int],
            ));
            done = cur;
        }
        li = li + 1;
    }
    proof {
        assert(ls.take(lines@.len() as int) =~= ls);
    }
    let r = build_lang_infos(&counts, total);
    proof {
        let dc = doc_chars(ls);
        let cafter = counts_after(dc);
        lemma_counts_invariants(dc);
        let cu = counts@.map_values(|x: usize| x as int);
        assert(cu =~= cafter);
        let ps = present_upto(cafter, 59);
        lemma_present_range(cafter, 59);
        if total == 0 {
            lemma_present_of_zeros(cafter, 59);
            assert(r@.len() == 0);
        } else {
            assert forall|j: int| 0 <= j < r@.len() implies {
                &&& (#[trigger] r@[j]).lang@ == lang_name(spec_table()[ps[j]].lang)
                &&& r@[j].total_character as int == cafter[ps[j]]
                &&& r@[j].percentage.num == r@[j].total_character
                &&& r@[j].percentage.den as int == dc.len()
            } by {
                assert(0 <= ps[j] < 59);
                assert(r@[j].lang@ == lang_name(spec_table()[ps[j]].lang));
                assert(r@[j].total_character == counts@[ps[j]]);
                assert(cafter[ps[j]] == counts@[ps[j]] as int);
                assert(r@[j].percentage == pct_of(counts@[ps[j]], total, r@.len() as usize));
                assert(total == dc.len());
            }
        }
    }
    r
}

proof fn lemma_present_range(counts: Seq<int>, k: int)
    ensures
        forall|j: int|
            0 <= j < present_upto(counts, k).len() ==> 0 <= #[trigger] present_upto(counts, k)[j]
                < k,
    decreases k,
{
    if k > 0 {
        lemma_present_range(counts, k - 1);
        let prev = present_upto(counts, k - 1);
        let cur = present_upto(counts, k);
        assert forall|j: int| 0 <= j < cur.len() implies 0 <= #[trigger] cur[j] < k by {
            if counts[k - 1] > 0 {
                assert(cur == prev.push(k - 1));
                if j < prev.len() {
                    assert(cur[j] == prev[j]);
                }
            } else {
                assert(cur == prev);
            }
        }
    }
}

proof fn lemma_present_positive(counts: Seq<int>, k: int)
    ensures
        forall|j: int|
            0 <= j < present_upto(counts, k).len() ==> counts[#[trigger] present_upto(
                counts,
                k,
            )[j]] > 0,
    decreases k,
{
    if k > 0 {
        lemma_present_positive(counts, k - 1);
        let prev = present_upto(counts, k - 1);
        let cur = present_upto(counts, k);
        assert forall|j: int| 0 <= j < cur.len() implies counts[#[trigger] cur[j]] > 0 by {
            if counts[k - 1] > 0 {
                assert(cur == prev.push(k - 1));
                if j < prev.len() {
                    assert(cur[j] == prev[j]);
                }
            } else {
                assert(cur == prev);
            }
        }
    }
}

/// Distribution invariants: every present record counts at least one
/// character, and its percentage is a well-formed share — a positive
/// denominator and a value of at most 100.
pub proof fn lemma_distribution_invariants(d: Seq<LangInfo>, lines: Seq<Seq<char>>)
    requires
        is_distribution_of(d, lines),
    ensures
        forall|j: int| 0 <= j < d.len() ==> (#[trigger] d[j]).total_character > 0,
        forall|j: int| 0 <= j < d.len() ==> pct_wf((#[trigger] d[j]).percentage),
{
    let dc = doc_chars(lines);
    let ci = counts_after(dc);
    let ps = present_upto(ci, 59);
    lemma_counts_invariants(dc);
    lemma_present_positive(ci, 59);
    lemma_present_range(ci, 59);
    assert forall|j: int| 0 <= j < d.len() implies (#[trigger] d[j]).total_character > 0 && pct_wf(
        d[j].percentage,
    ) by {
        assert(0 <= ps[j] < 59);
        assert(ci[ps[j]] > 0);
        assert(ci[ps[j]] <= dc.len());
    }
}

/// Idempotence of classification: the distribution is a function of the
/// lines alone, so classifying the same source lines twice, with no mutation
/// in between, yields identical records, field for field.
pub proof fn lemma_classification_deterministic(
    d1: Seq<LangInfo>,
    d2: Seq<LangInfo>,
    lines: Seq<Seq<char>>,
)
    requires
        is_distribution_of(d1, lines),
        is_distribution_of(d2, lines),
    ensures
        d1.len() == d2.len(),
        forall|j: int|
            0 <= j < d1.len() ==> {
                &&& (#[trigger] d1[j]).lang@ == d2[j].lang@
                &&& d1[j].total_character == d2[j].total_character
                &&& d1[j].percentage == d2[j].percentage
            },
{
}

/// Equal-split fallback: when no character at all was classified
/// (`total == 0`) yet `k` positions hold a (necessarily zero-weighted)
/// tally, every record's percentage is exactly `100 / k`.
pub proof fn lemma_equal_split(d: Seq<LangInfo>, counts: Seq<usize>, k: usize)
    requires
        is_lang_infos_of(d, counts, 0),
        d.len() == k,
        k > 0,
    ensures
        forall|j: int|
            0 <= j < d.len() ==> (#[trigger] d[j]).percentage == (Percent { num: 1, den: k }),
{
}

} // verus!
