use tokenizers::chars::{is_control, is_unassigned};
use tokenizers::aligned::NormalizedString;
use tokenizers::normalizer::{BertNormalizer, ConfigError, Conversion, _OpenCC};

fn build(
    clean: bool,
    chinese: bool,
    numbers: bool,
    strip: Option<bool>,
    lower: bool,
    special: &str,
    zh_norm: bool,
    simpl: bool,
    variants: &str,
    simplified: &str,
) -> BertNormalizer {
    BertNormalizer::new(
        clean,
        chinese,
        numbers,
        strip,
        lower,
        special.to_string(),
        "s2t".to_string(),
        zh_norm,
        simpl,
        variants,
        simplified,
    )
    .unwrap()
}

fn run(norm: &BertNormalizer, text: &str) -> String {
    let mut input = NormalizedString::from_text(text);
    let converted = norm.conversion_input(&input);
    assert!(converted.is_none());
    norm.normalize(&mut input, None);
    input.get()
}

#[test]
fn bert_basic() {
    let norm = build(true, true, true, Some(true), true, "", true, true, "", "头\t頭\n");
    assert_eq!(run(&norm, "头部"), " 頭  部 ");
}

#[test]
fn default_cleans_strips_and_lowercases() {
    let norm = BertNormalizer::default();
    assert_eq!(run(&norm, "Héllo\tWORLD\u{200B}\u{0}"), "hello world");
}

#[test]
fn replacement_character_dropped() {
    let norm = build(true, false, false, Some(false), false, "", false, false, "", "");
    assert_eq!(run(&norm, "a\u{FFFD}b\u{3000}c\r\nd"), "ab c  d");
}

#[test]
fn cleaning_twice_is_cleaning_once() {
    let norm = build(true, false, false, Some(false), false, "", false, false, "", "");
    let once = run(&norm, "a\u{3000}b\u{7}\u{0} c");
    assert_eq!(once, "a b c");
    assert_eq!(run(&norm, &once), once);
}

#[test]
fn chinese_chars_between_spaces() {
    let norm = build(false, true, false, Some(false), false, "", false, false, "", "");
    assert_eq!(run(&norm, "a中b"), "a 中 b");
}

#[test]
fn numbers_separated() {
    let norm = build(false, false, true, Some(false), false, "", false, false, "", "");
    assert_eq!(run(&norm, "a12"), "a 1  2 ");
}

#[test]
fn special_chars_separated() {
    let norm = build(false, false, false, Some(false), false, "<>", false, false, "", "");
    assert_eq!(run(&norm, "a<b>"), "a < b > ");
}

#[test]
fn variant_table_rewrites_and_separates() {
    let norm = build(false, true, false, Some(false), false, "", true, false, "x\t中y\r\n", "");
    assert_eq!(run(&norm, "axb"), "a 中 yb");
}

#[test]
fn simplified_entry_follows_variant_rewrite() {
    let norm = build(false, false, false, Some(false), false, "", true, true, "B\tbee\n", "A\tB\nC\tD\n");
    assert_eq!(run(&norm, "ABC"), "beebeeD");
}

#[test]
fn variant_entry_wins_over_simplified() {
    let norm = build(false, false, false, Some(false), false, "", true, true, "A\tay\n", "A\tB\n");
    assert_eq!(run(&norm, "A"), "ay");
}

#[test]
fn table_ignored_without_zh_norm() {
    let norm = build(false, false, false, Some(false), false, "", false, true, "", "A\tB\n");
    assert_eq!(run(&norm, "A"), "A");
}

#[test]
fn single_ambiguous_char_not_converted() {
    let norm = build(false, false, false, Some(false), false, "", false, true, "", "头\t頭\n买\t買\n丢\n");
    let input = NormalizedString::from_text("头头头 abc");
    assert!(norm.conversion_input(&input).is_none());
}

#[test]
fn two_ambiguous_chars_converted() {
    let norm = build(true, true, false, Some(false), false, "", false, true, "", "头\t頭\n买\t買\n丢\n");
    let mut input = NormalizedString::from_text("买头\u{0}");
    let converted = norm.conversion_input(&input).unwrap();
    let text: String = converted.iter().collect();
    assert_eq!(text, "买头 ");
    norm.normalize(&mut input, Some("買頭 ".chars().collect()));
    assert_eq!(input.get(), " 買  頭  ");
}

#[test]
fn entry_without_counterpart_counts_as_simplified() {
    let norm = build(false, false, false, Some(false), false, "", false, true, "", "丢\n头\t頭\n");
    let input = NormalizedString::from_text("丢头");
    assert!(norm.conversion_input(&input).is_some());
}

#[test]
fn conversion_off_without_handle_simpl() {
    let norm = build(false, false, false, Some(false), false, "", false, false, "", "");
    let input = NormalizedString::from_text("买头");
    assert!(norm.conversion_input(&input).is_none());
}

#[test]
fn unknown_conversion_rejected() {
    let r = BertNormalizer::new(
        true, true, false, None, true, String::new(), "x2y".to_string(), false, false, "", "",
    );
    assert!(matches!(r, Err(ConfigError::UnknownConversion)));
    assert!(matches!(_OpenCC::new("t2x".to_string()), Err(ConfigError::UnknownConversion)));
}

#[test]
fn conversion_tag_case_insensitive() {
    assert_eq!(_OpenCC::new("S2TW".to_string()).unwrap().config(), Conversion::S2TW);
    assert_eq!(_OpenCC::new("Tw2Sp".to_string()).unwrap().config(), Conversion::TW2SP);
    assert_eq!(_OpenCC::new("hk2s".to_string()).unwrap().config(), Conversion::HK2S);
    let norm = BertNormalizer::new(
        true, true, false, None, true, String::new(), "T2HK".to_string(), false, false, "", "",
    )
    .unwrap();
    assert_eq!(norm.conversion(), Conversion::T2HK);
}

#[test]
fn malformed_variant_table_rejected() {
    let r = BertNormalizer::new(
        true, true, false, None, true, String::new(), "s2t".to_string(), true, false, "头頭\n", "",
    );
    assert!(matches!(r, Err(ConfigError::MalformedVariantTable)));
}

#[test]
fn malformed_simplified_table_rejected() {
    let r = BertNormalizer::new(
        true, true, false, None, true, String::new(), "s2t".to_string(), false, true, "", "\t頭\n",
    );
    assert!(matches!(r, Err(ConfigError::MalformedSimplifiedTable)));
    let r = BertNormalizer::new(
        true, true, false, None, true, String::new(), "s2t".to_string(), false, true, "", "头\t\n",
    );
    assert!(matches!(r, Err(ConfigError::MalformedSimplifiedTable)));
}

#[test]
fn empty_line_is_malformed() {
    let r = BertNormalizer::new(
        true, true, false, None, true, String::new(), "s2t".to_string(), true, false, "a\tb\n\nc\td\n", "",
    );
    assert!(matches!(r, Err(ConfigError::MalformedVariantTable)));
}

#[test]
fn strip_accents_follows_lowercase() {
    let norm = build(false, false, false, None, false, "", false, false, "", "");
    assert_eq!(run(&norm, "Éa"), "Éa");
    let norm = build(false, false, false, Some(true), false, "", false, false, "", "");
    assert_eq!(run(&norm, "Éa"), "Ea");
    let norm = build(false, false, false, Some(false), true, "", false, false, "", "");
    assert_eq!(run(&norm, "Éa"), "éa");
}

#[test]
fn alignment_keeps_original() {
    let mut s = NormalizedString::from_text("ab");
    s.prepend(' ');
    assert_eq!(s.get(), " ab");
    assert_eq!(s.len(), 3);
}

#[test]
fn control_includes_unassigned() {
    assert!(is_control('\u{0}'));
    assert!(is_control('\u{200B}'));
    assert!(is_control('\u{B}'));
    assert!(is_control('\u{378}'));
    assert!(is_unassigned('\u{378}'));
    assert!(is_control('\u{E000}'));
    assert!(!is_control('\t'));
    assert!(!is_control('\n'));
    assert!(!is_control('a'));
    assert!(!is_control(' '));
    assert!(!is_control('中'));
    assert!(!is_control('\u{4E01}'));
    assert!(!is_control('\u{AC01}'));
    assert!(!is_control('\u{20001}'));
    assert!(!is_unassigned('é'));
}

#[test]
fn cleaning_drops_unassigned() {
    let norm = build(true, false, false, Some(false), false, "", false, false, "", "");
    assert_eq!(run(&norm, "a\u{378}b\u{4E01}"), "ab\u{4E01}");
}

#[test]
fn separation_keeps_ranges() {
    let norm = build(false, true, false, Some(false), false, "", false, false, "", "");
    let mut input = NormalizedString::from_text("a中");
    norm.normalize(&mut input, None);
    assert_eq!(input.get(), "a 中 ");
    assert_eq!(input.alignments(), &vec![(0, 1), (1, 2), (1, 2), (1, 2)]);
}

#[test]
fn cleaning_keeps_ranges_of_kept_chars() {
    let norm = build(true, false, false, Some(false), false, "", false, false, "", "");
    let mut input = NormalizedString::from_text("a\u{0}\tb");
    norm.normalize(&mut input, None);
    assert_eq!(input.get(), "a b");
    assert_eq!(input.alignments(), &vec![(0, 1), (2, 3), (3, 4)]);
}

#[test]
fn prepended_space_has_empty_range() {
    let mut s = NormalizedString::from_text("ab");
    assert_eq!(s.alignments(), &vec![(0, 1), (1, 2)]);
    s.prepend(' ');
    assert_eq!(s.alignments(), &vec![(0, 0), (0, 1), (1, 2)]);
}

#[test]
fn accents_stripped_with_marks_reordered() {
    let norm = build(false, false, false, Some(true), false, "", false, false, "", "");
    assert_eq!(run(&norm, "e\u{301}\u{327}x"), "ex");
    assert_eq!(run(&norm, "ñá"), "na");
}

#[test]
fn conversion_tag_kept() {
    let norm = BertNormalizer::new(
        true, true, false, None, true, String::new(), "S2T".to_string(), false, false, "", "",
    )
    .unwrap();
    assert_eq!(norm.conversion(), Conversion::S2T);
    assert_eq!(norm.conversion_tag(), "S2T");
    assert_eq!(BertNormalizer::default().conversion_tag(), "s2t");
}

#[test]
fn conversion_tag_folded_by_unicode_case() {
    assert_eq!(_OpenCC::new("t2h\u{212A}".to_string()).unwrap().config(), Conversion::T2HK);
    assert_eq!(_OpenCC::new("TW2S".to_string()).unwrap().config(), Conversion::TW2S);
    assert_eq!(_OpenCC::new("T2TW".to_string()).unwrap().config(), Conversion::T2TW);
    assert_eq!(_OpenCC::new("S2t".to_string()).unwrap().config(), Conversion::S2T);
    assert!(matches!(_OpenCC::new("TS2S".to_string()), Err(ConfigError::UnknownConversion)));
    assert!(matches!(_OpenCC::new("s2t ".to_string()), Err(ConfigError::UnknownConversion)));
}

#[test]
fn stripping_keeps_ranges_per_character() {
    let norm = build(false, false, false, Some(true), false, "", false, false, "", "");
    let mut input = NormalizedString::from_text("é\u{1E9B}a");
    norm.normalize(&mut input, None);
    assert_eq!(input.get(), "e\u{17F}a");
    assert_eq!(input.alignments(), &vec![(0, 1), (1, 2), (2, 3)]);
}

#[test]
fn converted_text_of_other_length_covers_whole_original() {
    let norm = build(false, false, false, Some(false), false, "", false, true, "", "头\t頭\n买\t買\n");
    let mut input = NormalizedString::from_text("买头");
    assert!(norm.conversion_input(&input).is_some());
    norm.normalize(&mut input, Some("買頭書".chars().collect()));
    assert_eq!(input.get(), "買頭書");
    assert_eq!(input.alignments(), &vec![(0, 2), (0, 2), (0, 2)]);
}
