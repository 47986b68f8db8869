use tokenizers::aligned::NormalizedString;
use tokenizers::metaspace::Metaspace;

fn seg(s: &str, a: usize, b: usize) -> (String, (usize, usize)) {
    (s.to_string(), (a, b))
}

#[test]
fn metaspace_basic() {
    let pretok = Metaspace::new('▁', true, false);
    let mut input = NormalizedString::from_text("Hey friend!");
    let res = pretok.pre_tokenize(&mut input);
    assert_eq!(&res, &[seg("▁Hey", 0, 4), seg("▁friend!", 4, 12)]);
}

#[test]
fn multiple_spaces() {
    let pretok = Metaspace::new('▁', true, false);
    let mut input = NormalizedString::from_text("Hey   friend!");
    let res = pretok.pre_tokenize(&mut input);
    assert_eq!(
        &res,
        &[
            seg("▁Hey", 0, 4),
            seg("▁", 4, 5),
            seg("▁", 5, 6),
            seg("▁friend!", 6, 14),
        ]
    );
}

#[test]
fn multiple_spaces_no_consecutive() {
    let pretok = Metaspace::new('▁', true, true);
    let mut input = NormalizedString::from_text("Hey   friend!");
    let res = pretok.pre_tokenize(&mut input);
    assert_eq!(&res, &[seg("▁Hey", 0, 4), seg("▁friend!", 6, 14)]);
}

#[test]
fn multiple_spaces_no_last_space() {
    let pretok = Metaspace::new('▁', true, true);
    let mut input = NormalizedString::from_text("Hey   friend!   ");
    let res = pretok.pre_tokenize(&mut input);
    assert_eq!(&res, &[seg("▁Hey", 0, 4), seg("▁friend!", 6, 14)]);
}

#[test]
fn decode() {
    let decoder = Metaspace::new('▁', true, false);
    let res = decoder.decode(vec!["▁Hey".into(), "▁friend!".into()]);
    assert_eq!(&res, "Hey friend!")
}

#[test]
fn prefix_space_not_doubled() {
    let pretok = Metaspace::new('▁', true, false);
    let mut input = NormalizedString::from_text(" Hey");
    let res = pretok.pre_tokenize(&mut input);
    assert_eq!(input.get(), " Hey");
    assert_eq!(&res, &[seg("▁Hey", 0, 4)]);
}

#[test]
fn no_prefix_space() {
    let pretok = Metaspace::new('▁', false, false);
    let mut input = NormalizedString::from_text("Hey friend");
    let res = pretok.pre_tokenize(&mut input);
    assert_eq!(&res, &[seg("Hey", 0, 3), seg("▁friend", 3, 10)]);
}

#[test]
fn empty_text() {
    let pretok = Metaspace::new('▁', true, true);
    let mut input = NormalizedString::from_text("");
    assert!(pretok.pre_tokenize(&mut input).is_empty());
    let pretok = Metaspace::new('▁', false, false);
    let mut input = NormalizedString::from_text("");
    assert!(pretok.pre_tokenize(&mut input).is_empty());
}

#[test]
fn tabs_and_newlines_split() {
    let pretok = Metaspace::new('▁', false, true);
    let mut input = NormalizedString::from_text("a\t\nb");
    let res = pretok.pre_tokenize(&mut input);
    assert_eq!(&res, &[seg("a", 0, 1), seg("▁b", 2, 4)]);
}

#[test]
fn decode_without_prefix_space() {
    let decoder = Metaspace::new('▁', false, false);
    let res = decoder.decode(vec!["▁Hey".into(), "▁friend!".into()]);
    assert_eq!(&res, " Hey friend!");
}

#[test]
fn decode_round_trip_collapses_whitespace() {
    let pretok = Metaspace::default();
    let pretok2 = Metaspace::new('▁', true, true);
    let mut input = NormalizedString::from_text("  Hey \t friend!  ");
    let res = pretok2.pre_tokenize(&mut input);
    let tokens: Vec<String> = res.into_iter().map(|(s, _)| s).collect();
    assert_eq!(pretok.decode(tokens), "Hey friend!");
}
