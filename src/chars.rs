//! Character classification used by the normalizer and the splitter.
use unicode_categories::UnicodeCategories;
use unicode_normalization::UnicodeNormalization;
use vstd::prelude::*;

verus! {

/// The characters that carry Unicode's `White_Space` property.
pub open spec fn white_space_prop(c: char) -> bool {
    let u = c as u32;
    (0x09 <= u && u <= 0x0D) || u == 0x20 || u == 0x85 || u == 0xA0 || u == 0x1680 || (0x2000
        <= u && u <= 0x200A) || u == 0x2028 || u == 0x2029 || u == 0x202F || u == 0x205F || u
        == 0x3000
}

/// Membership in the general categories Cc, Cf or Co, as tabulated by
/// `unicode_categories`.
pub uninterp spec fn other_category(c: char) -> bool;

/// Membership in a letter category (Lu, Ll, Lt, Lm, Lo), as tabulated by
/// `unicode_categories`.
pub uninterp spec fn letter_category(c: char) -> bool;

/// Membership in a mark category (Mn, Mc, Me), as tabulated by
/// `unicode_categories`.
pub uninterp spec fn mark_category(c: char) -> bool;

/// Membership in a number category (Nd, Nl, No), as tabulated by
/// `unicode_categories`.
pub uninterp spec fn number_category(c: char) -> bool;

/// Membership in a punctuation category (Pc, Pd, Ps, Pe, Pi, Pf, Po), as
/// tabulated by `unicode_categories`.
pub uninterp spec fn punctuation_category(c: char) -> bool;

/// Membership in a symbol category (Sm, Sc, Sk, So), as tabulated by
/// `unicode_categories`.
pub uninterp spec fn symbol_category(c: char) -> bool;

/// Membership in a separator category (Zs, Zl, Zp), as tabulated by
/// `unicode_categories`.
pub uninterp spec fn separator_category(c: char) -> bool;

/// Membership in the general category Mn, as tabulated by `unicode_categories`.
pub uninterp spec fn nonspacing_mark(c: char) -> bool;

/// Relies on `char::is_whitespace`: true exactly for the `White_Space` characters.
#[verifier::external_body]
pub(crate) fn unicode_is_whitespace(c: char) -> (r: bool)
    ensures
        r == white_space_prop(c),
{
    c.is_whitespace()
}

/// Membership in Cc, Cf or Co: never for a printable ASCII character.
pub open spec fn other_prop(c: char) -> bool {
    if ' ' <= c && c <= '~' {
        false
    } else {
        other_category(c)
    }
}

/// Relies on `UnicodeCategories::is_other` of `unicode_categories`: a lookup in
/// its Cc, Cf and Co tables, none of which holds a printable ASCII character.
#[verifier::external_body]
fn unicode_is_other(c: char) -> (r: bool)
    ensures
        !(' ' <= c && c <= '~') ==> r == other_category(c),
        (' ' <= c && c <= '~') ==> !r,
{
    c.is_other()
}

/// Membership in Zs, Zl or Zp: always for the plain space.
pub open spec fn separator_prop(c: char) -> bool {
    if c == ' ' {
        true
    } else {
        separator_category(c)
    }
}

/// The blocks that `unicode_categories` counts as letters (Lo) by range
/// rather than by table: CJK Unified Ideographs, its extensions A to E,
/// Tangut and the Hangul syllables.
pub open spec fn letter_block(c: char) -> bool {
    let u = c as u32;
    (0x3400 <= u && u <= 0x4DB5) || (0x4E00 <= u && u <= 0x9FD5) || (0xAC00 <= u && u <= 0xD7A3)
        || (0x17000 <= u && u <= 0x187EC) || (0x20000 <= u && u <= 0x2A6D6) || (0x2A700 <= u && u <= 0x2B734) || (0x2B740 <= u
        && u <= 0x2B81D) || (0x2B820 <= u && u <= 0x2CEA1)
}

/// An unassigned code point (Cn): one in no general category of the Unicode
/// data that `unicode_categories` carries (Unicode 9.0). Characters assigned
/// by later versions of Unicode count as unassigned here.
pub open spec fn unassigned_prop(c: char) -> bool {
    !(letter_category(c) || mark_category(c) || number_category(c)
        || punctuation_category(c) || symbol_category(c) || separator_prop(c) || other_prop(c))
}

/// Relies on `UnicodeCategories::is_letter` of `unicode_categories`, whose
/// `is_letter_other` accepts the ideograph, Tangut and Hangul syllable blocks
/// by range.
#[verifier::external_body]
fn unicode_is_letter(c: char) -> (r: bool)
    ensures
        r == letter_category(c),
        letter_block(c) ==> r,
{
    c.is_letter()
}

/// Relies on `UnicodeCategories::is_mark` of `unicode_categories`.
#[verifier::external_body]
fn unicode_is_mark(c: char) -> (r: bool)
    ensures
        r == mark_category(c),
{
    c.is_mark()
}

/// Relies on `UnicodeCategories::is_number` of `unicode_categories`.
#[verifier::external_body]
fn unicode_is_number(c: char) -> (r: bool)
    ensures
        r == number_category(c),
{
    c.is_number()
}

/// Relies on `UnicodeCategories::is_punctuation` of `unicode_categories`.
#[verifier::external_body]
fn unicode_is_punctuation(c: char) -> (r: bool)
    ensures
        r == punctuation_category(c),
{
    c.is_punctuation()
}

/// Relies on `UnicodeCategories::is_symbol` of `unicode_categories`.
#[verifier::external_body]
fn unicode_is_symbol(c: char) -> (r: bool)
    ensures
        r == symbol_category(c),
{
    c.is_symbol()
}

/// Relies on `UnicodeCategories::is_separator` of `unicode_categories`: its
/// Zs table holds the plain space.
#[verifier::external_body]
fn unicode_is_separator(c: char) -> (r: bool)
    ensures
        c != ' ' ==> r == separator_category(c),
        c == ' ' ==> r,
{
    c.is_separator()
}

/// Whether `c` is an unassigned code point.
pub fn is_unassigned(c: char) -> (r: bool)
    ensures
        r == unassigned_prop(c),
{
    !(unicode_is_letter(c) || unicode_is_mark(c) || unicode_is_number(c)
        || unicode_is_punctuation(c) || unicode_is_symbol(c) || unicode_is_separator(c)
        || unicode_is_other(c))
}

/// Relies on `UnicodeCategories::is_mark_nonspacing` of `unicode_categories`:
/// a lookup in its Mn table.
#[verifier::external_body]
pub(crate) fn unicode_is_mark_nonspacing(c: char) -> (r: bool)
    ensures
        r == nonspacing_mark(c),
{
    c.is_mark_nonspacing()
}

pub open spec fn is_whitespace_spec(c: char) -> bool {
    c == '\t' || c == '\n' || c == '\r' || white_space_prop(c)
}

pub open spec fn is_control_spec(c: char) -> bool {
    !(c == '\t' || c == '\n' || c == '\r') && (other_prop(c) || unassigned_prop(c))
}

pub open spec fn is_chinese_char_spec(c: char) -> bool {
    let u = c as u32;
    (0x4E00 <= u && u <= 0x9FFF) || (0x3400 <= u && u <= 0x4DBF) || (0x20000 <= u && u
        <= 0x2A6DF) || (0x2A700 <= u && u <= 0x2B73F) || (0x2B740 <= u && u <= 0x2B81F) || (
    0x2B920 <= u && u <= 0x2CEAF) || (0xF900 <= u && u <= 0xFAFF) || (0x2F800 <= u && u
        <= 0x2FA1F)
}

pub open spec fn is_number_spec(c: char) -> bool {
    0x30 <= (c as u32) && (c as u32) <= 0x39
}

/// Whether `c` is whitespace: tab, newline and carriage return, and every
/// character with the Unicode `White_Space` property.
pub fn is_whitespace(c: char) -> (r: bool)
    ensures
        r == is_whitespace_spec(c),
{
    if c == '\t' || c == '\n' || c == '\r' {
        true
    } else {
        unicode_is_whitespace(c)
    }
}

/// Whether `c` is a control character: control, format, private use or
/// unassigned (in Unicode 9.0, see `unassigned_prop`), except tab, newline and carriage return, which count as
/// whitespace.
pub fn is_control(c: char) -> (r: bool)
    ensures
        r == is_control_spec(c),
{
    if c == '\t' || c == '\n' || c == '\r' {
        false
    } else {
        unicode_is_other(c) || is_unassigned(c)
    }
}

/// Whether `c` lies in one of the CJK Unified Ideographs blocks (base,
/// extensions A to F, and the two compatibility blocks).
pub fn is_chinese_char(c: char) -> (r: bool)
    ensures
        r == is_chinese_char_spec(c),
{
    let u = c as u32;
    (0x4E00 <= u && u <= 0x9FFF) || (0x3400 <= u && u <= 0x4DBF) || (0x20000 <= u && u
        <= 0x2A6DF) || (0x2A700 <= u && u <= 0x2B73F) || (0x2B740 <= u && u <= 0x2B81F) || (
    0x2B920 <= u && u <= 0x2CEAF) || (0xF900 <= u && u <= 0xFAFF) || (0x2F800 <= u && u
        <= 0x2FA1F)
}

/// Whether `c` is an ASCII digit.
pub fn is_number(c: char) -> (r: bool)
    ensures
        r == is_number_spec(c),
{
    let u = c as u32;
    0x30 <= u && u <= 0x39
}

} // verus!

verus! {

/// The canonical decomposition of a character, as `unicode_normalization`
/// computes it.
pub uninterp spec fn canonical_decomposition(c: char) -> Seq<char>;

/// The lowercase mapping of a character, as `char::to_lowercase` gives it.
pub uninterp spec fn lowercase_of(c: char) -> Seq<char>;

/// Relies on `UnicodeNormalization::nfd` of `unicode_normalization` on the
/// one-character string: the canonical decomposition of `c`.
#[verifier::external_body]
pub(crate) fn decompose(c: char) -> (r: Vec<char>)
    ensures
        r@ == canonical_decomposition(c),
{
    let s = c.to_string();
    s.nfd().collect()
}

/// Relies on `char::to_lowercase`: the characters of its lowercase mapping.
#[verifier::external_body]
pub(crate) fn to_lowercase(c: char) -> (r: Vec<char>)
    ensures
        r@ == lowercase_of(c),
{
    c.to_lowercase().collect()
}

} // verus!

verus! {

/// The canonical decomposition (NFD) of a text, marks in canonical order, as
/// `unicode_normalization` computes it.
pub uninterp spec fn nfd_of(s: Seq<char>) -> Seq<char>;

/// Relies on `UnicodeNormalization::nfd` of `unicode_normalization`: the NFD
/// of the whole text.
#[verifier::external_body]
pub(crate) fn nfd(s: &Vec<char>) -> (r: Vec<char>)
    ensures
        r@ == nfd_of(s@),
{
    let t: String = s.iter().collect();
    t.nfd().collect()
}

} // verus!
