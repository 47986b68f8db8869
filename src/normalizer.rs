//! The BERT normalizer: script conversion gating, text cleaning, character
//! separation with Chinese variant rewriting, accent stripping, lowercasing.
use crate::aligned::{chars_of, replaced_ranges, spread, views, NormalizedString};
use crate::chars::{
    canonical_decomposition, decompose, is_chinese_char, is_chinese_char_spec, is_control,
    is_control_spec, is_number, is_number_spec, is_whitespace, is_whitespace_spec, lowercase_of,
    nfd, nfd_of, nonspacing_mark, to_lowercase, unicode_is_mark_nonspacing,
};
use crate::tables::{
    add_simplified, add_variants, char_set_contains, char_set_insert, char_set_new,
    load_simplified, load_variants, table_get, table_new, table_view,
};
use fnv::{FnvHashMap, FnvHashSet};
use vstd::prelude::*;
use vstd::string::StrSliceExecFns;

verus! {

/// Why a normalizer could not be built.
#[derive(Debug, Clone, Copy, PartialEq, Eq, Structural)]
pub enum ConfigError {
    /// The conversion direction tag names no known direction.
    UnknownConversion,
    /// A line of the variant table lacks its first field or its tab.
    MalformedVariantTable,
    /// A line of the simplified table lacks its first field, or has an empty
    /// second field.
    MalformedSimplifiedTable,
}

/// A direction of Chinese script conversion.
#[derive(Debug, Clone, Copy, PartialEq, Eq, Structural)]
pub enum Conversion {
    S2T,
    T2S,
    S2TW,
    TW2S,
    S2HK,
    HK2S,
    S2TWP,
    TW2SP,
    T2TW,
    T2HK,
}

/// The direction a tag names, regardless of case: the tag's lowercase
/// mapping is one of the ten direction names.
pub open spec fn conversion_of(tag: Seq<char>) -> Option<Conversion> {
    let t = lowered(tag);
    if t == "s2t"@ {
        Some(Conversion::S2T)
    } else if t == "t2s"@ {
        Some(Conversion::T2S)
    } else if t == "s2tw"@ {
        Some(Conversion::S2TW)
    } else if t == "tw2s"@ {
        Some(Conversion::TW2S)
    } else if t == "s2hk"@ {
        Some(Conversion::S2HK)
    } else if t == "hk2s"@ {
        Some(Conversion::HK2S)
    } else if t == "s2twp"@ {
        Some(Conversion::S2TWP)
    } else if t == "tw2sp"@ {
        Some(Conversion::TW2SP)
    } else if t == "t2tw"@ {
        Some(Conversion::T2TW)
    } else if t == "t2hk"@ {
        Some(Conversion::T2HK)
    } else {
        None
    }
}

/// Whether `v` holds exactly the characters of `t`.
fn same_as(v: &Vec<char>, t: &str) -> (r: bool)
    ensures
        r == (v@ == t@),
{
    let n = t.unicode_len();
    if v.len() != n {
        return false;
    }
    let mut i: usize = 0;
    while i < n
        invariant
            n == t@.len(),
            v@.len() == n,
            i <= n,
            forall|k: int| 0 <= k < i ==> v@[k] == t@[k],
        decreases n - i,
    {
        if v[i] != t.get_char(i) {
            return false;
        }
        i = i + 1;
    }
    assert(v@ =~= t@);
    true
}

/// The lowercase mapping of a text, character by character.
fn lowercase_text(s: &Vec<char>) -> (r: Vec<char>)
    ensures
        r@ == lowered(s@),
{
    let mut out: Vec<char> = Vec::new();
    for i in 0..s.len()
        invariant
            out@ == lowered(s@.subrange(0, i as int)),
    {
        let p = to_lowercase(s[i]);
        let ghost before = out@;
        for j in 0..p.len()
            invariant
                out@ == before + p@.subrange(0, j as int),
        {
            out.push(p[j]);
            assert(out@ =~= before + p@.subrange(0, j + 1));
        }
        assert(p@.subrange(0, p@.len() as int) =~= p@);
        proof {
            lemma_expand_push(s@, i as int, |c: char| lowercase_of(c));
        }
    }
    assert(s@.subrange(0, s@.len() as int) =~= s@);
    out
}

/// The configuration of a Chinese script converter: the direction it
/// converts in, and the tag it was named by.
pub struct _OpenCC {
    config: Conversion,
    config_name: String,
}

impl _OpenCC {
    pub closed spec fn direction(&self) -> Conversion {
        self.config
    }

    pub closed spec fn name(&self) -> Seq<char> {
        self.config_name@
    }

    /// Resolves a direction tag, regardless of case.
    pub fn new(config_name: String) -> (r: Result<Self, ConfigError>)
        ensures
            conversion_of(config_name@) is None ==> r == Err::<Self, ConfigError>(
                ConfigError::UnknownConversion,
            ),
            conversion_of(config_name@) is Some ==> r is Ok && r->Ok_0.direction()
                == conversion_of(config_name@)->Some_0 && r->Ok_0.name() == config_name@,
    {
        let tag = lowercase_text(&chars_of(config_name.as_str()));
        let config = if same_as(&tag, "s2t") {
            Conversion::S2T
        } else if same_as(&tag, "t2s") {
            Conversion::T2S
        } else if same_as(&tag, "s2tw") {
            Conversion::S2TW
        } else if same_as(&tag, "tw2s") {
            Conversion::TW2S
        } else if same_as(&tag, "s2hk") {
            Conversion::S2HK
        } else if same_as(&tag, "hk2s") {
            Conversion::HK2S
        } else if same_as(&tag, "s2twp") {
            Conversion::S2TWP
        } else if same_as(&tag, "tw2sp") {
            Conversion::TW2SP
        } else if same_as(&tag, "t2tw") {
            Conversion::T2TW
        } else if same_as(&tag, "t2hk") {
            Conversion::T2HK
        } else {
            return Err(ConfigError::UnknownConversion);
        };
        Ok(_OpenCC { config, config_name })
    }

    /// The direction of conversion.
    pub fn config(&self) -> (r: Conversion)
        ensures
            r == self.direction(),
    {
        self.config
    }
}


/// The characters that stand for `s` after each of them is replaced by
/// `f` of it, in order.
pub open spec fn expand(s: Seq<char>, f: spec_fn(char) -> Seq<char>) -> Seq<char>
    decreases s.len(),
{
    if s.len() == 0 {
        Seq::empty()
    } else {
        expand(s.drop_last(), f) + f(s.last())
    }
}

pub proof fn lemma_expand_push(s: Seq<char>, i: int, f: spec_fn(char) -> Seq<char>)
    requires
        0 <= i < s.len(),
    ensures
        expand(s.subrange(0, i + 1), f) == expand(s.subrange(0, i), f) + f(s[i]),
{
    assert(s.subrange(0, i + 1).drop_last() =~= s.subrange(0, i));
}

/// Expanding a concatenation expands each part.
pub proof fn lemma_expand_concat(a: Seq<char>, b: Seq<char>, f: spec_fn(char) -> Seq<char>)
    ensures
        expand(a + b, f) == expand(a, f) + expand(b, f),
    decreases b.len(),
{
    if b.len() == 0 {
        assert(a + b =~= a);
        assert(expand(a, f) + Seq::<char>::empty() =~= expand(a, f));
    } else {
        lemma_expand_concat(a, b.drop_last(), f);
        assert((a + b).drop_last() =~= a + b.drop_last());
        assert(expand(a, f) + expand(b.drop_last(), f) + f(b.last()) =~= expand(a, f) + (expand(
            b.drop_last(),
            f,
        ) + f(b.last())));
    }
}

proof fn lemma_expand_single(c: char, f: spec_fn(char) -> Seq<char>)
    ensures
        expand(seq![c], f) == f(c),
{
    assert(seq![c].drop_last() =~= Seq::<char>::empty());
    assert(expand(Seq::<char>::empty(), f) == Seq::<char>::empty());
    assert(Seq::<char>::empty() + f(c) =~= f(c));
    assert(expand(seq![c], f) == expand(seq![c].drop_last(), f) + f(c));
}

proof fn lemma_views_push(parts: Seq<Vec<char>>, p: Vec<char>)
    ensures
        views(parts.push(p)).flatten() == views(parts).flatten() + p@,
{
    assert(views(parts.push(p)) =~= views(parts).push(p@));
    views(parts).lemma_flatten_push(p@);
}

/// What cleaning makes of one character: NUL, the replacement character and
/// control characters go, whitespace becomes a plain space.
pub open spec fn clean_char(c: char) -> Seq<char> {
    if c as u32 == 0 || c as u32 == 0xFFFD || is_control_spec(c) {
        Seq::empty()
    } else if is_whitespace_spec(c) {
        seq![' ']
    } else {
        seq![c]
    }
}

pub open spec fn cleaned(s: Seq<char>) -> Seq<char> {
    expand(s, |c: char| clean_char(c))
}

/// The characters of `s` that are not nonspacing marks.
pub open spec fn without_marks(s: Seq<char>) -> Seq<char> {
    expand(s, |d: char| if nonspacing_mark(d) { Seq::empty() } else { seq![d] })
}

/// What accent stripping makes of a text: its canonical decomposition
/// without the nonspacing marks.
pub open spec fn stripped(s: Seq<char>) -> Seq<char> {
    without_marks(nfd_of(s))
}

/// Each character's canonical decomposition without nonspacing marks.
pub open spec fn strip_parts(s: Seq<char>) -> Seq<Seq<char>> {
    s.map_values(|c: char| without_marks(canonical_decomposition(c)))
}

/// The ranges after accent stripping: each produced character keeps the
/// range of the character it came from where decomposing character by
/// character gives the text's decomposition; otherwise the text is replaced
/// wholesale.
pub open spec fn stripped_ranges(s: Seq<char>, a: Seq<(usize, usize)>, n: nat) -> Seq<
    (usize, usize),
> {
    if strip_parts(s).flatten() == stripped(s) {
        spread(strip_parts(s), a)
    } else {
        replaced_ranges(stripped(s).len(), s.len(), a, n)
    }
}

/// The part that cleaning makes of each character.
pub open spec fn clean_parts(s: Seq<char>) -> Seq<Seq<char>> {
    s.map_values(|c: char| clean_char(c))
}

/// The part that lowercasing makes of each character.
pub open spec fn lower_parts(s: Seq<char>) -> Seq<Seq<char>> {
    s.map_values(|c: char| lowercase_of(c))
}

pub open spec fn lowered(s: Seq<char>) -> Seq<char> {
    expand(s, |c: char| lowercase_of(c))
}

/// The configuration of a normalizer, with its tables as mathematical values.
pub struct NormalizerView {
    pub clean_text: bool,
    pub handle_chinese_chars: bool,
    pub separate_numbers: bool,
    pub strip_accents: Option<bool>,
    pub lowercase: bool,
    pub check_special_chars: bool,
    pub special: Set<char>,
    pub zh_norm: bool,
    pub table: Map<char, Seq<char>>,
    pub conversion: Conversion,
    pub conversion_tag: Seq<char>,
    pub handle_simpl: bool,
    pub simplified: Set<char>,
}

/// Whether the separation stage puts spaces around `c`.
pub open spec fn is_separated(v: NormalizerView, c: char) -> bool {
    (v.handle_chinese_chars && is_chinese_char_spec(c)) || (v.separate_numbers && is_number_spec(c))
        || (v.check_special_chars && v.special.contains(c))
}

pub open spec fn spaced(v: NormalizerView, c: char) -> Seq<char> {
    if is_separated(v, c) {
        seq![' ', c, ' ']
    } else {
        seq![c]
    }
}

/// What the separation stage makes of one character: its replacement from
/// the variant table where that applies, else the character itself, each
/// produced character surrounded by spaces where it is separated.
pub open spec fn separate_char(v: NormalizerView, c: char) -> Seq<char> {
    if v.zh_norm && v.table.contains_key(c) {
        expand(v.table[c], |d: char| spaced(v, d))
    } else {
        spaced(v, c)
    }
}

pub open spec fn separated(v: NormalizerView, s: Seq<char>) -> Seq<char> {
    expand(s, |c: char| separate_char(v, c))
}

/// The part that the separation stage makes of each character.
pub open spec fn separate_parts(v: NormalizerView, s: Seq<char>) -> Seq<Seq<char>> {
    s.map_values(|c: char| separate_char(v, c))
}

/// Whether the separation stage runs at all.
pub open spec fn separation_on(v: NormalizerView) -> bool {
    v.handle_chinese_chars || v.separate_numbers || v.check_special_chars || v.zh_norm
}

/// Whether accents are stripped: as configured, else along with lowercasing.
pub open spec fn strips_accents(v: NormalizerView) -> bool {
    match v.strip_accents {
        Some(b) => b,
        None => v.lowercase,
    }
}

/// The distinct characters of `s` above U+2F00 that are simplified forms.
pub open spec fn ambiguous_chars(v: NormalizerView, s: Seq<char>) -> Set<char> {
    s.to_set().filter(|c: char| c as u32 > 12032 && v.simplified.contains(c))
}

/// Whether the text is handed to script conversion: only where at least two
/// distinct simplified forms occur in it.
pub open spec fn needs_conversion(v: NormalizerView, s: Seq<char>) -> bool {
    v.handle_simpl && ambiguous_chars(v, s).len() > 1
}

/// The text with each NUL replaced by a space.
pub open spec fn without_nul(s: Seq<char>) -> Seq<char> {
    expand(s, |c: char| if c == '\0' { seq![' '] } else { seq![c] })
}

/// The stages after script conversion, in order.
pub open spec fn after_conversion(v: NormalizerView, s: Seq<char>) -> Seq<char> {
    let a = if v.clean_text {
        cleaned(s)
    } else {
        s
    };
    let b = if separation_on(v) {
        separated(v, a)
    } else {
        a
    };
    let c = if strips_accents(v) {
        stripped(b)
    } else {
        b
    };
    if v.lowercase {
        lowered(c)
    } else {
        c
    }
}

/// The ranges after the stages that follow script conversion, for a text
/// `s` with ranges `a` into an original of `n` characters.
pub open spec fn after_conversion_ranges(
    v: NormalizerView,
    s: Seq<char>,
    a: Seq<(usize, usize)>,
    n: nat,
) -> Seq<(usize, usize)> {
    let s1 = if v.clean_text {
        cleaned(s)
    } else {
        s
    };
    let a1 = if v.clean_text {
        spread(clean_parts(s), a)
    } else {
        a
    };
    let s2 = if separation_on(v) {
        separated(v, s1)
    } else {
        s1
    };
    let a2 = if separation_on(v) {
        spread(separate_parts(v, s1), a1)
    } else {
        a1
    };
    let s3 = if strips_accents(v) {
        stripped(s2)
    } else {
        s2
    };
    let a3 = if strips_accents(v) {
        stripped_ranges(s2, a2, n)
    } else {
        a2
    };
    if v.lowercase {
        spread(lower_parts(s3), a3)
    } else {
        a3
    }
}

/// The tables a configuration loads: the variant table where `zh_norm` is
/// on, then the simplified table merged in where `handle_simpl` is on.
pub open spec fn built_tables(zh_norm: bool, handle_simpl: bool, a: Seq<char>, b: Seq<char>) -> Option<
    (Map<char, Seq<char>>, Set<char>),
> {
    let m = if zh_norm {
        load_variants(a, 0, Map::empty())
    } else {
        Some(Map::empty())
    };
    match m {
        None => None,
        Some(m) => if handle_simpl {
            load_simplified(b, 0, m, Set::empty())
        } else {
            Some((m, Set::empty()))
        },
    }
}

/// Normalizes text for BERT-style models.
pub struct BertNormalizer {
    clean_text: bool,
    handle_chinese_chars: bool,
    separate_numbers: bool,
    strip_accents: Option<bool>,
    lowercase: bool,
    check_special_chars: bool,
    special_char_mapping: FnvHashSet<char>,
    zh_norm: bool,
    zh_norm_mapping: FnvHashMap<char, Vec<char>>,
    opencc: _OpenCC,
    handle_simpl: bool,
    handle_simpl_mapping: FnvHashSet<char>,
}

impl View for BertNormalizer {
    type V = NormalizerView;

    closed spec fn view(&self) -> NormalizerView {
        NormalizerView {
            clean_text: self.clean_text,
            handle_chinese_chars: self.handle_chinese_chars,
            separate_numbers: self.separate_numbers,
            strip_accents: self.strip_accents,
            lowercase: self.lowercase,
            check_special_chars: self.check_special_chars,
            special: self.special_char_mapping@,
            zh_norm: self.zh_norm,
            table: table_view(self.zh_norm_mapping@),
            conversion: self.opencc.direction(),
            conversion_tag: self.opencc.name(),
            handle_simpl: self.handle_simpl,
            simplified: self.handle_simpl_mapping@,
        }
    }
}

/// The characters of `d` that are not nonspacing marks.
fn drop_marks(d: &Vec<char>) -> (r: Vec<char>)
    ensures
        r@ == without_marks(d@),
{
    let mut p: Vec<char> = Vec::new();
    for j in 0..d.len()
        invariant
            p@ == without_marks(d@.subrange(0, j as int)),
    {
        let e = d[j];
        let ghost before = p@;
        if !unicode_is_mark_nonspacing(e) {
            p.push(e);
        }
        proof {
            lemma_expand_push(
                d@,
                j as int,
                |d: char| if nonspacing_mark(d) { Seq::empty() } else { seq![d] },
            );
            if nonspacing_mark(e) {
                assert(p@ =~= before + Seq::<char>::empty());
            } else {
                assert(p@ =~= before + seq![e]);
            }
        }
    }
    assert(d@.subrange(0, d@.len() as int) =~= d@);
    p
}

fn same_chars(a: &Vec<char>, b: &Vec<char>) -> (r: bool)
    ensures
        r == (a@ == b@),
{
    if a.len() != b.len() {
        return false;
    }
    let mut i: usize = 0;
    while i < a.len()
        invariant
            a@.len() == b@.len(),
            i <= a@.len(),
            forall|k: int| 0 <= k < i ==> a@[k] == b@[k],
        decreases a@.len() - i,
    {
        if a[i] != b[i] {
            return false;
        }
        i = i + 1;
    }
    assert(a@ =~= b@);
    true
}

impl Default for BertNormalizer {
    /// Cleaning, Chinese character separation, lowercasing with accent
    /// stripping, and simplified-to-traditional conversion gating, with empty
    /// tables.
    fn default() -> (r: Self)
        ensures
            r@.clean_text,
            r@.handle_chinese_chars,
            !r@.separate_numbers,
            r@.strip_accents is None,
            r@.lowercase,
            !r@.check_special_chars,
            r@.special == Set::<char>::empty(),
            !r@.zh_norm,
            r@.table == Map::<char, Seq<char>>::empty(),
            r@.conversion == Conversion::S2T,
            r@.conversion_tag == "s2t"@,
            r@.handle_simpl,
            r@.simplified == Set::<char>::empty(),
    {
        let zh_norm_mapping = table_new();
        assert(table_view(zh_norm_mapping@) =~= Map::empty());
        Self {
            clean_text: true,
            handle_chinese_chars: true,
            separate_numbers: false,
            strip_accents: None,
            lowercase: true,
            check_special_chars: false,
            special_char_mapping: char_set_new(),
            zh_norm: false,
            zh_norm_mapping,
            opencc: _OpenCC { config: Conversion::S2T, config_name: String::from_str("s2t") },
            handle_simpl: true,
            handle_simpl_mapping: char_set_new(),
        }
    }
}

impl BertNormalizer {
    /// Builds a normalizer. `variant_table` and `simplified_table` are the
    /// texts of the two tables, read only where `zh_norm`, respectively
    /// `handle_simpl`, is on. Fails on a malformed table line, then on an
    /// unknown conversion direction.
    pub fn new(
        clean_text: bool,
        handle_chinese_chars: bool,
        separate_numbers: bool,
        strip_accents: Option<bool>,
        lowercase: bool,
        special_chars: String,
        opencc_config: String,
        zh_norm: bool,
        handle_simpl: bool,
        variant_table: &str,
        simplified_table: &str,
    ) -> (r: Result<Self, ConfigError>)
        ensures
            zh_norm && load_variants(variant_table@, 0, Map::empty()) is None ==> r == Err::<
                Self,
                ConfigError,
            >(ConfigError::MalformedVariantTable),
            built_tables(zh_norm, handle_simpl, variant_table@, simplified_table@) is None && !(
            zh_norm && load_variants(variant_table@, 0, Map::empty()) is None) ==> r == Err::<
                Self,
                ConfigError,
            >(ConfigError::MalformedSimplifiedTable),
            built_tables(zh_norm, handle_simpl, variant_table@, simplified_table@) is Some
                && conversion_of(opencc_config@) is None ==> r == Err::<Self, ConfigError>(
                ConfigError::UnknownConversion,
            ),
            built_tables(zh_norm, handle_simpl, variant_table@, simplified_table@) is Some
                && conversion_of(opencc_config@) is Some ==> r is Ok && ({
                let v = r->Ok_0@;
                let t = built_tables(zh_norm, handle_simpl, variant_table@, simplified_table@)->Some_0;
                &&& v.clean_text == clean_text
                &&& v.handle_chinese_chars == handle_chinese_chars
                &&& v.separate_numbers == separate_numbers
                &&& v.strip_accents == strip_accents
                &&& v.lowercase == lowercase
                &&& v.check_special_chars == (special_chars@.len() > 0)
                &&& v.special == special_chars@.to_set()
                &&& v.zh_norm == zh_norm
                &&& v.table == t.0
                &&& v.conversion == conversion_of(opencc_config@)->Some_0
                &&& v.conversion_tag == opencc_config@
                &&& v.handle_simpl == handle_simpl
                &&& v.simplified == t.1
            }),
    {
        let special = chars_of(special_chars.as_str());
        let mut special_char_mapping = char_set_new();
        let mut i: usize = 0;
        while i < special.len()
            invariant
                i <= special@.len(),
                special_char_mapping@ == special@.subrange(0, i as int).to_set(),
            decreases special@.len() - i,
        {
            char_set_insert(&mut special_char_mapping, special[i]);
            i = i + 1;
            assert(special@.subrange(0, i as int) =~= special@.subrange(0, i - 1).push(
                special@[i - 1],
            ));
            proof {
                special@.subrange(0, i - 1).lemma_push_to_set_commute(special@[i - 1]);
            }
        }
        assert(special@.subrange(0, i as int) =~= special@);
        let check_special_chars = special.len() > 0;
        let mut zh_norm_mapping = table_new();
        let mut handle_simpl_mapping = char_set_new();
        assert(table_view(zh_norm_mapping@) =~= Map::empty());
        if zh_norm {
            let text = chars_of(variant_table);
            if !add_variants(&mut zh_norm_mapping, &text) {
                return Err(ConfigError::MalformedVariantTable);
            }
        }
        if handle_simpl {
            let text = chars_of(simplified_table);
            if !add_simplified(&mut zh_norm_mapping, &mut handle_simpl_mapping, &text) {
                return Err(ConfigError::MalformedSimplifiedTable);
            }
        }
        let opencc = _OpenCC::new(opencc_config)?;
        Ok(BertNormalizer {
            clean_text,
            handle_chinese_chars,
            separate_numbers,
            strip_accents,
            lowercase,
            check_special_chars,
            special_char_mapping,
            zh_norm,
            zh_norm_mapping,
            opencc,
            handle_simpl,
            handle_simpl_mapping,
        })
    }

    /// The direction script conversion runs in.
    pub fn conversion(&self) -> (r: Conversion)
        ensures
            r == self@.conversion,
    {
        self.opencc.config()
    }

    /// The tag the conversion direction was named by.
    pub fn conversion_tag(&self) -> (r: &str)
        ensures
            r@ == self@.conversion_tag,
    {
        self.opencc.config_name.as_str()
    }

    /// Whether the separation stage puts spaces around `c`.
    fn separates(&self, c: char) -> (r: bool)
        ensures
            r == is_separated(self@, c),
    {
        (self.handle_chinese_chars && is_chinese_char(c)) || (self.separate_numbers && is_number(c))
            || (self.check_special_chars && char_set_contains(&self.special_char_mapping, c))
    }

    fn push_spaced(&self, part: &mut Vec<char>, c: char)
        ensures
            final(part)@ == old(part)@ + spaced(self@, c),
    {
        if self.separates(c) {
            part.push(' ');
            part.push(c);
            part.push(' ');
            assert(part@ =~= old(part)@ + seq![' ', c, ' ']);
        } else {
            part.push(c);
            assert(part@ =~= old(part)@ + seq![c]);
        }
    }

    /// Drops NUL, the replacement character and control characters, and
    /// turns all whitespace into plain spaces.
    fn do_clean_text(&self, normalized: &mut NormalizedString)
        requires
            old(normalized).wf(),
        ensures
            final(normalized).wf(),
            final(normalized)@ == cleaned(old(normalized)@),
            final(normalized).original_text() == old(normalized).original_text(),
            final(normalized).alignment_ranges() == spread(
                clean_parts(old(normalized)@),
                old(normalized).alignment_ranges(),
            ),
    {
        let text = normalized.get_chars();
        let mut parts: Vec<Vec<char>> = Vec::new();
        for i in 0..text.len()
            invariant
                parts@.len() == i,
                views(parts@).flatten() == cleaned(text@.subrange(0, i as int)),
                views(parts@) == clean_parts(text@.subrange(0, i as int)),
        {
            let c = text[i];
            let p: Vec<char> = if c as u32 == 0 || c as u32 == 0xFFFD || is_control(c) {
                Vec::new()
            } else if is_whitespace(c) {
                vec![' ']
            } else {
                vec![c]
            };
            assert(p@ =~= clean_char(c));
            proof {
                lemma_views_push(parts@, p);
                lemma_expand_push(text@, i as int, |c: char| clean_char(c));
            }
            let ghost old_parts = parts@;
            parts.push(p);
            proof {
                assert(views(parts@) =~= views(old_parts).push(p@));
                assert(text@.subrange(0, i + 1) =~= text@.subrange(0, i as int).push(text@[i as int]));
                assert(clean_parts(text@.subrange(0, i + 1)) =~= clean_parts(text@.subrange(0, i as int)).push(
                    p@,
                ));
            }
        }
        assert(text@.subrange(0, text@.len() as int) =~= text@);
        normalized.expand(&parts);
    }

    /// Rewrites characters through the variant table where `zh_norm` is on,
    /// and puts spaces around the characters that are separated.
    fn do_handle_separate_chars(&self, normalized: &mut NormalizedString)
        requires
            old(normalized).wf(),
        ensures
            final(normalized).wf(),
            final(normalized)@ == separated(self@, old(normalized)@),
            final(normalized).original_text() == old(normalized).original_text(),
            final(normalized).alignment_ranges() == spread(
                separate_parts(self@, old(normalized)@),
                old(normalized).alignment_ranges(),
            ),
    {
        let text = normalized.get_chars();
        let mut parts: Vec<Vec<char>> = Vec::new();
        for i in 0..text.len()
            invariant
                parts@.len() == i,
                views(parts@).flatten() == separated(self@, text@.subrange(0, i as int)),
                views(parts@) == separate_parts(self@, text@.subrange(0, i as int)),
        {
            let c = text[i];
            let mut p: Vec<char> = Vec::new();
            let rep = if self.zh_norm {
                table_get(&self.zh_norm_mapping, c)
            } else {
                None
            };
            match rep {
                Some(rep) => {
                    assert(self@.table[c] == rep@);
                    for j in 0..rep.len()
                        invariant
                            p@ == expand(rep@.subrange(0, j as int), |d: char| spaced(self@, d)),
                    {
                        self.push_spaced(&mut p, rep[j]);
                        proof {
                            lemma_expand_push(rep@, j as int, |d: char| spaced(self@, d));
                        }
                    }
                    assert(rep@.subrange(0, rep@.len() as int) =~= rep@);
                },
                None => {
                    self.push_spaced(&mut p, c);
                    assert(p@ =~= spaced(self@, c));
                },
            }
            assert(p@ == separate_char(self@, c));
            proof {
                lemma_views_push(parts@, p);
                lemma_expand_push(text@, i as int, |c: char| separate_char(self@, c));
            }
            let ghost old_parts = parts@;
            parts.push(p);
            proof {
                assert(views(parts@) =~= views(old_parts).push(p@));
                assert(text@.subrange(0, i + 1) =~= text@.subrange(0, i as int).push(text@[i as int]));
                assert(separate_parts(self@, text@.subrange(0, i + 1)) =~= separate_parts(self@, text@.subrange(0, i as int)).push(
                    p@,
                ));
            }
        }
        assert(text@.subrange(0, text@.len() as int) =~= text@);
        normalized.expand(&parts);
    }

    /// Decomposes the text canonically and drops the nonspacing marks. Where
    /// decomposing character by character gives the same text, each produced
    /// character keeps the range of the character it came from.
    fn do_strip_accents(&self, normalized: &mut NormalizedString)
        requires
            old(normalized).wf(),
        ensures
            final(normalized).wf(),
            final(normalized)@ == stripped(old(normalized)@),
            final(normalized).original_text() == old(normalized).original_text(),
            final(normalized).alignment_ranges() == stripped_ranges(
                old(normalized)@,
                old(normalized).alignment_ranges(),
                old(normalized).original_text().len(),
            ),
    {
        let text = normalized.get_chars();
        let target = drop_marks(&nfd(text));
        let mut parts: Vec<Vec<char>> = Vec::new();
        let mut flat: Vec<char> = Vec::new();
        for i in 0..text.len()
            invariant
                parts@.len() == i,
                flat@ == views(parts@).flatten(),
                views(parts@) == strip_parts(text@.subrange(0, i as int)),
        {
            let p = drop_marks(&decompose(text[i]));
            let ghost before = flat@;
            for j in 0..p.len()
                invariant
                    flat@ == before + p@.subrange(0, j as int),
            {
                flat.push(p[j]);
                assert(flat@ =~= before + p@.subrange(0, j + 1));
            }
            assert(p@.subrange(0, p@.len() as int) =~= p@);
            proof {
                lemma_views_push(parts@, p);
            }
            let ghost old_parts = parts@;
            parts.push(p);
            proof {
                assert(views(parts@) =~= views(old_parts).push(p@));
                assert(text@.subrange(0, i + 1) =~= text@.subrange(0, i as int).push(text@[i as int]));
                assert(strip_parts(text@.subrange(0, i + 1)) =~= strip_parts(
                    text@.subrange(0, i as int),
                ).push(p@));
            }
        }
        assert(text@.subrange(0, text@.len() as int) =~= text@);
        if same_chars(&flat, &target) {
            normalized.expand(&parts);
        } else {
            normalized.set_normalized(target);
        }
    }

    /// Replaces each character by its lowercase mapping.
    fn do_lowercase(&self, normalized: &mut NormalizedString)
        requires
            old(normalized).wf(),
        ensures
            final(normalized).wf(),
            final(normalized)@ == lowered(old(normalized)@),
            final(normalized).original_text() == old(normalized).original_text(),
            final(normalized).alignment_ranges() == spread(
                lower_parts(old(normalized)@),
                old(normalized).alignment_ranges(),
            ),
    {
        let text = normalized.get_chars();
        let mut parts: Vec<Vec<char>> = Vec::new();
        for i in 0..text.len()
            invariant
                parts@.len() == i,
                views(parts@).flatten() == lowered(text@.subrange(0, i as int)),
                views(parts@) == lower_parts(text@.subrange(0, i as int)),
        {
            let p = to_lowercase(text[i]);
            proof {
                lemma_views_push(parts@, p);
                lemma_expand_push(text@, i as int, |c: char| lowercase_of(c));
            }
            let ghost old_parts = parts@;
            parts.push(p);
            proof {
                assert(views(parts@) =~= views(old_parts).push(p@));
                assert(text@.subrange(0, i + 1) =~= text@.subrange(0, i as int).push(text@[i as int]));
                assert(lower_parts(text@.subrange(0, i + 1)) =~= lower_parts(text@.subrange(0, i as int)).push(
                    p@,
                ));
            }
        }
        assert(text@.subrange(0, text@.len() as int) =~= text@);
        normalized.expand(&parts);
    }

    /// The text to hand to script conversion, with each NUL replaced by a
    /// space; `None` where the text does not need conversion.
    pub fn conversion_input(&self, normalized: &NormalizedString) -> (r: Option<Vec<char>>)
        ensures
            needs_conversion(self@, normalized@) ==> r is Some && r->Some_0@ == without_nul(
                normalized@,
            ),
            !needs_conversion(self@, normalized@) ==> r is None,
    {
        if !self.handle_simpl {
            return None;
        }
        broadcast use vstd::seq_lib::seq_to_set_is_finite;

        let text = normalized.get_chars();
        let mut seen = char_set_new();
        let mut need_clean_count: usize = 0;
        for i in 0..text.len()
            invariant
                seen@ == ambiguous_chars(self@, text@.subrange(0, i as int)),
                seen@.finite(),
                need_clean_count == seen@.len(),
                need_clean_count <= i,
        {
            let c = text[i];
            proof {
                assert(text@.subrange(0, i + 1) =~= text@.subrange(0, i as int).push(c));
                text@.subrange(0, i as int).lemma_push_to_set_commute(c);
            }
            if c as u32 > 12032 && char_set_contains(&self.handle_simpl_mapping, c) {
                if !char_set_contains(&seen, c) {
                    char_set_insert(&mut seen, c);
                    need_clean_count = need_clean_count + 1;
                }
                assert(seen@ =~= ambiguous_chars(self@, text@.subrange(0, i + 1)));
            } else {
                assert(seen@ =~= ambiguous_chars(self@, text@.subrange(0, i + 1)));
            }
        }
        assert(text@.subrange(0, text@.len() as int) =~= text@);
        if need_clean_count > 1 {
            let mut out: Vec<char> = Vec::new();
            for i in 0..text.len()
                invariant
                    out@ == without_nul(text@.subrange(0, i as int)),
            {
                let c = text[i];
                let ghost before = out@;
                if c == '\0' {
                    out.push(' ');
                } else {
                    out.push(c);
                }
                proof {
                    lemma_expand_push(
                        text@,
                        i as int,
                        |c: char| if c == '\0' { seq![' '] } else { seq![c] },
                    );
                    if c == '\0' {
                        assert(out@ =~= before + seq![' ']);
                    } else {
                        assert(out@ =~= before + seq![c]);
                    }
                }
            }
            Some(out)
        } else {
            None
        }
    }

    /// Runs the pipeline on `normalized`. `converted` is what script
    /// conversion made of `conversion_input`, given only where that was
    /// `Some`; it replaces the text before the other stages run.
    pub fn normalize(&self, normalized: &mut NormalizedString, converted: Option<Vec<char>>)
        requires
            old(normalized).wf(),
            converted is Some ==> needs_conversion(self@, old(normalized)@),
        ensures
            final(normalized).wf(),
            final(normalized)@ == after_conversion(
                self@,
                match converted {
                    Some(t) => t@,
                    None => old(normalized)@,
                },
            ),
            final(normalized).original_text() == old(normalized).original_text(),
            final(normalized).alignment_ranges() == after_conversion_ranges(
                self@,
                match converted {
                    Some(t) => t@,
                    None => old(normalized)@,
                },
                match converted {
                    Some(t) => replaced_ranges(
                        t@.len(),
                        old(normalized)@.len(),
                        old(normalized).alignment_ranges(),
                        old(normalized).original_text().len(),
                    ),
                    None => old(normalized).alignment_ranges(),
                },
                old(normalized).original_text().len(),
            ),
    {
        if let Some(t) = converted {
            normalized.set_normalized(t);
        }
        if self.clean_text {
            self.do_clean_text(normalized);
        }
        if self.handle_chinese_chars || self.separate_numbers || self.check_special_chars
            || self.zh_norm {
            self.do_handle_separate_chars(normalized);
        }
        let strip_accents = match self.strip_accents {
            Some(b) => b,
            None => self.lowercase,
        };
        if strip_accents {
            self.do_strip_accents(normalized);
        }
        if self.lowercase {
            self.do_lowercase(normalized);
        }
    }
}


/// Cleaning twice gives what cleaning once gives, on every text.
pub proof fn lemma_clean_idempotent(s: Seq<char>)
    ensures
        cleaned(cleaned(s)) == cleaned(s),
    decreases s.len(),
{
    if s.len() > 0 {
        let c = s.last();
        lemma_clean_idempotent(s.drop_last());
        lemma_expand_concat(cleaned(s.drop_last()), clean_char(c), |c: char| clean_char(c));
        if clean_char(c).len() == 1 {
            lemma_expand_single(clean_char(c)[0], |c: char| clean_char(c));
            assert(clean_char(c) =~= seq![clean_char(c)[0]]);
        } else {
            assert(clean_char(c) =~= Seq::<char>::empty());
        }
    }
}

/// A character that the separation stage separates, and does not rewrite
/// through the variant table, comes out with a plain space on each side.
pub proof fn lemma_separated_char_between_spaces(v: NormalizerView, s: Seq<char>, i: int)
    requires
        0 <= i < s.len(),
        is_separated(v, s[i]),
        !(v.zh_norm && v.table.contains_key(s[i])),
    ensures
        ({
            let p = separated(v, s.subrange(0, i)).len() as int;
            let out = separated(v, s);
            &&& p + 3 <= out.len()
            &&& out[p] == ' '
            &&& out[p + 1] == s[i]
            &&& out[p + 2] == ' '
        }),
{
    let f = |c: char| separate_char(v, c);
    assert(s =~= s.subrange(0, i + 1) + s.subrange(i + 1, s.len() as int));
    lemma_expand_concat(s.subrange(0, i + 1), s.subrange(i + 1, s.len() as int), f);
    lemma_expand_push(s, i, f);
    assert(separate_char(v, s[i]) == seq![' ', s[i], ' ']);
}

/// A character of a variant-table replacement that the separation stage
/// separates comes out with a plain space on each side.
pub proof fn lemma_rewritten_char_between_spaces(v: NormalizerView, s: Seq<char>, i: int, j: int)
    requires
        0 <= i < s.len(),
        v.zh_norm && v.table.contains_key(s[i]),
        0 <= j < v.table[s[i]].len(),
        is_separated(v, v.table[s[i]][j]),
    ensures
        ({
            let r = v.table[s[i]];
            let p = (separated(v, s.subrange(0, i)).len() + expand(
                r.subrange(0, j),
                |d: char| spaced(v, d),
            ).len()) as int;
            let out = separated(v, s);
            &&& p + 3 <= out.len()
            &&& out[p] == ' '
            &&& out[p + 1] == r[j]
            &&& out[p + 2] == ' '
        }),
{
    let f = |c: char| separate_char(v, c);
    let g = |d: char| spaced(v, d);
    let r = v.table[s[i]];
    assert(s =~= s.subrange(0, i + 1) + s.subrange(i + 1, s.len() as int));
    lemma_expand_concat(s.subrange(0, i + 1), s.subrange(i + 1, s.len() as int), f);
    lemma_expand_push(s, i, f);
    assert(r =~= r.subrange(0, j + 1) + r.subrange(j + 1, r.len() as int));
    lemma_expand_concat(r.subrange(0, j + 1), r.subrange(j + 1, r.len() as int), g);
    lemma_expand_push(r, j, g);
    assert(separate_char(v, s[i]) == expand(r, g));
    assert(spaced(v, r[j]) == seq![' ', r[j], ' ']);
}

/// A text in which at most one distinct character above U+2F00 is a
/// simplified form, however often it occurs, is not handed to conversion.
pub proof fn lemma_single_ambiguous_char_not_converted(v: NormalizerView, s: Seq<char>, c: char)
    requires
        forall|i: int|
            0 <= i < s.len() && (s[i] as u32) > 12032 && v.simplified.contains(s[i]) ==> s[i]
                == c,
    ensures
        !needs_conversion(v, s),
{
    assert(ambiguous_chars(v, s).subset_of(set![c]));
    vstd::set_lib::lemma_len_subset(ambiguous_chars(v, s), set![c]);
}

/// A text with two distinct characters above U+2F00 that are simplified
/// forms is handed to conversion, where that is on.
pub proof fn lemma_two_ambiguous_chars_converted(v: NormalizerView, s: Seq<char>, i: int, j: int)
    requires
        v.handle_simpl,
        0 <= i < s.len(),
        0 <= j < s.len(),
        s[i] != s[j],
        (s[i] as u32) > 12032 && v.simplified.contains(s[i]),
        (s[j] as u32) > 12032 && v.simplified.contains(s[j]),
    ensures
        needs_conversion(v, s),
{
    broadcast use vstd::seq_lib::seq_to_set_is_finite;

    assert(s.to_set().contains(s[i]));
    assert(s.to_set().contains(s[j]));
    let pair = set![s[i], s[j]];
    assert(pair.subset_of(ambiguous_chars(v, s)));
    assert(ambiguous_chars(v, s).subset_of(s.to_set()));
    vstd::set_lib::lemma_len_subset(ambiguous_chars(v, s), s.to_set());
    vstd::set_lib::lemma_len_subset(pair, ambiguous_chars(v, s));
    assert(pair.len() == 2) by {
        assert(set![s[i]].len() == 1);
    }
}

} // verus!
