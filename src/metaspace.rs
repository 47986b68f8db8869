//! Splitting on whitespace with a sentinel character that stands for the
//! whitespace, and the inverse that turns sentinels back into spaces.
use crate::aligned::{chars_of, string_of, NormalizedString};
use crate::chars::{unicode_is_whitespace, white_space_prop};
use vstd::prelude::*;

verus! {

/// A half-open range of character positions.
pub type Offsets = (usize, usize);

/// The state of the splitter after a prefix of the text: the segments
/// emitted, the segment being built, and whether the last character was
/// whitespace.
pub open spec fn scan(s: Seq<char>, repl: char, no_consec: bool) -> (
    Seq<(Seq<char>, (int, int))>,
    Seq<char>,
    bool,
)
    decreases s.len(),
{
    if s.len() == 0 {
        (Seq::empty(), Seq::empty(), false)
    } else {
        let st = scan(s.drop_last(), repl, no_consec);
        let words = st.0;
        let word = st.1;
        let c = s.last();
        let offset = s.len() - 1;
        if white_space_prop(c) {
            if !no_consec || !st.2 {
                let flushed = if word.len() > 0 {
                    words.push((word, (offset - word.len(), offset)))
                } else {
                    words
                };
                (flushed, seq![repl], true)
            } else {
                st
            }
        } else {
            (words, word.push(c), false)
        }
    }
}

/// The text after the optional leading space is added.
pub open spec fn with_prefix(s: Seq<char>, add_prefix_space: bool) -> Seq<char> {
    if add_prefix_space && !(s.len() > 0 && s[0] == ' ') {
        seq![' '] + s
    } else {
        s
    }
}

/// The segments of `s`, each with its range of positions in `s`.
pub open spec fn split_words(s: Seq<char>, repl: char, no_consec: bool) -> Seq<
    (Seq<char>, (int, int)),
> {
    let st = scan(s, repl, no_consec);
    if st.1.len() > 0 && (!no_consec || !st.2) {
        st.0.push((st.1, (s.len() - st.1.len(), s.len() as int)))
    } else {
        st.0
    }
}

pub open spec fn segments_view(w: Seq<(String, Offsets)>) -> Seq<(Seq<char>, (int, int))> {
    w.map_values(|p: (String, Offsets)| (p.0@, (p.1.0 as int, p.1.1 as int)))
}

/// The text with each sentinel turned into a space.
pub open spec fn unsentinel(s: Seq<char>, repl: char) -> Seq<char> {
    s.map_values(|c: char| if c == repl { ' ' } else { c })
}

/// What decoding makes of the concatenated token text: a leading sentinel is
/// dropped where a prefix space was added, every other sentinel is a space.
pub open spec fn decoded(s: Seq<char>, repl: char, add_prefix_space: bool) -> Seq<char> {
    if add_prefix_space && s.len() > 0 && s[0] == repl {
        unsentinel(s.drop_first(), repl)
    } else {
        unsentinel(s, repl)
    }
}

pub open spec fn token_texts(tokens: Seq<String>) -> Seq<Seq<char>> {
    tokens.map_values(|t: String| t@)
}

/// Replaces whitespace by a sentinel character and splits before each
/// sentinel.
pub struct Metaspace {
    replacement: char,
    add_prefix_space: bool,
    no_consecutive_space: bool,
}

impl Metaspace {
    pub closed spec fn replacement_char(&self) -> char {
        self.replacement
    }

    pub closed spec fn prefix_space(&self) -> bool {
        self.add_prefix_space
    }

    pub closed spec fn no_consecutive(&self) -> bool {
        self.no_consecutive_space
    }

    pub fn new(replacement: char, add_prefix_space: bool, no_consecutive_space: bool) -> (r: Self)
        ensures
            r.replacement_char() == replacement,
            r.prefix_space() == add_prefix_space,
            r.no_consecutive() == no_consecutive_space,
    {
        Self { replacement, add_prefix_space, no_consecutive_space }
    }

    /// The sentinel character.
    pub fn replacement(&self) -> (r: char)
        ensures
            r == self.replacement_char(),
    {
        self.replacement
    }

    /// Whether a leading space is added before splitting.
    pub fn add_prefix_space(&self) -> (r: bool)
        ensures
            r == self.prefix_space(),
    {
        self.add_prefix_space
    }

    /// Whether runs of whitespace yield a single sentinel.
    pub fn no_consecutive_space(&self) -> (r: bool)
        ensures
            r == self.no_consecutive(),
    {
        self.no_consecutive_space
    }

    /// Adds the leading space where configured, then splits the text into
    /// segments, each with its range of positions in the text.
    pub fn pre_tokenize(&self, normalized: &mut NormalizedString) -> (r: Vec<(String, Offsets)>)
        requires
            old(normalized).wf(),
        ensures
            final(normalized).wf(),
            final(normalized)@ == with_prefix(old(normalized)@, self.prefix_space()),
            final(normalized).original_text() == old(normalized).original_text(),
            final(normalized).alignment_ranges() == if final(normalized)@ == old(normalized)@ {
                old(normalized).alignment_ranges()
            } else {
                seq![(0usize, 0usize)] + old(normalized).alignment_ranges()
            },
            segments_view(r@) == split_words(
                final(normalized)@,
                self.replacement_char(),
                self.no_consecutive(),
            ),
    {
        if self.add_prefix_space && !(normalized.len() > 0 && normalized.get_chars()[0] == ' ') {
            normalized.prepend(' ');
        }
        let text = normalized.get_chars();
        let ghost repl = self.replacement;
        let ghost nc = self.no_consecutive_space;
        let mut words: Vec<(String, Offsets)> = Vec::new();
        let mut word: Vec<char> = Vec::new();
        let mut offset: usize = 0;
        let mut last_ws = false;
        for i in 0..text.len()
            invariant
                offset == i,
                word@.len() <= i,
                segments_view(words@) == scan(text@.subrange(0, i as int), repl, nc).0,
                word@ == scan(text@.subrange(0, i as int), repl, nc).1,
                last_ws == scan(text@.subrange(0, i as int), repl, nc).2,
                repl == self.replacement,
                nc == self.no_consecutive_space,
        {
            let c = text[i];
            assert(text@.subrange(0, i + 1).drop_last() =~= text@.subrange(0, i as int));
            if unicode_is_whitespace(c) {
                if !self.no_consecutive_space || !last_ws {
                    if word.len() > 0 {
                        let ghost before = words@;
                        let w = string_of(&word);
                        words.push((w, (offset - word.len(), offset)));
                        assert(segments_view(words@) =~= segments_view(before).push(
                            (word@, ((offset - word.len()) as int, offset as int)),
                        ));
                    }
                    last_ws = true;
                    word = vec![self.replacement];
                    assert(word@ =~= seq![repl]);
                }
            } else {
                last_ws = false;
                word.push(c);
            }
            offset = offset + 1;
        }
        assert(text@.subrange(0, text@.len() as int) =~= text@);
        if word.len() > 0 && (!self.no_consecutive_space || !last_ws) {
            let ghost before = words@;
            let w = string_of(&word);
            words.push((w, (offset - word.len(), offset)));
            assert(segments_view(words@) =~= segments_view(before).push(
                (word@, ((offset - word.len()) as int, offset as int)),
            ));
        }
        words
    }

    /// Joins the tokens, turning sentinels back into spaces and dropping
    /// the leading one where a prefix space was added.
    pub fn decode(&self, tokens: Vec<String>) -> (r: String)
        ensures
            r@ == decoded(
                token_texts(tokens@).flatten(),
                self.replacement_char(),
                self.prefix_space(),
            ),
    {
        let mut all: Vec<char> = Vec::new();
        for i in 0..tokens.len()
            invariant
                all@ == token_texts(tokens@.subrange(0, i as int)).flatten(),
        {
            let t = chars_of(tokens[i].as_str());
            proof {
                assert(token_texts(tokens@.subrange(0, i + 1)) =~= token_texts(
                    tokens@.subrange(0, i as int),
                ).push(t@));
                token_texts(tokens@.subrange(0, i as int)).lemma_flatten_push(t@);
            }
            let mut j: usize = 0;
            let ghost before = all@;
            while j < t.len()
                invariant
                    j <= t@.len(),
                    all@ == before + t@.subrange(0, j as int),
                decreases t@.len() - j,
            {
                all.push(t[j]);
                j = j + 1;
                assert(all@ =~= before + t@.subrange(0, j as int));
            }
            assert(t@.subrange(0, t@.len() as int) =~= t@);
        }
        assert(tokens@.subrange(0, tokens@.len() as int) =~= tokens@);
        let mut out: Vec<char> = Vec::new();
        let skip_first = self.add_prefix_space && all.len() > 0 && all[0] == self.replacement;
        let start: usize = if skip_first {
            1
        } else {
            0
        };
        let mut k: usize = start;
        while k < all.len()
            invariant
                start <= k <= all@.len(),
                out@ == unsentinel(all@.subrange(start as int, k as int), self.replacement),
            decreases all@.len() - k,
        {
            let c = all[k];
            if c == self.replacement {
                out.push(' ');
            } else {
                out.push(c);
            }
            k = k + 1;
            assert(out@ =~= unsentinel(all@.subrange(start as int, k as int), self.replacement));
        }
        assert(all@.subrange(start as int, all@.len() as int) =~= if skip_first {
            all@.drop_first()
        } else {
            all@
        });
        string_of(&out)
    }
}

impl Default for Metaspace {
    fn default() -> (r: Self)
        ensures
            r.replacement_char() == '\u{2581}',
            r.prefix_space(),
            !r.no_consecutive(),
    {
        Self::new('\u{2581}', true, false)
    }
}


/// The texts of a sequence of segments.
pub open spec fn segment_texts(ws: Seq<(Seq<char>, (int, int))>) -> Seq<Seq<char>> {
    ws.map_values(|w: (Seq<char>, (int, int))| w.0)
}

/// `s` with each run of whitespace replaced by one space.
pub open spec fn squeeze(s: Seq<char>) -> Seq<char>
    decreases s.len(),
{
    if s.len() == 0 {
        Seq::empty()
    } else {
        let q = squeeze(s.drop_last());
        if white_space_prop(s.last()) {
            if q.len() > 0 && q.last() == ' ' {
                q
            } else {
                q.push(' ')
            }
        } else {
            q.push(s.last())
        }
    }
}

/// `x` with each run of whitespace replaced by one space, and the
/// whitespace at either end removed.
pub open spec fn collapse_whitespace(x: Seq<char>) -> Seq<char> {
    let q = squeeze(seq![' '] + x).drop_first();
    if q.len() > 0 && q.last() == ' ' {
        q.drop_last()
    } else {
        q
    }
}

proof fn lemma_squeeze_leading_space(x: Seq<char>)
    requires
        x.len() > 0,
        x[0] == ' ',
    ensures
        squeeze(seq![' '] + x) == squeeze(x),
    decreases x.len(),
{
    let y = x.drop_last();
    assert((seq![' '] + x).drop_last() =~= seq![' '] + y);
    if x.len() == 1 {
        assert(y =~= Seq::<char>::empty());
        assert(seq![' '] + y =~= seq![' ']);
        assert(seq![' '].drop_last() =~= Seq::<char>::empty());
        assert(white_space_prop(' '));
        assert(squeeze(Seq::<char>::empty()) == Seq::<char>::empty());
        assert(squeeze(seq![' ']) =~= seq![' ']);
    } else {
        lemma_squeeze_leading_space(y);
    }
}

/// What the splitter has built after the first `n` characters of `t`, with
/// consecutive whitespace suppressed, decodes to the squeezed prefix.
proof fn lemma_scan_prefix(t: Seq<char>, repl: char, n: int)
    requires
        1 <= n <= t.len(),
        t[0] == ' ',
        !white_space_prop(repl),
        !t.contains(repl),
    ensures
        ({
            let p = t.subrange(0, n);
            let st = scan(p, repl, true);
            let all = segment_texts(st.0).flatten() + st.1;
            &&& unsentinel(all, repl) == squeeze(p)
            &&& st.1.len() > 0
            &&& st.2 ==> st.1 == seq![repl]
            &&& squeeze(p).len() > 0
            &&& (squeeze(p).last() == ' ' <==> st.2)
            &&& all[0] == repl
            &&& squeeze(p)[0] == ' '
        }),
    decreases n,
{
    let p = t.subrange(0, n);
    assert(p.drop_last() =~= t.subrange(0, n - 1));
    if n == 1 {
        assert(p.drop_last() =~= Seq::<char>::empty());
        assert(white_space_prop(p.last()));
        assert(scan(Seq::<char>::empty(), repl, true).0 == Seq::<(Seq<char>, (int, int))>::empty());
        assert(squeeze(Seq::<char>::empty()) == Seq::<char>::empty());
        let st = scan(p, repl, true);
        assert(st.0 =~= Seq::<(Seq<char>, (int, int))>::empty());
        assert(segment_texts(st.0) =~= Seq::<Seq<char>>::empty());
        assert(segment_texts(st.0).flatten() + st.1 =~= seq![repl]);
        assert(unsentinel(seq![repl], repl) =~= seq![' ']);
        assert(squeeze(p) =~= seq![' ']);
    } else {
        lemma_scan_prefix(t, repl, n - 1);
        let q = t.subrange(0, n - 1);
        let st = scan(q, repl, true);
        let all = segment_texts(st.0).flatten() + st.1;
        let c = t[n - 1];
        assert(p.last() == c);
        if white_space_prop(c) {
            if !st.2 {
                let flushed = st.0.push((st.1, (n - 1 - st.1.len(), n - 1)));
                assert(segment_texts(flushed) =~= segment_texts(st.0).push(st.1));
                segment_texts(st.0).lemma_flatten_push(st.1);
                let all2 = segment_texts(flushed).flatten() + seq![repl];
                assert(all2 =~= all + seq![repl]);
                assert(unsentinel(all2, repl) =~= unsentinel(all, repl).push(' '));
            }
        } else {
            assert(c != repl) by {
                assert(t[n - 1] == c);
            }
            let all2 = segment_texts(st.0).flatten() + st.1.push(c);
            assert(all2 =~= all.push(c));
            assert(unsentinel(all2, repl) =~= unsentinel(all, repl).push(c));
        }
    }
}

/// Splitting with a prefix space and consecutive whitespace suppressed, then
/// decoding the segment texts, gives the input with each run of whitespace
/// collapsed to one space and the whitespace at either end removed, for any
/// sentinel that is not whitespace and does not occur in the input.
pub proof fn lemma_decode_inverts_pre_tokenize(x: Seq<char>, repl: char)
    requires
        !white_space_prop(repl),
        !x.contains(repl),
    ensures
        decoded(
            segment_texts(split_words(with_prefix(x, true), repl, true)).flatten(),
            repl,
            true,
        ) == collapse_whitespace(x),
{
    let t = with_prefix(x, true);
    assert(!t.contains(repl)) by {
        if !(x.len() > 0 && x[0] == ' ') {
            assert forall|k: int| 0 <= k < t.len() implies t[k] != repl by {
                if k > 0 {
                    assert(t[k] == x[k - 1]);
                }
            }
        }
    }
    if x.len() > 0 && x[0] == ' ' {
        lemma_squeeze_leading_space(x);
    }
    assert(squeeze(seq![' '] + x) == squeeze(t));
    lemma_scan_prefix(t, repl, t.len() as int);
    assert(t.subrange(0, t.len() as int) =~= t);
    let st = scan(t, repl, true);
    let flat = segment_texts(st.0).flatten();
    let all = flat + st.1;
    let sq = squeeze(t);
    if !st.2 {
        let words = st.0.push((st.1, (t.len() - st.1.len(), t.len() as int)));
        assert(segment_texts(words) =~= segment_texts(st.0).push(st.1));
        segment_texts(st.0).lemma_flatten_push(st.1);
        assert(unsentinel(all.drop_first(), repl) =~= unsentinel(all, repl).drop_first());
    } else {
        assert(all =~= flat + seq![repl]);
        assert(unsentinel(flat, repl) =~= sq.drop_last()) by {
            assert(unsentinel(all, repl) =~= unsentinel(flat, repl) + seq![' ']);
        }
        if flat.len() > 0 {
            assert(flat[0] == all[0]);
            assert(unsentinel(flat.drop_first(), repl) =~= sq.drop_first().drop_last());
        } else {
            assert(sq.drop_first() =~= Seq::<char>::empty());
        }
    }
}

} // verus!
