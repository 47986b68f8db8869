//! A normalized string that remembers, for each of its characters, the range
//! of the original text it came from.
use vstd::prelude::*;

verus! {

/// The views of a sequence of character vectors.
pub open spec fn views(parts: Seq<Vec<char>>) -> Seq<Seq<char>> {
    parts.map_values(|p: Vec<char>| p@)
}

/// Relies on `str::chars`, collected into a vector: the characters of `s` in order.
#[verifier::external_body]
pub(crate) fn chars_of(s: &str) -> (r: Vec<char>)
    ensures
        r@ == s@,
{
    s.chars().collect()
}

/// Relies on collecting characters into a `String`: the string holds them in order.
#[verifier::external_body]
pub(crate) fn string_of(v: &Vec<char>) -> (r: String)
    ensures
        r@ == v@,
{
    v.iter().collect()
}

/// The text being normalized, with the original it was built from and one
/// alignment (a half-open range of original character positions) per
/// normalized character.
pub struct NormalizedString {
    original: Vec<char>,
    normalized: Vec<char>,
    alignments: Vec<(usize, usize)>,
}

impl View for NormalizedString {
    type V = Seq<char>;

    closed spec fn view(&self) -> Seq<char> {
        self.normalized@
    }
}

/// Each range lies within an original of `n` characters, and the ranges
/// keep the order of the original: both ends never decrease.
pub open spec fn ranges_ok(a: Seq<(usize, usize)>, n: nat) -> bool {
    &&& forall|i: int| 0 <= i < a.len() ==> #[trigger] a[i].0 <= a[i].1 <= n
    &&& forall|i: int, j: int|
        0 <= i <= j < a.len() ==> #[trigger] a[i].0 <= #[trigger] a[j].0 && a[i].1 <= a[j].1
}

/// The ranges after each character is replaced by the corresponding part:
/// every character of a part takes the range of the character it replaces.
pub open spec fn spread(parts: Seq<Seq<char>>, a: Seq<(usize, usize)>) -> Seq<(usize, usize)>
    decreases parts.len(),
{
    if parts.len() == 0 || a.len() == 0 {
        Seq::empty()
    } else {
        spread(parts.drop_last(), a.drop_last()) + Seq::new(parts.last().len(), |k: int| a.last())
    }
}

/// The ranges after a text of length `old_len` is replaced by one of length
/// `len`: kept where the length is kept, otherwise each covers the whole
/// original of `n` characters.
pub open spec fn replaced_ranges(len: nat, old_len: nat, a: Seq<(usize, usize)>, n: nat) -> Seq<
    (usize, usize),
> {
    if len == old_len {
        a
    } else {
        Seq::new(len, |k: int| (0usize, n as usize))
    }
}

impl NormalizedString {
    /// The text the value was built from.
    pub closed spec fn original_text(&self) -> Seq<char> {
        self.original@
    }

    /// For each normalized character, the range of original positions it
    /// stands for.
    pub closed spec fn alignment_ranges(&self) -> Seq<(usize, usize)> {
        self.alignments@
    }

    /// One range per normalized character, within the original and in order.
    pub closed spec fn wf(&self) -> bool {
        &&& self.alignments@.len() == self.normalized@.len()
        &&& ranges_ok(self.alignments@, self.original@.len())
    }

    /// A string whose normalized text is still its original text, each
    /// character aligned to itself.
    pub fn from_text(s: &str) -> (r: Self)
        ensures
            r.wf(),
            r@ == s@,
            r.original_text() == s@,
            r.alignment_ranges() == Seq::new(s@.len(), |i: int| (i as usize, (i + 1) as usize)),
    {
        let original = chars_of(s);
        let normalized = original.clone();
        assert(normalized@ =~= original@);
        let mut alignments: Vec<(usize, usize)> = Vec::new();
        let n = original.len();
        for i in 0..n
            invariant
                n == original@.len(),
                normalized@ == original@,
                alignments@ == Seq::new(i as nat, |k: int| (k as usize, (k + 1) as usize)),
        {
            alignments.push((i, i + 1));
            assert(alignments@ =~= Seq::new((i + 1) as nat, |k: int| (k as usize, (k + 1) as usize)));
        }
        NormalizedString { original, normalized, alignments }
    }

    /// The normalized text.
    pub fn get(&self) -> (r: String)
        ensures
            r@ == self@,
    {
        string_of(&self.normalized)
    }

    /// The normalized text as characters.
    pub fn get_chars(&self) -> (r: &Vec<char>)
        ensures
            r@ == self@,
    {
        &self.normalized
    }

    /// For each normalized character, the range of original positions it
    /// stands for.
    pub fn alignments(&self) -> (r: &Vec<(usize, usize)>)
        ensures
            r@ == self.alignment_ranges(),
    {
        &self.alignments
    }

    /// The number of normalized characters.
    pub fn len(&self) -> (r: usize)
        ensures
            r == self@.len(),
    {
        self.normalized.len()
    }

    /// Replaces the normalized text wholesale. Where the length is kept each
    /// character keeps its range; otherwise every character stands for the
    /// whole original.
    pub fn set_normalized(&mut self, text: Vec<char>)
        requires
            old(self).wf(),
        ensures
            final(self).wf(),
            final(self)@ == text@,
            final(self).original_text() == old(self).original_text(),
            final(self).alignment_ranges() == replaced_ranges(
                text@.len(),
                old(self)@.len(),
                old(self).alignment_ranges(),
                old(self).original_text().len(),
            ),
    {
        if text.len() != self.normalized.len() {
            let mut alignments: Vec<(usize, usize)> = Vec::new();
            let whole = self.original.len();
            for i in 0..text.len()
                invariant
                    whole == self.original@.len(),
                    alignments@ == Seq::new(i as nat, |k: int| (0usize, whole)),
            {
                alignments.push((0, whole));
                assert(alignments@ =~= Seq::new((i + 1) as nat, |k: int| (0usize, whole)));
            }
            self.alignments = alignments;
        }
        self.normalized = text;
    }

    /// Puts `c` in front of the normalized text, aligned to the empty range at
    /// the start of the original: it stands for no original character.
    pub fn prepend(&mut self, c: char)
        requires
            old(self).wf(),
        ensures
            final(self).wf(),
            final(self)@ == seq![c] + old(self)@,
            final(self).original_text() == old(self).original_text(),
            final(self).alignment_ranges() == seq![(0usize, 0usize)] + old(self).alignment_ranges(),
    {
        self.normalized.insert(0, c);
        self.alignments.insert(0, (0, 0));
        assert(self.normalized@ =~= seq![c] + old(self)@);
        assert(self.alignments@ =~= seq![(0usize, 0usize)] + old(self).alignments@);
        let ghost a = self.alignments@;
        let ghost o = old(self).alignments@;
        assert forall|i: int| 0 <= i < a.len() implies #[trigger] a[i].0 <= a[i].1
            <= self.original@.len() by {
            if i > 0 {
                assert(a[i] == o[i - 1]);
            }
        }
        assert forall|i: int, j: int| 0 <= i <= j < a.len() implies #[trigger] a[i].0
            <= #[trigger] a[j].0 && a[i].1 <= a[j].1 by {
            if i > 0 {
                assert(a[i] == o[i - 1]);
                assert(a[j] == o[j - 1]);
            }
        }
    }

    /// Replaces each normalized character by the corresponding part, in order;
    /// every character of a part takes the range of the character it
    /// replaces. An empty part deletes its character.
    pub fn expand(&mut self, parts: &Vec<Vec<char>>)
        requires
            old(self).wf(),
            parts@.len() == old(self)@.len(),
        ensures
            final(self).wf(),
            final(self)@ == views(parts@).flatten(),
            final(self).original_text() == old(self).original_text(),
            final(self).alignment_ranges() == spread(views(parts@), old(self).alignment_ranges()),
    {
        let mut normalized: Vec<char> = Vec::new();
        let mut alignments: Vec<(usize, usize)> = Vec::new();
        let n = parts.len();
        let ghost src = self.alignments@;
        let ghost whole = self.original@.len();
        for i in 0..n
            invariant
                n == parts@.len(),
                n == src.len(),
                src == self.alignments@,
                whole == self.original@.len(),
                self.wf(),
                normalized@ == views(parts@.subrange(0, i as int)).flatten(),
                alignments@ == spread(views(parts@.subrange(0, i as int)), src.subrange(0, i as int)),
                alignments@.len() == normalized@.len(),
                ranges_ok(alignments@, whole),
                forall|k: int, m: int|
                    #![trigger alignments@[k], src[m]]
                    0 <= k < alignments@.len() && i <= m < n ==> alignments@[k].0 <= src[m].0
                        && alignments@[k].1 <= src[m].1,
        {
            let part = &parts[i];
            let a = self.alignments[i];
            let ghost before = normalized@;
            let ghost before_al = alignments@;
            for j in 0..part.len()
                invariant
                    n == parts@.len(),
                    n == src.len(),
                    src == self.alignments@,
                    whole == self.original@.len(),
                    i < n,
                    self.wf(),
                    a == src[i as int],
                    part == parts@[i as int],
                    normalized@ == before + part@.subrange(0, j as int),
                    alignments@ == before_al + Seq::new(j as nat, |k: int| a),
                    alignments@.len() == normalized@.len(),
                    ranges_ok(alignments@, whole),
                    forall|k: int, m: int|
                        #![trigger alignments@[k], src[m]]
                        0 <= k < alignments@.len() && i <= m < n ==> alignments@[k].0 <= src[m].0
                            && alignments@[k].1 <= src[m].1,
            {
                normalized.push(part[j]);
                let ghost al0 = alignments@;
                alignments.push(a);
                assert(part@.subrange(0, j + 1) =~= part@.subrange(0, j as int).push(part@[j as int]));
                assert(alignments@ =~= before_al + Seq::new((j + 1) as nat, |k: int| a));
                assert(a.0 <= a.1 <= whole);
                let ghost al = alignments@;
                assert forall|k: int| 0 <= k < al.len() implies #[trigger] al[k].0 <= al[k].1
                    <= whole by {
                    if k < al0.len() {
                        assert(al[k] == al0[k]);
                    }
                }
                assert forall|k: int, l: int| 0 <= k <= l < al.len() implies #[trigger] al[k].0
                    <= #[trigger] al[l].0 && al[k].1 <= al[l].1 by {
                    if l < al0.len() {
                        assert(al[k] == al0[k]);
                        assert(al[l] == al0[l]);
                    } else if k < al0.len() {
                        assert(al[k] == al0[k]);
                        assert(al0[k].0 <= src[i as int].0);
                    }
                }
                assert forall|k: int, m: int| #![trigger al[k], src[m]]
                    0 <= k < al.len() && i <= m < n implies al[k].0 <= src[m].0 && al[k].1
                    <= src[m].1 by {
                    if k < al0.len() {
                        assert(al[k] == al0[k]);
                        assert(al0[k].0 <= src[m].0);
                    } else {
                        assert(src[i as int].0 <= src[m].0);
                    }
                }
            }
            proof {
                assert(part@.subrange(0, part@.len() as int) =~= part@);
                assert(views(parts@.subrange(0, i + 1)) =~= views(parts@.subrange(0, i as int)).push(
                    part@,
                ));
                views(parts@.subrange(0, i as int)).lemma_flatten_push(part@);
                assert(views(parts@.subrange(0, i + 1)).drop_last() =~= views(
                    parts@.subrange(0, i as int),
                ));
                assert(src.subrange(0, i + 1).drop_last() =~= src.subrange(0, i as int));
                assert(Seq::new(part@.len(), |k: int| src.subrange(0, i + 1).last()) =~= Seq::new(
                    part@.len(),
                    |k: int| a,
                ));
                let al = alignments@;
                assert forall|k: int, m: int| #![trigger al[k], src[m]]
                    0 <= k < al.len() && i + 1 <= m < n implies al[k].0 <= src[m].0 && al[k].1
                    <= src[m].1 by {
                    assert(i <= m < n);
                    assert(al[k].0 <= src[m].0 && al[k].1 <= src[m].1);
                }
            }
        }
        proof {
            assert(parts@.subrange(0, n as int) =~= parts@);
            assert(src.subrange(0, n as int) =~= src);
        }
        self.normalized = normalized;
        self.alignments = alignments;
        assert(self.alignments@.len() == self.normalized@.len());
    }
}

} // verus!
