//! The character tables of the normalizer and the text format they are
//! loaded from: one entry per line, fields separated by a tab.
use fnv::{FnvHashMap, FnvHashSet, FnvHasher};
use vstd::prelude::*;

verus! {

/// Relies on `fnv::FnvHasher`, only carried as the hasher of the tables.
#[verifier::external_type_specification]
#[verifier::external_body]
pub struct ExFnvHasher(FnvHasher);

/// Relies on `std::hash::BuildHasherDefault`, the builder of the tables' hashers.
#[verifier::external_type_specification]
#[verifier::external_body]
#[verifier::reject_recursive_types(H)]
pub struct ExBuildHasherDefault<H>(std::hash::BuildHasherDefault<H>);

/// What a replacement table holds, with each replacement as its characters.
pub open spec fn table_view(m: Map<char, Vec<char>>) -> Map<char, Seq<char>> {
    m.map_values(|v: Vec<char>| v@)
}

/// Relies on `HashMap::insert`: the key is bound to the value afterwards.
#[verifier::external_body]
pub(crate) fn table_insert(m: &mut FnvHashMap<char, Vec<char>>, k: char, v: Vec<char>)
    ensures
        final(m)@ == old(m)@.insert(k, v),
{
    m.insert(k, v);
}

/// Relies on `HashMap::get`: the value bound to the key, if any.
#[verifier::external_body]
pub(crate) fn table_get(m: &FnvHashMap<char, Vec<char>>, k: char) -> (r: Option<&Vec<char>>)
    ensures
        m@.contains_key(k) ==> r == Some(&m@[k]),
        !m@.contains_key(k) ==> r.is_none(),
{
    m.get(&k)
}

/// Relies on `HashSet::insert`: the character is a member afterwards.
#[verifier::external_body]
pub(crate) fn char_set_insert(m: &mut FnvHashSet<char>, k: char)
    ensures
        final(m)@ == old(m)@.insert(k),
{
    m.insert(k);
}

/// A new, empty replacement table.
pub(crate) fn table_new() -> (r: FnvHashMap<char, Vec<char>>)
    ensures
        r@ == Map::<char, Vec<char>>::empty(),
{
    FnvHashMap::default()
}

/// A new, empty character set.
pub(crate) fn char_set_new() -> (r: FnvHashSet<char>)
    ensures
        r@ == Set::<char>::empty(),
{
    FnvHashSet::default()
}

/// Relies on `HashSet::contains`: membership of the character.
#[verifier::external_body]
pub(crate) fn char_set_contains(m: &FnvHashSet<char>, k: char) -> (r: bool)
    ensures
        r == m@.contains(k),
{
    m.contains(&k)
}

/// The position of the first `d` at or after `i`, or the length of `s`.
pub open spec fn next_of(s: Seq<char>, i: int, d: char) -> int
    decreases s.len() - i,
{
    if i < 0 || i >= s.len() {
        s.len() as int
    } else if s[i] == d {
        i
    } else {
        next_of(s, i + 1, d)
    }
}

/// The next delimiter lies between `i` and the end.
pub proof fn lemma_next_of_bounds(s: Seq<char>, i: int, d: char)
    requires
        0 <= i <= s.len(),
    ensures
        i <= next_of(s, i, d) <= s.len(),
    decreases s.len() - i,
{
    if i < s.len() && s[i] != d {
        lemma_next_of_bounds(s, i + 1, d);
    }
}

/// The line that starts at `i`, without its line break (`\n` or `\r\n`).
pub open spec fn line_at(s: Seq<char>, i: int) -> Seq<char> {
    let l = s.subrange(i, next_of(s, i, '\n'));
    if l.len() > 0 && l.last() == '\r' {
        l.drop_last()
    } else {
        l
    }
}

/// The second field of a line whose first field ends at `e`.
pub open spec fn second_field(l: Seq<char>, e: int) -> Seq<char> {
    l.subrange(e + 1, next_of(l, e + 1, '\t'))
}

/// A line of the variant table: a character, a tab, its replacement. `None`
/// when the first field is empty or the tab is missing.
pub open spec fn variant_entry(l: Seq<char>) -> Option<(char, Seq<char>)> {
    let e = next_of(l, 0, '\t');
    if e == 0 || e >= l.len() {
        None
    } else {
        Some((l[0], second_field(l, e)))
    }
}

/// A line of the simplified table: a character, and optionally a tab and the
/// character it stands for. `None` when the first field is empty, or the
/// second field is there but empty.
pub open spec fn simplified_entry(l: Seq<char>) -> Option<(char, Option<char>)> {
    let e = next_of(l, 0, '\t');
    if e == 0 {
        None
    } else if e >= l.len() {
        Some((l[0], None))
    } else if second_field(l, e).len() == 0 {
        None
    } else {
        Some((l[0], Some(second_field(l, e)[0])))
    }
}

/// The variant table after the lines from `i` on are added to `m`, a later
/// line for a character replacing an earlier one; `None` at a malformed line.
pub open spec fn load_variants(s: Seq<char>, i: int, m: Map<char, Seq<char>>) -> Option<
    Map<char, Seq<char>>,
>
    decreases s.len() - i,
{
    if i < 0 || i >= s.len() {
        Some(m)
    } else {
        proof {
            lemma_next_of_bounds(s, i, '\n');
        }
        match variant_entry(line_at(s, i)) {
            None => None,
            Some(e) => {
                let j = next_of(s, i, '\n');
                if j >= s.len() {
                    Some(m.insert(e.0, e.1))
                } else {
                    load_variants(s, j + 1, m.insert(e.0, e.1))
                }
            },
        }
    }
}

/// The merge of one simplified entry: the character joins the set; where it
/// has a counterpart and no replacement yet, it is replaced by what replaces
/// the counterpart, or by the counterpart itself.
pub open spec fn merge_simplified(
    m: Map<char, Seq<char>>,
    k: char,
    r: Option<char>,
) -> Map<char, Seq<char>> {
    match r {
        None => m,
        Some(t) => if m.contains_key(k) {
            m
        } else if m.contains_key(t) {
            m.insert(k, m[t])
        } else {
            m.insert(k, seq![t])
        },
    }
}

/// The table and the set of simplified characters after the lines from `i`
/// on are merged in; `None` at a malformed line.
pub open spec fn load_simplified(
    s: Seq<char>,
    i: int,
    m: Map<char, Seq<char>>,
    set: Set<char>,
) -> Option<(Map<char, Seq<char>>, Set<char>)>
    decreases s.len() - i,
{
    if i < 0 || i >= s.len() {
        Some((m, set))
    } else {
        proof {
            lemma_next_of_bounds(s, i, '\n');
        }
        match simplified_entry(line_at(s, i)) {
            None => None,
            Some(e) => {
                let j = next_of(s, i, '\n');
                let m2 = merge_simplified(m, e.0, e.1);
                if j >= s.len() {
                    Some((m2, set.insert(e.0)))
                } else {
                    load_simplified(s, j + 1, m2, set.insert(e.0))
                }
            },
        }
    }
}

/// The first position at or after `i` that holds `d`, or the length.
fn find_next(s: &Vec<char>, i: usize, d: char) -> (r: usize)
    requires
        i <= s@.len(),
    ensures
        r == next_of(s@, i as int, d),
        i <= r <= s@.len(),
{
    let mut j = i;
    while j < s.len()
        invariant
            i <= j <= s@.len(),
            next_of(s@, i as int, d) == next_of(s@, j as int, d),
        decreases s@.len() - j,
    {
        if s[j] == d {
            return j;
        }
        j = j + 1;
    }
    j
}

/// The line that starts at `i`, as its own vector.
fn take_line(s: &Vec<char>, i: usize) -> (r: Vec<char>)
    requires
        i < s@.len(),
    ensures
        r@ == line_at(s@, i as int),
{
    let end = find_next(s, i, '\n');
    let mut stop = end;
    if stop > i && s[stop - 1] == '\r' {
        stop = stop - 1;
    }
    let mut line: Vec<char> = Vec::new();
    let mut k = i;
    while k < stop
        invariant
            i <= k <= stop <= end <= s@.len(),
            line@ == s@.subrange(i as int, k as int),
        decreases stop - k,
    {
        line.push(s[k]);
        k = k + 1;
        assert(line@ =~= s@.subrange(i as int, k as int));
    }
    proof {
        let l = s@.subrange(i as int, end as int);
        if l.len() > 0 && l.last() == '\r' {
            assert(line@ =~= l.drop_last());
        } else {
            assert(line@ =~= l);
        }
    }
    line
}

/// The second field of a line whose first field ends at `e`.
fn take_second_field(l: &Vec<char>, e: usize) -> (r: Vec<char>)
    requires
        e < l@.len(),
    ensures
        r@ == second_field(l@, e as int),
{
    let n = l.len();
    assert(e < n);
    let end = find_next(l, e + 1, '\t');
    let mut out: Vec<char> = Vec::new();
    let mut k = e + 1;
    while k < end
        invariant
            e + 1 <= k <= end <= l@.len(),
            out@ == l@.subrange(e + 1, k as int),
        decreases end - k,
    {
        out.push(l[k]);
        k = k + 1;
        assert(out@ =~= l@.subrange(e + 1, k as int));
    }
    out
}

/// Parses a line of the variant table.
fn parse_variant_line(l: &Vec<char>) -> (r: Option<(char, Vec<char>)>)
    ensures
        match variant_entry(l@) {
            None => r.is_none(),
            Some(e) => r.is_some() && r.unwrap().0 == e.0 && r.unwrap().1@ == e.1,
        },
{
    let e = find_next(l, 0, '\t');
    if e == 0 || e >= l.len() {
        None
    } else {
        Some((l[0], take_second_field(l, e)))
    }
}

/// Parses a line of the simplified table.
fn parse_simplified_line(l: &Vec<char>) -> (r: Option<(char, Option<char>)>)
    ensures
        r == simplified_entry(l@),
{
    let e = find_next(l, 0, '\t');
    if e == 0 {
        None
    } else if e >= l.len() {
        Some((l[0], None))
    } else {
        let f = take_second_field(l, e);
        if f.len() == 0 {
            None
        } else {
            Some((l[0], Some(f[0])))
        }
    }
}

/// Adds the entries of a variant table text to `m`. Fails, leaving `m` in
/// an unspecified state, on a malformed line.
pub(crate) fn add_variants(m: &mut FnvHashMap<char, Vec<char>>, s: &Vec<char>) -> (ok: bool)
    ensures
        ok == load_variants(s@, 0, table_view(old(m)@)).is_some(),
        ok ==> table_view(final(m)@) == load_variants(s@, 0, table_view(old(m)@)).unwrap(),
{
    let mut i: usize = 0;
    while i < s.len()
        invariant
            i <= s@.len(),
            load_variants(s@, 0, table_view(old(m)@)) == load_variants(
                s@,
                i as int,
                table_view(m@),
            ),
        decreases s@.len() - i,
    {
        let line = take_line(s, i);
        let end = find_next(s, i, '\n');
        match parse_variant_line(&line) {
            None => {
                return false;
            },
            Some((k, v)) => {
                let ghost before = m@;
                table_insert(m, k, v);
                assert(table_view(m@) =~= table_view(before).insert(k, v@));
            },
        }
        if end < s.len() {
            i = end + 1;
        } else {
            i = end;
        }
    }
    true
}

/// Merges the entries of a simplified table text into `m` and `set`. Fails,
/// leaving both in an unspecified state, on a malformed line.
pub(crate) fn add_simplified(
    m: &mut FnvHashMap<char, Vec<char>>,
    set: &mut FnvHashSet<char>,
    s: &Vec<char>,
) -> (ok: bool)
    ensures
        ok == load_simplified(s@, 0, table_view(old(m)@), old(set)@).is_some(),
        ok ==> (table_view(final(m)@), final(set)@) == load_simplified(
            s@,
            0,
            table_view(old(m)@),
            old(set)@,
        ).unwrap(),
{
    let mut i: usize = 0;
    while i < s.len()
        invariant
            i <= s@.len(),
            load_simplified(s@, 0, table_view(old(m)@), old(set)@) == load_simplified(
                s@,
                i as int,
                table_view(m@),
                set@,
            ),
        decreases s@.len() - i,
    {
        let line = take_line(s, i);
        let end = find_next(s, i, '\n');
        match parse_simplified_line(&line) {
            None => {
                return false;
            },
            Some((k, r)) => {
                char_set_insert(set, k);
                if let Some(t) = r {
                    if table_get(m, k).is_none() {
                        let ghost before = m@;
                        match table_get(m, t) {
                            Some(rep) => {
                                let v = rep.clone();
                                assert(v@ == rep@);
                                assert(table_view(before).contains_key(t));
                                assert(table_view(before)[t] == v@);
                                table_insert(m, k, v);
                                assert(table_view(m@) =~= table_view(before).insert(k, v@));
                            },
                            None => {
                                let v = vec![t];
                                assert(v@ == seq![t]);
                                table_insert(m, k, v);
                                assert(table_view(m@) =~= table_view(before).insert(k, v@));
                            },
                        }
                    }
                }
            },
        }
        if end < s.len() {
            i = end + 1;
        } else {
            i = end;
        }
    }
    true
}

} // verus!
