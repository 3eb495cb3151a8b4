//! Small verified text utilities shared by the scanners and the heatmap
//! codec: character/string conversions, string equality, suffix tests and
//! separator splitting, each specified over `Seq<char>` views.

use vstd::prelude::*;
use vstd::string::*;

verus! {

/// Relies on alloc's string formatting: a single character formats as
/// exactly that character.
#[verifier::external_body]
pub(crate) fn char_to_string(c: char) -> (r: String)
    ensures
        r@ == seq![c],
{
    format!("{}", c)
}

/// The characters of `s`, one vector element per character.
pub fn str_to_chars(s: &str) -> (r: Vec<char>)
    ensures
        r@ == s@,
{
    let n = s.unicode_len();
    let mut r: Vec<char> = Vec::new();
    let mut i: usize = 0;
    while i < n
        invariant
            n == s@.len(),
            i <= n,
            r@ == s@.subrange(0, i as int),
        decreases n - i,
    {
        r.push(s.get_char(i));
        assert(s@.subrange(0, i + 1 as int) =~= s@.subrange(0, i as int).push(s@[i as int]));
        i = i + 1;
    }
    assert(s@.subrange(0, n as int) =~= s@);
    r
}

/// The string holding exactly the characters of `v`.
pub fn chars_to_string(v: &Vec<char>) -> (r: String)
    ensures
        r@ == v@,
{
    let mut r = String::new();
    let mut i: usize = 0;
    while i < v.len()
        invariant
            i <= v@.len(),
            r@ == v@.subrange(0, i as int),
        decreases v@.len() - i,
    {
        let piece = char_to_string(v[i]);
        r.append(piece.as_str());
        assert(v@.subrange(0, i + 1 as int) =~= v@.subrange(0, i as int).push(v@[i as int]));
        i = i + 1;
    }
    assert(v@.subrange(0, v@.len() as int) =~= v@);
    r
}

/// Character-for-character string equality.
pub fn str_eq(a: &str, b: &str) -> (r: bool)
    ensures
        r == (a@ == b@),
{
    let na = a.unicode_len();
    let nb = b.unicode_len();
    if na != nb {
        return false;
    }
    let mut i: usize = 0;
    while i < na
        invariant
            na == a@.len(),
            na == b@.len(),
            i <= na,
            forall|j: int| 0 <= j < i ==> a@[j] == b@[j],
        decreases na - i,
    {
        if a.get_char(i) != b.get_char(i) {
            return false;
        }
        i = i + 1;
    }
    assert(a@ =~= b@);
    true
}

/// `s` ends with `suffix`.
pub open spec fn spec_ends_with(s: Seq<char>, suffix: Seq<char>) -> bool {
    suffix.len() <= s.len() && s.subrange(s.len() - suffix.len(), s.len() as int) == suffix
}

pub fn ends_with(s: &str, suffix: &str) -> (r: bool)
    ensures
        r == spec_ends_with(s@, suffix@),
{
    let n = s.unicode_len();
    let m = suffix.unicode_len();
    if m > n {
        return false;
    }
    let mut i: usize = 0;
    while i < m
        invariant
            n == s@.len(),
            m == suffix@.len(),
            m <= n,
            i <= m,
            forall|j: int| 0 <= j < i ==> s@[n - m + j] == suffix@[j],
        decreases m - i,
    {
        if s.get_char(n - m + i) != suffix.get_char(i) {
            assert(s@.subrange(n - m, n as int)[i as int] != suffix@[i as int]);
            return false;
        }
        i = i + 1;
    }
    assert(s@.subrange(n - m, n as int) =~= suffix@);
    true
}

/// Splitting `s` at every occurrence of `sep`: always at least one piece,
/// the pieces never contain `sep`, and a separator between two adjacent
/// pieces is dropped (so `n` separators give `n + 1` pieces).
pub open spec fn spec_split(s: Seq<char>, sep: char) -> Seq<Seq<char>>
    decreases s.len(),
{
    if s.len() == 0 {
        seq![Seq::<char>::empty()]
    } else if s[0] == sep {
        seq![Seq::<char>::empty()].add(spec_split(s.skip(1), sep))
    } else {
        let rest = spec_split(s.skip(1), sep);
        seq![seq![s[0]].add(rest[0])].add(rest.skip(1))
    }
}

pub proof fn lemma_split_nonempty(s: Seq<char>, sep: char)
    ensures
        spec_split(s, sep).len() >= 1,
    decreases s.len(),
{
    if s.len() != 0 {
        lemma_split_nonempty(s.skip(1), sep);
    }
}

pub proof fn lemma_split_whole(p: Seq<char>, sep: char)
    requires
        !p.contains(sep),
    ensures
        spec_split(p, sep) == seq![p],
    decreases p.len(),
{
    if p.len() == 0 {
        assert(spec_split(p, sep) =~~= seq![p]);
    } else {
        assert(p[0] != sep);
        assert(!p.skip(1).contains(sep)) by {
            assert(forall|j: int| 0 <= j < p.skip(1).len() ==> p.skip(1)[j] == p[j + 1]);
        }
        lemma_split_whole(p.skip(1), sep);
        assert(seq![p[0]].add(p.skip(1)) =~= p);
        assert(spec_split(p, sep) =~~= seq![p]);
    }
}

pub proof fn lemma_split_step(p: Seq<char>, sep: char, t: Seq<char>)
    requires
        !p.contains(sep),
    ensures
        spec_split(p + seq![sep] + t, sep) == seq![p] + spec_split(t, sep),
    decreases p.len(),
{
    let s = p + seq![sep] + t;
    if p.len() == 0 {
        assert(s[0] == sep);
        assert(s.skip(1) =~= t);
        assert(spec_split(s, sep) =~~= seq![p] + spec_split(t, sep));
    } else {
        assert(s[0] == p[0]);
        assert(p[0] != sep);
        assert(!p.skip(1).contains(sep)) by {
            assert(forall|j: int| 0 <= j < p.skip(1).len() ==> p.skip(1)[j] == p[j + 1]);
        }
        lemma_split_step(p.skip(1), sep, t);
        assert(s.skip(1) =~= p.skip(1) + seq![sep] + t);
        let rest = spec_split(s.skip(1), sep);
        assert(rest == seq![p.skip(1)] + spec_split(t, sep));
        assert(rest[0] == p.skip(1));
        assert(seq![s[0]].add(rest[0]) =~= p);
        assert(rest.skip(1) =~= spec_split(t, sep));
        assert(spec_split(s, sep) =~~= seq![p] + spec_split(t, sep));
    }
}

/// The views of a vector of strings.
pub open spec fn views_of(ps: Seq<String>) -> Seq<Seq<char>> {
    ps.map_values(|p: String| p@)
}

/// Split `s` at every occurrence of `sep`.
pub fn split_string(s: &str, sep: char) -> (r: Vec<String>)
    ensures
        views_of(r@) == spec_split(s@, sep),
{
    let v = str_to_chars(s);
    let n = v.len();
    let mut r: Vec<String> = Vec::new();
    let mut pos: usize = 0;
    proof {
        assert(s@.skip(0) =~= s@);
        assert(views_of(r@) + spec_split(s@, sep) =~~= spec_split(s@, sep));
    }
    loop
        invariant
            n == v@.len(),
            v@ == s@,
            pos <= n,
            spec_split(s@, sep) == views_of(r@) + spec_split(s@.skip(pos as int), sep),
        decreases n - pos,
    {
        // scan the piece that starts at pos
        let mut j: usize = pos;
        let mut cur: Vec<char> = Vec::new();
        while j < n && v[j] != sep
            invariant
                n == v@.len(),
                pos <= j <= n,
                cur@ == v@.subrange(pos as int, j as int),
                forall|k: int| pos <= k < j ==> v@[k] != sep,
            decreases n - j,
        {
            cur.push(v[j]);
            assert(v@.subrange(pos as int, j + 1 as int) =~= v@.subrange(
                pos as int,
                j as int,
            ).push(v@[j as int]));
            j = j + 1;
        }
        let piece = chars_to_string(&cur);
        proof {
            assert(!cur@.contains(sep)) by {
                assert(forall|k: int|
                    0 <= k < cur@.len() ==> cur@[k] == v@.subrange(pos as int, j as int)[k]);
            }
        }
        if j == n {
            proof {
                assert(s@.skip(pos as int) =~= cur@);
                lemma_split_whole(cur@, sep);
                assert(views_of(r@.push(piece)) =~~= views_of(r@) + seq![piece@]);
            }
            r.push(piece);
            assert(views_of(r@) =~~= spec_split(s@, sep));
            return r;
        }
        proof {
            assert(s@.skip(pos as int) =~= cur@ + seq![sep] + s@.skip(j + 1 as int));
            lemma_split_step(cur@, sep, s@.skip(j + 1 as int));
            assert(views_of(r@.push(piece)) =~~= views_of(r@) + seq![piece@]);
            assert(views_of(r@.push(piece)) + spec_split(s@.skip(j + 1 as int), sep) =~~= views_of(
                r@,
            ) + spec_split(s@.skip(pos as int), sep));
        }
        r.push(piece);
        pos = j + 1;
    }
}

} // verus!
