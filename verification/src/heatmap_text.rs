//! The text form of the heatmap store: a `[map]` header line followed by
//! one `"name" = count` line per entry.  Rendering and parsing are both
//! specified here, and parsing a rendered store is proved to give the
//! stored pairs back.

use vstd::prelude::*;
use vstd::string::*;
use crate::heatmap::{Heatmap, map_of_pairs, pair_views, unique_keys};
use crate::text::char_to_string;

verus! {

/// The header line the file starts with.
pub open spec fn header() -> Seq<char> {
    seq!['[', 'm', 'a', 'p', ']', '\n']
}

pub open spec fn is_digit(c: char) -> bool {
    48 <= c as u32 <= 57
}

pub open spec fn digit_val(c: char) -> nat {
    ((c as u32) - 48) as nat
}

pub open spec fn digit_char(d: nat) -> char {
    if d == 0 {
        '0'
    } else if d == 1 {
        '1'
    } else if d == 2 {
        '2'
    } else if d == 3 {
        '3'
    } else if d == 4 {
        '4'
    } else if d == 5 {
        '5'
    } else if d == 6 {
        '6'
    } else if d == 7 {
        '7'
    } else if d == 8 {
        '8'
    } else {
        '9'
    }
}

/// The decimal digits of `n`, most significant first.
pub open spec fn spec_dec(n: nat) -> Seq<char>
    decreases n,
{
    if n < 10 {
        seq![digit_char(n)]
    } else {
        spec_dec(n / 10) + seq![digit_char(n % 10)]
    }
}

/// The number a digit sequence denotes.
pub open spec fn digits_val(ds: Seq<char>) -> nat
    decreases ds.len(),
{
    if ds.len() == 0 {
        0
    } else {
        digits_val(ds.drop_last()) * 10 + digit_val(ds.last())
    }
}

pub open spec fn all_digits(ds: Seq<char>) -> bool {
    forall|i: int| 0 <= i < ds.len() ==> is_digit(ds[i])
}

/// A name character as it is written inside the quotes: a double quote
/// or a backslash gets a backslash before it.
pub open spec fn esc_char(c: char) -> Seq<char> {
    if c == '"' || c == '\\' {
        seq!['\\', c]
    } else {
        seq![c]
    }
}

/// A name as it is written inside the quotes.
pub open spec fn esc(k: Seq<char>) -> Seq<char>
    decreases k.len(),
{
    if k.len() == 0 {
        Seq::empty()
    } else {
        esc_char(k[0]) + esc(k.skip(1))
    }
}

pub proof fn lemma_esc_snoc(k: Seq<char>, i: int)
    requires
        0 <= i < k.len(),
    ensures
        esc(k.subrange(0, i + 1)) == esc(k.subrange(0, i)) + esc_char(k[i]),
    decreases i,
{
    if i == 0 {
        let a = k.subrange(0, 1);
        assert(a[0] == k[0]);
        assert(esc(a) == esc_char(a[0]) + esc(a.skip(1)));
        assert(a.skip(1) =~= Seq::<char>::empty());
        assert(esc(a.skip(1)) == Seq::<char>::empty());
        assert(esc_char(k[0]) + Seq::<char>::empty() =~= esc_char(k[0]));
        assert(k.subrange(0, 0) =~= Seq::<char>::empty());
        assert(esc(k.subrange(0, 0)) + esc_char(k[0]) =~= esc_char(k[0]));
    } else {
        lemma_esc_snoc(k.skip(1), i - 1);
        let a = k.subrange(0, i + 1);
        let b = k.subrange(0, i);
        assert(a[0] == k[0]);
        assert(b[0] == k[0]);
        assert(a.skip(1) =~= k.skip(1).subrange(0, i));
        assert(b.skip(1) =~= k.skip(1).subrange(0, i - 1));
        assert(k.skip(1)[i - 1] == k[i]);
        assert(esc(a) == esc_char(k[0]) + esc(a.skip(1)));
        assert(esc(b) == esc_char(k[0]) + esc(b.skip(1)));
        assert(esc_char(k[0]) + (esc(b.skip(1)) + esc_char(k[i])) =~= (esc_char(k[0]) + esc(
            b.skip(1),
        )) + esc_char(k[i]));
    }
}

/// One rendered line: the quoted, escaped name, ` = `, the decimal
/// count, newline.
pub open spec fn spec_render_pair(k: Seq<char>, c: u32) -> Seq<char> {
    seq!['"'] + esc(k) + seq!['"', ' ', '=', ' '] + spec_dec(c as nat) + seq!['\n']
}

pub open spec fn spec_render_pairs(ps: Seq<(Seq<char>, u32)>) -> Seq<char>
    decreases ps.len(),
{
    if ps.len() == 0 {
        Seq::empty()
    } else {
        spec_render_pair(ps[0].0, ps[0].1) + spec_render_pairs(ps.skip(1))
    }
}

/// The whole rendered store.
pub open spec fn spec_render(ps: Seq<(Seq<char>, u32)>) -> Seq<char> {
    header() + spec_render_pairs(ps)
}

/// The name inside the quotes and what follows the closing quote; the
/// text starts just after the opening quote, and a backslash escapes a
/// double quote or a backslash.
pub open spec fn scan_quoted(s: Seq<char>) -> Option<(Seq<char>, Seq<char>)>
    decreases s.len(),
{
    if s.len() == 0 {
        None
    } else if s[0] == '"' {
        Some((Seq::<char>::empty(), s.skip(1)))
    } else if s[0] == '\\' {
        if s.len() >= 2 && (s[1] == '"' || s[1] == '\\') {
            match scan_quoted(s.skip(2)) {
                None => None,
                Some((k, r)) => Some((seq![s[1]] + k, r)),
            }
        } else {
            None
        }
    } else {
        match scan_quoted(s.skip(1)) {
            None => None,
            Some((k, r)) => Some((seq![s[0]] + k, r)),
        }
    }
}

pub proof fn lemma_scan_quoted_len(s: Seq<char>)
    ensures
        scan_quoted(s).is_some() ==> scan_quoted(s).unwrap().1.len() < s.len(),
    decreases s.len(),
{
    if s.len() > 0 && s[0] == '\\' {
        if s.len() >= 2 && (s[1] == '"' || s[1] == '\\') {
            lemma_scan_quoted_len(s.skip(2));
        }
    } else if s.len() > 0 && s[0] != '"' {
        lemma_scan_quoted_len(s.skip(1));
    }
}

/// The maximal digit prefix and what follows it.
pub open spec fn scan_digits(s: Seq<char>) -> (Seq<char>, Seq<char>)
    decreases s.len(),
{
    if s.len() == 0 || !is_digit(s[0]) {
        (Seq::<char>::empty(), s)
    } else {
        let (d, r) = scan_digits(s.skip(1));
        (seq![s[0]] + d, r)
    }
}

pub proof fn lemma_scan_digits_shape(s: Seq<char>)
    ensures
        scan_digits(s).0.len() + scan_digits(s).1.len() == s.len(),
        all_digits(scan_digits(s).0),
        scan_digits(s).1.len() > 0 ==> !is_digit(scan_digits(s).1[0]),
        s == scan_digits(s).0 + scan_digits(s).1,
    decreases s.len(),
{
    if s.len() == 0 || !is_digit(s[0]) {
        assert(s =~= scan_digits(s).0 + scan_digits(s).1);
    } else {
        lemma_scan_digits_shape(s.skip(1));
        let (d, r) = scan_digits(s.skip(1));
        assert(all_digits(seq![s[0]] + d)) by {
            assert(forall|i: int|
                1 <= i < (seq![s[0]] + d).len() ==> (seq![s[0]] + d)[i] == d[i - 1]);
        }
        assert(s.skip(1) == d + r);
        assert(s =~= seq![s[0]] + s.skip(1));
        assert(seq![s[0]] + (d + r) =~= seq![s[0]] + d + r);
    }
}

/// One parsed line: the name, the count, and the remaining text.
pub open spec fn spec_parse_pair(s: Seq<char>) -> Option<(Seq<char>, u32, Seq<char>)> {
    if s.len() == 0 || s[0] != '"' {
        None
    } else {
        match scan_quoted(s.skip(1)) {
            None => None,
            Some((k, r1)) => {
                if r1.len() >= 3 && r1[0] == ' ' && r1[1] == '=' && r1[2] == ' ' {
                    let (ds, r2) = scan_digits(r1.skip(3));
                    if ds.len() == 0 {
                        None
                    } else if digits_val(ds) > u32::MAX {
                        None
                    } else if r2.len() >= 1 && r2[0] == '\n' {
                        Some((k, digits_val(ds) as u32, r2.skip(1)))
                    } else {
                        None
                    }
                } else {
                    None
                }
            },
        }
    }
}

pub proof fn lemma_parse_pair_len(s: Seq<char>)
    ensures
        spec_parse_pair(s).is_some() ==> spec_parse_pair(s).unwrap().2.len() < s.len(),
{
    if s.len() > 0 && s[0] == '"' {
        lemma_scan_quoted_len(s.skip(1));
        if scan_quoted(s.skip(1)).is_some() {
            let (k, r1) = scan_quoted(s.skip(1)).unwrap();
            if r1.len() >= 3 && r1[0] == ' ' && r1[1] == '=' && r1[2] == ' ' {
                lemma_scan_digits_shape(r1.skip(3));
            }
        }
    }
}

pub open spec fn keys_of(ps: Seq<(Seq<char>, u32)>) -> Seq<Seq<char>> {
    ps.map_values(|p: (Seq<char>, u32)| p.0)
}

/// The parsed lines, rejecting a repeated name.
pub open spec fn spec_parse_pairs(s: Seq<char>) -> Option<Seq<(Seq<char>, u32)>>
    decreases s.len(),
    via spec_parse_pairs_dec
{
    if s.len() == 0 {
        Some(Seq::<(Seq<char>, u32)>::empty())
    } else {
        match spec_parse_pair(s) {
            None => None,
            Some((k, c, rest)) => {
                match spec_parse_pairs(rest) {
                    None => None,
                    Some(ps) => {
                        if keys_of(ps).contains(k) {
                            None
                        } else {
                            Some(seq![(k, c)] + ps)
                        }
                    },
                }
            },
        }
    }
}

#[via_fn]
proof fn spec_parse_pairs_dec(s: Seq<char>) {
    lemma_parse_pair_len(s);
}

/// The parsed store: the header line, then the entry lines.
pub open spec fn spec_parse(s: Seq<char>) -> Option<Seq<(Seq<char>, u32)>> {
    if s.len() >= 6 && s.subrange(0, 6) == header() {
        spec_parse_pairs(s.skip(6))
    } else {
        None
    }
}

/// The mapping a file denotes: a file that does not parse denotes the
/// empty mapping.
pub open spec fn spec_loaded(s: Seq<char>) -> Map<Seq<char>, u32> {
    match spec_parse(s) {
        Some(ps) => map_of_pairs(ps),
        None => Map::empty(),
    }
}

fn dec_digit(d: u32) -> (c: char)
    requires
        d < 10,
    ensures
        c == digit_char(d as nat),
{
    if d == 0 {
        '0'
    } else if d == 1 {
        '1'
    } else if d == 2 {
        '2'
    } else if d == 3 {
        '3'
    } else if d == 4 {
        '4'
    } else if d == 5 {
        '5'
    } else if d == 6 {
        '6'
    } else if d == 7 {
        '7'
    } else if d == 8 {
        '8'
    } else {
        '9'
    }
}

/// The decimal digits of `n`.
pub fn u32_to_string(n: u32) -> (r: String)
    ensures
        r@ == spec_dec(n as nat),
    decreases n,
{
    if n < 10 {
        char_to_string(dec_digit(n))
    } else {
        assert(n / 10 < n);
        let mut r = u32_to_string(n / 10);
        let d = char_to_string(dec_digit(n % 10));
        r.append(d.as_str());
        r
    }
}

/// A name as it is written inside the quotes.
fn escape_name(k: &str) -> (r: String)
    ensures
        r@ == esc(k@),
{
    let n = k.unicode_len();
    let mut r = String::new();
    let mut i: usize = 0;
    proof {
        assert(k@.subrange(0, 0) =~= Seq::<char>::empty());
    }
    while i < n
        invariant
            n == k@.len(),
            i <= n,
            r@ == esc(k@.subrange(0, i as int)),
        decreases n - i,
    {
        let c = k.get_char(i);
        if c == '"' || c == '\\' {
            let b = char_to_string('\\');
            r.append(b.as_str());
        }
        let cs = char_to_string(c);
        r.append(cs.as_str());
        proof {
            lemma_esc_snoc(k@, i as int);
            assert(r@ =~= esc(k@.subrange(0, i as int)) + esc_char(k@[i as int]));
        }
        i = i + 1;
    }
    proof {
        assert(k@.subrange(0, n as int) =~= k@);
    }
    r
}

/// The text form of a store.
pub fn render_heatmap(h: &Heatmap) -> (r: String)
    ensures
        r@ == spec_render(h.pairs_model()),
{
    let ghost model = h.pairs_model();
    let mut r = String::from_str("[map]\n");
    proof {
        reveal_strlit("[map]\n");
        assert(r@ =~= header());
        assert(model.skip(0) =~= model);
    }
    let n = h.pairs.len();
    let mut i: usize = 0;
    while i < n
        invariant
            n == h.pairs@.len(),
            model == h.pairs_model(),
            i <= n,
            r@ + spec_render_pairs(model.skip(i as int)) == spec_render(model),
        decreases n - i,
    {
        let ghost r0 = r@;
        let ghost k = model[i as int].0;
        let ghost c = model[i as int].1;
        let quote = char_to_string('"');
        r.append(quote.as_str());
        let escaped = escape_name(h.pairs[i].0.as_str());
        r.append(escaped.as_str());
        r.append("\" = ");
        let num = u32_to_string(h.pairs[i].1);
        r.append(num.as_str());
        let newline = char_to_string('\n');
        r.append(newline.as_str());
        proof {
            reveal_strlit("\" = ");
            assert("\" = "@ =~= seq!['"', ' ', '=', ' ']);
            assert(r@ =~= r0 + spec_render_pair(k, c));
            assert(model.skip(i as int)[0] == model[i as int]);
            assert(model.skip(i as int).skip(1) =~= model.skip(i + 1 as int));
            assert(spec_render_pairs(model.skip(i as int)) == spec_render_pair(k, c)
                + spec_render_pairs(model.skip(i + 1 as int)));
            assert(r0 + (spec_render_pair(k, c) + spec_render_pairs(model.skip(i + 1 as int)))
                =~= (r0 + spec_render_pair(k, c)) + spec_render_pairs(model.skip(i + 1 as int)));
        }
        i = i + 1;
    }
    proof {
        assert(model.skip(n as int) =~= Seq::<(Seq<char>, u32)>::empty());
        assert(r@ + spec_render_pairs(model.skip(n as int)) =~= r@);
    }
    r
}

fn scan_quoted_exec(v: &Vec<char>, pos: usize) -> (r: Option<(String, usize)>)
    requires
        pos <= v@.len(),
    ensures
        match r {
            Some(kp) => pos < kp.1 <= v@.len() && scan_quoted(v@.skip(pos as int)) == Some(
                (kp.0@, v@.skip(kp.1 as int)),
            ),
            None => scan_quoted(v@.skip(pos as int)) is None,
        },
    decreases v@.len() - pos,
{
    let ghost s = v@.skip(pos as int);
    if pos == v.len() {
        proof {
            assert(s.len() == 0);
        }
        return None;
    }
    proof {
        assert(s[0] == v@[pos as int]);
        assert(s.skip(1) =~= v@.skip(pos + 1 as int));
    }
    if v[pos] == '"' {
        return Some((String::new(), pos + 1));
    }
    if v[pos] == '\\' {
        if v.len() - pos >= 2 && (v[pos + 1] == '"' || v[pos + 1] == '\\') {
            proof {
                assert(s[1] == v@[pos + 1 as int]);
                assert(s.skip(2) =~= v@.skip(pos + 2 as int));
            }
            return match scan_quoted_exec(v, pos + 2) {
                None => None,
                Some((k, p)) => {
                    let mut piece = char_to_string(v[pos + 1]);
                    piece.append(k.as_str());
                    proof {
                        assert(piece@ =~= seq![s[1]] + k@);
                    }
                    Some((piece, p))
                },
            };
        }
        proof {
            if s.len() >= 2 {
                assert(s[1] == v@[pos + 1 as int]);
            }
        }
        return None;
    }
    match scan_quoted_exec(v, pos + 1) {
        None => None,
        Some((k, p)) => {
            let mut piece = char_to_string(v[pos]);
            piece.append(k.as_str());
            proof {
                assert(piece@ =~= seq![s[0]] + k@);
            }
            Some((piece, p))
        },
    }
}

fn scan_digits_end(v: &Vec<char>, pos: usize) -> (j: usize)
    requires
        pos <= v@.len(),
    ensures
        pos <= j <= v@.len(),
        scan_digits(v@.skip(pos as int)).0 == v@.subrange(pos as int, j as int),
        scan_digits(v@.skip(pos as int)).1 == v@.skip(j as int),
    decreases v@.len() - pos,
{
    let ghost s = v@.skip(pos as int);
    if pos == v.len() {
        proof {
            assert(s.len() == 0);
            assert(scan_digits(s).0 =~= v@.subrange(pos as int, pos as int));
        }
        return pos;
    }
    proof {
        assert(s[0] == v@[pos as int]);
        assert(s.skip(1) =~= v@.skip(pos + 1 as int));
    }
    let code = v[pos] as u32;
    if 48 <= code && code <= 57 {
        let j = scan_digits_end(v, pos + 1);
        proof {
            assert(seq![s[0]] + v@.subrange(pos + 1 as int, j as int) =~= v@.subrange(
                pos as int,
                j as int,
            ));
        }
        j
    } else {
        proof {
            assert(!is_digit(s[0]));
            assert(scan_digits(s).0 =~= v@.subrange(pos as int, pos as int));
        }
        pos
    }
}

pub proof fn lemma_digits_val_prefix(ds: Seq<char>, i: int)
    requires
        0 <= i <= ds.len(),
    ensures
        digits_val(ds.subrange(0, i)) <= digits_val(ds),
    decreases ds.len() - i,
{
    if i == ds.len() {
        assert(ds.subrange(0, i) =~= ds);
    } else {
        lemma_digits_val_prefix(ds.drop_last(), i);
        assert(ds.drop_last().subrange(0, i) =~= ds.subrange(0, i));
        assert(digits_val(ds.drop_last()) * 10 + digit_val(ds.last()) >= digits_val(
            ds.drop_last(),
        ));
    }
}

fn digits_to_u32(v: &Vec<char>, pos: usize, j: usize) -> (r: Option<u32>)
    requires
        pos <= j <= v@.len(),
        all_digits(v@.subrange(pos as int, j as int)),
    ensures
        ({
            let ds = v@.subrange(pos as int, j as int);
            match r {
                Some(x) => digits_val(ds) <= u32::MAX && x == digits_val(ds),
                None => digits_val(ds) > u32::MAX,
            }
        }),
{
    let ghost ds = v@.subrange(pos as int, j as int);
    let mut acc: u64 = 0;
    let mut i: usize = pos;
    while i < j
        invariant
            pos <= i <= j <= v@.len(),
            ds == v@.subrange(pos as int, j as int),
            all_digits(ds),
            acc == digits_val(v@.subrange(pos as int, i as int)),
            acc <= u32::MAX,
        decreases j - i,
    {
        let ghost prefix = v@.subrange(pos as int, i as int);
        proof {
            assert(ds[i - pos] == v@[i as int]);
            assert(is_digit(v@[i as int]));
            assert(v@.subrange(pos as int, i + 1 as int).drop_last() =~= prefix);
            assert(v@.subrange(pos as int, i + 1 as int).last() == v@[i as int]);
        }
        let d = (v[i] as u32) - 48;
        acc = acc * 10 + (d as u64);
        i = i + 1;
        if acc > 0xffff_ffff {
            proof {
                lemma_digits_val_prefix(ds, i - pos);
                assert(ds.subrange(0, i - pos) =~= v@.subrange(pos as int, i as int));
            }
            return None;
        }
    }
    proof {
        assert(v@.subrange(pos as int, j as int) =~= ds);
    }
    Some(acc as u32)
}

fn parse_pair_exec(v: &Vec<char>, pos: usize) -> (r: Option<(String, u32, usize)>)
    requires
        pos <= v@.len(),
    ensures
        match r {
            Some(kcp) => pos < kcp.2 <= v@.len() && spec_parse_pair(v@.skip(pos as int)) == Some(
                (kcp.0@, kcp.1, v@.skip(kcp.2 as int)),
            ),
            None => spec_parse_pair(v@.skip(pos as int)) is None,
        },
{
    let ghost s = v@.skip(pos as int);
    if pos == v.len() {
        return None;
    }
    proof {
        assert(s[0] == v@[pos as int]);
        assert(s.skip(1) =~= v@.skip(pos + 1 as int));
    }
    if v[pos] != '"' {
        return None;
    }
    let (k, p1) = match scan_quoted_exec(v, pos + 1) {
        None => {
            return None;
        },
        Some(kp) => kp,
    };
    let ghost r1 = v@.skip(p1 as int);
    if v.len() - p1 < 3 {
        return None;
    }
    proof {
        assert(r1[0] == v@[p1 as int]);
        assert(r1[1] == v@[p1 + 1 as int]);
        assert(r1[2] == v@[p1 + 2 as int]);
    }
    if !(v[p1] == ' ' && v[p1 + 1] == '=' && v[p1 + 2] == ' ') {
        return None;
    }
    proof {
        assert(r1.skip(3) =~= v@.skip(p1 + 3 as int));
    }
    let j = scan_digits_end(v, p1 + 3);
    proof {
        lemma_scan_digits_shape(v@.skip(p1 + 3 as int));
    }
    if j == p1 + 3 {
        proof {
            assert(scan_digits(r1.skip(3)).0.len() == 0);
        }
        return None;
    }
    let c = match digits_to_u32(v, p1 + 3, j) {
        None => {
            return None;
        },
        Some(c) => c,
    };
    if j == v.len() {
        proof {
            assert(scan_digits(r1.skip(3)).1.len() == 0);
        }
        return None;
    }
    proof {
        assert(v@.skip(j as int)[0] == v@[j as int]);
        assert(v@.skip(j as int).skip(1) =~= v@.skip(j + 1 as int));
    }
    if v[j] != '\n' {
        return None;
    }
    Some((k, c, j + 1))
}

fn parse_pairs_exec(v: &Vec<char>, pos: usize) -> (r: Option<Vec<(String, u32)>>)
    requires
        pos <= v@.len(),
    ensures
        match r {
            Some(ps) => spec_parse_pairs(v@.skip(pos as int)) == Some(pair_views(ps@)),
            None => spec_parse_pairs(v@.skip(pos as int)) is None,
        },
    decreases v@.len() - pos,
{
    let ghost s = v@.skip(pos as int);
    if pos == v.len() {
        let ps: Vec<(String, u32)> = Vec::new();
        proof {
            assert(s.len() == 0);
            assert(pair_views(ps@) =~= Seq::<(Seq<char>, u32)>::empty());
        }
        return Some(ps);
    }
    let (k, c, p) = match parse_pair_exec(v, pos) {
        None => {
            return None;
        },
        Some(kcp) => kcp,
    };
    let mut ps = match parse_pairs_exec(v, p) {
        None => {
            return None;
        },
        Some(x) => x,
    };
    let ghost tail_pairs = pair_views(ps@);
    // reject a repeated name, as the structured-text format does
    let n = ps.len();
    let mut i: usize = 0;
    while i < n
        invariant
            n == ps@.len(),
            tail_pairs == pair_views(ps@),
            i <= n,
            pos < p <= v@.len(),
            spec_parse_pair(v@.skip(pos as int)) == Some((k@, c, v@.skip(p as int))),
            spec_parse_pairs(v@.skip(p as int)) == Some(tail_pairs),
            forall|q: int| 0 <= q < i ==> tail_pairs[q].0 != k@,
        decreases n - i,
    {
        if crate::text::str_eq(ps[i].0.as_str(), k.as_str()) {
            proof {
                assert(keys_of(tail_pairs)[i as int] == k@);
                assert(keys_of(tail_pairs).contains(k@));
                assert(spec_parse_pair(v@.skip(pos as int)) == Some((k@, c, v@.skip(p as int))));
                assert(spec_parse_pairs(v@.skip(p as int)) == Some(tail_pairs));
            }
            return None;
        }
        i = i + 1;
    }
    proof {
        assert(!keys_of(tail_pairs).contains(k@)) by {
            if keys_of(tail_pairs).contains(k@) {
                let q = choose|q: int|
                    0 <= q < keys_of(tail_pairs).len() && keys_of(tail_pairs)[q] == k@;
                assert(tail_pairs[q].0 == k@);
            }
        }
    }
    ps.insert(0, (k, c));
    proof {
        assert(pair_views(ps@) =~= seq![(k@, c)] + tail_pairs);
    }
    Some(ps)
}

/// A store read back from its text form; text that does not parse gives
/// the empty store.
pub fn load_heatmap(content: &str) -> (h: Heatmap)
    ensures
        h.wf(),
        h@ == spec_loaded(content@),
        match spec_parse(content@) {
            Some(ps) => h.pairs_model() == ps,
            None => h.pairs_model() == Seq::<(Seq<char>, u32)>::empty(),
        },
{
    let v = crate::text::str_to_chars(content);
    if v.len() < 6 {
        return Heatmap::new();
    }
    if v[0] != '[' {
        proof {
            assert(content@.subrange(0, 6)[0] != header()[0]);
        }
        return Heatmap::new();
    }
    if v[1] != 'm' {
        proof {
            assert(content@.subrange(0, 6)[1] != header()[1]);
        }
        return Heatmap::new();
    }
    if v[2] != 'a' {
        proof {
            assert(content@.subrange(0, 6)[2] != header()[2]);
        }
        return Heatmap::new();
    }
    if v[3] != 'p' {
        proof {
            assert(content@.subrange(0, 6)[3] != header()[3]);
        }
        return Heatmap::new();
    }
    if v[4] != ']' {
        proof {
            assert(content@.subrange(0, 6)[4] != header()[4]);
        }
        return Heatmap::new();
    }
    if v[5] != '\n' {
        proof {
            assert(content@.subrange(0, 6)[5] != header()[5]);
        }
        return Heatmap::new();
    }
    proof {
        assert(content@.subrange(0, 6) =~= header());
    }
    match parse_pairs_exec(&v, 6) {
        None => Heatmap::new(),
        Some(ps) => {
            let h = Heatmap { pairs: ps };
            proof {
                lemma_parse_pairs_unique(content@.skip(6));
            }
            h
        },
    }
}

pub proof fn lemma_parse_pairs_unique(s: Seq<char>)
    ensures
        spec_parse_pairs(s).is_some() ==> unique_keys(spec_parse_pairs(s).unwrap()),
    decreases s.len(),
{
    lemma_parse_pair_len(s);
    if s.len() != 0 && spec_parse_pair(s).is_some() {
        let (k, c, rest) = spec_parse_pair(s).unwrap();
        lemma_parse_pairs_unique(rest);
        if spec_parse_pairs(rest).is_some() {
            let ps = spec_parse_pairs(rest).unwrap();
            if !keys_of(ps).contains(k) {
                let whole = seq![(k, c)] + ps;
                assert(unique_keys(whole)) by {
                    assert(forall|i: int, j: int|
                        0 <= i < j < whole.len() && i > 0 ==> whole[i].0 != whole[j].0) by {
                        assert(forall|i: int| 1 <= i < whole.len() ==> whole[i] == ps[i - 1]);
                    }
                    assert(forall|j: int| 1 <= j < whole.len() ==> whole[0].0 != #[trigger] whole[j].0) by {
                        assert(whole[0] == (k, c));
                        assert(forall|j: int| 1 <= j < whole.len() ==> whole[j] == ps[j - 1]);
                        assert(forall|j: int|
                            0 <= j < ps.len() ==> keys_of(ps)[j] == #[trigger] ps[j].0);
                    }
                }
            }
        }
    }
}

pub proof fn lemma_scan_quoted_exact(k: Seq<char>, rest: Seq<char>)
    ensures
        scan_quoted(esc(k) + seq!['"'] + rest) == Some((k, rest)),
    decreases k.len(),
{
    let s = esc(k) + seq!['"'] + rest;
    if k.len() == 0 {
        assert(esc(k) =~= Seq::<char>::empty());
        assert(s[0] == '"');
        assert(s.skip(1) =~= rest);
        assert(k =~= Seq::<char>::empty());
    } else {
        let c = k[0];
        assert(esc(k) == esc_char(c) + esc(k.skip(1)));
        lemma_scan_quoted_exact(k.skip(1), rest);
        if c == '"' || c == '\\' {
            assert(s[0] == '\\');
            assert(s[1] == c);
            assert(s.len() >= 2);
            assert(s.skip(2) =~= esc(k.skip(1)) + seq!['"'] + rest);
            assert(seq![s[1]] + k.skip(1) =~= k);
        } else {
            assert(s[0] == c);
            assert(s.skip(1) =~= esc(k.skip(1)) + seq!['"'] + rest);
            assert(seq![s[0]] + k.skip(1) =~= k);
        }
    }
}

pub proof fn lemma_scan_digits_exact(ds: Seq<char>, rest: Seq<char>)
    requires
        all_digits(ds),
        rest.len() == 0 || !is_digit(rest[0]),
    ensures
        scan_digits(ds + rest) == (ds, rest),
    decreases ds.len(),
{
    let s = ds + rest;
    if ds.len() == 0 {
        assert(s =~= rest);
        assert(ds =~= Seq::<char>::empty());
    } else {
        assert(s[0] == ds[0]);
        assert(is_digit(ds[0]));
        assert(all_digits(ds.skip(1))) by {
            assert(forall|i: int| 0 <= i < ds.skip(1).len() ==> ds.skip(1)[i] == ds[i + 1]);
        }
        lemma_scan_digits_exact(ds.skip(1), rest);
        assert(s.skip(1) =~= ds.skip(1) + rest);
        assert(seq![s[0]] + ds.skip(1) =~= ds);
    }
}

pub proof fn lemma_dec_digits(n: nat)
    ensures
        spec_dec(n).len() >= 1,
        all_digits(spec_dec(n)),
    decreases n,
{
    if n < 10 {
        assert(is_digit(digit_char(n)));
    } else {
        lemma_dec_digits(n / 10);
        let ds = spec_dec(n / 10);
        let whole = ds + seq![digit_char(n % 10)];
        assert(is_digit(digit_char(n % 10)));
        assert(all_digits(whole)) by {
            assert(forall|i: int| 0 <= i < ds.len() ==> whole[i] == ds[i]);
            assert(whole[ds.len() as int] == digit_char(n % 10));
        }
    }
}

pub proof fn lemma_digits_val_dec(n: nat)
    ensures
        digits_val(spec_dec(n)) == n,
    decreases n,
{
    if n < 10 {
        let ds = seq![digit_char(n)];
        assert(spec_dec(n) == ds);
        assert(ds.drop_last() =~= Seq::<char>::empty());
        assert(digits_val(ds) == digits_val(ds.drop_last()) * 10 + digit_val(ds.last()));
        assert(digits_val(ds.drop_last()) == 0);
        assert(digit_val(digit_char(n)) == n);
    } else {
        lemma_digits_val_dec(n / 10);
        let ds = spec_dec(n / 10) + seq![digit_char(n % 10)];
        assert(spec_dec(n) == ds);
        assert(ds.drop_last() =~= spec_dec(n / 10));
        assert(ds.last() == digit_char(n % 10));
        assert(digits_val(ds) == digits_val(ds.drop_last()) * 10 + digit_val(ds.last()));
        assert(digit_val(digit_char(n % 10)) == n % 10);
        assert((n / 10) * 10 + n % 10 == n);
    }
}

pub proof fn lemma_parse_pair_render(k: Seq<char>, c: u32, t: Seq<char>)
    ensures
        spec_parse_pair(spec_render_pair(k, c) + t) == Some((k, c, t)),
{
    let s = spec_render_pair(k, c) + t;
    let t1 = seq![' ', '=', ' '] + spec_dec(c as nat) + seq!['\n'] + t;
    lemma_dec_digits(c as nat);
    assert(s.len() > 0);
    assert(s[0] == '"');
    assert(s.skip(1) =~= esc(k) + seq!['"'] + t1);
    lemma_scan_quoted_exact(k, t1);
    assert(t1.len() >= 3);
    assert(t1[0] == ' ');
    assert(t1[1] == '=');
    assert(t1[2] == ' ');
    assert(t1.skip(3) =~= spec_dec(c as nat) + (seq!['\n'] + t));
    assert(!is_digit('\n'));
    assert((seq!['\n'] + t)[0] == '\n');
    lemma_scan_digits_exact(spec_dec(c as nat), seq!['\n'] + t);
    lemma_digits_val_dec(c as nat);
    assert(digits_val(spec_dec(c as nat)) <= u32::MAX);
    assert((seq!['\n'] + t).skip(1) =~= t);
}

pub proof fn lemma_parse_pairs_render(ps: Seq<(Seq<char>, u32)>)
    requires
        unique_keys(ps),
    ensures
        spec_parse_pairs(spec_render_pairs(ps)) == Some(ps),
    decreases ps.len(),
{
    if ps.len() == 0 {
        assert(spec_render_pairs(ps) =~= Seq::<char>::empty());
        assert(spec_parse_pairs(spec_render_pairs(ps)) == Some(Seq::<(Seq<char>, u32)>::empty()));
        assert(ps =~= Seq::<(Seq<char>, u32)>::empty());
    } else {
        let s = spec_render_pairs(ps);
        let t = spec_render_pairs(ps.skip(1));
        assert(s == spec_render_pair(ps[0].0, ps[0].1) + t);
        lemma_parse_pair_render(ps[0].0, ps[0].1, t);
        assert(s.len() > 0);
        assert(unique_keys(ps.skip(1))) by {
            assert(forall|i: int| 0 <= i < ps.skip(1).len() ==> ps.skip(1)[i] == ps[i + 1]);
        }
        lemma_parse_pairs_render(ps.skip(1));
        assert(!keys_of(ps.skip(1)).contains(ps[0].0)) by {
            if keys_of(ps.skip(1)).contains(ps[0].0) {
                let i = choose|i: int|
                    0 <= i < keys_of(ps.skip(1)).len() && keys_of(ps.skip(1))[i] == ps[0].0;
                assert(ps.skip(1)[i].0 == ps[0].0);
                assert(ps[i + 1].0 == ps[0].0);
            }
        }
        assert(seq![(ps[0].0, ps[0].1)] + ps.skip(1) =~= ps);
    }
}

/// Law: parsing a rendered store gives back exactly the stored pairs,
/// for every store whose names are pairwise distinct.
pub proof fn lemma_render_parse_round_trip(ps: Seq<(Seq<char>, u32)>)
    requires
        unique_keys(ps),
    ensures
        spec_parse(spec_render(ps)) == Some(ps),
{
    let s = spec_render(ps);
    assert(s.len() >= 6);
    assert(s.subrange(0, 6) =~= header());
    assert(s.skip(6) =~= spec_render_pairs(ps));
    lemma_parse_pairs_render(ps);
}

/// One persisted update, exactly as the store performs it: re-read the
/// current text, set the single pair, render the whole mapping back.
pub fn apply_save(content: &str, name: &str, count: u32) -> (r: String)
    ensures
        spec_loaded(r@) == spec_loaded(content@).insert(name@, count),
{
    let mut h = load_heatmap(content);
    h.set(name, count);
    let r = render_heatmap(&h);
    proof {
        lemma_render_parse_round_trip(h.pairs_model());
    }
    r
}

} // verus!
