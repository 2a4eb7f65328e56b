//! Character-level string utilities with their meaning stated over `Seq<char>`.

use vstd::prelude::*;

verus! {

// ---------------------------------------------------------------------------
// Conversions between `str`/`String` and character vectors
// ---------------------------------------------------------------------------

/// The characters of `s`, in order.
pub fn chars_of(s: &str) -> (v: Vec<char>)
    ensures
        v@ == s@,
{
    let mut v: Vec<char> = Vec::new();
    for c in it: s.chars()
        invariant
            v@ == it.seq().take(it.index() as int),
    {
        v.push(c);
    }
    v
}

/// Appends one character (`String::push`).
#[verifier::external_body]
fn push_char(s: &mut String, c: char)
    ensures
        final(s)@ == old(s)@.push(c),
{
    s.push(c);
}

/// The string made of the characters of `v`.
pub fn string_from_chars(v: &[char]) -> (s: String)
    ensures
        s@ == v@,
{
    let mut s = String::new();
    let mut i: usize = 0;
    while i < v.len()
        invariant
            i <= v@.len(),
            s@ == v@.subrange(0, i as int),
        decreases v@.len() - i,
    {
        push_char(&mut s, v[i]);
        proof {
            assert(v@.subrange(0, i + 1) =~= v@.subrange(0, i as int).push(v@[i as int]));
        }
        i = i + 1;
    }
    proof {
        assert(v@.subrange(0, v@.len() as int) =~= v@);
    }
    s
}

/// An owned copy of `s`.
pub fn owned(s: &str) -> (r: String)
    ensures
        r@ == s@,
{
    s.to_owned()
}

/// `a` followed by `b`.
pub fn concat(a: &str, b: &str) -> (r: String)
    ensures
        r@ == a@ + b@,
{
    let va = chars_of(a);
    let vb = chars_of(b);
    let mut v = va;
    let mut i: usize = 0;
    while i < vb.len()
        invariant
            i <= vb@.len(),
            v@ == a@ + vb@.subrange(0, i as int),
            vb@ == b@,
        decreases vb@.len() - i,
    {
        v.push(vb[i]);
        proof {
            assert(vb@.subrange(0, i + 1) =~= vb@.subrange(0, i as int).push(vb@[i as int]));
        }
        i = i + 1;
    }
    proof {
        assert(vb@.subrange(0, vb@.len() as int) =~= vb@);
    }
    string_from_chars(v.as_slice())
}

/// Whether `a` and `b` hold the same characters.
pub fn str_eq(a: &str, b: &str) -> (r: bool)
    ensures
        r == (a@ == b@),
{
    let va = chars_of(a);
    let vb = chars_of(b);
    seq_eq(&va, &vb)
}

/// Element-wise comparison of two character vectors.
pub fn seq_eq(va: &Vec<char>, vb: &Vec<char>) -> (r: bool)
    ensures
        r == (va@ == vb@),
{
    if va.len() != vb.len() {
        return false;
    }
    let mut i: usize = 0;
    while i < va.len()
        invariant
            i <= va@.len(),
            va@.len() == vb@.len(),
            forall|k: int| 0 <= k < i ==> va@[k] == vb@[k],
        decreases va@.len() - i,
    {
        if va[i] != vb[i] {
            return false;
        }
        i = i + 1;
    }
    proof {
        assert(va@ =~= vb@);
    }
    true
}

// ---------------------------------------------------------------------------
// Prefixes, searching
// ---------------------------------------------------------------------------

pub open spec fn has_prefix(s: Seq<char>, p: Seq<char>) -> bool {
    p.len() <= s.len() && s.subrange(0, p.len() as int) == p
}

/// `s` starts with `p`.
pub fn starts_with(s: &str, p: &str) -> (r: bool)
    ensures
        r == has_prefix(s@, p@),
{
    let vs = chars_of(s);
    let vp = chars_of(p);
    vec_starts_with(&vs, &vp)
}

pub fn vec_starts_with(vs: &Vec<char>, vp: &Vec<char>) -> (r: bool)
    ensures
        r == has_prefix(vs@, vp@),
{
    if vp.len() > vs.len() {
        return false;
    }
    let mut i: usize = 0;
    while i < vp.len()
        invariant
            i <= vp@.len(),
            vp@.len() <= vs@.len(),
            forall|k: int| 0 <= k < i ==> vs@[k] == vp@[k],
        decreases vp@.len() - i,
    {
        if vs[i] != vp[i] {
            proof {
                assert(vs@.subrange(0, vp@.len() as int)[i as int] != vp@[i as int]);
            }
            return false;
        }
        i = i + 1;
    }
    proof {
        assert(vs@.subrange(0, vp@.len() as int) =~= vp@);
    }
    true
}

/// `s` with the prefix `p` removed, when `s` starts with `p` (`str::strip_prefix`).
pub fn strip_prefix(s: &str, p: &str) -> (r: Option<String>)
    ensures
        r is Some <==> has_prefix(s@, p@),
        r matches Some(t) ==> t@ == s@.subrange(p@.len() as int, s@.len() as int),
{
    let vs = chars_of(s);
    let vp = chars_of(p);
    if vec_starts_with(&vs, &vp) {
        let rest = sub_chars(&vs, vp.len(), vs.len());
        Some(string_from_chars(rest.as_slice()))
    } else {
        None
    }
}

/// The characters `v[from..to]`.
pub fn sub_chars(v: &Vec<char>, from: usize, to: usize) -> (r: Vec<char>)
    requires
        from <= to <= v@.len(),
    ensures
        r@ == v@.subrange(from as int, to as int),
{
    let mut r: Vec<char> = Vec::new();
    let mut i: usize = from;
    while i < to
        invariant
            from <= i <= to,
            to <= v@.len(),
            r@ == v@.subrange(from as int, i as int),
        decreases to - i,
    {
        r.push(v[i]);
        proof {
            assert(v@.subrange(from as int, i + 1) =~= v@.subrange(from as int, i as int).push(v@[i as int]));
        }
        i = i + 1;
    }
    r
}

/// Whether `c` occurs in `s`.
pub fn contains_char(s: &str, c: char) -> (r: bool)
    ensures
        r == s@.contains(c),
{
    let v = chars_of(s);
    match find_char(&v, c, 0) {
        Some(_) => true,
        None => false,
    }
}

/// The first position at or after `from` holding `c`.
pub fn find_char(v: &Vec<char>, c: char, from: usize) -> (r: Option<usize>)
    requires
        from <= v@.len(),
    ensures
        r matches Some(i) ==> from <= i < v@.len() && v@[i as int] == c
            && forall|k: int| from <= k < i ==> v@[k] != c,
        r is None ==> forall|k: int| from <= k < v@.len() ==> v@[k] != c,
        r is None && from == 0 ==> !v@.contains(c),
{
    let mut i = from;
    while i < v.len()
        invariant
            from <= i <= v@.len(),
            forall|k: int| from <= k < i ==> v@[k] != c,
        decreases v@.len() - i,
    {
        if v[i] == c {
            return Some(i);
        }
        i = i + 1;
    }
    None
}

/// Position of the first occurrence of `c` in `s`, if any.
pub open spec fn first_index_of(s: Seq<char>, c: char) -> int
    recommends
        s.contains(c),
{
    choose|i: int| 0 <= i < s.len() && s[i] == c && forall|k: int| 0 <= k < i ==> s[k] != c
}

pub proof fn lemma_first_index_of(s: Seq<char>, c: char, i: int)
    requires
        0 <= i < s.len(),
        s[i] == c,
        forall|k: int| 0 <= k < i ==> s[k] != c,
    ensures
        first_index_of(s, c) == i,
{
    let j = first_index_of(s, c);
    assert(0 <= j < s.len() && s[j] == c && forall|k: int| 0 <= k < j ==> s[k] != c);
}

// ---------------------------------------------------------------------------
// Splitting on a character (`str::split(char)`)
// ---------------------------------------------------------------------------

/// The pieces of `s` between occurrences of `c`, left to right; an empty
/// input gives one empty piece.
#[verifier::opaque]
pub open spec fn split_spec(s: Seq<char>, c: char) -> Seq<Seq<char>>
    decreases s.len(),
{
    if s.contains(c) {
        let i = first_index_of(s, c);
        if 0 <= i < s.len() {
            seq![s.subrange(0, i)] + split_spec(s.subrange(i + 1, s.len() as int), c)
        } else {
            seq![s]
        }
    } else {
        seq![s]
    }
}

/// Splits `s` at every occurrence of `c`.
pub fn split_char(s: &str, c: char) -> (parts: Vec<String>)
    ensures
        crate::property_map::string_views(parts@) == split_spec(s@, c),
{
    let v = chars_of(s);
    let parts = split_vec(&v, c);
    let mut out: Vec<String> = Vec::new();
    let mut i: usize = 0;
    while i < parts.len()
        invariant
            i <= parts@.len(),
            out@.len() == i,
            forall|k: int| 0 <= k < i ==> (#[trigger] out@[k])@ == parts@[k]@,
        decreases parts@.len() - i,
    {
        out.push(string_from_chars(parts[i].as_slice()));
        i = i + 1;
    }
    proof {
        assert(crate::property_map::string_views(out@) =~= parts@.map_values(|p: Vec<char>| p@));
    }
    out
}

proof fn lemma_split_found(s: Seq<char>, c: char, j: int)
    requires
        0 <= j < s.len(),
        s[j] == c,
        forall|k: int| 0 <= k < j ==> s[k] != c,
    ensures
        split_spec(s, c) == seq![s.subrange(0, j)] + split_spec(s.subrange(j + 1, s.len() as int), c),
{
    lemma_first_index_of(s, c, j);
    assert(s.contains(c));
    reveal(split_spec);
}

proof fn lemma_split_absent(s: Seq<char>, c: char)
    requires
        forall|k: int| 0 <= k < s.len() ==> s[k] != c,
    ensures
        split_spec(s, c) == seq![s],
{
    assert(!s.contains(c));
    reveal(split_spec);
}

/// `split_spec` on a character vector, pieces as character vectors.
pub fn split_vec(v: &Vec<char>, c: char) -> (parts: Vec<Vec<char>>)
    ensures
        parts@.map_values(|p: Vec<char>| p@) == split_spec(v@, c),
{
    let mut parts: Vec<Vec<char>> = Vec::new();
    let mut start: usize = 0;
    let ghost mut acc: Seq<Seq<char>> = Seq::empty();
    proof {
        assert(v@.subrange(0, v@.len() as int) =~= v@);
    }
    loop
        invariant
            start <= v@.len(),
            parts@.len() == acc.len(),
            forall|k: int| 0 <= k < acc.len() ==> (#[trigger] parts@[k])@ == acc[k],
            acc + split_spec(v@.subrange(start as int, v@.len() as int), c) == split_spec(v@, c),
        decreases v@.len() - start,
    {
        let ghost rest = v@.subrange(start as int, v@.len() as int);
        match find_char(v, c, start) {
            None => {
                let piece = sub_chars(v, start, v.len());
                proof {
                    assert forall|k: int| 0 <= k < rest.len() implies rest[k] != c by {
                        assert(rest[k] == v@[start + k]);
                    }
                    lemma_split_absent(rest, c);
                }
                parts.push(piece);
                proof {
                    acc = acc.push(rest);
                    assert(parts@.map_values(|p: Vec<char>| p@) =~= acc);
                }
                return parts;
            },
            Some(i) => {
                let piece = sub_chars(v, start, i);
                proof {
                    let j = (i - start) as int;
                    assert(rest[j] == c);
                    assert forall|k: int| 0 <= k < j implies rest[k] != c by {
                        assert(rest[k] == v@[start + k]);
                    }
                    lemma_split_found(rest, c, j);
                    assert(rest.subrange(0, j) =~= piece@);
                    assert(rest.subrange(j + 1, rest.len() as int) =~= v@.subrange(i + 1, v@.len() as int));
                    assert(acc.push(piece@) + split_spec(v@.subrange(i + 1, v@.len() as int), c)
                        =~= acc + (seq![piece@] + split_spec(v@.subrange(i + 1, v@.len() as int), c)));
                    acc = acc.push(piece@);
                }
                parts.push(piece);
                assert(i < v.len());
                start = i + 1;
            },
        }
    }
}

// ---------------------------------------------------------------------------
// Whitespace and trimming (`char::is_whitespace`, `str::trim`)
// ---------------------------------------------------------------------------

/// The Unicode `White_Space` characters.
pub open spec fn is_ws(c: char) -> bool {
    let x = c as u32;
    ||| 0x09 <= x <= 0x0d
    ||| x == 0x20
    ||| x == 0x85
    ||| x == 0xa0
    ||| x == 0x1680
    ||| 0x2000 <= x <= 0x200a
    ||| x == 0x2028
    ||| x == 0x2029
    ||| x == 0x202f
    ||| x == 0x205f
    ||| x == 0x3000
}

/// Whether `c` is a Unicode whitespace character.
pub fn is_whitespace(c: char) -> (r: bool)
    ensures
        r == is_ws(c),
{
    let x = c as u32;
    (0x09 <= x && x <= 0x0d) || x == 0x20 || x == 0x85 || x == 0xa0 || x == 0x1680 || (0x2000
        <= x && x <= 0x200a) || x == 0x2028 || x == 0x2029 || x == 0x202f || x == 0x205f || x
        == 0x3000
}

/// `s` without leading whitespace.
pub open spec fn trim_start_spec(s: Seq<char>) -> Seq<char>
    decreases s.len(),
{
    if s.len() > 0 && is_ws(s[0]) {
        trim_start_spec(s.drop_first())
    } else {
        s
    }
}

/// `s` without trailing whitespace.
pub open spec fn trim_end_spec(s: Seq<char>) -> Seq<char>
    decreases s.len(),
{
    if s.len() > 0 && is_ws(s.last()) {
        trim_end_spec(s.drop_last())
    } else {
        s
    }
}

/// `s` without leading and trailing whitespace.
pub open spec fn trim_spec(s: Seq<char>) -> Seq<char> {
    trim_end_spec(trim_start_spec(s))
}

proof fn lemma_trim_start_skip(s: Seq<char>, i: int)
    requires
        0 <= i <= s.len(),
        forall|k: int| 0 <= k < i ==> is_ws(s[k]),
    ensures
        trim_start_spec(s) == trim_start_spec(s.subrange(i, s.len() as int)),
    decreases i,
{
    if i > 0 {
        assert(is_ws(s[0]));
        lemma_trim_start_skip(s.drop_first(), i - 1);
        assert(s.drop_first().subrange(i - 1, s.drop_first().len() as int) =~= s.subrange(i, s.len() as int));
    } else {
        assert(s.subrange(0, s.len() as int) =~= s);
    }
}

proof fn lemma_trim_end_cut(s: Seq<char>, j: int)
    requires
        0 <= j <= s.len(),
        forall|k: int| j <= k < s.len() ==> is_ws(s[k]),
    ensures
        trim_end_spec(s) == trim_end_spec(s.subrange(0, j)),
    decreases s.len() - j,
{
    if j < s.len() {
        assert(is_ws(s.last()));
        lemma_trim_end_cut(s.drop_last(), j);
        assert(s.drop_last().subrange(0, j) =~= s.subrange(0, j));
    } else {
        assert(s.subrange(0, j) =~= s);
    }
}

/// The characters of `v` without leading and trailing whitespace.
pub fn trim_vec(v: &Vec<char>) -> (r: Vec<char>)
    ensures
        r@ == trim_spec(v@),
{
    let mut i: usize = 0;
    while i < v.len() && is_whitespace(v[i])
        invariant
            i <= v@.len(),
            forall|k: int| 0 <= k < i ==> is_ws(v@[k]),
        decreases v@.len() - i,
    {
        i = i + 1;
    }
    let ghost t = v@.subrange(i as int, v@.len() as int);
    proof {
        lemma_trim_start_skip(v@, i as int);
        if i < v@.len() {
            assert(t[0] == v@[i as int]);
        }
        assert(trim_start_spec(t) == t);
    }
    let mut j: usize = v.len();
    while j > i && is_whitespace(v[j - 1])
        invariant
            i <= j <= v@.len(),
            forall|k: int| j <= k < v@.len() ==> is_ws(v@[k]),
        decreases j,
    {
        j = j - 1;
    }
    proof {
        let jj = j - i;
        assert forall|k: int| jj <= k < t.len() implies is_ws(t[k]) by {
            assert(t[k] == v@[i + k]);
        }
        lemma_trim_end_cut(t, jj as int);
        let u = t.subrange(0, jj as int);
        if u.len() > 0 {
            assert(u.last() == v@[j - 1]);
        }
        assert(trim_end_spec(u) == u);
        assert(u =~= v@.subrange(i as int, j as int));
    }
    sub_chars(v, i, j)
}

/// `s` without leading and trailing whitespace (`str::trim`).
pub fn trim(s: &str) -> (r: String)
    ensures
        r@ == trim_spec(s@),
{
    let v = chars_of(s);
    let t = trim_vec(&v);
    string_from_chars(t.as_slice())
}

// ---------------------------------------------------------------------------
// Case conversions
// ---------------------------------------------------------------------------

/// `s` with every occurrence of `from` replaced by `to`, matches taken left to
/// right without overlap; an empty `from` matches before every character and
/// at the end.
pub open spec fn replaced(s: Seq<char>, from: Seq<char>, to: Seq<char>) -> Seq<char>
    decreases s.len(),
{
    if from.len() == 0 {
        if s.len() == 0 { to } else { to + seq![s[0]] + replaced(s.drop_first(), from, to) }
    } else if s.len() < from.len() {
        s
    } else if s.subrange(0, from.len() as int) == from {
        to + replaced(s.subrange(from.len() as int, s.len() as int), from, to)
    } else {
        seq![s[0]] + replaced(s.drop_first(), from, to)
    }
}

/// `p` occurs in `s` at position `i`.
pub open spec fn matches_at(s: Seq<char>, p: Seq<char>, i: int) -> bool {
    0 <= i && i + p.len() <= s.len() && s.subrange(i, i + p.len()) == p
}

/// Replacing in `x + from + y`, where the first match of a non-empty `from`
/// starts right after `x`, keeps `x`, puts `to` for that match and goes on
/// replacing in `y`.
pub proof fn lemma_replaced_first_match(x: Seq<char>, from: Seq<char>, y: Seq<char>, to: Seq<char>)
    requires
        from.len() > 0,
        forall|i: int| 0 <= i < x.len() ==> !matches_at(x + from + y, from, i),
    ensures
        replaced(x + from + y, from, to) == x + to + replaced(y, from, to),
    decreases x.len(),
{
    let s = x + from + y;
    if x.len() == 0 {
        assert(s =~= from + y);
        assert(s.subrange(0, from.len() as int) =~= from);
        assert(s.subrange(from.len() as int, s.len() as int) =~= y);
        assert(x + to + replaced(y, from, to) =~= to + replaced(y, from, to));
    } else {
        assert(!matches_at(s, from, 0));
        let x1 = x.drop_first();
        assert(s.drop_first() =~= x1 + from + y);
        assert forall|i: int| 0 <= i < x1.len() implies !matches_at(x1 + from + y, from, i) by {
            assert(!matches_at(s, from, i + 1));
            assert((x1 + from + y).subrange(i, i + from.len()) =~= s.subrange(i + 1, i + 1 + from.len()));
        }
        lemma_replaced_first_match(x1, from, y, to);
        assert(seq![x[0]] + (x1 + to + replaced(y, from, to)) =~= x + to + replaced(y, from, to));
    }
}

/// Replacing a non-empty `from` that does not occur in `s` leaves `s` as it is.
pub proof fn lemma_replaced_absent(s: Seq<char>, from: Seq<char>, to: Seq<char>)
    requires
        from.len() > 0,
        forall|i: int| !matches_at(s, from, i),
    ensures
        replaced(s, from, to) == s,
    decreases s.len(),
{
    if s.len() >= from.len() {
        assert(!matches_at(s, from, 0));
        let s1 = s.drop_first();
        assert forall|i: int| !matches_at(s1, from, i) by {
            if 0 <= i && i + from.len() <= s1.len() {
                assert(!matches_at(s, from, i + 1));
                assert(s1.subrange(i, i + from.len()) =~= s.subrange(i + 1, i + 1 + from.len()));
            }
        }
        lemma_replaced_absent(s1, from, to);
        assert(seq![s[0]] + s1 =~= s);
    }
}

/// Whether `p` occurs in `v` at position `at`.
fn occurs_at(v: &Vec<char>, p: &Vec<char>, at: usize) -> (r: bool)
    requires
        at <= v@.len(),
    ensures
        r == (p@.len() <= v@.len() - at && v@.subrange(at as int, at + p@.len()) == p@),
{
    let vn = v.len();
    if p.len() > vn - at {
        return false;
    }
    let mut k: usize = 0;
    while k < p.len()
        invariant
            k <= p@.len(),
            vn == v@.len(),
            at <= v@.len(),
            p@.len() <= v@.len() - at,
            forall|j: int| 0 <= j < k ==> v@[at + j] == p@[j],
        decreases p@.len() - k,
    {
        if v[at + k] != p[k] {
            proof {
                assert(v@.subrange(at as int, at + p@.len())[k as int] != p@[k as int]);
            }
            return false;
        }
        k = k + 1;
    }
    proof {
        assert(v@.subrange(at as int, at + p@.len()) =~= p@);
    }
    true
}

/// Appends the characters of `t` to `out`.
fn append_chars(out: &mut Vec<char>, t: &Vec<char>)
    ensures
        final(out)@ == old(out)@ + t@,
{
    let mut k: usize = 0;
    while k < t.len()
        invariant
            k <= t@.len(),
            out@ == old(out)@ + t@.subrange(0, k as int),
        decreases t@.len() - k,
    {
        out.push(t[k]);
        proof {
            assert(t@.subrange(0, k + 1) =~= t@.subrange(0, k as int).push(t@[k as int]));
        }
        k = k + 1;
    }
    proof {
        assert(t@.subrange(0, k as int) =~= t@);
    }
}

/// `s` with every match of `from` replaced by `to` (`replaced`), as
/// `str::replace` does.
pub fn replace_str(s: &str, from: &str, to: &str) -> (r: String)
    ensures
        r@ == replaced(s@, from@, to@),
{
    let v = chars_of(s);
    let f = chars_of(from);
    let t = chars_of(to);
    let n = v.len();
    let m = f.len();
    let ghost total = replaced(v@, f@, t@);
    let mut out: Vec<char> = Vec::new();
    let mut i: usize = 0;
    proof {
        assert(v@.subrange(0, n as int) =~= v@);
        assert(out@ + total =~= total);
    }
    loop
        invariant_except_break
            i <= n,
            n == v@.len(),
            m == f@.len(),
            out@ + replaced(v@.subrange(i as int, n as int), f@, t@) == total,
        ensures
            out@ == total,
        decreases n - i + 1,
    {
        let ghost rest = v@.subrange(i as int, n as int);
        let ghost before = out@;
        if m == 0 {
            if i == n {
                append_chars(&mut out, &t);
                break;
            }
            append_chars(&mut out, &t);
            out.push(v[i]);
            proof {
                assert(rest.drop_first() =~= v@.subrange(i + 1, n as int));
                assert(rest[0] == v@[i as int]);
                assert(replaced(rest, f@, t@) == t@ + seq![v@[i as int]] + replaced(v@.subrange(i + 1, n as int), f@, t@));
                assert(out@ =~= before + t@ + seq![v@[i as int]]);
                assert(before + (t@ + seq![v@[i as int]] + replaced(v@.subrange(i + 1, n as int), f@, t@))
                    =~= out@ + replaced(v@.subrange(i + 1, n as int), f@, t@));
            }
            i = i + 1;
        } else if n - i < m {
            let tail = sub_chars(&v, i, n);
            append_chars(&mut out, &tail);
            proof {
                assert(replaced(rest, f@, t@) == rest);
            }
            break;
        } else if occurs_at(&v, &f, i) {
            append_chars(&mut out, &t);
            proof {
                assert(rest.subrange(0, m as int) =~= v@.subrange(i as int, i + m));
                assert(rest.subrange(m as int, rest.len() as int) =~= v@.subrange(i + m, n as int));
                assert(before + (t@ + replaced(v@.subrange(i + m, n as int), f@, t@))
                    =~= out@ + replaced(v@.subrange(i + m, n as int), f@, t@));
            }
            i = i + m;
        } else {
            out.push(v[i]);
            proof {
                assert(rest.subrange(0, m as int) =~= v@.subrange(i as int, i + m));
                assert(rest.drop_first() =~= v@.subrange(i + 1, n as int));
                assert(rest[0] == v@[i as int]);
                assert(before + (seq![v@[i as int]] + replaced(v@.subrange(i + 1, n as int), f@, t@))
                    =~= out@ + replaced(v@.subrange(i + 1, n as int), f@, t@));
            }
            i = i + 1;
        }
    }
    string_from_chars(out.as_slice())
}

/// What `str::to_lowercase` gives for a string (Unicode lowercase mapping).
pub uninterp spec fn lowercase(s: Seq<char>) -> Seq<char>;

/// What `str::to_uppercase` gives for a string (Unicode uppercase mapping).
pub uninterp spec fn uppercase(s: Seq<char>) -> Seq<char>;

/// What `str::to_uppercase` gives, spelled out on ASCII text: `a`-`z` become
/// `A`-`Z` there (the mapping `to_uppercase` states for ASCII text).
pub open spec fn upper_text(s: Seq<char>) -> Seq<char> {
    if is_ascii_text(s) { ascii_uppercase(s) } else { uppercase(s) }
}

/// `str::to_uppercase`, with its result stated as `upper_text`.
pub fn to_upper_text(s: &str) -> (r: String)
    ensures
        r@ == upper_text(s@),
        r@ == uppercase(s@),
{
    to_uppercase(s)
}

/// Every character is ASCII.
pub open spec fn is_ascii_text(s: Seq<char>) -> bool {
    forall|i: int| 0 <= i < s.len() ==> (s[i] as u32) < 128
}

/// `s` with ASCII capitals made small.
pub open spec fn ascii_lowercase(s: Seq<char>) -> Seq<char> {
    s.map_values(|c: char| ascii_lower(c))
}

/// `s` with ASCII small letters made capital.
pub open spec fn ascii_uppercase(s: Seq<char>) -> Seq<char> {
    s.map_values(|c: char| ascii_upper(c))
}

/// `str::to_lowercase`: the result is a function of the input characters;
/// on ASCII text the Unicode mapping changes `A`-`Z` to `a`-`z` and keeps
/// every other character. Beyond ASCII nothing is stated.
#[verifier::external_body]
pub(crate) fn to_lowercase(s: &str) -> (r: String)
    ensures
        r@ == lowercase(s@),
        is_ascii_text(s@) ==> r@ == ascii_lowercase(s@),
{
    s.to_lowercase()
}

/// `str::to_uppercase`: the result is a function of the input characters;
/// on ASCII text the Unicode mapping changes `a`-`z` to `A`-`Z` and keeps
/// every other character. Beyond ASCII nothing is stated.
#[verifier::external_body]
pub(crate) fn to_uppercase(s: &str) -> (r: String)
    ensures
        r@ == uppercase(s@),
        is_ascii_text(s@) ==> r@ == ascii_uppercase(s@),
{
    s.to_uppercase()
}

/// ASCII lowercase of one character; other characters unchanged.
pub open spec fn ascii_lower(c: char) -> char {
    if 'A' <= c <= 'Z' {
        ((c as u8) + 32) as char
    } else {
        c
    }
}

/// ASCII uppercase of one character; other characters unchanged.
pub open spec fn ascii_upper(c: char) -> char {
    if 'a' <= c <= 'z' {
        ((c as u8) - 32) as char
    } else {
        c
    }
}

/// `a` and `b` are equal when ASCII letters are compared without case.
pub open spec fn eq_ignore_ascii_case_spec(a: Seq<char>, b: Seq<char>) -> bool {
    a.len() == b.len() && forall|i: int| 0 <= i < a.len() ==> ascii_lower(a[i]) == ascii_lower(b[i])
}

fn to_ascii_lower(c: char) -> (r: char)
    ensures
        r == ascii_lower(c),
{
    if 'A' <= c && c <= 'Z' {
        let b = c as u8;
        assert(b as u32 == c as u32);
        (b + 32) as char
    } else {
        c
    }
}

/// ASCII case-insensitive equality (`str::eq_ignore_ascii_case`).
pub fn eq_ignore_ascii_case(a: &str, b: &str) -> (r: bool)
    ensures
        r == eq_ignore_ascii_case_spec(a@, b@),
{
    let va = chars_of(a);
    let vb = chars_of(b);
    if va.len() != vb.len() {
        return false;
    }
    let mut i: usize = 0;
    while i < va.len()
        invariant
            i <= va@.len(),
            va@.len() == vb@.len(),
            va@ == a@,
            vb@ == b@,
            forall|k: int| 0 <= k < i ==> ascii_lower(va@[k]) == ascii_lower(vb@[k]),
        decreases va@.len() - i,
    {
        if to_ascii_lower(va[i]) != to_ascii_lower(vb[i]) {
            return false;
        }
        i = i + 1;
    }
    true
}


// ---------------------------------------------------------------------------
// Debug rendering of strings
// ---------------------------------------------------------------------------

/// How `{:?}` writes one character inside a string literal: quotes,
/// backslashes and the common control characters are escaped.
pub open spec fn escape_char(c: char) -> Seq<char> {
    if c == '"' {
        seq!['\\', '"']
    } else if c == '\\' {
        seq!['\\', '\\']
    } else if c == '\n' {
        seq!['\\', 'n']
    } else if c == '\r' {
        seq!['\\', 'r']
    } else if c == '\t' {
        seq!['\\', 't']
    } else if c == '\0' {
        seq!['\\', '0']
    } else {
        seq![c]
    }
}

/// The escaped characters of `s`.
pub open spec fn escape_seq(s: Seq<char>) -> Seq<char>
    decreases s.len(),
{
    if s.len() == 0 {
        Seq::empty()
    } else {
        escape_seq(s.drop_last()) + escape_char(s.last())
    }
}

/// `s` as `{:?}` writes it: between double quotes, escaped.
pub open spec fn debug_str(s: Seq<char>) -> Seq<char> {
    seq!['"'] + escape_seq(s) + seq!['"']
}

/// `s` written between double quotes with its special characters escaped.
pub fn debug_string(s: &str) -> (r: String)
    ensures
        r@ == debug_str(s@),
{
    let v = chars_of(s);
    let mut out: Vec<char> = Vec::new();
    out.push('"');
    let mut i: usize = 0;
    while i < v.len()
        invariant
            i <= v@.len(),
            v@ == s@,
            out@ == seq!['"'] + escape_seq(v@.subrange(0, i as int)),
        decreases v@.len() - i,
    {
        let c = v[i];
        if c == '"' {
            out.push('\\');
            out.push('"');
        } else if c == '\\' {
            out.push('\\');
            out.push('\\');
        } else if c == '\n' {
            out.push('\\');
            out.push('n');
        } else if c == '\r' {
            out.push('\\');
            out.push('r');
        } else if c == '\t' {
            out.push('\\');
            out.push('t');
        } else if c == '\0' {
            out.push('\\');
            out.push('0');
        } else {
            out.push(c);
        }
        proof {
            let p = v@.subrange(0, i + 1);
            assert(p.drop_last() =~= v@.subrange(0, i as int));
            assert(p.last() == c);
            assert(out@ =~= seq!['"'] + escape_seq(p));
        }
        i = i + 1;
    }
    out.push('"');
    proof {
        assert(v@.subrange(0, i as int) =~= v@);
        assert(out@ =~= debug_str(s@));
    }
    string_from_chars(out.as_slice())
}


/// The characters of each string slice.
pub open spec fn str_views(s: Seq<&str>) -> Seq<Seq<char>> {
    s.map_values(|x: &str| x@)
}

/// Whether one of `v` holds the characters of `x`.
pub fn str_list_contains(v: &Vec<&str>, x: &str) -> (r: bool)
    ensures
        r == str_views(v@).contains(x@),
{
    let mut i: usize = 0;
    while i < v.len()
        invariant
            i <= v@.len(),
            forall|j: int| 0 <= j < i ==> v@[j]@ != x@,
        decreases v@.len() - i,
    {
        if str_eq(v[i], x) {
            proof {
                assert(str_views(v@)[i as int] == x@);
            }
            return true;
        }
        i = i + 1;
    }
    proof {
        if str_views(v@).contains(x@) {
            let j = choose|j: int| 0 <= j < str_views(v@).len() && str_views(v@)[j] == x@;
            assert(v@[j]@ == x@);
        }
    }
    false
}


// ---------------------------------------------------------------------------
// Whitespace-separated words, trimming a given character
// ---------------------------------------------------------------------------

/// The words of `s` read so far and the word being read.
pub open spec fn words_state(s: Seq<char>) -> (Seq<Seq<char>>, Seq<char>)
    decreases s.len(),
{
    if s.len() == 0 {
        (Seq::empty(), Seq::empty())
    } else {
        let (done, cur) = words_state(s.drop_last());
        if is_ws(s.last()) {
            if cur.len() > 0 { (done.push(cur), Seq::empty()) } else { (done, Seq::empty()) }
        } else {
            (done, cur.push(s.last()))
        }
    }
}

/// Reading a run of non-whitespace characters extends the word being read.
pub proof fn lemma_words_state_word(s: Seq<char>, x: Seq<char>)
    requires
        forall|i: int| 0 <= i < x.len() ==> !is_ws(#[trigger] x[i]),
    ensures
        words_state(s + x) == (words_state(s).0, words_state(s).1 + x),
    decreases x.len(),
{
    if x.len() == 0 {
        assert(s + x =~= s);
        assert(words_state(s).1 + x =~= words_state(s).1);
    } else {
        let x0 = x.drop_last();
        lemma_words_state_word(s, x0);
        assert((s + x).drop_last() =~= s + x0);
        assert((s + x).last() == x[x.len() - 1]);
        assert((words_state(s).1 + x0).push(x.last()) =~= words_state(s).1 + x);
    }
}

/// Reading a whitespace character ends the word being read, if any.
pub proof fn lemma_words_state_space(s: Seq<char>, c: char)
    requires
        is_ws(c),
    ensures
        words_state(s.push(c)) == (if words_state(s).1.len() > 0 {
            (words_state(s).0.push(words_state(s).1), Seq::<char>::empty())
        } else {
            (words_state(s).0, Seq::<char>::empty())
        }),
{
    assert(s.push(c).drop_last() =~= s);
}

/// The words of three non-empty runs of non-whitespace characters separated
/// by single spaces are those runs.
pub proof fn lemma_three_words(a: Seq<char>, b: Seq<char>, c: Seq<char>)
    requires
        a.len() > 0 && b.len() > 0 && c.len() > 0,
        forall|i: int| 0 <= i < a.len() ==> !is_ws(#[trigger] a[i]),
        forall|i: int| 0 <= i < b.len() ==> !is_ws(#[trigger] b[i]),
        forall|i: int| 0 <= i < c.len() ==> !is_ws(#[trigger] c[i]),
    ensures
        words_spec(a + seq![' '] + b + seq![' '] + c) == seq![a, b, c],
{
    let e = Seq::<char>::empty();
    assert(words_state(e) == (Seq::<Seq<char>>::empty(), e));
    lemma_words_state_word(e, a);
    assert(e + a =~= a);
    assert(is_ws(' '));
    lemma_words_state_space(a, ' ');
    lemma_words_state_word(a.push(' '), b);
    lemma_words_state_space(a.push(' ') + b, ' ');
    lemma_words_state_word((a.push(' ') + b).push(' '), c);
    assert((a.push(' ') + b).push(' ') + c =~= a + seq![' '] + b + seq![' '] + c);
    assert(e + b =~= b);
    assert(e + c =~= c);
    assert(Seq::<Seq<char>>::empty().push(a).push(b).push(c) =~= seq![a, b, c]);
}

/// The maximal runs of non-whitespace characters of `s` (`str::split_whitespace`).
pub open spec fn words_spec(s: Seq<char>) -> Seq<Seq<char>> {
    let (done, cur) = words_state(s);
    if cur.len() > 0 { done.push(cur) } else { done }
}

/// The whitespace-separated words of `s`.
pub fn split_whitespace(s: &str) -> (r: Vec<String>)
    ensures
        crate::property_map::string_views(r@) == words_spec(s@),
{
    let v = chars_of(s);
    let mut done: Vec<String> = Vec::new();
    let mut cur: Vec<char> = Vec::new();
    let mut i: usize = 0;
    proof {
        assert(crate::property_map::string_views(done@) =~= Seq::<Seq<char>>::empty());
        assert(v@.subrange(0, 0) =~= Seq::<char>::empty());
    }
    while i < v.len()
        invariant
            i <= v@.len(),
            v@ == s@,
            (crate::property_map::string_views(done@), cur@) == words_state(v@.subrange(0, i as int)),
        decreases v@.len() - i,
    {
        let c = v[i];
        proof {
            let p = v@.subrange(0, i + 1);
            assert(p.drop_last() =~= v@.subrange(0, i as int));
            assert(p.last() == c);
        }
        if is_whitespace(c) {
            if cur.len() > 0 {
                let w = string_from_chars(cur.as_slice());
                let ghost before = done@;
                done.push(w);
                proof {
                    crate::property_map::lemma_string_views_push(before, w);
                }
                cur = Vec::new();
                proof {
                    assert(cur@ =~= Seq::<char>::empty());
                }
            } else {
                cur = Vec::new();
            }
        } else {
            cur.push(c);
        }
        i = i + 1;
    }
    proof {
        assert(v@.subrange(0, i as int) =~= v@);
    }
    if cur.len() > 0 {
        let w = string_from_chars(cur.as_slice());
        let ghost before = done@;
        done.push(w);
        proof {
            crate::property_map::lemma_string_views_push(before, w);
        }
    }
    done
}

/// `s` without leading occurrences of `c`.
pub open spec fn trim_start_char(s: Seq<char>, c: char) -> Seq<char>
    decreases s.len(),
{
    if s.len() > 0 && s[0] == c { trim_start_char(s.drop_first(), c) } else { s }
}

/// `s` without trailing occurrences of `c`.
pub open spec fn trim_end_char(s: Seq<char>, c: char) -> Seq<char>
    decreases s.len(),
{
    if s.len() > 0 && s.last() == c { trim_end_char(s.drop_last(), c) } else { s }
}

/// `s` without leading and trailing occurrences of `c` (`str::trim_matches`).
pub open spec fn trim_char_spec(s: Seq<char>, c: char) -> Seq<char> {
    trim_end_char(trim_start_char(s, c), c)
}

proof fn lemma_trim_start_char_skip(s: Seq<char>, c: char, i: int)
    requires
        0 <= i <= s.len(),
        forall|k: int| 0 <= k < i ==> s[k] == c,
    ensures
        trim_start_char(s, c) == trim_start_char(s.subrange(i, s.len() as int), c),
    decreases i,
{
    if i > 0 {
        lemma_trim_start_char_skip(s.drop_first(), c, i - 1);
        assert(s.drop_first().subrange(i - 1, s.drop_first().len() as int) =~= s.subrange(i, s.len() as int));
    } else {
        assert(s.subrange(0, s.len() as int) =~= s);
    }
}

proof fn lemma_trim_end_char_cut(s: Seq<char>, c: char, j: int)
    requires
        0 <= j <= s.len(),
        forall|k: int| j <= k < s.len() ==> s[k] == c,
    ensures
        trim_end_char(s, c) == trim_end_char(s.subrange(0, j), c),
    decreases s.len() - j,
{
    if j < s.len() {
        lemma_trim_end_char_cut(s.drop_last(), c, j);
        assert(s.drop_last().subrange(0, j) =~= s.subrange(0, j));
    } else {
        assert(s.subrange(0, j) =~= s);
    }
}

/// `s` without leading and trailing occurrences of `c`.
pub fn trim_matches_char(s: &str, c: char) -> (r: String)
    ensures
        r@ == trim_char_spec(s@, c),
{
    let v = chars_of(s);
    let mut i: usize = 0;
    while i < v.len() && v[i] == c
        invariant
            i <= v@.len(),
            forall|k: int| 0 <= k < i ==> v@[k] == c,
        decreases v@.len() - i,
    {
        i = i + 1;
    }
    let ghost t = v@.subrange(i as int, v@.len() as int);
    proof {
        lemma_trim_start_char_skip(v@, c, i as int);
        if i < v@.len() {
            assert(t[0] == v@[i as int]);
        }
        assert(trim_start_char(t, c) == t);
    }
    let mut j: usize = v.len();
    while j > i && v[j - 1] == c
        invariant
            i <= j <= v@.len(),
            forall|k: int| j <= k < v@.len() ==> v@[k] == c,
        decreases j,
    {
        j = j - 1;
    }
    proof {
        let jj = j - i;
        assert forall|k: int| jj <= k < t.len() implies t[k] == c by {
            assert(t[k] == v@[i + k]);
        }
        lemma_trim_end_char_cut(t, c, jj as int);
        let u = t.subrange(0, jj as int);
        if u.len() > 0 {
            assert(u.last() == v@[j - 1]);
        }
        assert(trim_end_char(u, c) == u);
        assert(u =~= v@.subrange(i as int, j as int));
    }
    let r = sub_chars(&v, i, j);
    string_from_chars(r.as_slice())
}

} // verus!
