//! Ordering of text the way `String`'s `Ord` does it (character by character,
//! a proper prefix first), and a stable sort of keyed pairs by their keys.

use vstd::prelude::*;
use crate::text::chars_of;

verus! {

/// `a <= b` in the lexicographic order of character codes.
pub open spec fn text_le(a: Seq<char>, b: Seq<char>) -> bool
    decreases a.len(),
{
    if a.len() == 0 {
        true
    } else if b.len() == 0 {
        false
    } else if (a[0] as u32) < (b[0] as u32) {
        true
    } else if (a[0] as u32) > (b[0] as u32) {
        false
    } else {
        text_le(a.drop_first(), b.drop_first())
    }
}

/// `text_le` on two character vectors, from position `i` on.
fn chars_le_from(a: &Vec<char>, b: &Vec<char>, i: usize) -> (r: bool)
    requires
        i <= a@.len(),
        i <= b@.len(),
    ensures
        r == text_le(a@.skip(i as int), b@.skip(i as int)),
    decreases a@.len() - i,
{
    if i == a.len() {
        return true;
    }
    if i == b.len() {
        return false;
    }
    let ghost sa = a@.skip(i as int);
    let ghost sb = b@.skip(i as int);
    assert(sa[0] == a@[i as int]);
    assert(sb[0] == b@[i as int]);
    let ca = a[i] as u32;
    let cb = b[i] as u32;
    if ca < cb {
        true
    } else if ca > cb {
        false
    } else {
        assert(sa.drop_first() =~= a@.skip(i + 1));
        assert(sb.drop_first() =~= b@.skip(i + 1));
        chars_le_from(a, b, i + 1)
    }
}

/// `a <= b` as `String`s compare.
pub fn text_le_exec(a: &str, b: &str) -> (r: bool)
    ensures
        r == text_le(a@, b@),
{
    let va = chars_of(a);
    let vb = chars_of(b);
    assert(va@.skip(0) =~= va@);
    assert(vb@.skip(0) =~= vb@);
    chars_le_from(&va, &vb, 0)
}

/// `x` placed into `t` after every trailing element whose key is greater
/// than `x`'s: one step of a stable insertion sort.
pub open spec fn insert_by_key<T>(t: Seq<(Seq<char>, T)>, x: (Seq<char>, T)) -> Seq<(Seq<char>, T)>
    decreases t.len(),
{
    if t.len() == 0 {
        seq![x]
    } else if text_le(t.last().0, x.0) {
        t.push(x)
    } else {
        insert_by_key(t.drop_last(), x).push(t.last())
    }
}

/// `s` sorted stably by key.
pub open spec fn sorted_by_key<T>(s: Seq<(Seq<char>, T)>) -> Seq<(Seq<char>, T)>
    decreases s.len(),
{
    if s.len() == 0 {
        Seq::empty()
    } else {
        insert_by_key(sorted_by_key(s.drop_last()), s.last())
    }
}

/// Inserting adds one element, and every element is `x` or one of `t`'s.
proof fn lemma_insert_from<T>(t: Seq<(Seq<char>, T)>, x: (Seq<char>, T))
    ensures
        insert_by_key(t, x).len() == t.len() + 1,
        forall|q: int| 0 <= q < t.len() + 1 ==> #[trigger] insert_by_key(t, x)[q] == x || t.contains(insert_by_key(t, x)[q]),
    decreases t.len(),
{
    let w = insert_by_key(t, x);
    if t.len() == 0 {
    } else if text_le(t.last().0, x.0) {
        assert forall|q: int| 0 <= q < t.len() + 1 implies #[trigger] w[q] == x || t.contains(w[q]) by {
            if q < t.len() {
                assert(w[q] == t[q]);
            }
        }
    } else {
        let u = insert_by_key(t.drop_last(), x);
        lemma_insert_from(t.drop_last(), x);
        assert forall|q: int| 0 <= q < t.len() + 1 implies #[trigger] w[q] == x || t.contains(w[q]) by {
            if q < u.len() {
                assert(w[q] == u[q]);
                if u[q] != x {
                    let r = choose|r: int| 0 <= r < t.drop_last().len() && t.drop_last()[r] == u[q];
                    assert(t[r] == u[q]);
                }
            } else {
                assert(w[q] == t[t.len() - 1]);
            }
        }
    }
}

/// Sorting keeps the length, and every element comes from the input.
pub proof fn lemma_sorted_from<T>(s: Seq<(Seq<char>, T)>)
    ensures
        sorted_by_key(s).len() == s.len(),
        forall|q: int| 0 <= q < s.len() ==> s.contains(#[trigger] sorted_by_key(s)[q]),
    decreases s.len(),
{
    if s.len() > 0 {
        let d = s.drop_last();
        let t = sorted_by_key(d);
        lemma_sorted_from(d);
        lemma_insert_from(t, s.last());
        assert forall|q: int| 0 <= q < s.len() implies s.contains(#[trigger] sorted_by_key(s)[q]) by {
            let y = sorted_by_key(s)[q];
            if y == s.last() {
                assert(s[s.len() - 1] == y);
            } else {
                assert(t.contains(y));
                let r = choose|r: int| 0 <= r < t.len() && t[r] == y;
                assert(d.contains(t[r]));
                let u = choose|u: int| 0 <= u < d.len() && d[u] == y;
                assert(s[u] == y);
            }
        }
    }
}

/// The pairs of `s` with their keys taken by view.
pub open spec fn keyed<T>(s: Seq<(String, T)>) -> Seq<(Seq<char>, T)> {
    s.map_values(|p: (String, T)| (p.0@, p.1))
}

/// Inserting where the scan from the back stops is `insert_by_key`.
proof fn lemma_insert_at<T>(t: Seq<(Seq<char>, T)>, x: (Seq<char>, T), p: int)
    requires
        0 <= p <= t.len(),
        forall|j: int| p <= j < t.len() ==> !text_le(#[trigger] t[j].0, x.0),
        p == 0 || text_le(t[p - 1].0, x.0),
    ensures
        insert_by_key(t, x) == t.subrange(0, p).push(x) + t.subrange(p, t.len() as int),
    decreases t.len(),
{
    if t.len() == 0 {
        assert(t.subrange(0, p).push(x) + t.subrange(p, t.len() as int) =~= seq![x]);
    } else if p == t.len() {
        assert(t.subrange(0, p) =~= t);
        assert(t.subrange(0, p).push(x) + t.subrange(p, t.len() as int) =~= t.push(x));
    } else {
        let u = t.drop_last();
        assert forall|j: int| p <= j < u.len() implies !text_le(#[trigger] u[j].0, x.0) by {
            assert(u[j] == t[j]);
        }
        if p > 0 {
            assert(u[p - 1] == t[p - 1]);
        }
        lemma_insert_at(u, x, p);
        assert(u.subrange(0, p) =~= t.subrange(0, p));
        assert((u.subrange(0, p).push(x) + u.subrange(p, u.len() as int)).push(t.last())
            =~= t.subrange(0, p).push(x) + t.subrange(p, t.len() as int));
    }
}

/// The pairs of `v` sorted stably by key (`sort_by_key` on the key text).
pub fn sort_by_key_text<T>(v: Vec<(String, T)>) -> (r: Vec<(String, T)>)
    ensures
        keyed(r@) == sorted_by_key(keyed(v@)),
{
    let ghost orig = keyed(v@);
    let mut rest = v;
    let mut out: Vec<(String, T)> = Vec::new();
    let mut i: usize = 0;
    let n = rest.len();
    while rest.len() > 0
        invariant
            n == orig.len(),
            i + rest@.len() == n,
            keyed(rest@) == orig.subrange(i as int, n as int),
            keyed(out@) == sorted_by_key(orig.subrange(0, i as int)),
        decreases rest@.len(),
    {
        let ghost before_rest = rest@;
        let x = rest.remove(0);
        proof {
            assert(keyed(before_rest)[0] == (x.0@, x.1));
            assert(keyed(rest@) =~= keyed(before_rest).drop_first());
            assert(keyed(rest@) =~= orig.subrange(i + 1, n as int));
        }
        let mut p = out.len();
        let mut found = false;
        while p > 0 && !found
            invariant
                p <= out@.len(),
                forall|j: int| p <= j < out@.len() ==> !text_le(#[trigger] keyed(out@)[j].0, x.0@),
                found ==> p > 0 && text_le(keyed(out@)[p - 1].0, x.0@),
            decreases p + (if found { 0int } else { 1int }),
        {
            if text_le_exec(out[p - 1].0.as_str(), x.0.as_str()) {
                found = true;
            } else {
                p = p - 1;
            }
        }
        let ghost kx = (x.0@, x.1);
        proof {
            lemma_insert_at(keyed(out@), kx, p as int);
            let s = orig.subrange(0, i + 1);
            assert(s.drop_last() =~= orig.subrange(0, i as int));
            assert(s.last() == kx);
        }
        let ghost before = keyed(out@);
        out.insert(p, x);
        proof {
            assert(keyed(out@) =~= before.subrange(0, p as int).push(kx) + before.subrange(p as int, before.len() as int));
        }
        i = i + 1;
    }
    assert(orig.subrange(0, n as int) =~= orig);
    out
}


/// `text_le` is total: of two texts one is at most the other.
pub proof fn lemma_text_le_total(a: Seq<char>, b: Seq<char>)
    ensures
        text_le(a, b) || text_le(b, a),
    decreases a.len(),
{
    if a.len() > 0 && b.len() > 0 && (a[0] as u32) == (b[0] as u32) {
        lemma_text_le_total(a.drop_first(), b.drop_first());
    }
}

/// `text_le` is transitive.
pub proof fn lemma_text_le_transitive(a: Seq<char>, b: Seq<char>, c: Seq<char>)
    requires
        text_le(a, b),
        text_le(b, c),
    ensures
        text_le(a, c),
    decreases a.len(),
{
    if a.len() > 0 && b.len() > 0 && c.len() > 0 && (a[0] as u32) == (b[0] as u32) && (b[0] as u32) == (c[0] as u32) {
        lemma_text_le_transitive(a.drop_first(), b.drop_first(), c.drop_first());
    }
}

/// Keys in non-decreasing order.
pub open spec fn keys_sorted<T>(s: Seq<(Seq<char>, T)>) -> bool {
    forall|i: int, j: int| 0 <= i < j < s.len() ==> text_le(#[trigger] s[i].0, #[trigger] s[j].0)
}

proof fn lemma_insert_sorted<T>(t: Seq<(Seq<char>, T)>, x: (Seq<char>, T))
    requires
        keys_sorted(t),
    ensures
        keys_sorted(insert_by_key(t, x)),
        insert_by_key(t, x).len() == t.len() + 1,
    decreases t.len(),
{
    let w = insert_by_key(t, x);
    if t.len() == 0 {
    } else if text_le(t.last().0, x.0) {
        assert forall|i: int, j: int| 0 <= i < j < w.len() implies text_le(#[trigger] w[i].0, #[trigger] w[j].0) by {
            if j == t.len() {
                if i < t.len() - 1 {
                    lemma_text_le_transitive(t[i].0, t.last().0, x.0);
                }
            } else {
                assert(w[i] == t[i] && w[j] == t[j]);
            }
        }
    } else {
        let u = insert_by_key(t.drop_last(), x);
        assert(keys_sorted(t.drop_last())) by {
            assert forall|i: int, j: int| 0 <= i < j < t.drop_last().len() implies text_le(#[trigger] t.drop_last()[i].0, #[trigger] t.drop_last()[j].0) by {
                assert(t.drop_last()[i] == t[i] && t.drop_last()[j] == t[j]);
            }
        }
        lemma_insert_sorted(t.drop_last(), x);
        lemma_insert_from(t.drop_last(), x);
        lemma_text_le_total(t.last().0, x.0);
        assert forall|i: int, j: int| 0 <= i < j < w.len() implies text_le(#[trigger] w[i].0, #[trigger] w[j].0) by {
            if j == w.len() - 1 {
                assert(w[j] == t.last());
                assert(w[i] == u[i]);
                if u[i] == x {
                } else {
                    let r = choose|r: int| 0 <= r < t.drop_last().len() && t.drop_last()[r] == u[i];
                    assert(t[r] == u[i]);
                }
            } else {
                assert(w[i] == u[i] && w[j] == u[j]);
            }
        }
    }
}

/// Sorting by key puts the keys in order (law: auto-mapped fields and
/// explicit mappings come in key order).
pub proof fn law_sorted_by_key_is_ordered<T>(s: Seq<(Seq<char>, T)>)
    ensures
        keys_sorted(sorted_by_key(s)),
        sorted_by_key(s).len() == s.len(),
    decreases s.len(),
{
    if s.len() > 0 {
        law_sorted_by_key_is_ordered(s.drop_last());
        lemma_insert_sorted(sorted_by_key(s.drop_last()), s.last());
    }
}

} // verus!
