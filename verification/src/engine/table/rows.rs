//! Rows of attribute values: copying, equality, and the index key of a row.

use vstd::prelude::*;
use crate::engine::event::{AttributeValue, AttrView, attr_views};
use crate::number::{int_text, decimal, digit_char, i32_to_string, i64_to_string, u64_to_string};
use crate::text::{chars_of, concat, owned, string_from_chars};

verus! {

/// A copy of `v`.
pub fn copy_value(v: &AttributeValue) -> (r: AttributeValue)
    ensures
        r@ == v@,
{
    match v {
        AttributeValue::String(s) => AttributeValue::String(owned(s.as_str())),
        AttributeValue::Int(i) => AttributeValue::Int(*i),
        AttributeValue::Long(l) => AttributeValue::Long(*l),
        AttributeValue::Float(f) => AttributeValue::Float(*f),
        AttributeValue::Double(d) => AttributeValue::Double(*d),
        AttributeValue::Bool(b) => AttributeValue::Bool(*b),
        AttributeValue::Null => AttributeValue::Null,
    }
}

/// A copy of a row.
pub fn copy_row(row: &[AttributeValue]) -> (r: Vec<AttributeValue>)
    ensures
        attr_views(r@) == attr_views(row@),
{
    let mut r: Vec<AttributeValue> = Vec::new();
    let mut i: usize = 0;
    while i < row.len()
        invariant
            i <= row@.len(),
            attr_views(r@) == attr_views(row@).take(i as int),
        decreases row@.len() - i,
    {
        let ghost before = r@;
        r.push(copy_value(&row[i]));
        proof {
            assert(attr_views(r@) =~= attr_views(before).push(row@[i as int]@));
            assert(attr_views(row@).take(i + 1) =~= attr_views(row@).take(i as int).push(row@[i as int]@));
        }
        i = i + 1;
    }
    assert(attr_views(row@).take(row@.len() as int) =~= attr_views(row@));
    r
}

/// Whether single-precision bits denote a NaN.
pub open spec fn nan32(b: u32) -> bool {
    (b & 0x7f80_0000u32) == 0x7f80_0000u32 && (b & 0x007f_ffffu32) != 0
}

/// Whether double-precision bits denote a NaN.
pub open spec fn nan64(b: u64) -> bool {
    (b & 0x7ff0_0000_0000_0000u64) == 0x7ff0_0000_0000_0000u64 && (b & 0x000f_ffff_ffff_ffffu64) != 0
}

/// IEEE-754 equality of two single-precision values given by their bits:
/// NaN equals nothing, and the two zeros are equal.
pub open spec fn float32_eq(a: u32, b: u32) -> bool {
    !nan32(a) && !nan32(b) && (a == b || ((a & 0x7fff_ffffu32) == 0 && (b & 0x7fff_ffffu32) == 0))
}

/// IEEE-754 equality of two double-precision values given by their bits.
pub open spec fn float64_eq(a: u64, b: u64) -> bool {
    !nan64(a) && !nan64(b) && (a == b || ((a & 0x7fff_ffff_ffff_ffffu64) == 0 && (b & 0x7fff_ffff_ffff_ffffu64) == 0))
}

/// `==` on attribute values: same variant and equal contents, floating-point
/// contents compared as numbers.
pub open spec fn value_eq(a: AttrView, b: AttrView) -> bool {
    match (a, b) {
        (AttrView::String(x), AttrView::String(y)) => x == y,
        (AttrView::Int(x), AttrView::Int(y)) => x == y,
        (AttrView::Long(x), AttrView::Long(y)) => x == y,
        (AttrView::Float(x), AttrView::Float(y)) => float32_eq(x, y),
        (AttrView::Double(x), AttrView::Double(y)) => float64_eq(x, y),
        (AttrView::Bool(x), AttrView::Bool(y)) => x == y,
        (AttrView::Null, AttrView::Null) => true,
        _ => false,
    }
}

/// `==` on rows: equal lengths and equal values position by position.
pub open spec fn row_eq(a: Seq<AttrView>, b: Seq<AttrView>) -> bool {
    a.len() == b.len() && forall|i: int| 0 <= i < a.len() ==> value_eq(#[trigger] a[i], b[i])
}

pub fn values_equal(a: &AttributeValue, b: &AttributeValue) -> (r: bool)
    ensures
        r == value_eq(a@, b@),
{
    match (a, b) {
        (AttributeValue::String(x), AttributeValue::String(y)) => crate::text::str_eq(x.as_str(), y.as_str()),
        (AttributeValue::Int(x), AttributeValue::Int(y)) => *x == *y,
        (AttributeValue::Long(x), AttributeValue::Long(y)) => *x == *y,
        (AttributeValue::Float(x), AttributeValue::Float(y)) => {
            let nx = (*x & 0x7f80_0000u32) == 0x7f80_0000u32 && (*x & 0x007f_ffffu32) != 0;
            let ny = (*y & 0x7f80_0000u32) == 0x7f80_0000u32 && (*y & 0x007f_ffffu32) != 0;
            !nx && !ny && (*x == *y || ((*x & 0x7fff_ffffu32) == 0 && (*y & 0x7fff_ffffu32) == 0))
        },
        (AttributeValue::Double(x), AttributeValue::Double(y)) => {
            let nx = (*x & 0x7ff0_0000_0000_0000u64) == 0x7ff0_0000_0000_0000u64 && (*x & 0x000f_ffff_ffff_ffffu64) != 0;
            let ny = (*y & 0x7ff0_0000_0000_0000u64) == 0x7ff0_0000_0000_0000u64 && (*y & 0x000f_ffff_ffff_ffffu64) != 0;
            !nx && !ny && (*x == *y || ((*x & 0x7fff_ffff_ffff_ffffu64) == 0 && (*y & 0x7fff_ffff_ffff_ffffu64) == 0))
        },
        (AttributeValue::Bool(x), AttributeValue::Bool(y)) => *x == *y,
        (AttributeValue::Null, AttributeValue::Null) => true,
        _ => false,
    }
}

/// Row equality (`row_eq`).
pub fn rows_equal(a: &[AttributeValue], b: &[AttributeValue]) -> (r: bool)
    ensures
        r == row_eq(attr_views(a@), attr_views(b@)),
{
    if a.len() != b.len() {
        return false;
    }
    let mut i: usize = 0;
    while i < a.len()
        invariant
            i <= a@.len(),
            a@.len() == b@.len(),
            forall|j: int| 0 <= j < i ==> value_eq(#[trigger] attr_views(a@)[j], attr_views(b@)[j]),
        decreases a@.len() - i,
    {
        if !values_equal(&a[i], &b[i]) {
            assert(!value_eq(attr_views(a@)[i as int], attr_views(b@)[i as int]));
            return false;
        }
        i = i + 1;
    }
    true
}

/// The index text of a floating-point value: its bits, or `NaN` for every NaN
/// (all NaNs print alike).
pub open spec fn float_key(bits: int, nan: bool) -> Seq<char> {
    if nan {
        "NaN"@
    } else {
        int_text(bits)
    }
}

/// A string character as it stands in an index key: `\\` and `|` get a
/// backslash before them, every other character stands for itself.
pub open spec fn escape_char(c: char) -> Seq<char> {
    if c == '\\' || c == '|' {
        seq!['\\', c]
    } else {
        seq![c]
    }
}

/// A string as it stands in an index key (see `escape_char`).
pub open spec fn escaped(s: Seq<char>) -> Seq<char>
    decreases s.len(),
{
    if s.len() == 0 {
        Seq::empty()
    } else {
        escaped(s.drop_last()) + escape_char(s.last())
    }
}

/// The index key of one value: a type tag and the value's text, a string
/// escaped so that no `|` in it is taken for a separator.
pub open spec fn value_key(v: AttrView) -> Seq<char> {
    match v {
        AttrView::String(s) => "S:"@ + escaped(s),
        AttrView::Int(i) => "I:"@ + int_text(i as int),
        AttrView::Long(l) => "L:"@ + int_text(l as int),
        AttrView::Float(b) => "F:"@ + float_key(b as int, nan32(b)),
        AttrView::Double(b) => "D:"@ + float_key(b as int, nan64(b)),
        AttrView::Bool(b) => if b {
            "B:true"@
        } else {
            "B:false"@
        },
        AttrView::Null => "N"@,
    }
}

/// The index key of a row: the keys of its values joined with `|`.
pub open spec fn row_key(row: Seq<AttrView>) -> Seq<char>
    decreases row.len(),
{
    if row.len() == 0 {
        Seq::empty()
    } else if row.len() == 1 {
        value_key(row[0])
    } else {
        value_key(row[0]) + "|"@ + row_key(row.drop_first())
    }
}

/// The value is not a floating-point NaN (all NaNs share one key).
pub open spec fn not_nan(v: AttrView) -> bool {
    match v {
        AttrView::Float(b) => !nan32(b),
        AttrView::Double(b) => !nan64(b),
        _ => true,
    }
}

/// No value of the row is a NaN.
pub open spec fn no_nan_row(row: Seq<AttrView>) -> bool {
    forall|i: int| 0 <= i < row.len() ==> not_nan(#[trigger] row[i])
}

fn value_key_text(v: &AttributeValue) -> (r: String)
    ensures
        r@ == value_key(v@),
{
    match v {
        AttributeValue::String(s) => {
            let e = escape_text(s.as_str());
            concat("S:", e.as_str())
        },
        AttributeValue::Int(i) => {
            let t = i32_to_string(*i);
            concat("I:", t.as_str())
        },
        AttributeValue::Long(l) => {
            let t = i64_to_string(*l);
            concat("L:", t.as_str())
        },
        AttributeValue::Float(b) => {
            let nan = (*b & 0x7f80_0000u32) == 0x7f80_0000u32 && (*b & 0x007f_ffffu32) != 0;
            if nan {
                concat("F:", "NaN")
            } else {
                let t = u64_to_string(*b as u64);
                concat("F:", t.as_str())
            }
        },
        AttributeValue::Double(b) => {
            let nan = (*b & 0x7ff0_0000_0000_0000u64) == 0x7ff0_0000_0000_0000u64 && (*b & 0x000f_ffff_ffff_ffffu64) != 0;
            if nan {
                concat("D:", "NaN")
            } else {
                let t = u64_to_string(*b);
                concat("D:", t.as_str())
            }
        },
        AttributeValue::Bool(b) => if *b {
            owned("B:true")
        } else {
            owned("B:false")
        },
        AttributeValue::Null => owned("N"),
    }
}

/// A string escaped for an index key (`escaped`).
fn escape_text(s: &str) -> (r: String)
    ensures
        r@ == escaped(s@),
{
    let v = chars_of(s);
    let mut out: Vec<char> = Vec::new();
    let mut i: usize = 0;
    while i < v.len()
        invariant
            i <= v@.len(),
            v@ == s@,
            out@ == escaped(v@.take(i as int)),
        decreases v@.len() - i,
    {
        let c = v[i];
        if c == '\\' || c == '|' {
            out.push('\\');
        }
        out.push(c);
        proof {
            let t = v@.take(i + 1);
            assert(t.drop_last() =~= v@.take(i as int));
            assert(t.last() == c);
        }
        i = i + 1;
    }
    assert(v@.take(v@.len() as int) =~= v@);
    string_from_chars(out.as_slice())
}

/// The index key of a row (`row_key`).
pub fn row_to_key(row: &[AttributeValue]) -> (r: String)
    ensures
        r@ == row_key(attr_views(row@)),
{
    if row.len() == 0 {
        return String::new();
    }
    let mut key = value_key_text(&row[0]);
    let mut i: usize = 1;
    proof {
        assert(attr_views(row@).take(1) =~= seq![row@[0]@]);
    }
    while i < row.len()
        invariant
            1 <= i <= row@.len(),
            key@ == row_key(attr_views(row@).take(i as int)),
        decreases row@.len() - i,
    {
        let k = value_key_text(&row[i]);
        let with_bar = concat(key.as_str(), "|");
        key = concat(with_bar.as_str(), k.as_str());
        proof {
            let t = attr_views(row@).take(i + 1);
            assert(t =~= attr_views(row@).take(i as int).push(row@[i as int]@));
            lemma_row_key_push(attr_views(row@).take(i as int), row@[i as int]@);
        }
        i = i + 1;
    }
    assert(attr_views(row@).take(row@.len() as int) =~= attr_views(row@));
    key
}


/// Appending a value to a non-empty row appends `|` and its key.
proof fn lemma_row_key_push(s: Seq<AttrView>, v: AttrView)
    requires
        s.len() >= 1,
    ensures
        row_key(s.push(v)) == row_key(s) + "|"@ + value_key(v),
    decreases s.len(),
{
    let t = s.push(v);
    assert(t[0] == s[0]);
    assert(t.len() >= 2);
    if s.len() == 1 {
        assert(t.drop_first() =~= seq![v]);
        assert(row_key(t.drop_first()) == value_key(v));
        assert(row_key(s) == value_key(s[0]));
        assert(row_key(t) =~= row_key(s) + "|"@ + value_key(v));
    } else {
        assert(t.drop_first() =~= s.drop_first().push(v));
        lemma_row_key_push(s.drop_first(), v);
        assert(row_key(s) == value_key(s[0]) + "|"@ + row_key(s.drop_first()));
        assert(row_key(t) == value_key(t[0]) + "|"@ + row_key(t.drop_first()));
        assert(row_key(t) =~= row_key(s) + "|"@ + value_key(v));
    }
}

/// Whether `e` reads as a run of key characters: plain characters, and
/// backslash pairs, with no bare `|`.
pub open spec fn key_wf(e: Seq<char>) -> bool
    decreases e.len(),
{
    if e.len() == 0 {
        true
    } else if e[0] == '|' {
        false
    } else if e[0] == '\\' {
        e.len() >= 2 && key_wf(e.subrange(2, e.len() as int))
    } else {
        key_wf(e.drop_first())
    }
}

/// The position, from `i` on, of the first `|` that is not escaped (or the end).
pub open spec fn scan(t: Seq<char>, i: int) -> int
    decreases t.len() + 1 - i,
{
    if i < 0 || i >= t.len() {
        t.len() as int
    } else if t[i] == '|' {
        i
    } else if t[i] == '\\' {
        scan(t, i + 2)
    } else {
        scan(t, i + 1)
    }
}

/// Empty, or starting with a separator.
pub open spec fn sep_or_end(x: Seq<char>) -> bool {
    x.len() == 0 || x[0] == '|'
}

proof fn lemma_scan_wf(e: Seq<char>, x: Seq<char>, k: int)
    requires
        0 <= k <= e.len(),
        key_wf(e.subrange(k, e.len() as int)),
        sep_or_end(x),
    ensures
        scan(e + x, k) == e.len(),
    decreases e.len() - k,
{
    let t = e + x;
    if k < e.len() {
        let r = e.subrange(k, e.len() as int);
        assert(r[0] == t[k]);
        if t[k] == '\\' {
            assert(r.subrange(2, r.len() as int) =~= e.subrange(k + 2, e.len() as int));
            lemma_scan_wf(e, x, k + 2);
        } else {
            assert(r.drop_first() =~= e.subrange(k + 1, e.len() as int));
            lemma_scan_wf(e, x, k + 1);
        }
    } else if x.len() > 0 {
        assert(t[k] == x[0]);
    }
}

proof fn lemma_wf_concat(a: Seq<char>, b: Seq<char>)
    requires
        key_wf(a),
        key_wf(b),
    ensures
        key_wf(a + b),
    decreases a.len(),
{
    if a.len() == 0 {
        assert(a + b =~= b);
    } else if a[0] == '\\' {
        assert((a + b).subrange(2, (a + b).len() as int) =~= a.subrange(2, a.len() as int) + b);
        lemma_wf_concat(a.subrange(2, a.len() as int), b);
    } else {
        assert((a + b).drop_first() =~= a.drop_first() + b);
        lemma_wf_concat(a.drop_first(), b);
    }
}

proof fn lemma_wf_plain(e: Seq<char>)
    requires
        forall|i: int| 0 <= i < e.len() ==> #[trigger] e[i] != '|' && e[i] != '\\',
    ensures
        key_wf(e),
    decreases e.len(),
{
    if e.len() > 0 {
        assert forall|i: int| 0 <= i < e.drop_first().len() implies #[trigger] e.drop_first()[i] != '|' && e.drop_first()[i] != '\\' by {
            assert(e.drop_first()[i] == e[i + 1]);
        }
        lemma_wf_plain(e.drop_first());
    }
}

proof fn lemma_wf_escaped(s: Seq<char>)
    ensures
        key_wf(escaped(s)),
    decreases s.len(),
{
    if s.len() > 0 {
        lemma_wf_escaped(s.drop_last());
        let c = s.last();
        let ec = escape_char(c);
        assert(key_wf(Seq::<char>::empty()));
        if c == '\\' || c == '|' {
            assert(ec.subrange(2, 2) =~= Seq::<char>::empty());
            assert(ec[0] == '\\');
        } else {
            assert(ec.drop_first() =~= Seq::<char>::empty());
            assert(ec[0] == c);
        }
        assert(key_wf(ec));
        lemma_wf_concat(escaped(s.drop_last()), ec);
    }
}

/// The decimal digits are digits.
proof fn lemma_decimal_digits(n: nat)
    ensures
        decimal(n).len() >= 1,
        forall|i: int| 0 <= i < decimal(n).len() ==> '0' <= #[trigger] decimal(n)[i] <= '9',
        n < 10 <==> decimal(n).len() == 1,
    decreases n,
{
    if n >= 10 {
        lemma_decimal_digits(n / 10);
        assert forall|i: int| 0 <= i < decimal(n).len() implies '0' <= #[trigger] decimal(n)[i] <= '9' by {
            if i < decimal(n / 10).len() {
                assert(decimal(n)[i] == decimal(n / 10)[i]);
            }
        }
    }
}

proof fn lemma_decimal_injective(n: nat, m: nat)
    requires
        decimal(n) == decimal(m),
    ensures
        n == m,
    decreases n,
{
    lemma_decimal_digits(n);
    lemma_decimal_digits(m);
    if n >= 10 && m >= 10 {
        assert(decimal(n).last() == digit_char((n % 10) as int));
        assert(decimal(m).last() == digit_char((m % 10) as int));
        assert(n % 10 == m % 10);
        assert(decimal(n / 10) =~= decimal(n).drop_last());
        assert(decimal(m / 10) =~= decimal(m).drop_last());
        lemma_decimal_injective(n / 10, m / 10);
        assert(n == 10 * (n / 10) + n % 10);
        assert(m == 10 * (m / 10) + m % 10);
    } else if n < 10 && m < 10 {
        assert(decimal(n)[0] == digit_char(n as int));
        assert(decimal(m)[0] == digit_char(m as int));
    }
}

proof fn lemma_int_text(n: int)
    ensures
        int_text(n).len() >= 1,
        forall|i: int| 0 <= i < int_text(n).len() ==> #[trigger] int_text(n)[i] != '|' && int_text(n)[i] != '\\',
        n < 0 <==> int_text(n)[0] == '-',
{
    if n < 0 {
        lemma_decimal_digits((-n) as nat);
        assert forall|i: int| 0 <= i < int_text(n).len() implies #[trigger] int_text(n)[i] != '|' && int_text(n)[i] != '\\' by {
            if i > 0 {
                assert(int_text(n)[i] == decimal((-n) as nat)[i - 1]);
            }
        }
    } else {
        lemma_decimal_digits(n as nat);
    }
}

proof fn lemma_int_text_injective(a: int, b: int)
    requires
        int_text(a) == int_text(b),
    ensures
        a == b,
{
    lemma_int_text(a);
    lemma_int_text(b);
    if a < 0 {
        assert(decimal((-a) as nat) =~= int_text(a).drop_first());
        assert(decimal((-b) as nat) =~= int_text(b).drop_first());
        lemma_decimal_injective((-a) as nat, (-b) as nat);
    } else {
        lemma_decimal_injective(a as nat, b as nat);
    }
}

/// The front character of an escaped string.
proof fn lemma_escaped_front(s: Seq<char>)
    requires
        s.len() > 0,
    ensures
        escaped(s) == escape_char(s[0]) + escaped(s.drop_first()),
    decreases s.len(),
{
    if s.len() == 1 {
        assert(s.drop_last() =~= Seq::<char>::empty());
        assert(s.drop_first() =~= Seq::<char>::empty());
        assert(escaped(s) =~= escape_char(s[0]) + escaped(s.drop_first()));
    } else {
        lemma_escaped_front(s.drop_last());
        assert(s.drop_first().drop_last() =~= s.drop_last().drop_first());
        assert(s.drop_first().last() == s.last());
        assert(escaped(s) =~= escape_char(s[0]) + escaped(s.drop_first()));
    }
}

proof fn lemma_escaped_injective(s: Seq<char>, t: Seq<char>)
    requires
        escaped(s) == escaped(t),
    ensures
        s == t,
    decreases s.len() + t.len(),
{
    if s.len() == 0 && t.len() == 0 {
        assert(s =~= t);
    } else if s.len() == 0 {
        lemma_escaped_front(t);
        assert(escaped(t).len() > 0);
    } else if t.len() == 0 {
        lemma_escaped_front(s);
        assert(escaped(s).len() > 0);
    } else {
        lemma_escaped_front(s);
        lemma_escaped_front(t);
        let es = escaped(s);
        let s0 = s[0];
        let t0 = t[0];
        let ss = s0 == '\\' || s0 == '|';
        let ts = t0 == '\\' || t0 == '|';
        if ss {
            assert(es[0] == '\\');
            assert(ts);
            assert(es[1] == s0 && es[1] == t0);
            assert(es.subrange(2, es.len() as int) =~= escaped(s.drop_first()));
            assert(es.subrange(2, es.len() as int) =~= escaped(t.drop_first()));
        } else {
            assert(es[0] == s0);
            assert(!ts);
            assert(es.drop_first() =~= escaped(s.drop_first()));
            assert(es.drop_first() =~= escaped(t.drop_first()));
        }
        lemma_escaped_injective(s.drop_first(), t.drop_first());
        assert(s =~= seq![s0] + s.drop_first());
        assert(t =~= seq![t0] + t.drop_first());
    }
}

/// Every value key is non-empty and reads as one run of key characters.
proof fn lemma_value_key_wf(v: AttrView)
    ensures
        value_key(v).len() >= 1,
        key_wf(value_key(v)),
{
    reveal_strlit("S:");
    reveal_strlit("I:");
    reveal_strlit("L:");
    reveal_strlit("F:");
    reveal_strlit("D:");
    reveal_strlit("NaN");
    reveal_strlit("B:true");
    reveal_strlit("B:false");
    reveal_strlit("N");
    match v {
        AttrView::String(s) => {
            lemma_wf_plain("S:"@);
            lemma_wf_escaped(s);
            lemma_wf_concat("S:"@, escaped(s));
        },
        AttrView::Int(i) => {
            lemma_int_text(i as int);
            lemma_wf_plain("I:"@);
            lemma_wf_plain(int_text(i as int));
            lemma_wf_concat("I:"@, int_text(i as int));
        },
        AttrView::Long(l) => {
            lemma_int_text(l as int);
            lemma_wf_plain("L:"@);
            lemma_wf_plain(int_text(l as int));
            lemma_wf_concat("L:"@, int_text(l as int));
        },
        AttrView::Float(b) => {
            lemma_int_text(b as int);
            lemma_wf_plain("F:"@);
            lemma_wf_plain(float_key(b as int, nan32(b)));
            lemma_wf_concat("F:"@, float_key(b as int, nan32(b)));
        },
        AttrView::Double(b) => {
            lemma_int_text(b as int);
            lemma_wf_plain("D:"@);
            lemma_wf_plain(float_key(b as int, nan64(b)));
            lemma_wf_concat("D:"@, float_key(b as int, nan64(b)));
        },
        AttrView::Bool(b) => {
            lemma_wf_plain("B:true"@);
            lemma_wf_plain("B:false"@);
        },
        AttrView::Null => {
            lemma_wf_plain("N"@);
        },
    }
}

/// The first character of a value key names the kind of value.
pub open spec fn key_tag(v: AttrView) -> char {
    match v {
        AttrView::String(_) => 'S',
        AttrView::Int(_) => 'I',
        AttrView::Long(_) => 'L',
        AttrView::Float(_) => 'F',
        AttrView::Double(_) => 'D',
        AttrView::Bool(_) => 'B',
        AttrView::Null => 'N',
    }
}

proof fn lemma_value_key_injective(v: AttrView, w: AttrView)
    requires
        value_key(v) == value_key(w),
        not_nan(v),
    ensures
        v == w,
{
    reveal_strlit("S:");
    reveal_strlit("I:");
    reveal_strlit("L:");
    reveal_strlit("F:");
    reveal_strlit("D:");
    reveal_strlit("NaN");
    reveal_strlit("B:true");
    reveal_strlit("B:false");
    reveal_strlit("N");
    lemma_value_key_wf(v);
    lemma_value_key_wf(w);
    assert(value_key(v)[0] == key_tag(v));
    assert(value_key(w)[0] == key_tag(w));
    let k = value_key(v);
    match v {
        AttrView::String(s) => {
            let t = w->String_0;
            assert(k.subrange(2, k.len() as int) =~= escaped(s));
            assert(k.subrange(2, k.len() as int) =~= escaped(t));
            lemma_escaped_injective(s, t);
        },
        AttrView::Int(i) => {
            let j = w->Int_0;
            assert(k.subrange(2, k.len() as int) =~= int_text(i as int));
            assert(k.subrange(2, k.len() as int) =~= int_text(j as int));
            lemma_int_text_injective(i as int, j as int);
        },
        AttrView::Long(i) => {
            let j = w->Long_0;
            assert(k.subrange(2, k.len() as int) =~= int_text(i as int));
            assert(k.subrange(2, k.len() as int) =~= int_text(j as int));
            lemma_int_text_injective(i as int, j as int);
        },
        AttrView::Float(b) => {
            let c = w->Float_0;
            lemma_int_text(b as int);
            lemma_decimal_digits(b as nat);
            assert(k.subrange(2, k.len() as int) =~= int_text(b as int));
            assert(k.subrange(2, k.len() as int) =~= float_key(c as int, nan32(c)));
            if nan32(c) {
                assert(k[2] == int_text(b as int)[0]);
                assert(k[2] == 'N');
            }
            lemma_int_text_injective(b as int, c as int);
        },
        AttrView::Double(b) => {
            let c = w->Double_0;
            lemma_int_text(b as int);
            lemma_decimal_digits(b as nat);
            assert(k.subrange(2, k.len() as int) =~= int_text(b as int));
            assert(k.subrange(2, k.len() as int) =~= float_key(c as int, nan64(c)));
            if nan64(c) {
                assert(k[2] == int_text(b as int)[0]);
                assert(k[2] == 'N');
            }
            lemma_int_text_injective(b as int, c as int);
        },
        AttrView::Bool(b) => {
            let c = w->Bool_0;
            if b != c {
                assert(value_key(v).len() != value_key(w).len());
            }
        },
        AttrView::Null => {},
    }
}

/// Keys equal: the rows are equal, when one of them holds no NaN (every NaN
/// has the same key). So looking rows up by key finds exactly the equal rows.
pub proof fn law_row_key_identifies_row(a: Seq<AttrView>, b: Seq<AttrView>)
    requires
        row_key(a) == row_key(b),
        no_nan_row(a),
    ensures
        a == b,
    decreases a.len(),
{
    reveal_strlit("|");
    if a.len() == 0 {
        if b.len() > 0 {
            lemma_value_key_wf(b[0]);
            assert(row_key(b).len() > 0);
        }
        assert(a =~= b);
    } else if b.len() == 0 {
        lemma_value_key_wf(a[0]);
        assert(row_key(a).len() > 0);
    } else {
        let xa = if a.len() == 1 { Seq::<char>::empty() } else { "|"@ + row_key(a.drop_first()) };
        let xb = if b.len() == 1 { Seq::<char>::empty() } else { "|"@ + row_key(b.drop_first()) };
        assert(row_key(a) =~= value_key(a[0]) + xa);
        assert(row_key(b) =~= value_key(b[0]) + xb);
        lemma_value_key_wf(a[0]);
        lemma_value_key_wf(b[0]);
        let ea = value_key(a[0]);
        let eb = value_key(b[0]);
        assert(ea.subrange(0, ea.len() as int) =~= ea);
        assert(eb.subrange(0, eb.len() as int) =~= eb);
        lemma_scan_wf(ea, xa, 0);
        lemma_scan_wf(eb, xb, 0);
        assert(ea.len() == eb.len());
        assert(ea =~= row_key(a).subrange(0, ea.len() as int));
        assert(eb =~= row_key(b).subrange(0, eb.len() as int));
        assert(xa =~= row_key(a).subrange(ea.len() as int, row_key(a).len() as int));
        assert(xb =~= row_key(b).subrange(eb.len() as int, row_key(b).len() as int));
        assert(not_nan(a[0]));
        lemma_value_key_injective(a[0], b[0]);
        if a.len() == 1 || b.len() == 1 {
            assert(xa.len() == 0 && xb.len() == 0);
            assert(a.len() == 1 && b.len() == 1);
            assert(a[0] == b[0]);
            assert(a =~= b);
        } else {
            assert(row_key(a.drop_first()) =~= xa.drop_first());
            assert(row_key(b.drop_first()) =~= xb.drop_first());
            assert forall|i: int| 0 <= i < a.drop_first().len() implies not_nan(#[trigger] a.drop_first()[i]) by {
                assert(a.drop_first()[i] == a[i + 1]);
            }
            law_row_key_identifies_row(a.drop_first(), b.drop_first());
            assert(a =~= seq![a[0]] + a.drop_first());
            assert(b =~= seq![b[0]] + b.drop_first());
        }
    }
}

} // verus!
