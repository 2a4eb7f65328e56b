//! An in-memory table: rows of attribute values, with an index from each
//! row's key (see `row_key`) to the positions of the rows that have it.

use vstd::prelude::*;
use crate::engine::event::{AttributeValue, AttrView, attr_views};
use crate::engine::table::rows::{copy_row, row_key, row_to_key, row_eq, rows_equal, no_nan_row, law_row_key_identifies_row};
use crate::text::str_eq;

verus! {

/// The rows as value sequences.
pub open spec fn table_rows(rows: Seq<Vec<AttributeValue>>) -> Seq<Seq<AttrView>> {
    rows.map_values(|r: Vec<AttributeValue>| attr_views(r@))
}

/// The index describes `rows` exactly: distinct keys, no empty position
/// list, every listed position holds a row with that key, and every row is
/// listed under its key.
pub open spec fn index_ok(rows: Seq<Seq<AttrView>>, index: Seq<(String, Vec<usize>)>) -> bool {
    &&& forall|p: int, q: int| 0 <= p < q < index.len() ==> (#[trigger] index[p]).0@ != (#[trigger] index[q]).0@
    &&& forall|p: int| 0 <= p < index.len() ==> (#[trigger] index[p]).1@.len() > 0
    &&& forall|p: int, j: int|
        0 <= p < index.len() && 0 <= j < index[p].1@.len() ==> (#[trigger] index[p].1@[j]) < rows.len()
            && row_key(rows[index[p].1@[j] as int]) == index[p].0@
    &&& forall|i: int|
        0 <= i < rows.len() ==> exists|p: int|
            0 <= p < index.len() && (#[trigger] index[p]).0@ == row_key(#[trigger] rows[i])
                && index[p].1@.contains(i as usize)
}

/// Position of the index entry for `key`.
fn find_entry(index: &Vec<(String, Vec<usize>)>, key: &str) -> (r: Option<usize>)
    ensures
        r matches Some(p) ==> p < index@.len() && index@[p as int].0@ == key@,
        r is None ==> forall|p: int| 0 <= p < index@.len() ==> (#[trigger] index@[p]).0@ != key@,
{
    let mut p: usize = 0;
    while p < index.len()
        invariant
            p <= index@.len(),
            forall|q: int| 0 <= q < p ==> (#[trigger] index@[q]).0@ != key@,
        decreases index@.len() - p,
    {
        if str_eq(index[p].0.as_str(), key) {
            return Some(p);
        }
        p = p + 1;
    }
    None
}

/// `items` appended to the entry for `key`, which is created at the end
/// when there is none.
fn extend_entry(index: Vec<(String, Vec<usize>)>, key: String, items: &Vec<usize>) -> (r: Vec<(String, Vec<usize>)>)
    ensures
        (exists|p: int| 0 <= p < index@.len() && (#[trigger] index@[p]).0@ == key@) ==> (r@.len() == index@.len()
            && exists|p: int| 0 <= p < index@.len() && (#[trigger] index@[p]).0@ == key@
                && r@[p].0@ == key@ && r@[p].1@ == index@[p].1@ + items@
                && forall|q: int| 0 <= q < index@.len() && q != p ==> #[trigger] r@[q] == index@[q]),
        (forall|p: int| 0 <= p < index@.len() ==> (#[trigger] index@[p]).0@ != key@) ==> (r@.len() == index@.len() + 1
            && forall|q: int| 0 <= q < index@.len() ==> #[trigger] r@[q] == index@[q])
            && r@[index@.len() as int].0@ == key@ && r@[index@.len() as int].1@ == items@,
{
    let mut index = index;
    match find_entry(&index, key.as_str()) {
        Some(p) => {
            let ghost before = index@;
            let (k, mut l) = index.remove(p);
            let mut j: usize = 0;
            let ghost start = l@;
            while j < items.len()
                invariant
                    j <= items@.len(),
                    l@ == start + items@.take(j as int),
                decreases items@.len() - j,
            {
                l.push(items[j]);
                proof {
                    assert(items@.take(j + 1) =~= items@.take(j as int).push(items@[j as int]));
                    assert(l@ =~= start + items@.take(j + 1));
                }
                j = j + 1;
            }
            assert(items@.take(items@.len() as int) =~= items@);
            index.insert(p, (k, l));
            proof {
                assert(index@.len() == before.len());
                assert forall|q: int| 0 <= q < before.len() && q != p implies #[trigger] index@[q] == before[q] by {
                    if q < p {
                        assert(index@[q] == before[q]);
                    } else {
                        assert(index@[q] == before[q]);
                    }
                }
                assert(before[p as int].0@ == key@);
            }
            index
        },
        None => {
            let mut l: Vec<usize> = Vec::new();
            let mut j: usize = 0;
            while j < items.len()
                invariant
                    j <= items@.len(),
                    l@ == items@.take(j as int),
                decreases items@.len() - j,
            {
                l.push(items[j]);
                proof {
                    assert(items@.take(j + 1) =~= items@.take(j as int).push(items@[j as int]));
                }
                j = j + 1;
            }
            assert(items@.take(items@.len() as int) =~= items@);
            index.push((key, l));
            index
        },
    }
}

/// Listing a new last row under its key keeps the index exact.
proof fn lemma_index_push(
    rows: Seq<Seq<AttrView>>,
    index: Seq<(String, Vec<usize>)>,
    row: Seq<AttrView>,
    index2: Seq<(String, Vec<usize>)>,
)
    requires
        index_ok(rows, index),
        (exists|p: int| 0 <= p < index.len() && (#[trigger] index[p]).0@ == row_key(row)) ==> (index2.len() == index.len()
            && exists|p: int| 0 <= p < index.len() && (#[trigger] index[p]).0@ == row_key(row)
                && index2[p].0@ == row_key(row) && index2[p].1@ == index[p].1@ + seq![rows.len() as usize]
                && forall|q: int| 0 <= q < index.len() && q != p ==> #[trigger] index2[q] == index[q]),
        (forall|p: int| 0 <= p < index.len() ==> (#[trigger] index[p]).0@ != row_key(row)) ==> (index2.len() == index.len() + 1
            && forall|q: int| 0 <= q < index.len() ==> #[trigger] index2[q] == index[q])
            && index2[index.len() as int].0@ == row_key(row) && index2[index.len() as int].1@ == seq![rows.len() as usize],
        rows.len() <= usize::MAX,
    ensures
        index_ok(rows.push(row), index2),
{
    let rows2 = rows.push(row);
    let n = rows.len();
    if exists|p: int| 0 <= p < index.len() && (#[trigger] index[p]).0@ == row_key(row) {
        let p0 = choose|p: int| 0 <= p < index.len() && (#[trigger] index[p]).0@ == row_key(row)
            && index2[p].0@ == row_key(row) && index2[p].1@ == index[p].1@ + seq![n as usize]
            && forall|q: int| 0 <= q < index.len() && q != p ==> #[trigger] index2[q] == index[q];
        assert forall|p: int, q: int| 0 <= p < q < index2.len() implies (#[trigger] index2[p]).0@ != (#[trigger] index2[q]).0@ by {
            assert(index2[p].0@ == index[p].0@);
            assert(index2[q].0@ == index[q].0@);
            assert(index[p].0@ != index[q].0@);
        }
        assert forall|p: int| 0 <= p < index2.len() implies (#[trigger] index2[p]).1@.len() > 0 by {
            assert(index[p].1@.len() > 0);
        }
        assert forall|p: int, j: int|
            0 <= p < index2.len() && 0 <= j < index2[p].1@.len() implies (#[trigger] index2[p].1@[j]) < rows2.len()
                && row_key(rows2[index2[p].1@[j] as int]) == index2[p].0@ by {
            if p == p0 {
                if j < index[p].1@.len() {
                    assert(index2[p].1@[j] == index[p].1@[j]);
                    assert(index[p].1@[j] < rows.len() && row_key(rows[index[p].1@[j] as int]) == index[p].0@);
                } else {
                    assert(index2[p].1@[j] == n as usize);
                }
            } else {
                assert(index2[p] == index[p]);
                assert(index[p].1@[j] < rows.len() && row_key(rows[index[p].1@[j] as int]) == index[p].0@);
            }
        }
        assert forall|i: int| 0 <= i < rows2.len() implies exists|p: int|
            0 <= p < index2.len() && (#[trigger] index2[p]).0@ == row_key(#[trigger] rows2[i])
                && index2[p].1@.contains(i as usize) by {
            if i < n {
                assert(rows2[i] == rows[i]);
                let w = choose|p: int| 0 <= p < index.len() && (#[trigger] index[p]).0@ == row_key(#[trigger] rows[i])
                    && index[p].1@.contains(i as usize);
                let j = choose|j: int| 0 <= j < index[w].1@.len() && index[w].1@[j] == i as usize;
                if w == p0 {
                    assert(index2[w].1@[j] == i as usize);
                } else {
                    assert(index2[w] == index[w]);
                }
                assert(index2[w].1@.contains(i as usize));
            } else {
                assert(rows2[i] == row);
                assert(index2[p0].1@[index[p0].1@.len() as int] == n as usize);
                assert(index2[p0].1@.contains(i as usize));
            }
        }
    } else {
        let m = index.len() as int;
        assert forall|p: int, q: int| 0 <= p < q < index2.len() implies (#[trigger] index2[p]).0@ != (#[trigger] index2[q]).0@ by {
            if q == m {
                assert(index2[p] == index[p]);
            } else {
                assert(index2[p] == index[p]);
                assert(index2[q] == index[q]);
            }
        }
        assert forall|p: int| 0 <= p < index2.len() implies (#[trigger] index2[p]).1@.len() > 0 by {
            if p < m {
                assert(index2[p] == index[p]);
            }
        }
        assert forall|p: int, j: int|
            0 <= p < index2.len() && 0 <= j < index2[p].1@.len() implies (#[trigger] index2[p].1@[j]) < rows2.len()
                && row_key(rows2[index2[p].1@[j] as int]) == index2[p].0@ by {
            if p < m {
                assert(index2[p] == index[p]);
                assert(index[p].1@[j] < rows.len() && row_key(rows[index[p].1@[j] as int]) == index[p].0@);
            }
        }
        assert forall|i: int| 0 <= i < rows2.len() implies exists|p: int|
            0 <= p < index2.len() && (#[trigger] index2[p]).0@ == row_key(#[trigger] rows2[i])
                && index2[p].1@.contains(i as usize) by {
            if i < n {
                assert(rows2[i] == rows[i]);
                let w = choose|p: int| 0 <= p < index.len() && (#[trigger] index[p]).0@ == row_key(#[trigger] rows[i])
                    && index[p].1@.contains(i as usize);
                assert(index2[w] == index[w]);
            } else {
                assert(rows2[i] == row);
                assert(index2[m].1@[0] == n as usize);
                assert(index2[m].1@.contains(i as usize));
            }
        }
    }
}


/// The positions listed under a key are exactly the rows with that key.
proof fn lemma_listed_iff_key(rows: Seq<Seq<AttrView>>, index: Seq<(String, Vec<usize>)>, p: int, i: int)
    requires
        index_ok(rows, index),
        0 <= p < index.len(),
        0 <= i < rows.len(),
    ensures
        index[p].1@.contains(i as usize) <==> row_key(rows[i]) == index[p].0@,
{
    if index[p].1@.contains(i as usize) {
        let j = choose|j: int| 0 <= j < index[p].1@.len() && index[p].1@[j] == i as usize;
        assert(index[p].1@[j] < rows.len() && row_key(rows[index[p].1@[j] as int]) == index[p].0@);
    }
    if row_key(rows[i]) == index[p].0@ {
        let w = choose|w: int| 0 <= w < index.len() && (#[trigger] index[w]).0@ == row_key(#[trigger] rows[i])
            && index[w].1@.contains(i as usize);
        if w != p {
            if w < p {
                assert(index[w].0@ != index[p].0@);
            } else {
                assert(index[p].0@ != index[w].0@);
            }
        }
    }
}

/// Replacing every row with key `index[p].0` by `v`, dropping entry `p` and
/// listing its positions under `v`'s key keeps the index exact.
proof fn lemma_index_update(
    rows: Seq<Seq<AttrView>>,
    index: Seq<(String, Vec<usize>)>,
    p: int,
    v: Seq<AttrView>,
    rows2: Seq<Seq<AttrView>>,
    index2: Seq<(String, Vec<usize>)>,
)
    requires
        index_ok(rows, index),
        0 <= p < index.len(),
        rows2.len() == rows.len(),
        forall|i: int| 0 <= i < rows.len() ==> #[trigger] rows2[i] == if index[p].1@.contains(i as usize) { v } else { rows[i] },
        ({
            let rest = index.remove(p);
            &&& (exists|w: int| 0 <= w < rest.len() && (#[trigger] rest[w]).0@ == row_key(v)) ==> (index2.len() == rest.len()
                && exists|w: int| 0 <= w < rest.len() && (#[trigger] rest[w]).0@ == row_key(v)
                    && index2[w].0@ == row_key(v) && index2[w].1@ == rest[w].1@ + index[p].1@
                    && forall|q: int| 0 <= q < rest.len() && q != w ==> #[trigger] index2[q] == rest[q])
            &&& (forall|w: int| 0 <= w < rest.len() ==> (#[trigger] rest[w]).0@ != row_key(v)) ==> (index2.len() == rest.len() + 1
                && forall|q: int| 0 <= q < rest.len() ==> #[trigger] index2[q] == rest[q])
                && index2[rest.len() as int].0@ == row_key(v) && index2[rest.len() as int].1@ == index[p].1@
        }),
    ensures
        index_ok(rows2, index2),
{
    let rest = index.remove(p);
    let l = index[p].1@;
    let kold = index[p].0@;
    // entries of `rest` are the entries of `index` other than `p`
    assert forall|q: int| 0 <= q < rest.len() implies #[trigger] rest[q] == index[if q < p { q } else { q + 1 }] by {}
    // a position listed in `rest` holds an unchanged row
    assert forall|q: int, j: int| 0 <= q < rest.len() && 0 <= j < rest[q].1@.len() implies
        (#[trigger] rest[q].1@[j]) < rows.len() && rows2[rest[q].1@[j] as int] == rows[rest[q].1@[j] as int]
            && row_key(rows[rest[q].1@[j] as int]) == rest[q].0@ by {
        let o = if q < p { q } else { q + 1 };
        assert(rest[q] == index[o]);
        assert(index[o].1@[j] < rows.len() && row_key(rows[index[o].1@[j] as int]) == index[o].0@);
        if o < p {
            assert(index[o].0@ != index[p].0@);
        } else {
            assert(index[p].0@ != index[o].0@);
        }
        lemma_listed_iff_key(rows, index, p, index[o].1@[j] as int);
    }
    assert forall|j: int| 0 <= j < l.len() implies (#[trigger] l[j]) < rows.len() && rows2[l[j] as int] == v by {
        assert(index[p].1@[j] < rows.len());
        assert(l.contains(l[j]));
    }
    let has = exists|w: int| 0 <= w < rest.len() && (#[trigger] rest[w]).0@ == row_key(v);
    let w0 = if has {
        choose|w: int| 0 <= w < rest.len() && (#[trigger] rest[w]).0@ == row_key(v)
            && index2[w].0@ == row_key(v) && index2[w].1@ == rest[w].1@ + index[p].1@
            && forall|q: int| 0 <= q < rest.len() && q != w ==> #[trigger] index2[q] == rest[q]
    } else {
        rest.len() as int
    };
    assert(0 <= w0 < index2.len() && index2[w0].0@ == row_key(v));
    assert forall|q: int| 0 <= q < index2.len() && q != w0 implies #[trigger] index2[q] == rest[q] by {}
    // distinct keys
    assert forall|a: int, b: int| 0 <= a < b < index2.len() implies (#[trigger] index2[a]).0@ != (#[trigger] index2[b]).0@ by {
        if a != w0 && b != w0 {
            let oa = if a < p { a } else { a + 1 };
            let ob = if b < p { b } else { b + 1 };
            assert(index[oa].0@ != index[ob].0@);
        } else if has {
            let oa = if a < p { a } else { a + 1 };
            let ob = if b < p { b } else { b + 1 };
            assert(index[oa].0@ != index[ob].0@);
        } else {
            assert(rest[a].0@ != row_key(v));
        }
    }
    assert forall|a: int| 0 <= a < index2.len() implies (#[trigger] index2[a]).1@.len() > 0 by {
        let oa = if a < p { a } else { a + 1 };
        if a != w0 {
            assert(index[oa].1@.len() > 0);
        } else {
            assert(index[p].1@.len() > 0);
        }
    }
    assert forall|a: int, j: int|
        0 <= a < index2.len() && 0 <= j < index2[a].1@.len() implies (#[trigger] index2[a].1@[j]) < rows2.len()
            && row_key(rows2[index2[a].1@[j] as int]) == index2[a].0@ by {
        if a != w0 {
            assert(rest[a].1@[j] < rows.len());
        } else if has {
            if j < rest[a].1@.len() {
                assert(index2[a].1@[j] == rest[a].1@[j]);
                assert(rest[a].1@[j] < rows.len());
            } else {
                assert(index2[a].1@[j] == l[j - rest[a].1@.len()]);
                assert(l[j - rest[a].1@.len()] < rows.len());
            }
        } else {
            assert(index2[a].1@[j] == l[j]);
        }
    }
    assert forall|i: int| 0 <= i < rows2.len() implies exists|a: int|
        0 <= a < index2.len() && (#[trigger] index2[a]).0@ == row_key(#[trigger] rows2[i])
            && index2[a].1@.contains(i as usize) by {
        lemma_listed_iff_key(rows, index, p, i);
        if l.contains(i as usize) {
            let j = choose|j: int| 0 <= j < l.len() && l[j] == i as usize;
            assert(rows2[i] == v);
            if has {
                assert(index2[w0].1@[rest[w0].1@.len() + j] == i as usize);
            } else {
                assert(index2[w0].1@[j] == i as usize);
            }
            assert(index2[w0].1@.contains(i as usize));
        } else {
            assert(rows2[i] == rows[i]);
            let w = choose|w: int| 0 <= w < index.len() && (#[trigger] index[w]).0@ == row_key(#[trigger] rows[i])
                && index[w].1@.contains(i as usize);
            assert(w != p);
            let r = if w < p { w } else { w - 1 };
            assert(rest[r] == index[w]);
            let j = choose|j: int| 0 <= j < index[w].1@.len() && index[w].1@[j] == i as usize;
            if r == w0 && has {
                assert(index2[r].1@[j] == i as usize);
            } else if r != w0 {
                assert(index2[r] == rest[r]);
            }
            assert(index2[r].1@.contains(i as usize));
        }
    }
}


/// The rows that are not equal (`row_eq`) to `cond`, in order.
pub open spec fn rows_unequal_to(rows: Seq<Seq<AttrView>>, cond: Seq<AttrView>) -> Seq<Seq<AttrView>>
    decreases rows.len(),
{
    if rows.len() == 0 {
        Seq::empty()
    } else if row_eq(rows.last(), cond) {
        rows_unequal_to(rows.drop_last(), cond)
    } else {
        rows_unequal_to(rows.drop_last(), cond).push(rows.last())
    }
}

proof fn lemma_unequal_len(rows: Seq<Seq<AttrView>>, cond: Seq<AttrView>)
    ensures
        rows_unequal_to(rows, cond).len() <= rows.len(),
    decreases rows.len(),
{
    if rows.len() > 0 {
        lemma_unequal_len(rows.drop_last(), cond);
    }
}

/// A table held in memory.
pub struct InMemoryTable {
    rows: Vec<Vec<AttributeValue>>,
    index: Vec<(String, Vec<usize>)>,
}

impl InMemoryTable {
    #[verifier::type_invariant]
    spec fn exact_index(self) -> bool {
        index_ok(table_rows(self.rows@), self.index@)
    }

    /// The rows, in insertion order.
    pub closed spec fn rows_view(&self) -> Seq<Seq<AttrView>> {
        table_rows(self.rows@)
    }

    /// An empty table.
    pub fn new() -> (r: Self)
        ensures
            r.rows_view() == Seq::<Seq<AttrView>>::empty(),
    {
        let r = InMemoryTable { rows: Vec::new(), index: Vec::new() };
        assert(table_rows(r.rows@) =~= Seq::<Seq<AttrView>>::empty());
        r
    }

    /// Copies of all rows.
    pub fn all_rows(&self) -> (r: Vec<Vec<AttributeValue>>)
        ensures
            table_rows(r@) == self.rows_view(),
    {
        self.copy_rows()
    }

    pub(crate) fn copy_rows(&self) -> (r: Vec<Vec<AttributeValue>>)
        ensures
            table_rows(r@) == self.rows_view(),
    {
        let mut r: Vec<Vec<AttributeValue>> = Vec::new();
        let mut i: usize = 0;
        while i < self.rows.len()
            invariant
                i <= self.rows@.len(),
                table_rows(r@) == table_rows(self.rows@).take(i as int),
            decreases self.rows@.len() - i,
        {
            let ghost before = r@;
            r.push(copy_row(self.rows[i].as_slice()));
            proof {
                assert(table_rows(r@) =~= table_rows(before).push(attr_views(self.rows@[i as int]@)));
                assert(table_rows(self.rows@).take(i + 1) =~= table_rows(self.rows@).take(i as int).push(attr_views(self.rows@[i as int]@)));
            }
            i = i + 1;
        }
        assert(table_rows(self.rows@).take(self.rows@.len() as int) =~= table_rows(self.rows@));
        r
    }

    /// Appends a row.
    pub fn insert_row(&mut self, values: &[AttributeValue])
        ensures
            final(self).rows_view() == old(self).rows_view().push(attr_views(values@)),
    {
        proof {
            use_type_invariant(&*self);
        }
        let key = row_to_key(values);
        let mut t = InMemoryTable::new();
        std::mem::swap(&mut t, self);
        proof {
            use_type_invariant(&t);
        }
        let InMemoryTable { mut rows, index } = t;
        let ghost rows0 = table_rows(rows@);
        let ghost index0 = index@;
        let n = rows.len();
        let mut items: Vec<usize> = Vec::new();
        items.push(n);
        let index2 = extend_entry(index, key, &items);
        rows.push(copy_row(values));
        proof {
            assert(items@ =~= seq![n]);
            lemma_index_push(rows0, index0, attr_views(values@), index2@);
            assert(table_rows(rows@) =~= rows0.push(attr_views(values@)));
        }
        *self = InMemoryTable { rows, index: index2 };
    }

    /// Whether some row has the key of `values`.
    pub fn contains_key_of(&self, values: &[AttributeValue]) -> (r: bool)
        ensures
            r == exists|i: int| 0 <= i < self.rows_view().len() && row_key(#[trigger] self.rows_view()[i]) == row_key(attr_views(values@)),
            no_nan_row(attr_views(values@)) ==> (r == exists|i: int| 0 <= i < self.rows_view().len()
                && #[trigger] self.rows_view()[i] == attr_views(values@)),
    {
        proof {
            lemma_key_match_is_equality(self.rows_view(), attr_views(values@));
        }
        proof {
            use_type_invariant(self);
        }
        let key = row_to_key(values);
        match find_entry(&self.index, key.as_str()) {
            Some(p) => {
                proof {
                    let i = self.index@[p as int].1@[0] as int;
                    assert(row_key(table_rows(self.rows@)[i]) == self.index@[p as int].0@);
                    assert(self.rows_view()[i] == table_rows(self.rows@)[i]);
                    assert(row_key(self.rows_view()[i]) == row_key(attr_views(values@)));
                }
                true
            },
            None => {
                proof {
                    assert forall|i: int| 0 <= i < self.rows_view().len() implies row_key(#[trigger] self.rows_view()[i]) != row_key(attr_views(values@)) by {
                        let rows = table_rows(self.rows@);
                        assert(rows[i] == self.rows_view()[i]);
                        let w = choose|p: int| 0 <= p < self.index@.len() && (#[trigger] self.index@[p]).0@ == row_key(#[trigger] rows[i])
                            && self.index@[p].1@.contains(i as usize);
                    }
                }
                false
            },
        }
    }

    /// A copy of a row with the key of `values`: the first one the index
    /// lists for that key.
    pub fn find_by_key(&self, values: &[AttributeValue]) -> (r: Option<Vec<AttributeValue>>)
        ensures
            r is None <==> !exists|i: int| 0 <= i < self.rows_view().len() && row_key(#[trigger] self.rows_view()[i]) == row_key(attr_views(values@)),
            r matches Some(row) ==> exists|i: int| 0 <= i < self.rows_view().len() && #[trigger] self.rows_view()[i] == attr_views(row@)
                && row_key(self.rows_view()[i]) == row_key(attr_views(values@)),
            no_nan_row(attr_views(values@)) ==> (r matches Some(row) ==> attr_views(row@) == attr_views(values@)),
    {
        proof {
            lemma_key_match_is_equality(self.rows_view(), attr_views(values@));
        }
        proof {
            use_type_invariant(self);
        }
        let key = row_to_key(values);
        match find_entry(&self.index, key.as_str()) {
            Some(p) => {
                let first = self.index[p].1[0];
                proof {
                    assert(self.index@[p as int].1@[0] == first);
                    assert(first < self.rows@.len());
                    assert(row_key(table_rows(self.rows@)[first as int]) == self.index@[p as int].0@);
                }
                let row = copy_row(self.rows[first].as_slice());
                proof {
                    assert(self.rows_view()[first as int] == attr_views(row@));
                }
                Some(row)
            },
            None => {
                proof {
                    assert forall|i: int| 0 <= i < self.rows_view().len() implies row_key(#[trigger] self.rows_view()[i]) != row_key(attr_views(values@)) by {
                        let rows = table_rows(self.rows@);
                        assert(rows[i] == self.rows_view()[i]);
                        let w = choose|p: int| 0 <= p < self.index@.len() && (#[trigger] self.index@[p]).0@ == row_key(#[trigger] rows[i])
                            && self.index@[p].1@.contains(i as usize);
                    }
                }
                None
            },
        }
    }

    /// Replaces every row with the key of `cond` by a copy of `new_values`;
    /// whether there was such a row.
    pub fn update_rows(&mut self, cond: &[AttributeValue], new_values: &[AttributeValue]) -> (r: bool)
        ensures
            r == exists|i: int| 0 <= i < old(self).rows_view().len() && row_key(#[trigger] old(self).rows_view()[i]) == row_key(attr_views(cond@)),
            final(self).rows_view().len() == old(self).rows_view().len(),
            forall|i: int| 0 <= i < old(self).rows_view().len() ==> #[trigger] final(self).rows_view()[i] == (
                if row_key(old(self).rows_view()[i]) == row_key(attr_views(cond@)) {
                    attr_views(new_values@)
                } else {
                    old(self).rows_view()[i]
                }),
            no_nan_row(attr_views(cond@)) ==> forall|i: int| 0 <= i < old(self).rows_view().len() ==> #[trigger] final(self).rows_view()[i] == (
                if old(self).rows_view()[i] == attr_views(cond@) {
                    attr_views(new_values@)
                } else {
                    old(self).rows_view()[i]
                }),
    {
        proof {
            lemma_key_match_is_equality(old(self).rows_view(), attr_views(cond@));
        }
        proof {
            use_type_invariant(&*self);
        }
        let old_key = row_to_key(cond);
        let new_key = row_to_key(new_values);
        let p = match find_entry(&self.index, old_key.as_str()) {
            Some(p) => p,
            None => {
                proof {
                    assert forall|i: int| 0 <= i < self.rows_view().len() implies row_key(#[trigger] self.rows_view()[i]) != row_key(attr_views(cond@)) by {
                        let rows = table_rows(self.rows@);
                        assert(rows[i] == self.rows_view()[i]);
                        let w = choose|p: int| 0 <= p < self.index@.len() && (#[trigger] self.index@[p]).0@ == row_key(#[trigger] rows[i])
                            && self.index@[p].1@.contains(i as usize);
                    }
                }
                return false;
            },
        };
        let mut t = InMemoryTable::new();
        std::mem::swap(&mut t, self);
        proof {
            use_type_invariant(&t);
        }
        let InMemoryTable { mut rows, mut index } = t;
        let ghost rows0 = table_rows(rows@);
        let ghost index0 = index@;
        let ghost v = attr_views(new_values@);
        let n = rows.len();
        assert(rows0 == old(self).rows_view());
        let (_k, indices) = index.remove(p);
        let ghost l = index0[p as int].1@;
        assert(indices@ == l);
        proof {
            assert forall|j: int| 0 <= j < l.len() implies (#[trigger] l[j]) < rows0.len() by {
                assert(index0[p as int].1@[j] < rows0.len());
            }
            let i0 = l[0] as int;
            assert(row_key(rows0[i0]) == index0[p as int].0@);
        }
        let mut j: usize = 0;
        while j < indices.len()
            invariant
                j <= indices@.len(),
                indices@ == l,
                v == attr_views(new_values@),
                forall|m: int| 0 <= m < l.len() ==> (#[trigger] l[m]) < rows0.len(),
                rows@.len() == rows0.len(),
                rows0.len() == n,
                forall|i: int| 0 <= i < rows0.len() ==> #[trigger] table_rows(rows@)[i] == if l.take(j as int).contains(i as usize) { v } else { rows0[i] },
            decreases indices@.len() - j,
        {
            let idx = indices[j];
            let ghost before = table_rows(rows@);
            let newrow = copy_row(new_values);
            let ghost nv = attr_views(newrow@);
            rows.set(idx, newrow);
            proof {
                assert(nv == v);
                assert(table_rows(rows@)[idx as int] == nv);
                assert forall|i: int| 0 <= i < rows0.len() implies #[trigger] table_rows(rows@)[i] == if l.take(j + 1).contains(i as usize) { v } else { rows0[i] } by {
                    let t1 = l.take(j + 1);
                    let t0 = l.take(j as int);
                    assert(t1 =~= t0.push(l[j as int]));
                    if i == idx as int {
                        assert(t1[j as int] == idx);
                        assert(t1.contains(i as usize));
                        assert(table_rows(rows@)[i] == v);
                    } else {
                        assert(table_rows(rows@)[i] == before[i]);
                        if t1.contains(i as usize) {
                            let m = choose|m: int| 0 <= m < t1.len() && t1[m] == i as usize;
                            if m == j as int {
                                assert(t1[m] == idx);
                                assert(i as usize == idx);
                                assert(false);
                            }
                            assert(t0[m] == i as usize);
                        }
                        if t0.contains(i as usize) {
                            let m = choose|m: int| 0 <= m < t0.len() && t0[m] == i as usize;
                            assert(t1[m] == i as usize);
                        }
                    }
                }
            }
            j = j + 1;
        }
        assert(l.take(l.len() as int) =~= l);
        let index2 = extend_entry(index, new_key, &indices);
        proof {
            lemma_index_update(rows0, index0, p as int, v, table_rows(rows@), index2@);
            assert forall|i: int| 0 <= i < rows0.len() implies #[trigger] table_rows(rows@)[i] == (
                if row_key(rows0[i]) == row_key(attr_views(cond@)) { v } else { rows0[i] }) by {
                lemma_listed_iff_key(rows0, index0, p as int, i);
            }
            let i0 = l[0] as int;
            assert(row_key(rows0[i0]) == row_key(attr_views(cond@)));
            assert(old(self).rows_view()[i0] == rows0[i0]);
        }
        *self = InMemoryTable { rows, index: index2 };
        true
    }

    /// Removes the rows equal to `cond`, when some row has `cond`'s key;
    /// whether a row was removed.
    pub fn delete_rows(&mut self, cond: &[AttributeValue]) -> (r: bool)
        ensures
            r == ((exists|i: int| 0 <= i < old(self).rows_view().len() && row_key(#[trigger] old(self).rows_view()[i]) == row_key(attr_views(cond@)))
                && rows_unequal_to(old(self).rows_view(), attr_views(cond@)).len() < old(self).rows_view().len()),
            r ==> final(self).rows_view() == rows_unequal_to(old(self).rows_view(), attr_views(cond@)),
            !r ==> final(self).rows_view() == old(self).rows_view(),
    {
        proof {
            use_type_invariant(&*self);
        }
        let key = row_to_key(cond);
        let ghost rows0 = self.rows_view();
        let ghost c = attr_views(cond@);
        match find_entry(&self.index, key.as_str()) {
            None => {
                proof {
                    assert forall|i: int| 0 <= i < rows0.len() implies row_key(#[trigger] rows0[i]) != row_key(c) by {
                        let rows = table_rows(self.rows@);
                        let w = choose|p: int| 0 <= p < self.index@.len() && (#[trigger] self.index@[p]).0@ == row_key(#[trigger] rows[i])
                            && self.index@[p].1@.contains(i as usize);
                    }
                }
                return false;
            },
            Some(p) => {
                proof {
                    let i0 = self.index@[p as int].1@[0] as int;
                    assert(row_key(rows0[i0]) == row_key(c));
                }
            },
        }
        let mut kept: Vec<Vec<AttributeValue>> = Vec::new();
        let mut i: usize = 0;
        assert(rows0.take(0) =~= Seq::<Seq<AttrView>>::empty());
        assert(table_rows(kept@) =~= Seq::<Seq<AttrView>>::empty());
        while i < self.rows.len()
            invariant
                i <= self.rows@.len(),
                rows0 == table_rows(self.rows@),
                c == attr_views(cond@),
                table_rows(kept@) == rows_unequal_to(rows0.take(i as int), c),
            decreases self.rows@.len() - i,
        {
            let equal = rows_equal(self.rows[i].as_slice(), cond);
            proof {
                let t = rows0.take(i + 1);
                assert(t.drop_last() =~= rows0.take(i as int));
                assert(t.last() == rows0[i as int]);
                assert(rows0[i as int] == attr_views(self.rows@[i as int]@));
            }
            if !equal {
                let ghost before = table_rows(kept@);
                kept.push(copy_row(self.rows[i].as_slice()));
                proof {
                    assert(table_rows(kept@) =~= before.push(rows0[i as int]));
                }
            }
            i = i + 1;
        }
        assert(rows0.take(rows0.len() as int) =~= rows0);
        proof {
            lemma_unequal_len(rows0, c);
        }
        if kept.len() == self.rows.len() {
            return false;
        }
        let mut index: Vec<(String, Vec<usize>)> = Vec::new();
        let mut j: usize = 0;
        let ghost kv = table_rows(kept@);
        assert(kv.take(0) =~= Seq::<Seq<AttrView>>::empty());
        while j < kept.len()
            invariant
                j <= kept@.len(),
                kv == table_rows(kept@),
                index_ok(kv.take(j as int), index@),
            decreases kept@.len() - j,
        {
            let k = row_to_key(kept[j].as_slice());
            let mut items: Vec<usize> = Vec::new();
            items.push(j);
            let ghost index0 = index@;
            index = extend_entry(index, k, &items);
            proof {
                assert(items@ =~= seq![j]);
                assert(kv[j as int] == attr_views(kept@[j as int]@));
                assert(kv.take(j as int).len() == j);
                lemma_index_push(kv.take(j as int), index0, kv[j as int], index@);
                assert(kv.take(j as int).push(kv[j as int]) =~= kv.take(j + 1));
            }
            j = j + 1;
        }
        assert(kv.take(kv.len() as int) =~= kv);
        *self = InMemoryTable { rows: kept, index };
        true
    }
}

/// For a condition without NaN, a row has the condition's key exactly when
/// it equals the condition.
proof fn lemma_key_match_is_equality(rows: Seq<Seq<AttrView>>, c: Seq<AttrView>)
    ensures
        no_nan_row(c) ==> forall|i: int| 0 <= i < rows.len() ==>
            (row_key(#[trigger] rows[i]) == row_key(c) <==> rows[i] == c),
{
    if no_nan_row(c) {
        assert forall|i: int| 0 <= i < rows.len() implies (row_key(#[trigger] rows[i]) == row_key(c) <==> rows[i] == c) by {
            if row_key(rows[i]) == row_key(c) {
                law_row_key_identifies_row(c, rows[i]);
            }
        }
    }
}

} // verus!
