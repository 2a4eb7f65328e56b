//! Tables: stores of rows that queries insert into, update, delete from and
//! look up.

pub mod in_memory;
pub mod rows;

use vstd::prelude::*;
use crate::engine::event::{AttributeValue, AttrView, attr_views};
use crate::engine::exception::EventFluxError;
use crate::engine::extension::TableFactory;
use crate::engine::table::in_memory::{InMemoryTable, rows_unequal_to};
use crate::engine::table::rows::row_key;
use crate::query_api::execution::query::UpdateSet;
use crate::query_api::expression::expression::{Constant, ConstantValue, Expression};
use crate::property_map::PropertyMap;
use crate::text::owned;

verus! {

/// The attribute value of a constant (a time is a `Long`).
pub fn constant_to_av(c: &Constant) -> (r: AttributeValue)
    ensures
        r@ == constant_to_av_spec(*c),
{
    match &c.value {
        ConstantValue::String(s) => AttributeValue::String(owned(s.as_str())),
        ConstantValue::Int(i) => AttributeValue::Int(*i),
        ConstantValue::Long(l) => AttributeValue::Long(*l),
        ConstantValue::Float(f) => AttributeValue::Float(*f),
        ConstantValue::Double(d) => AttributeValue::Double(*d),
        ConstantValue::Bool(b) => AttributeValue::Bool(*b),
        ConstantValue::Time(t) => AttributeValue::Long(*t),
        ConstantValue::Null => AttributeValue::Null,
    }
}

/// A condition as written, for tables that do not compile conditions.
pub struct SimpleCompiledCondition(pub Expression);

/// An update set as written, for tables that do not compile update sets.
pub struct SimpleCompiledUpdateSet(pub UpdateSet);

/// A condition for in-memory tables: the row that matching rows equal.
pub struct InMemoryCompiledCondition {
    pub values: Vec<AttributeValue>,
}

/// An update for in-memory tables: the values that replace a matching row.
pub struct InMemoryCompiledUpdateSet {
    pub values: Vec<AttributeValue>,
}

/// A condition in the form some table compiled it to.
pub enum CompiledCondition {
    Simple(SimpleCompiledCondition),
    InMemory(InMemoryCompiledCondition),
}

/// An update set in the form some table compiled it to.
pub enum CompiledUpdateSet {
    Simple(SimpleCompiledUpdateSet),
    InMemory(InMemoryCompiledUpdateSet),
}

/// A store of rows of attribute values.
pub trait Table {
    /// Inserts a row.
    fn insert(&mut self, values: &[AttributeValue]) -> Result<(), EventFluxError>;

    /// Updates the rows matching `condition`; whether any was updated.
    fn update(&mut self, condition: &CompiledCondition, update_set: &CompiledUpdateSet) -> Result<bool, EventFluxError>;

    /// Deletes the rows matching `condition`; whether any was removed.
    fn delete(&mut self, condition: &CompiledCondition) -> Result<bool, EventFluxError>;

    /// A copy of the first row matching `condition`.
    fn find(&self, condition: &CompiledCondition) -> Result<Option<Vec<AttributeValue>>, EventFluxError>;

    /// Whether some row matches `condition`.
    fn contains(&self, condition: &CompiledCondition) -> Result<bool, EventFluxError>;

    /// All rows.
    fn all_rows(&self) -> Result<Vec<Vec<AttributeValue>>, EventFluxError> {
        Ok(Vec::new())
    }

    /// The table's form of a condition; by default the expression as written.
    fn compile_condition(&self, cond: Expression) -> CompiledCondition {
        CompiledCondition::Simple(SimpleCompiledCondition(cond))
    }

    /// The table's form of an update set; by default the set as written.
    fn compile_update_set(&self, us: UpdateSet) -> CompiledUpdateSet {
        CompiledUpdateSet::Simple(SimpleCompiledUpdateSet(us))
    }

    /// Checks that the store behind the table can be reached.
    fn validate_connectivity(&self) -> Result<(), EventFluxError> {
        Ok(())
    }
}

/// Whether some row of `rows` has the key of `cond`.
pub open spec fn has_key_of(rows: Seq<Seq<AttrView>>, cond: Seq<AttrView>) -> bool {
    exists|i: int| 0 <= i < rows.len() && row_key(#[trigger] rows[i]) == row_key(cond)
}

impl Table for InMemoryTable {
    fn insert(&mut self, values: &[AttributeValue]) -> (r: Result<(), EventFluxError>)
        ensures
            r is Ok,
            final(self).rows_view() == old(self).rows_view().push(attr_views(values@)),
    {
        self.insert_row(values);
        Ok(())
    }

    /// Only in-memory conditions and update sets apply; others update nothing.
    fn update(&mut self, condition: &CompiledCondition, update_set: &CompiledUpdateSet) -> (r: Result<bool, EventFluxError>)
        ensures
            match (condition, update_set) {
                (CompiledCondition::InMemory(c), CompiledUpdateSet::InMemory(u)) => {
                    &&& r == Ok::<bool, EventFluxError>(has_key_of(old(self).rows_view(), attr_views(c.values@)))
                    &&& final(self).rows_view().len() == old(self).rows_view().len()
                    &&& forall|i: int| 0 <= i < old(self).rows_view().len() ==> #[trigger] final(self).rows_view()[i] == (
                        if row_key(old(self).rows_view()[i]) == row_key(attr_views(c.values@)) {
                            attr_views(u.values@)
                        } else {
                            old(self).rows_view()[i]
                        })
                },
                _ => r == Ok::<bool, EventFluxError>(false) && final(self).rows_view() == old(self).rows_view(),
            },
    {
        match (condition, update_set) {
            (CompiledCondition::InMemory(c), CompiledUpdateSet::InMemory(u)) => {
                Ok(self.update_rows(c.values.as_slice(), u.values.as_slice()))
            },
            _ => Ok(false),
        }
    }

    /// Only in-memory conditions apply; others delete nothing.
    fn delete(&mut self, condition: &CompiledCondition) -> (r: Result<bool, EventFluxError>)
        ensures
            match condition {
                CompiledCondition::InMemory(c) => {
                    let removed = has_key_of(old(self).rows_view(), attr_views(c.values@))
                        && rows_unequal_to(old(self).rows_view(), attr_views(c.values@)).len() < old(self).rows_view().len();
                    &&& r == Ok::<bool, EventFluxError>(removed)
                    &&& removed ==> final(self).rows_view() == rows_unequal_to(old(self).rows_view(), attr_views(c.values@))
                    &&& !removed ==> final(self).rows_view() == old(self).rows_view()
                },
                _ => r == Ok::<bool, EventFluxError>(false) && final(self).rows_view() == old(self).rows_view(),
            },
    {
        match condition {
            CompiledCondition::InMemory(c) => Ok(self.delete_rows(c.values.as_slice())),
            _ => Ok(false),
        }
    }

    /// A condition that is not an in-memory one is an error.
    fn find(&self, condition: &CompiledCondition) -> (r: Result<Option<Vec<AttributeValue>>, EventFluxError>)
        ensures
            match condition {
                CompiledCondition::InMemory(c) => r matches Ok(found) && (found is None <==> !has_key_of(self.rows_view(), attr_views(c.values@)))
                    && (found matches Some(row) ==> exists|i: int| 0 <= i < self.rows_view().len() && #[trigger] self.rows_view()[i] == attr_views(row@)
                        && row_key(self.rows_view()[i]) == row_key(attr_views(c.values@))),
                _ => r matches Err(EventFluxError::Other(m)) && m@ == "Invalid condition type"@,
            },
    {
        match condition {
            CompiledCondition::InMemory(c) => Ok(self.find_by_key(c.values.as_slice())),
            _ => Err(EventFluxError::Other(owned("Invalid condition type"))),
        }
    }

    /// Only in-memory conditions can match.
    fn contains(&self, condition: &CompiledCondition) -> (r: Result<bool, EventFluxError>)
        ensures
            match condition {
                CompiledCondition::InMemory(c) => r == Ok::<bool, EventFluxError>(has_key_of(self.rows_view(), attr_views(c.values@))),
                _ => r == Ok::<bool, EventFluxError>(false),
            },
    {
        match condition {
            CompiledCondition::InMemory(c) => Ok(self.contains_key_of(c.values.as_slice())),
            _ => Ok(false),
        }
    }

    /// All rows (`InMemoryTable::all_rows` states which).
    fn all_rows(&self) -> Result<Vec<Vec<AttributeValue>>, EventFluxError> {
        let rows = self.copy_rows();
        Ok(rows)
    }

    /// A constant condition becomes the one-value row it must equal; any
    /// other condition the empty row.
    fn compile_condition(&self, cond: Expression) -> (r: CompiledCondition)
        ensures
            r matches CompiledCondition::InMemory(c) && (match cond {
                Expression::Constant(k) => c.values@.len() == 1 && c.values@[0]@ == constant_to_av_spec(k),
                _ => c.values@.len() == 0,
            }),
    {
        match cond {
            Expression::Constant(c) => {
                let mut values: Vec<AttributeValue> = Vec::new();
                values.push(constant_to_av(&c));
                CompiledCondition::InMemory(InMemoryCompiledCondition { values })
            },
            _ => CompiledCondition::InMemory(InMemoryCompiledCondition { values: Vec::new() }),
        }
    }

    /// The constant values of the update set, in order; other values are skipped.
    fn compile_update_set(&self, us: UpdateSet) -> (r: CompiledUpdateSet)
        ensures
            r matches CompiledUpdateSet::InMemory(u) && attr_views(u.values@) == constant_values(us.set_attribute_list@),
    {
        let mut values: Vec<AttributeValue> = Vec::new();
        let mut i: usize = 0;
        assert(us.set_attribute_list@.take(0) =~= Seq::<(crate::query_api::expression::expression::Variable, Expression)>::empty());
        assert(attr_views(values@) =~= Seq::<AttrView>::empty());
        while i < us.set_attribute_list.len()
            invariant
                i <= us.set_attribute_list@.len(),
                attr_views(values@) == constant_values(us.set_attribute_list@.take(i as int)),
            decreases us.set_attribute_list@.len() - i,
        {
            proof {
                let t = us.set_attribute_list@.take(i + 1);
                assert(t.drop_last() =~= us.set_attribute_list@.take(i as int));
                assert(t.last() == us.set_attribute_list@[i as int]);
            }
            match &us.set_attribute_list[i].1 {
                Expression::Constant(c) => {
                    let ghost before = values@;
                    values.push(constant_to_av(c));
                    proof {
                        assert(attr_views(values@) =~= attr_views(before).push(constant_to_av_spec(*c)));
                    }
                },
                _ => {},
            }
            i = i + 1;
        }
        assert(us.set_attribute_list@.take(us.set_attribute_list@.len() as int) =~= us.set_attribute_list@);
        CompiledUpdateSet::InMemory(InMemoryCompiledUpdateSet { values })
    }
}

/// The attribute value of a constant, as `constant_to_av` gives it.
pub open spec fn constant_to_av_spec(c: Constant) -> AttrView {
    match c.value {
        ConstantValue::String(s) => AttrView::String(s@),
        ConstantValue::Int(i) => AttrView::Int(i),
        ConstantValue::Long(l) => AttrView::Long(l),
        ConstantValue::Float(f) => AttrView::Float(f),
        ConstantValue::Double(d) => AttrView::Double(d),
        ConstantValue::Bool(b) => AttrView::Bool(b),
        ConstantValue::Time(t) => AttrView::Long(t),
        ConstantValue::Null => AttrView::Null,
    }
}

/// The values of the constant assignments of an update set, in order.
pub open spec fn constant_values(list: Seq<(crate::query_api::expression::expression::Variable, Expression)>) -> Seq<AttrView>
    decreases list.len(),
{
    if list.len() == 0 {
        Seq::empty()
    } else {
        let rest = constant_values(list.drop_last());
        match list.last().1 {
            Expression::Constant(c) => rest.push(constant_to_av_spec(c)),
            _ => rest,
        }
    }
}

/// Creates in-memory tables.
#[derive(Debug, Clone)]
pub struct InMemoryTableFactory;

impl InMemoryTableFactory {
    /// A new, empty table; the name and properties are not used.
    pub fn create(&self, name: String, properties: &PropertyMap) -> (r: Result<InMemoryTable, String>)
        ensures
            r matches Ok(t) && t.rows_view().len() == 0,
    {
        Ok(InMemoryTable::new())
    }
}

impl TableFactory for InMemoryTableFactory {
    fn name(&self) -> &'static str {
        "inMemory"
    }
}


/// A row just inserted is found by its own key.
pub proof fn law_insert_then_contains(rows: Seq<Seq<AttrView>>, v: Seq<AttrView>)
    ensures
        has_key_of(rows.push(v), v),
{
    assert(rows.push(v)[rows.len() as int] == v);
}

/// After a delete no remaining row equals the condition, and every row that
/// does not equal it remains, in order.
pub proof fn law_delete_keeps_exactly_the_unequal_rows(rows: Seq<Seq<AttrView>>, c: Seq<AttrView>)
    ensures
        forall|i: int| 0 <= i < rows_unequal_to(rows, c).len() ==> !crate::engine::table::rows::row_eq(#[trigger] rows_unequal_to(rows, c)[i], c),
        rows_unequal_to(rows, c).len() + count_equal(rows, c) == rows.len(),
    decreases rows.len(),
{
    if rows.len() > 0 {
        law_delete_keeps_exactly_the_unequal_rows(rows.drop_last(), c);
        let k = rows_unequal_to(rows.drop_last(), c);
        if !crate::engine::table::rows::row_eq(rows.last(), c) {
            assert forall|i: int| 0 <= i < k.push(rows.last()).len() implies !crate::engine::table::rows::row_eq(#[trigger] k.push(rows.last())[i], c) by {
                if i < k.len() {
                    assert(k.push(rows.last())[i] == k[i]);
                }
            }
        }
    }
}

/// How many rows equal `c`.
pub open spec fn count_equal(rows: Seq<Seq<AttrView>>, c: Seq<AttrView>) -> nat
    decreases rows.len(),
{
    if rows.len() == 0 {
        0
    } else if crate::engine::table::rows::row_eq(rows.last(), c) {
        count_equal(rows.drop_last(), c) + 1
    } else {
        count_equal(rows.drop_last(), c)
    }
}

/// After an update that matched, the new values are found by their key.
pub proof fn law_update_then_contains(rows: Seq<Seq<AttrView>>, c: Seq<AttrView>, u: Seq<AttrView>, rows2: Seq<Seq<AttrView>>)
    requires
        has_key_of(rows, c),
        rows2.len() == rows.len(),
        forall|i: int| 0 <= i < rows.len() ==> #[trigger] rows2[i] == (if row_key(rows[i]) == row_key(c) { u } else { rows[i] }),
    ensures
        has_key_of(rows2, u),
        !has_key_of(rows2, c) || row_key(u) == row_key(c),
{
    let i = choose|i: int| 0 <= i < rows.len() && row_key(#[trigger] rows[i]) == row_key(c);
    assert(rows2[i] == u);
    if has_key_of(rows2, c) {
        let j = choose|j: int| 0 <= j < rows2.len() && row_key(#[trigger] rows2[j]) == row_key(c);
        if row_key(rows[j]) != row_key(c) {
            assert(rows2[j] == rows[j]);
        }
    }
}

} // verus!
