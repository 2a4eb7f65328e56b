//! Stream and table definitions: an identifier and a list of typed attributes.

use vstd::prelude::*;
use super::attribute::{Attribute, AttributeType, attr_views};
use super::annotation::Annotation;
use crate::text::str_eq;

verus! {

/// What streams and tables have in common: an id and attributes.
#[derive(Debug, Clone)]
pub struct AbstractDefinition {
    pub id: String,
    pub attribute_list: Vec<Attribute>,
    pub annotations: Vec<Annotation>,
}

/// The type of the first attribute named `name`, if any.
pub open spec fn attr_type_of(attrs: Seq<(Seq<char>, AttributeType)>, name: Seq<char>) -> Option<AttributeType> {
    match first_index_with_name(attrs, name, 0) {
        Some(i) => Some(attrs[i].1),
        None => None,
    }
}

/// The first index at or after `from` whose attribute is named `name`.
pub open spec fn first_index_with_name(attrs: Seq<(Seq<char>, AttributeType)>, name: Seq<char>, from: int) -> Option<int>
    decreases attrs.len() - from,
{
    if from < 0 || from >= attrs.len() {
        None
    } else if attrs[from].0 == name {
        Some(from)
    } else {
        first_index_with_name(attrs, name, from + 1)
    }
}

pub proof fn lemma_first_index_with_name(attrs: Seq<(Seq<char>, AttributeType)>, name: Seq<char>, from: int)
    requires
        0 <= from <= attrs.len(),
    ensures
        first_index_with_name(attrs, name, from) matches Some(i) ==> from <= i < attrs.len() && attrs[i].0 == name
            && forall|j: int| from <= j < i ==> attrs[j].0 != name,
        first_index_with_name(attrs, name, from) is None ==> forall|j: int| from <= j < attrs.len() ==> attrs[j].0 != name,
    decreases attrs.len() - from,
{
    if from < attrs.len() && attrs[from].0 != name {
        lemma_first_index_with_name(attrs, name, from + 1);
    }
}

impl AbstractDefinition {
    /// A definition with no attributes.
    pub fn new(id: String) -> (r: Self)
        ensures
            r.id@ == id@,
            r.attribute_list@.len() == 0,
            r.annotations@.len() == 0,
    {
        AbstractDefinition { id, attribute_list: Vec::new(), annotations: Vec::new() }
    }

    /// The attributes, in declaration order.
    pub fn get_attribute_list(&self) -> (r: &Vec<Attribute>)
        ensures
            r@ == self.attribute_list@,
    {
        &self.attribute_list
    }

    /// The definition's id.
    pub fn get_id(&self) -> (r: &str)
        ensures
            r@ == self.id@,
    {
        self.id.as_str()
    }

    /// The type of the first attribute named `name`.
    pub fn attribute_type(&self, name: &str) -> (r: Option<AttributeType>)
        ensures
            r == attr_type_of(attr_views(self.attribute_list@), name@),
    {
        let ghost av = attr_views(self.attribute_list@);
        let mut i: usize = 0;
        while i < self.attribute_list.len()
            invariant
                i <= self.attribute_list@.len(),
                av == attr_views(self.attribute_list@),
                forall|j: int| 0 <= j < i ==> av[j].0 != name@,
            decreases self.attribute_list@.len() - i,
        {
            if str_eq(self.attribute_list[i].name.as_str(), name) {
                proof {
                    lemma_first_index_with_name(av, name@, 0);
                    assert(av[i as int].0 == name@);
                    match first_index_with_name(av, name@, 0) {
                        Some(k) => {
                            if k < i {
                                assert(av[k].0 != name@);
                            }
                            if k > i {
                                assert(av[i as int].0 != name@);
                            }
                        },
                        None => {},
                    }
                }
                return Some(self.attribute_list[i].attribute_type);
            }
            i = i + 1;
        }
        proof {
            lemma_first_index_with_name(av, name@, 0);
            match first_index_with_name(av, name@, 0) {
                Some(k) => {
                    assert(av[k].0 != name@);
                },
                None => {},
            }
        }
        None
    }
}

/// A stream: events with the attributes of its definition.
#[derive(Debug, Clone)]
pub struct StreamDefinition {
    pub abstract_definition: AbstractDefinition,
}

impl StreamDefinition {
    /// A stream definition with no attributes.
    pub fn new(id: String) -> (r: Self)
        ensures
            r.abstract_definition.id@ == id@,
            r.abstract_definition.attribute_list@.len() == 0,
    {
        StreamDefinition { abstract_definition: AbstractDefinition::new(id) }
    }

    /// The same definition with one more attribute at the end.
    pub fn attribute(self, name: String, attribute_type: AttributeType) -> (r: Self)
        ensures
            r.abstract_definition.id@ == self.abstract_definition.id@,
            attr_views(r.abstract_definition.attribute_list@)
                == attr_views(self.abstract_definition.attribute_list@).push((name@, attribute_type)),
    {
        let mut d = self;
        let ghost before = d.abstract_definition.attribute_list@;
        let ghost nv = name@;
        d.abstract_definition.attribute_list.push(Attribute { name, attribute_type });
        proof {
            assert(attr_views(d.abstract_definition.attribute_list@) =~= attr_views(before).push((nv, attribute_type)));
        }
        d
    }

    /// The stream's id.
    pub fn get_id(&self) -> (r: &str)
        ensures
            r@ == self.abstract_definition.id@,
    {
        self.abstract_definition.id.as_str()
    }
}

/// A table: stored rows with the attributes of its definition.
#[derive(Debug, Clone)]
pub struct TableDefinition {
    pub abstract_definition: AbstractDefinition,
}

impl TableDefinition {
    /// A table definition with no attributes.
    pub fn new(id: String) -> (r: Self)
        ensures
            r.abstract_definition.id@ == id@,
            r.abstract_definition.attribute_list@.len() == 0,
    {
        TableDefinition { abstract_definition: AbstractDefinition::new(id) }
    }

    /// The same definition with one more attribute at the end.
    pub fn attribute(self, name: String, attribute_type: AttributeType) -> (r: Self)
        ensures
            r.abstract_definition.id@ == self.abstract_definition.id@,
            attr_views(r.abstract_definition.attribute_list@)
                == attr_views(self.abstract_definition.attribute_list@).push((name@, attribute_type)),
    {
        let mut d = self;
        let ghost before = d.abstract_definition.attribute_list@;
        let ghost nv = name@;
        d.abstract_definition.attribute_list.push(Attribute { name, attribute_type });
        proof {
            assert(attr_views(d.abstract_definition.attribute_list@) =~= attr_views(before).push((nv, attribute_type)));
        }
        d
    }
}

} // verus!
