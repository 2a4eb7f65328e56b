//! Attribute types and named attributes.

use vstd::prelude::*;
use crate::text::owned;

verus! {

/// The type of an attribute value.
#[allow(non_camel_case_types)]
#[derive(Debug, Clone, Copy, PartialEq, Eq, Structural, Hash)]
pub enum AttributeType {
    STRING,
    INT,
    LONG,
    FLOAT,
    DOUBLE,
    BOOL,
    OBJECT,
}

impl Default for AttributeType {
    fn default() -> (r: Self)
        ensures
            r == AttributeType::OBJECT,
    {
        AttributeType::OBJECT
    }
}

/// A named, typed attribute of a stream or table.
#[derive(Debug, Clone)]
pub struct Attribute {
    pub name: String,
    pub attribute_type: AttributeType,
}

impl Attribute {
    /// An attribute with the given name and type.
    pub fn new(name: String, attribute_type: AttributeType) -> (r: Self)
        ensures
            r.name@ == name@,
            r.attribute_type == attribute_type,
    {
        Attribute { name, attribute_type }
    }

    /// The attribute's name.
    pub fn get_name(&self) -> (r: &str)
        ensures
            r@ == self.name@,
    {
        self.name.as_str()
    }

    /// The attribute's type.
    pub fn get_type(&self) -> (r: AttributeType)
        ensures
            r == self.attribute_type,
    {
        self.attribute_type
    }

    /// A copy of the attribute.
    pub fn duplicate(&self) -> (r: Self)
        ensures
            r.name@ == self.name@,
            r.attribute_type == self.attribute_type,
    {
        Attribute { name: owned(self.name.as_str()), attribute_type: self.attribute_type }
    }
}

/// Names and types of a list of attributes.
pub open spec fn attr_views(s: Seq<Attribute>) -> Seq<(Seq<char>, AttributeType)> {
    s.map_values(|a: Attribute| (a.name@, a.attribute_type))
}

} // verus!
