//! Expressions of the query language.

use vstd::prelude::*;
use super::case::Case;


verus! {

/// The value of a constant. Floating-point constants are held as the IEEE-754
/// bit patterns of their values.
#[derive(Debug, Clone)]
pub enum ConstantValue {
    Int(i32),
    Long(i64),
    Float(u32),
    Double(u64),
    String(String),
    Bool(bool),
    Time(i64),
    Null,
}

/// A constant expression.
#[derive(Debug, Clone)]
pub struct Constant {
    pub value: ConstantValue,
}

impl Constant {
    pub fn of_int(v: i32) -> (r: Self)
        ensures
            r.value == ConstantValue::Int(v),
    {
        Constant { value: ConstantValue::Int(v) }
    }

    pub fn of_long(v: i64) -> (r: Self)
        ensures
            r.value == ConstantValue::Long(v),
    {
        Constant { value: ConstantValue::Long(v) }
    }

    /// A single-precision constant given by its bit pattern.
    pub fn float_bits(bits: u32) -> (r: Self)
        ensures
            r.value == ConstantValue::Float(bits),
    {
        Constant { value: ConstantValue::Float(bits) }
    }

    /// A double-precision constant given by its bit pattern.
    pub fn double_bits(bits: u64) -> (r: Self)
        ensures
            r.value == ConstantValue::Double(bits),
    {
        Constant { value: ConstantValue::Double(bits) }
    }

    pub fn of_string(v: String) -> (r: Self)
        ensures
            r.value matches ConstantValue::String(s) && s@ == v@,
    {
        Constant { value: ConstantValue::String(v) }
    }

    pub fn of_bool(v: bool) -> (r: Self)
        ensures
            r.value == ConstantValue::Bool(v),
    {
        Constant { value: ConstantValue::Bool(v) }
    }

    /// A duration in milliseconds.
    pub fn of_time(millis: i64) -> (r: Self)
        ensures
            r.value == ConstantValue::Time(millis),
    {
        Constant { value: ConstantValue::Time(millis) }
    }

    pub fn null_value() -> (r: Self)
        ensures
            r.value == ConstantValue::Null,
    {
        Constant { value: ConstantValue::Null }
    }
}

/// A reference to an attribute, optionally qualified by a stream id.
#[derive(Debug, Clone)]
pub struct Variable {
    pub attribute_name: String,
    pub stream_id: Option<String>,
}

impl Variable {
    /// An unqualified reference.
    pub fn new(attribute_name: String) -> (r: Self)
        ensures
            r.attribute_name@ == attribute_name@,
            r.stream_id is None,
    {
        Variable { attribute_name, stream_id: None }
    }

    /// The same reference qualified by `stream_id`.
    pub fn of_stream(self, stream_id: String) -> (r: Self)
        ensures
            r.attribute_name@ == self.attribute_name@,
            r.stream_id matches Some(s) && s@ == stream_id@,
    {
        Variable { attribute_name: self.attribute_name, stream_id: Some(stream_id) }
    }

    pub fn get_attribute_name(&self) -> (r: &str)
        ensures
            r@ == self.attribute_name@,
    {
        self.attribute_name.as_str()
    }

    pub fn get_stream_id(&self) -> (r: Option<&str>)
        ensures
            r matches Some(s) ==> self.stream_id matches Some(t) && s@ == t@,
            r is None ==> self.stream_id is None,
    {
        match &self.stream_id {
            Some(s) => Some(s.as_str()),
            None => None,
        }
    }
}

/// A call of a named function.
#[derive(Debug)]
pub struct AttributeFunction {
    pub namespace: Option<String>,
    pub function_name: String,
    pub parameters: Vec<Expression>,
}

/// Comparison operators.
#[derive(Debug, Clone, Copy, PartialEq, Eq, Structural)]
pub enum CompareOperator {
    LessThan,
    GreaterThan,
    LessThanEqual,
    GreaterThanEqual,
    Equal,
    NotEqual,
}

/// An expression.
#[derive(Debug)]
pub enum Expression {
    Constant(Constant),
    Variable(Variable),
    Add(Box<Expression>, Box<Expression>),
    Subtract(Box<Expression>, Box<Expression>),
    Multiply(Box<Expression>, Box<Expression>),
    Divide(Box<Expression>, Box<Expression>),
    Mod(Box<Expression>, Box<Expression>),
    Compare(Box<Expression>, CompareOperator, Box<Expression>),
    And(Box<Expression>, Box<Expression>),
    Or(Box<Expression>, Box<Expression>),
    Not(Box<Expression>),
    IsNull(Box<Expression>),
    /// Membership of a value in a named table.
    In(Box<Expression>, String),
    AttributeFunction(AttributeFunction),
    Case(Box<Case>),
}

impl Expression {
    pub fn value_int(v: i32) -> (r: Self)
        ensures
            r matches Expression::Constant(c) && c.value == ConstantValue::Int(v),
    {
        Expression::Constant(Constant::of_int(v))
    }

    pub fn value_long(v: i64) -> (r: Self)
        ensures
            r matches Expression::Constant(c) && c.value == ConstantValue::Long(v),
    {
        Expression::Constant(Constant::of_long(v))
    }

    pub fn value_string(v: String) -> (r: Self)
        ensures
            r matches Expression::Constant(c) && c.value matches ConstantValue::String(s) && s@ == v@,
    {
        Expression::Constant(Constant::of_string(v))
    }

    pub fn value_bool(v: bool) -> (r: Self)
        ensures
            r matches Expression::Constant(c) && c.value == ConstantValue::Bool(v),
    {
        Expression::Constant(Constant::of_bool(v))
    }

    /// An unqualified attribute reference.
    pub fn variable(name: String) -> (r: Self)
        ensures
            r matches Expression::Variable(v) && v.attribute_name@ == name@ && v.stream_id is None,
    {
        Expression::Variable(Variable::new(name))
    }

    pub fn add(left: Expression, right: Expression) -> (r: Self)
        ensures
            r == Expression::Add(Box::new(left), Box::new(right)),
    {
        Expression::Add(Box::new(left), Box::new(right))
    }

    pub fn subtract(left: Expression, right: Expression) -> (r: Self)
        ensures
            r == Expression::Subtract(Box::new(left), Box::new(right)),
    {
        Expression::Subtract(Box::new(left), Box::new(right))
    }

    pub fn multiply(left: Expression, right: Expression) -> (r: Self)
        ensures
            r == Expression::Multiply(Box::new(left), Box::new(right)),
    {
        Expression::Multiply(Box::new(left), Box::new(right))
    }

    pub fn divide(left: Expression, right: Expression) -> (r: Self)
        ensures
            r == Expression::Divide(Box::new(left), Box::new(right)),
    {
        Expression::Divide(Box::new(left), Box::new(right))
    }

    pub fn modulo(left: Expression, right: Expression) -> (r: Self)
        ensures
            r == Expression::Mod(Box::new(left), Box::new(right)),
    {
        Expression::Mod(Box::new(left), Box::new(right))
    }

    pub fn compare(left: Expression, op: CompareOperator, right: Expression) -> (r: Self)
        ensures
            r == Expression::Compare(Box::new(left), op, Box::new(right)),
    {
        Expression::Compare(Box::new(left), op, Box::new(right))
    }

    pub fn and(left: Expression, right: Expression) -> (r: Self)
        ensures
            r == Expression::And(Box::new(left), Box::new(right)),
    {
        Expression::And(Box::new(left), Box::new(right))
    }

    pub fn or(left: Expression, right: Expression) -> (r: Self)
        ensures
            r == Expression::Or(Box::new(left), Box::new(right)),
    {
        Expression::Or(Box::new(left), Box::new(right))
    }

    pub fn not(e: Expression) -> (r: Self)
        ensures
            r == Expression::Not(Box::new(e)),
    {
        Expression::Not(Box::new(e))
    }

    pub fn is_null(e: Expression) -> (r: Self)
        ensures
            r == Expression::IsNull(Box::new(e)),
    {
        Expression::IsNull(Box::new(e))
    }

    /// A call of a function outside any namespace.
    pub fn function_no_ns(name: String, parameters: Vec<Expression>) -> (r: Self)
        ensures
            r matches Expression::AttributeFunction(f) && f.function_name@ == name@
                && f.namespace is None && f.parameters@ == parameters@,
    {
        Expression::AttributeFunction(AttributeFunction { namespace: None, function_name: name, parameters })
    }

    /// A `CASE` expression.
    pub fn case(c: Case) -> (r: Self)
        ensures
            r == Expression::Case(Box::new(c)),
    {
        Expression::Case(Box::new(c))
    }
}

} // verus!
