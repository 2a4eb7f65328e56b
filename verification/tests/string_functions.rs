use eventflux_rust::engine::event::{AttrView, AttributeValue, Event};
use eventflux_rust::engine::executor::string_functions::{
    ConcatFunctionExecutor, LengthFunctionExecutor, LikeFunctionExecutor, LowerFunctionExecutor,
    ReplaceFunctionExecutor, TrimFunctionExecutor, UpperFunctionExecutor,
};
use eventflux_rust::engine::executor::ExpressionExecutor;
use eventflux_rust::query_api::definition::attribute::AttributeType;

struct Fixed(Option<AttributeValue>, AttributeType);

impl ExpressionExecutor for Fixed {
    fn return_type(&self) -> AttributeType {
        self.1
    }
    fn value_on(&self, _event: Option<&Event>) -> Option<AttrView> {
        None
    }
    fn execute(&self, _event: Option<&Event>) -> Option<AttributeValue> {
        self.0.clone()
    }
    fn get_return_type(&self) -> AttributeType {
        self.1
    }
}

fn text(s: &str) -> Box<dyn ExpressionExecutor> {
    Box::new(Fixed(Some(AttributeValue::String(s.to_string())), AttributeType::STRING))
}

fn null() -> Box<dyn ExpressionExecutor> {
    Box::new(Fixed(Some(AttributeValue::Null), AttributeType::STRING))
}

fn int_value(i: i32) -> Box<dyn ExpressionExecutor> {
    Box::new(Fixed(Some(AttributeValue::Int(i)), AttributeType::INT))
}

fn s(x: &str) -> Option<AttributeValue> {
    Some(AttributeValue::String(x.to_string()))
}

#[test]
fn length_counts_utf8_bytes() {
    let e = LengthFunctionExecutor::new(text("héllo")).ok().unwrap();
    assert_eq!(e.execute(None), Some(AttributeValue::Int(6)));
    assert_eq!(e.get_return_type(), AttributeType::INT);
    assert_eq!(LengthFunctionExecutor::new(null()).ok().unwrap().execute(None), Some(AttributeValue::Null));
    assert_eq!(LengthFunctionExecutor::new(int_value(3)).err().unwrap(), "length() requires a STRING argument");
}

#[test]
fn concat_joins_strings_and_propagates_null() {
    let e = ConcatFunctionExecutor::new(vec![text("ab"), text(""), text("cd")]).ok().unwrap();
    assert_eq!(e.execute(None), s("abcd"));
    let n = ConcatFunctionExecutor::new(vec![text("ab"), null(), text("cd")]).ok().unwrap();
    assert_eq!(n.execute(None), Some(AttributeValue::Null));
    assert_eq!(ConcatFunctionExecutor::new(Vec::new()).err().unwrap(), "concat() requires at least one argument");
    assert_eq!(ConcatFunctionExecutor::new(vec![text("a"), int_value(1)]).err().unwrap(), "concat() arguments must be STRING");
}

#[test]
fn lower_upper_trim() {
    assert_eq!(LowerFunctionExecutor::new(text("AbÇ")).ok().unwrap().execute(None), s("abç"));
    assert_eq!(UpperFunctionExecutor::new(text("straße")).ok().unwrap().execute(None), s("STRASSE"));
    assert_eq!(TrimFunctionExecutor::new(text("  x y \t")).ok().unwrap().execute(None), s("x y"));
    assert_eq!(TrimFunctionExecutor::new(int_value(1)).ok().unwrap().execute(None), None);
    assert_eq!(LowerFunctionExecutor::new(int_value(1)).err().unwrap(), "lower() requires a STRING argument");
}

#[test]
fn replace_every_occurrence() {
    let e = ReplaceFunctionExecutor::new(text("a-b-c"), text("-"), text("+")).ok().unwrap();
    assert_eq!(e.execute(None), s("a+b+c"));
    let n = ReplaceFunctionExecutor::new(text("a"), null(), text("b")).ok().unwrap();
    assert_eq!(n.execute(None), Some(AttributeValue::Null));
}

#[test]
fn like_patterns() {
    assert_eq!(LikeFunctionExecutor::like_to_regex("a%b_c"), "^a.*b.c$");
    assert_eq!(LikeFunctionExecutor::like_to_regex("1.5\\%x\\"), "^1\\.5%x$");
    let m = |v: &str, p: &str| LikeFunctionExecutor::new(text(v), text(p)).ok().unwrap().execute(None);
    assert_eq!(m("hello", "h%o"), Some(AttributeValue::Bool(true)));
    assert_eq!(m("hello", "h_llo"), Some(AttributeValue::Bool(true)));
    assert_eq!(m("hello", "h_lo"), Some(AttributeValue::Bool(false)));
    assert_eq!(m("50%", "50\\%"), Some(AttributeValue::Bool(true)));
    assert_eq!(m("a.c", "a.c"), Some(AttributeValue::Bool(true)));
    assert_eq!(m("abc", "a.c"), Some(AttributeValue::Bool(false)));
    assert_eq!(LikeFunctionExecutor::new(null(), text("x")).ok().unwrap().execute(None), Some(AttributeValue::Null));
}
