use vstd::prelude::*;

use crate::value::{entries_map, Number, Object, Value};

verus! {

/// Why an event could not be turned into a value.
#[derive(Clone, Copy, Debug, PartialEq, Eq, Structural)]
pub enum DeError {
    /// An unsigned integer above `i64::MAX`; it holds the offending value.
    IntegerOutOfRange(u64),
}

/// A unit event is a null.
pub fn visit_unit<'a>() -> (r: Value<'a>)
    ensures
        r == Value::<'a>::Null,
{
    Value::Null
}

/// An absent optional is a null.
pub fn visit_none<'a>() -> (r: Value<'a>)
    ensures
        r == Value::<'a>::Null,
{
    Value::Null
}

pub fn visit_bool<'a>(value: bool) -> (r: Value<'a>)
    ensures
        r == Value::<'a>::Bool(value),
{
    Value::Bool(value)
}

pub fn visit_i8<'a>(value: i8) -> (r: Value<'a>)
    ensures
        r == Value::<'a>::Number(Number::I64(value as i64)),
{
    Value::Number(Number::I64(value as i64))
}

pub fn visit_i16<'a>(value: i16) -> (r: Value<'a>)
    ensures
        r == Value::<'a>::Number(Number::I64(value as i64)),
{
    Value::Number(Number::I64(value as i64))
}

pub fn visit_i32<'a>(value: i32) -> (r: Value<'a>)
    ensures
        r == Value::<'a>::Number(Number::I64(value as i64)),
{
    Value::Number(Number::I64(value as i64))
}

pub fn visit_i64<'a>(value: i64) -> (r: Value<'a>)
    ensures
        r == Value::<'a>::Number(Number::I64(value)),
{
    Value::Number(Number::I64(value))
}

pub fn visit_u8<'a>(value: u8) -> (r: Value<'a>)
    ensures
        r == Value::<'a>::Number(Number::I64(value as i64)),
        value as i64 == value as int,
{
    Value::Number(Number::I64(value as i64))
}

pub fn visit_u16<'a>(value: u16) -> (r: Value<'a>)
    ensures
        r == Value::<'a>::Number(Number::I64(value as i64)),
        value as i64 == value as int,
{
    Value::Number(Number::I64(value as i64))
}

pub fn visit_u32<'a>(value: u32) -> (r: Value<'a>)
    ensures
        r == Value::<'a>::Number(Number::I64(value as i64)),
        value as i64 == value as int,
{
    Value::Number(Number::I64(value as i64))
}

/// An unsigned 64-bit integer becomes a signed number when it fits in `i64`
/// and is refused otherwise; it never wraps.
pub fn visit_u64<'a>(value: u64) -> (r: Result<Value<'a>, DeError>)
    ensures
        value <= i64::MAX ==> r == Ok::<Value<'a>, DeError>(
            Value::Number(Number::I64(value as i64)),
        ) && value as i64 == value as int,
        value > i64::MAX ==> r == Err::<Value<'a>, DeError>(DeError::IntegerOutOfRange(value)),
{
    if value <= i64::MAX as u64 {
        Ok(Value::Number(Number::I64(value as i64)))
    } else {
        Err(DeError::IntegerOutOfRange(value))
    }
}

/// A binary64 float, given by its bit pattern.
pub fn visit_f64_bits<'a>(bits: u64) -> (r: Value<'a>)
    ensures
        r == Value::<'a>::Number(Number::F64(bits)),
{
    Value::Number(Number::F64(bits))
}

/// A string span borrowed from the input; it is not copied.
pub fn visit_borrowed_str<'a>(value: &'a str) -> (r: Value<'a>)
    ensures
        r == Value::<'a>::String(value),
{
    Value::String(value)
}

/// The elements of a sequence, in the order they were yielded.
pub fn visit_seq<'a>(elements: Vec<Value<'a>>) -> (r: Value<'a>)
    ensures
        r == Value::<'a>::Array(elements),
{
    Value::Array(elements)
}

/// The key/value pairs of a map, in the order they were yielded; a later
/// pair replaces an earlier one with an equal key.
pub fn visit_map<'a>(entries: Vec<(&'a str, Value<'a>)>) -> (r: Value<'a>)
    ensures
        r is Object,
        r->Object_0@ == entries_map(entries@),
{
    let ghost pairs = entries@;
    let mut object = Object::with_capacity(entries.len());
    proof {
        vstd::std_specs::vec::axiom_spec_into_iter(entries);
        assert(pairs.subrange(0, 0) =~= Seq::<(&'a str, Value<'a>)>::empty());
    }
    for pair in it: entries.into_iter()
        invariant
            it.seq() == pairs,
            object@ == entries_map(pairs.subrange(0, it.index() as int)),
    {
        proof {
            let i = it.index() as int;
            assert(pairs.subrange(0, i + 1).drop_last() =~= pairs.subrange(0, i));
        }
        object.insert(pair.0, pair.1);
    }
    proof {
        assert(pairs.subrange(0, pairs.len() as int) =~= pairs);
    }
    Value::Object(object)
}

} // verus!
