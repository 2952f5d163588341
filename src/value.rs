use vstd::prelude::*;

verus! {

/// serde_json's number, carried through unread: no operation here looks
/// inside a number.
#[verifier::external_type_specification]
#[verifier::external_body]
pub struct ExNumber(serde_json::Number);


/// A JSON value. An object is a list of key/value entries; a key that occurs
/// more than once is looked up at its first occurrence.
#[derive(Debug, PartialEq)]
pub enum Value {
    Null,
    Bool(bool),
    Number(serde_json::Number),
    String(String),
    Array(Vec<Value>),
    Object(Vec<(String, Value)>),
}

impl Value {
    /// Whether this is the null value.
    pub fn is_null(&self) -> (r: bool)
        ensures
            r == (*self is Null),
    {
        match self {
            Value::Null => true,
            _ => false,
        }
    }
}

} // verus!
