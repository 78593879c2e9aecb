use vstd::prelude::*;

verus! {

/// A JSON number as the filter language reads it.
#[derive(Debug, Clone)]
pub struct JsonNumber {
    /// The number as a signed integer, when it is one that fits.
    pub as_i64: Option<i64>,
    /// The number as an unsigned integer, when it is one that fits.
    pub as_u64: Option<u64>,
    /// The number's decimal text.
    pub text: String,
}

/// A JSON document, as filter expressions are written in it.
#[derive(Debug)]
pub enum JsonValue {
    Null,
    Bool(bool),
    Number(JsonNumber),
    String(String),
    Array(Vec<JsonValue>),
    /// An object, carried as its serialised text: expressions never look inside one.
    Object(String),
}

/// The mathematical form of a [`JsonValue`].
pub enum Json {
    Null,
    Bool(bool),
    Num { as_int: Option<int>, as_nat: Option<nat>, text: Seq<char> },
    Str(Seq<char>),
    Arr(Seq<Json>),
    Obj(Seq<char>),
}

impl JsonValue {
    /// What this document denotes.
    pub open spec fn model(&self) -> Json
        decreases self,
    {
        match self {
            JsonValue::Null => Json::Null,
            JsonValue::Bool(b) => Json::Bool(*b),
            JsonValue::Number(n) => Json::Num {
                as_int: match n.as_i64 {
                    Some(i) => Some(i as int),
                    None => None,
                },
                as_nat: match n.as_u64 {
                    Some(u) => Some(u as nat),
                    None => None,
                },
                text: n.text@,
            },
            JsonValue::String(s) => Json::Str(s@),
            JsonValue::Array(v) => Json::Arr(
                Seq::new(
                    v.len() as nat,
                    |i: int|
                        if 0 <= i < v.len() {
                            v[i].model()
                        } else {
                            Json::Null
                        },
                ),
            ),
            JsonValue::Object(t) => Json::Obj(t@),
        }
    }
}

} // verus!
