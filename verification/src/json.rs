//! JSON values as `serde_json` reads them.
//!
//! A `serde_json::Value` is opaque to the verifier. What it holds is given a
//! name, `json_view`, whose result is a plain tree; the contracts of this
//! module say over that tree what each call into `serde_json` returns.

use vstd::prelude::*;
use serde_json::Value;

verus! {

/// `serde_json::Value`, a JSON value in memory.
#[verifier::external_type_specification]
#[verifier::external_body]
pub struct ExValue(serde_json::Value);

/// What a JSON number holds: an integer that is not negative, a negative
/// integer, or a finite floating-point number, given by its bits.
pub enum JsonNumber {
    Unsigned(u64),
    Negative(i64),
    Float(u64),
}

/// What a JSON value holds. The members of an object stand in the order in
/// which the value keeps them, each key once.
pub enum JsonView {
    Null,
    Bool(bool),
    Number(JsonNumber),
    Text(Seq<char>),
    Array(Seq<JsonView>),
    Object(Seq<(Seq<char>, JsonView)>),
}

/// What the value `v` holds.
pub uninterp spec fn json_view(v: Value) -> JsonView;

/// What `serde_json::from_str` reads from `text` as a `Value`: the value
/// that the text denotes, or `None` where the text is not one JSON value.
pub uninterp spec fn json_parse(text: Seq<char>) -> Option<JsonView>;

/// The text that `serde_json::to_string` writes for a value.
pub uninterp spec fn json_render(v: JsonView) -> Seq<char>;

/// The value of the first member with the key `key`.
pub open spec fn member_of(members: Seq<(Seq<char>, JsonView)>, key: Seq<char>) -> Option<JsonView>
    decreases members.len(),
{
    if members.len() == 0 {
        None
    } else if members[0].0 == key {
        Some(members[0].1)
    } else {
        member_of(members.skip(1), key)
    }
}

impl JsonView {
    /// The member `key` of an object; `None` for a value that is no object
    /// and for an object without that member.
    pub open spec fn field(self, key: Seq<char>) -> Option<JsonView> {
        match self {
            JsonView::Object(members) => member_of(members, key),
            _ => None,
        }
    }

    /// The text of a string; `None` for any other value.
    pub open spec fn text(self) -> Option<Seq<char>> {
        match self {
            JsonView::Text(s) => Some(s),
            _ => None,
        }
    }

    /// The number, where the value is an integer that is not negative and
    /// fits in 64 bits; `None` for any other value.
    pub open spec fn unsigned(self) -> Option<u64> {
        match self {
            JsonView::Number(JsonNumber::Unsigned(n)) => Some(n),
            _ => None,
        }
    }

    /// The member `key`, where it is there and is not `null`.
    pub open spec fn given(self, key: Seq<char>) -> Option<JsonView> {
        match self.field(key) {
            Some(JsonView::Null) => None,
            other => other,
        }
    }

    /// The items of an array; `None` for any other value.
    pub open spec fn items(self) -> Option<Seq<JsonView>> {
        match self {
            JsonView::Array(items) => Some(items),
            _ => None,
        }
    }

    /// The text of the member `key`, where that member is a string.
    pub open spec fn text_field(self, key: Seq<char>) -> Option<Seq<char>> {
        match self.field(key) {
            Some(v) => v.text(),
            None => None,
        }
    }

    /// The number of the member `key`, where that member is an integer that
    /// is not negative.
    pub open spec fn unsigned_field(self, key: Seq<char>) -> Option<u64> {
        match self.field(key) {
            Some(v) => v.unsigned(),
            None => None,
        }
    }
}

/// `serde_json::from_str` at the type `Value`: reads `text` as one JSON
/// value. The result is what `json_parse` names; an error of the parser
/// becomes `None`.
#[verifier::external_body]
pub(crate) fn parse(text: &str) -> (r: Option<Value>)
    ensures
        match r {
            Some(v) => json_parse(text@) == Some(json_view(v)),
            None => json_parse(text@) is None,
        },
{
    serde_json::from_str::<Value>(text).ok()
}

/// `Value::get` with a string index: the member `key` of an object, and
/// `None` for a value that is no object or has no such member.
#[verifier::external_body]
pub(crate) fn member<'a>(v: &'a Value, key: &str) -> (r: Option<&'a Value>)
    ensures
        match r {
            Some(m) => json_view(*v).field(key@) == Some(json_view(*m)),
            None => json_view(*v).field(key@) is None,
        },
{
    v.get(key)
}

/// `Value::as_str`: the text of a string, and `None` for any other value.
pub assume_specification<'a>[ Value::as_str ](v: &'a Value) -> (r: Option<&'a str>)
    ensures
        match r {
            Some(s) => json_view(*v).text() == Some(s@),
            None => json_view(*v).text() is None,
        },
;

/// `Value::as_u64`: the number, where the value is an integer that is not
/// negative, and `None` for any other value.
pub assume_specification[ Value::as_u64 ](v: &Value) -> (r: Option<u64>)
    ensures
        r == json_view(*v).unsigned(),
;

/// `Value::clone`: a second value that holds the same.
pub assume_specification[ <Value as Clone>::clone ](v: &Value) -> (r: Value)
    ensures
        json_view(r) == json_view(*v),
;

/// `Value::is_null`: whether the value is `null`.
pub assume_specification[ Value::is_null ](v: &Value) -> (r: bool)
    ensures
        r == (json_view(*v) is Null),
;

/// `Value::is_object`: whether the value is an object.
pub assume_specification[ Value::is_object ](v: &Value) -> (r: bool)
    ensures
        r == (json_view(*v) is Object),
;

/// What a list of values holds.
pub open spec fn json_views(items: Seq<Value>) -> Seq<JsonView> {
    items.map_values(|v: Value| json_view(v))
}

/// `Value::as_array`: the items of an array, and `None` for any other
/// value.
pub assume_specification<'a>[ Value::as_array ](v: &'a Value) -> (r: Option<&'a Vec<Value>>)
    ensures
        match r {
            Some(items) => json_view(*v) == JsonView::Array(json_views(items@)),
            None => !(json_view(*v) is Array),
        },
;

/// `serde_json::to_string` on a `Value`: the compact JSON text of the value,
/// which `json_render` names.
#[verifier::external_body]
pub(crate) fn render(v: &Value) -> (r: String)
    ensures
        r@ == json_render(json_view(*v)),
{
    serde_json::to_string(v).unwrap_or_default()
}

/// `serde_json::to_string` on a `str`: the JSON text of the string `s`, in
/// quotes and escaped, which is the text of the JSON value that holds `s`.
#[verifier::external_body]
pub(crate) fn quote(s: &str) -> (r: String)
    ensures
        r@ == json_render(JsonView::Text(s@)),
{
    serde_json::to_string(s).unwrap_or_default()
}

/// The member `key` of `v`, where it is there and is not `null`.
pub fn given<'a>(v: &'a Value, key: &str) -> (r: Option<&'a Value>)
    ensures
        match r {
            Some(m) => json_view(*v).given(key@) == Some(json_view(*m)),
            None => json_view(*v).given(key@) is None,
        },
{
    match member(v, key) {
        Some(m) => if m.is_null() {
            None
        } else {
            Some(m)
        },
        None => None,
    }
}

/// The text of the member `key` of `v`, where that member is a string.
pub fn text_field<'a>(v: &'a Value, key: &str) -> (r: Option<&'a str>)
    ensures
        match r {
            Some(s) => json_view(*v).text_field(key@) == Some(s@),
            None => json_view(*v).text_field(key@) is None,
        },
{
    match member(v, key) {
        Some(m) => m.as_str(),
        None => None,
    }
}

/// The number of the member `key` of `v`, where that member is an integer
/// that is not negative.
pub fn unsigned_field(v: &Value, key: &str) -> (r: Option<u64>)
    ensures
        r == json_view(*v).unsigned_field(key@),
{
    match member(v, key) {
        Some(m) => m.as_u64(),
        None => None,
    }
}

} // verus!
