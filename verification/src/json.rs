//! The JSON values that extension calls carry, with the lookups the adapters
//! make on them.

use vstd::prelude::*;

verus! {

/// A JSON number, as the lookups read it: its value when it is a
/// non-negative integer that fits a `u64`, and its text.
#[derive(Clone, Debug, PartialEq, Eq)]
pub struct JsonNumber {
    pub as_u64: Option<u64>,
    pub text: String,
}

#[derive(Debug, PartialEq, Eq)]
pub enum JsonValue {
    Null,
    Bool(bool),
    Number(JsonNumber),
    String(String),
    Array(Vec<JsonValue>),
    Object(Vec<(String, JsonValue)>),
}

/// The value under `key` when `v` is an object that has it (the first entry).
pub open spec fn field_of(entries: Seq<(String, JsonValue)>, key: Seq<char>) -> Option<JsonValue>
    decreases entries.len(),
{
    if entries.len() == 0 {
        None
    } else if entries[0].0@ == key {
        Some(entries[0].1)
    } else {
        field_of(entries.drop_first(), key)
    }
}

pub open spec fn field(v: JsonValue, key: Seq<char>) -> Option<JsonValue> {
    match v {
        JsonValue::Object(entries) => field_of(entries@, key),
        _ => None,
    }
}

/// The text under `key` when it is a string.
pub open spec fn str_field(v: JsonValue, key: Seq<char>) -> Option<Seq<char>> {
    match field(v, key) {
        Some(JsonValue::String(s)) => Some(s@),
        _ => None,
    }
}

/// The flag under `key` when it is a boolean.
pub open spec fn bool_field(v: JsonValue, key: Seq<char>) -> Option<bool> {
    match field(v, key) {
        Some(JsonValue::Bool(b)) => Some(b),
        _ => None,
    }
}

/// The number under `key` when it is a non-negative integer that fits a `u64`.
pub open spec fn u64_field(v: JsonValue, key: Seq<char>) -> Option<u64> {
    match field(v, key) {
        Some(JsonValue::Number(n)) => n.as_u64,
        _ => None,
    }
}

/// The items under `key` when it is an array.
pub open spec fn array_field(v: JsonValue, key: Seq<char>) -> Option<Seq<JsonValue>> {
    match field(v, key) {
        Some(JsonValue::Array(items)) => Some(items@),
        _ => None,
    }
}

fn same_text(a: &str, b: &str) -> (r: bool)
    ensures
        r == (a@ == b@),
{
    let x = crate::text::chars_of(a);
    let y = crate::text::chars_of(b);
    if x.len() != y.len() {
        return false;
    }
    let mut i: usize = 0;
    while i < x.len()
        invariant
            i <= x@.len(),
            x@ == a@,
            y@ == b@,
            x@.len() == y@.len(),
            forall|k: int| 0 <= k < i ==> x@[k] == y@[k],
        decreases x@.len() - i,
    {
        if x[i] != y[i] {
            assert(x@[i as int] != y@[i as int]);
            return false;
        }
        i += 1;
    }
    assert(x@ =~= y@);
    true
}

/// Two string slices hold the same text.
pub fn text_eq(a: &str, b: &str) -> (r: bool)
    ensures
        r == (a@ == b@),
{
    same_text(a, b)
}

impl JsonValue {
    /// The value under `key`.
    pub fn get(&self, key: &str) -> (r: Option<&JsonValue>)
        ensures
            match r {
                Some(x) => field(*self, key@) == Some(*x),
                None => field(*self, key@) is None,
            },
    {
        match self {
            JsonValue::Object(entries) => {
                let mut i: usize = 0;
                assert(entries@.skip(0) =~= entries@);
                while i < entries.len()
                    invariant
                        i <= entries@.len(),
                        field(*self, key@) == field_of(entries@, key@),
                        field_of(entries@, key@) == field_of(entries@.skip(i as int), key@),
                    decreases entries@.len() - i,
                {
                    assert(entries@.skip(i as int).drop_first() =~= entries@.skip(i + 1));
                    assert(entries@.skip(i as int)[0] == entries@[i as int]);
                    if same_text(entries[i].0.as_str(), key) {
                        return Some(&entries[i].1);
                    }
                    i += 1;
                }
                None
            },
            _ => None,
        }
    }

    /// The text under `key` when it is a string.
    pub fn get_str(&self, key: &str) -> (r: Option<&String>)
        ensures
            crate::text::opt_string_view(
                match r {
                    Some(s) => Some(*s),
                    None => None,
                },
            ) == str_field(*self, key@),
    {
        match self.get(key) {
            Some(JsonValue::String(s)) => Some(s),
            _ => None,
        }
    }

    /// The flag under `key` when it is a boolean.
    pub fn get_bool(&self, key: &str) -> (r: Option<bool>)
        ensures
            r == bool_field(*self, key@),
    {
        match self.get(key) {
            Some(JsonValue::Bool(b)) => Some(*b),
            _ => None,
        }
    }

    /// The number under `key` when it is a non-negative integer that fits a `u64`.
    pub fn get_u64(&self, key: &str) -> (r: Option<u64>)
        ensures
            r == u64_field(*self, key@),
    {
        match self.get(key) {
            Some(JsonValue::Number(n)) => n.as_u64,
            _ => None,
        }
    }

    /// The items under `key` when it is an array.
    pub fn get_array(&self, key: &str) -> (r: Option<&Vec<JsonValue>>)
        ensures
            match r {
                Some(items) => array_field(*self, key@) == Some(items@),
                None => array_field(*self, key@) is None,
            },
    {
        match self.get(key) {
            Some(JsonValue::Array(items)) => Some(items),
            _ => None,
        }
    }
}

/// The strings among `items`, in order.
pub open spec fn strings_of(items: Seq<JsonValue>) -> Seq<Seq<char>>
    decreases items.len(),
{
    if items.len() == 0 {
        seq![]
    } else {
        let rest = strings_of(items.drop_last());
        match items.last() {
            JsonValue::String(s) => rest.push(s@),
            _ => rest,
        }
    }
}

/// Copies of the strings among `items`, in order.
pub fn string_items(items: &Vec<JsonValue>) -> (r: Vec<String>)
    ensures
        r@.map_values(|s: String| s@) == strings_of(items@),
{
    let mut r: Vec<String> = Vec::new();
    let mut i: usize = 0;
    while i < items.len()
        invariant
            i <= items@.len(),
            r@.map_values(|s: String| s@) == strings_of(items@.take(i as int)),
        decreases items@.len() - i,
    {
        assert(items@.take(i + 1).drop_last() =~= items@.take(i as int));
        match &items[i] {
            JsonValue::String(s) => {
                let ghost before = r@;
                r.push(s.clone());
                assert(r@.map_values(|s: String| s@) =~= before.map_values(|s: String| s@).push(s@));
            },
            _ => {},
        }
        i += 1;
    }
    assert(items@.take(items@.len() as int) =~= items@);
    r
}

/// The compact text `serde_json` displays for a value, once carried over
/// into a `serde_json::Value`.
pub uninterp spec fn json_display_text(v: JsonValue) -> Seq<char>;

/// `Display` of `serde_json::Value` (compact JSON text) on the value carried
/// over into `serde_json`. Its contract only names the text: the writer, and
/// how a `serde_json::Map` orders and merges object keys, are `serde_json`'s.
#[verifier::external_body]
fn json_display(v: &JsonValue) -> (r: String)
    ensures
        r@ == json_display_text(*v),
{
    json_to_serde(v).to_string()
}

/// Carries a [`JsonValue`] over into `serde_json`, variant by variant; a
/// number's text is parsed back by `serde_json` (`null` if it does not parse).
#[verifier::external_body]
fn json_to_serde(v: &JsonValue) -> serde_json::Value {
    match v {
        JsonValue::Null => serde_json::Value::Null,
        JsonValue::Bool(b) => serde_json::Value::Bool(*b),
        JsonValue::Number(n) => n.text.parse::<serde_json::Number>().map_or(serde_json::Value::Null, serde_json::Value::Number),
        JsonValue::String(s) => serde_json::Value::String(s.clone()),
        JsonValue::Array(items) => serde_json::Value::Array(items.iter().map(json_to_serde).collect()),
        JsonValue::Object(entries) => serde_json::Value::Object(entries.iter().map(|(k, x)| (k.clone(), json_to_serde(x))).collect()),
    }
}

impl JsonValue {
    /// The compact JSON text of this value, as `serde_json` displays it.
    pub fn to_json_text(&self) -> (r: String)
        ensures
            r@ == json_display_text(*self),
    {
        json_display(self)
    }
}

/// `a` and `b` hold the same JSON data: the same variant, the same scalars,
/// and arrays and objects whose items (and keys) agree in order.
pub open spec fn same_json(a: JsonValue, b: JsonValue) -> bool
    decreases a,
{
    match a {
        JsonValue::Array(xs) => match b {
            JsonValue::Array(ys) => same_items(xs@, ys@),
            _ => false,
        },
        JsonValue::Object(xs) => match b {
            JsonValue::Object(ys) => same_entries(xs@, ys@),
            _ => false,
        },
        _ => a == b,
    }
}

/// Item by item, `xs` and `ys` hold the same JSON data.
pub open spec fn same_items(xs: Seq<JsonValue>, ys: Seq<JsonValue>) -> bool
    decreases xs,
{
    if xs.len() == 0 {
        ys.len() == 0
    } else {
        ys.len() == xs.len() && same_items(xs.drop_last(), ys.drop_last()) && same_json(xs.last(), ys.last())
    }
}

/// Entry by entry, `xs` and `ys` have the same keys over the same JSON data.
pub open spec fn same_entries(xs: Seq<(String, JsonValue)>, ys: Seq<(String, JsonValue)>) -> bool
    decreases xs,
{
    if xs.len() == 0 {
        ys.len() == 0
    } else {
        ys.len() == xs.len() && same_entries(xs.drop_last(), ys.drop_last()) && xs.last().0 == ys.last().0
            && same_json(xs.last().1, ys.last().1)
    }
}

/// A deep copy of a JSON value.
fn copy_json(v: &JsonValue) -> (r: JsonValue)
    ensures
        same_json(r, *v),
    decreases v,
{
    match v {
        JsonValue::Null => JsonValue::Null,
        JsonValue::Bool(b) => JsonValue::Bool(*b),
        JsonValue::Number(n) => JsonValue::Number(JsonNumber { as_u64: n.as_u64, text: n.text.clone() }),
        JsonValue::String(s) => JsonValue::String(s.clone()),
        JsonValue::Array(items) => {
            let mut out: Vec<JsonValue> = Vec::new();
            let mut i: usize = 0;
            while i < items.len()
                invariant
                    i <= items@.len(),
                    *v == JsonValue::Array(*items),
                    same_items(out@, items@.take(i as int)),
                decreases items@.len() - i,
            {
                assert(decreases_to!(*v => (*v)->Array_0));
                assert(decreases_to!(*items => items@));
                assert(decreases_to!(items@ => items@[i as int]));
                let c = copy_json(&items[i]);
                proof {
                    let next = out@.push(c);
                    assert(next.drop_last() =~= out@);
                    assert(items@.take(i + 1).drop_last() =~= items@.take(i as int));
                    assert(items@.take(i + 1).last() == items@[i as int]);
                }
                out.push(c);
                i += 1;
            }
            assert(items@.take(items@.len() as int) =~= items@);
            JsonValue::Array(out)
        },
        JsonValue::Object(entries) => {
            let mut out: Vec<(String, JsonValue)> = Vec::new();
            let mut i: usize = 0;
            while i < entries.len()
                invariant
                    i <= entries@.len(),
                    *v == JsonValue::Object(*entries),
                    same_entries(out@, entries@.take(i as int)),
                decreases entries@.len() - i,
            {
                assert(decreases_to!(*v => (*v)->Object_0));
                assert(decreases_to!(*entries => entries@));
                assert(decreases_to!(entries@ => entries@[i as int]));
                assert(decreases_to!(entries@[i as int] => entries@[i as int].1));
                let e = (entries[i].0.clone(), copy_json(&entries[i].1));
                proof {
                    let next = out@.push(e);
                    assert(next.drop_last() =~= out@);
                    assert(entries@.take(i + 1).drop_last() =~= entries@.take(i as int));
                    assert(entries@.take(i + 1).last() == entries@[i as int]);
                }
                out.push(e);
                i += 1;
            }
            assert(entries@.take(entries@.len() as int) =~= entries@);
            JsonValue::Object(out)
        },
    }
}

impl Clone for JsonValue {
    fn clone(&self) -> (r: Self)
        ensures
            same_json(r, *self),
    {
        copy_json(self)
    }
}

#[verifier::external_type_specification]
#[verifier::external_body]
pub struct ExSerdeJsonValue(serde_json::Value);

/// The JSON value that `serde_json` parses from a text, if it parses.
pub uninterp spec fn json_parse(text: Seq<char>) -> Option<JsonValue>;

/// `serde_json::from_str::<serde_json::Value>`, the value carried over into
/// [`JsonValue`]; when the text is not JSON, the error as `serde_json`
/// displays it. Its contract does not say what that text is.
#[verifier::external_body]
pub(crate) fn parse_json(text: &str) -> (r: Result<JsonValue, String>)
    ensures
        match json_parse(text@) {
            Some(v) => r == Ok::<JsonValue, String>(v),
            None => r is Err,
        },
{
    serde_json::from_str::<serde_json::Value>(text).map(json_from_serde).map_err(|error| error.to_string())
}

/// Carries a `serde_json` value over into [`JsonValue`], variant by variant.
#[verifier::external_body]
fn json_from_serde(v: serde_json::Value) -> JsonValue {
    match v {
        serde_json::Value::Null => JsonValue::Null,
        serde_json::Value::Bool(b) => JsonValue::Bool(b),
        serde_json::Value::Number(n) => JsonValue::Number(JsonNumber { as_u64: n.as_u64(), text: n.to_string() }),
        serde_json::Value::String(s) => JsonValue::String(s),
        serde_json::Value::Array(items) => JsonValue::Array(items.into_iter().map(json_from_serde).collect()),
        serde_json::Value::Object(map) => JsonValue::Object(map.into_iter().map(|(k, x)| (k, json_from_serde(x))).collect()),
    }
}

} // verus!
