//! A JSON document model and the accessors the configuration and fixture
//! readers use. Parsing itself is done by `serde_json`.
use vstd::prelude::*;
use vstd::string::*;

verus! {

/// A parsed JSON value, holding what the readers of this crate look at:
/// numbers are seen through `serde_json::Number::as_u64` (`Some` exactly for
/// non-negative integers that fit in `u64`), objects keep their entries in the
/// order `serde_json` iterates them.
#[derive(Debug)]
pub enum JsonValue {
    /// `null`.
    Null,
    /// `true` or `false`.
    Bool(bool),
    /// A number, seen as its `u64` value when it is a non-negative integer
    /// that fits, `None` otherwise.
    Number(Option<u64>),
    /// A string.
    Str(String),
    /// An array.
    Array(Vec<JsonValue>),
    /// An object's entries, in key order.
    Object(Vec<(String, JsonValue)>),
}

#[verifier::external_type_specification]
#[verifier::external_body]
pub struct ExSerdeJsonValue(serde_json::Value);

/// What `serde_json::from_str::<serde_json::Value>` yields for a text: the parsed
/// document, or the text of the parse error.
pub uninterp spec fn spec_parse_json(text: Seq<char>) -> Result<JsonValue, Seq<char>>;

/// Parse JSON text.
///
/// Trusted: calls `serde_json::from_str::<serde_json::Value>`; the contract claims
/// only that the outcome (document or error text) is a function of the input text.
#[verifier::external_body]
pub fn parse_json(text: &str) -> (r: Result<JsonValue, String>)
    ensures
        match r {
            Ok(v) => spec_parse_json(text@) == Ok::<JsonValue, Seq<char>>(v),
            Err(e) => spec_parse_json(text@) == Err::<JsonValue, Seq<char>>(e@),
        },
{
    serde_json::from_str::<serde_json::Value>(text).map(json_from_serde).map_err(|e| e.to_string())
}

/// Converts a `serde_json::Value` into the crate's model, variant by variant.
///
/// Trusted: a one-for-one conversion used only inside [`parse_json`]; numbers
/// are kept as `serde_json::Number::as_u64` returns them.
#[verifier::external_body]
fn json_from_serde(v: serde_json::Value) -> JsonValue {
    match v {
        serde_json::Value::Null => JsonValue::Null,
        serde_json::Value::Bool(b) => JsonValue::Bool(b),
        serde_json::Value::Number(n) => JsonValue::Number(n.as_u64()),
        serde_json::Value::String(s) => JsonValue::Str(s),
        serde_json::Value::Array(a) => JsonValue::Array(a.into_iter().map(json_from_serde).collect()),
        serde_json::Value::Object(m) => JsonValue::Object(
            m.into_iter().map(|(k, x)| (k, json_from_serde(x))).collect(),
        ),
    }
}

/// The value stored under `key` among object entries (first match).
pub open spec fn find_key(entries: Seq<(String, JsonValue)>, key: Seq<char>) -> Option<JsonValue>
    decreases entries.len(),
{
    if entries.len() == 0 {
        None
    } else if entries[0].0@ == key {
        Some(entries[0].1)
    } else {
        find_key(entries.drop_first(), key)
    }
}

/// `Value::get(key)`: the member `key` of an object; `None` for any other value.
pub open spec fn json_get(v: JsonValue, key: Seq<char>) -> Option<JsonValue> {
    match v {
        JsonValue::Object(m) => find_key(m@, key),
        _ => None,
    }
}

/// `Value::as_str`.
pub open spec fn json_str(v: JsonValue) -> Option<Seq<char>> {
    match v {
        JsonValue::Str(s) => Some(s@),
        _ => None,
    }
}

/// `Value::as_u64`.
pub open spec fn json_u64(v: JsonValue) -> Option<u64> {
    match v {
        JsonValue::Number(n) => n,
        _ => None,
    }
}

/// `Value::as_array`.
pub open spec fn json_array(v: JsonValue) -> Option<Seq<JsonValue>> {
    match v {
        JsonValue::Array(a) => Some(a@),
        _ => None,
    }
}

/// `Value::as_object`.
pub open spec fn json_object(v: JsonValue) -> Option<Seq<(String, JsonValue)>> {
    match v {
        JsonValue::Object(m) => Some(m@),
        _ => None,
    }
}

/// The string members of a JSON array, in order (non-strings skipped).
pub open spec fn strings_of(vs: Seq<JsonValue>) -> Seq<Seq<char>>
    decreases vs.len(),
{
    if vs.len() == 0 {
        Seq::empty()
    } else {
        match vs.last() {
            JsonValue::Str(s) => strings_of(vs.drop_last()).push(s@),
            _ => strings_of(vs.drop_last()),
        }
    }
}

/// The values of a sequence of strings.
pub open spec fn strings_view(ss: Seq<String>) -> Seq<Seq<char>> {
    ss.map_values(|s: String| s@)
}

impl JsonValue {
    /// The member `key` of an object.
    pub fn get<'a>(&'a self, key: &str) -> (r: Option<&'a JsonValue>)
        ensures
            match r {
                Some(x) => json_get(*self, key@) == Some(*x),
                None => json_get(*self, key@) is None,
            },
    {
        match self {
            JsonValue::Object(m) => {
                let kc = crate::text::chars_of(key);
                let mut i: usize = 0;
                proof {
                    assert(m@.subrange(0, m@.len() as int) == m@);
                }
                while i < m.len()
                    invariant
                        i <= m@.len(),
                        kc@ == key@,
                        json_get(*self, key@) == find_key(m@, key@),
                        find_key(m@, key@) == find_key(m@.subrange(i as int, m@.len() as int), key@),
                    decreases m@.len() - i,
                {
                    let ghost rest = m@.subrange(i as int, m@.len() as int);
                    proof {
                        assert(rest[0] == m@[i as int]);
                        assert(rest.drop_first() == m@.subrange(i + 1, m@.len() as int));
                    }
                    let ec = crate::text::chars_of(m[i].0.as_str());
                    if crate::text::chars_eq(&ec, &kc) {
                        proof {
                            assert(rest[0].0@ == key@);
                            assert(find_key(rest, key@) == Some(rest[0].1));
                        }
                        return Some(&m[i].1);
                    }
                    i = i + 1;
                }
                None
            },
            _ => None,
        }
    }

    /// The text of a string value.
    pub fn as_str(&self) -> (r: Option<&String>)
        ensures
            match r {
                Some(s) => json_str(*self) == Some(s@),
                None => json_str(*self) is None,
            },
    {
        match self {
            JsonValue::Str(s) => Some(s),
            _ => None,
        }
    }

    /// The `u64` value of a number.
    pub fn as_u64(&self) -> (r: Option<u64>)
        ensures
            r == json_u64(*self),
    {
        match self {
            JsonValue::Number(n) => *n,
            _ => None,
        }
    }

    /// The elements of an array.
    pub fn as_array(&self) -> (r: Option<&Vec<JsonValue>>)
        ensures
            match r {
                Some(a) => json_array(*self) == Some(a@),
                None => json_array(*self) is None,
            },
    {
        match self {
            JsonValue::Array(a) => Some(a),
            _ => None,
        }
    }

    /// The entries of an object.
    pub fn as_object(&self) -> (r: Option<&Vec<(String, JsonValue)>>)
        ensures
            match r {
                Some(m) => json_object(*self) == Some(m@),
                None => json_object(*self) is None,
            },
    {
        match self {
            JsonValue::Object(m) => Some(m),
            _ => None,
        }
    }
}

/// The string members of an array, copied in order.
pub fn collect_strings(vs: &Vec<JsonValue>) -> (r: Vec<String>)
    ensures
        strings_view(r@) == strings_of(vs@),
{
    let mut out: Vec<String> = Vec::new();
    let mut i: usize = 0;
    while i < vs.len()
        invariant
            i <= vs@.len(),
            strings_view(out@) == strings_of(vs@.subrange(0, i as int)),
        decreases vs@.len() - i,
    {
        let ghost prev = out@;
        proof {
            assert(vs@.subrange(0, i + 1).drop_last() == vs@.subrange(0, i as int));
            assert(vs@.subrange(0, i + 1).last() == vs@[i as int]);
        }
        match &vs[i] {
            JsonValue::Str(s) => {
                out.push(s.clone());
                proof {
                    assert(strings_view(out@) =~= strings_view(prev).push(s@));
                }
            },
            _ => {},
        }
        i = i + 1;
    }
    proof {
        assert(vs@.subrange(0, vs@.len() as int) == vs@);
    }
    out
}

} // verus!
