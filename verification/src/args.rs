//! Tool-call arguments: the JSON value a tool receives, held as the
//! handlers read it, and the lookups that pull typed fields out of it.

use vstd::prelude::*;

use crate::mcp::{FaultKind, FaultView, McpFault};
use crate::text::{owned, push_str, str_eq};

verus! {

/// A tool-call argument. A number is held as what the handlers read of
/// it: its value when it is a non-negative integer that fits in `u64`.
#[derive(Debug)]
pub enum ArgValue {
    Null,
    Bool(bool),
    Number(Option<u64>),
    Str(String),
    Array(Vec<ArgValue>),
    Object(ArgMap),
}

/// The fields of an argument object in order. A key names the value of
/// its first entry; the protocol's objects have each key once.
#[derive(Debug)]
pub struct ArgMap {
    pub entries: Vec<(String, ArgValue)>,
}

/// The value stored under `key`.
pub open spec fn field(entries: Seq<(String, ArgValue)>, key: Seq<char>) -> Option<ArgValue>
    decreases entries.len(),
{
    if entries.len() == 0 {
        None
    } else if entries[0].0@ == key {
        Some(entries[0].1)
    } else {
        field(entries.drop_first(), key)
    }
}

/// The fields of a call's arguments: an object's entries, none for absent
/// arguments; anything else is refused.
pub open spec fn fields_of(args: ArgValue) -> Result<Seq<(String, ArgValue)>, FaultView> {
    match args {
        ArgValue::Object(m) => Ok(m.entries@),
        ArgValue::Null => Ok(Seq::empty()),
        _ => Err((FaultKind::InvalidParams, "arguments must be a JSON object"@)),
    }
}

/// A required string field, or its refusal.
pub open spec fn text_field(entries: Seq<(String, ArgValue)>, key: Seq<char>) -> Result<Seq<char>, FaultView> {
    match field(entries, key) {
        Some(ArgValue::Str(s)) => Ok(s@),
        _ => Err((FaultKind::InvalidParams, "missing or invalid `"@ + key + "`"@)),
    }
}

/// An optional string field; a value of another type counts as absent.
pub open spec fn opt_text_field(entries: Seq<(String, ArgValue)>, key: Seq<char>) -> Option<Seq<char>> {
    match field(entries, key) {
        Some(ArgValue::Str(s)) => Some(s@),
        _ => None,
    }
}

/// An optional unsigned field; any other value counts as absent.
pub open spec fn u64_field(entries: Seq<(String, ArgValue)>, key: Seq<char>) -> Option<u64> {
    match field(entries, key) {
        Some(ArgValue::Number(n)) => n,
        _ => None,
    }
}

/// Looks up the value stored under `key`.
pub fn get<'a>(map: &'a ArgMap, key: &str) -> (r: Option<&'a ArgValue>)
    ensures
        match r {
            Some(v) => field(map.entries@, key@) == Some(*v),
            None => field(map.entries@, key@) is None,
        },
{
    let mut i: usize = 0;
    assert(map.entries@.skip(0) =~= map.entries@);
    while i < map.entries.len()
        invariant
            i <= map.entries@.len(),
            field(map.entries@, key@) == field(map.entries@.skip(i as int), key@),
        decreases map.entries@.len() - i,
    {
        let ghost rest = map.entries@.skip(i as int);
        assert(rest[0] == map.entries@[i as int]);
        assert(rest.drop_first() =~= map.entries@.skip(i + 1));
        if str_eq(map.entries[i].0.as_str(), key) {
            return Some(&map.entries[i].1);
        }
        i = i + 1;
    }
    assert(map.entries@.skip(i as int).len() == 0);
    None
}

fn invalid_params(message: String) -> (r: McpFault)
    ensures
        r@ == (FaultKind::InvalidParams, message@),
{
    McpFault { kind: FaultKind::InvalidParams, message }
}

/// A refusal naming the key: `prefix`, the key, then `suffix`.
fn keyed_fault(prefix: &str, key: &str, suffix: &str) -> (r: McpFault)
    ensures
        r@ == (FaultKind::InvalidParams, prefix@ + key@ + suffix@),
{
    let mut m = owned(prefix);
    push_str(&mut m, key);
    push_str(&mut m, suffix);
    invalid_params(m)
}

/// The arguments of a call as an object: an object as it is, no arguments
/// as an empty object, anything else refused.
pub fn ensure_object(args: ArgValue) -> (r: Result<ArgMap, McpFault>)
    ensures
        match fields_of(args) {
            Ok(e) => r matches Ok(m) && m.entries@ == e,
            Err(f) => r matches Err(x) && x@ == f,
        },
        args is Object ==> r == Ok::<ArgMap, McpFault>(args->Object_0),
{
    match args {
        ArgValue::Object(m) => Ok(m),
        ArgValue::Null => {
            let entries: Vec<(String, ArgValue)> = Vec::new();
            assert(entries@ =~= Seq::<(String, ArgValue)>::empty());
            Ok(ArgMap { entries })
        },
        _ => Err(invalid_params(owned("arguments must be a JSON object"))),
    }
}

/// A required string field; absent or of another type, it is refused.
pub fn required_string(map: &ArgMap, key: &str) -> (r: Result<String, McpFault>)
    ensures
        match text_field(map.entries@, key@) {
            Ok(s) => r matches Ok(t) && t@ == s,
            Err(f) => r matches Err(x) && x@ == f,
        },
{
    match get(map, key) {
        Some(ArgValue::Str(s)) => Ok(owned(s.as_str())),
        _ => Err(crate::mcp::missing_argument(key)),
    }
}

/// An optional string field; a value of another type counts as absent.
pub fn optional_string(map: &ArgMap, key: &str) -> (r: Option<String>)
    ensures
        match opt_text_field(map.entries@, key@) {
            Some(s) => r matches Some(t) && t@ == s,
            None => r is None,
        },
{
    match get(map, key) {
        Some(ArgValue::Str(s)) => Some(owned(s.as_str())),
        _ => None,
    }
}

/// An optional unsigned integer field; any other value counts as absent.
pub fn optional_u64(map: &ArgMap, key: &str) -> (r: Option<u64>)
    ensures
        r == u64_field(map.entries@, key@),
{
    match get(map, key) {
        Some(ArgValue::Number(n)) => *n,
        _ => None,
    }
}

/// Every element is a string.
pub open spec fn all_strings(xs: Seq<ArgValue>) -> bool {
    forall|i: int| 0 <= i < xs.len() ==> #[trigger] xs[i] is Str
}

/// The text of a string value (empty for any other value).
pub open spec fn string_at(v: ArgValue) -> Seq<char> {
    match v {
        ArgValue::Str(s) => s@,
        _ => Seq::empty(),
    }
}

/// A required array of strings, or its refusal.
pub open spec fn strings_field(entries: Seq<(String, ArgValue)>, key: Seq<char>) -> Result<Seq<Seq<char>>, FaultView> {
    match field(entries, key) {
        None => Err((FaultKind::InvalidParams, "missing `"@ + key + "`"@)),
        Some(ArgValue::Array(xs)) => if all_strings(xs@) {
            Ok(xs@.map_values(|v: ArgValue| string_at(v)))
        } else {
            Err((FaultKind::InvalidParams, "`"@ + key + "` must be array of strings"@))
        },
        Some(_) => Err((FaultKind::InvalidParams, "`"@ + key + "` must be an array"@)),
    }
}

/// A required array of strings.
pub fn string_array(map: &ArgMap, key: &str) -> (r: Result<Vec<String>, McpFault>)
    ensures
        match strings_field(map.entries@, key@) {
            Ok(ss) => r matches Ok(v) && v@.len() == ss.len() && forall|i: int| 0 <= i < ss.len() ==> #[trigger] v@[i]@ == ss[i],
            Err(f) => r matches Err(x) && x@ == f,
        },
{
    match get(map, key) {
        None => Err(keyed_fault("missing `", key, "`")),
        Some(ArgValue::Array(xs)) => {
            let mut out: Vec<String> = Vec::new();
            let mut i: usize = 0;
            while i < xs.len()
                invariant
                    field(map.entries@, key@) == Some(ArgValue::Array(*xs)),
                    i <= xs@.len(),
                    out@.len() == i,
                    forall|j: int| 0 <= j < i ==> #[trigger] xs@[j] is Str,
                    forall|j: int| 0 <= j < i ==> #[trigger] out@[j]@ == string_at(xs@[j]),
                decreases xs@.len() - i,
            {
                match &xs[i] {
                    ArgValue::Str(s) => {
                        out.push(owned(s.as_str()));
                    },
                    _ => {
                        assert(!(xs@[i as int] is Str));
                        return Err(keyed_fault("`", key, "` must be array of strings"));
                    },
                }
                i = i + 1;
            }
            Ok(out)
        },
        Some(_) => Err(keyed_fault("`", key, "` must be an array")),
    }
}

/// A required object field, or its refusal.
pub open spec fn object_at(entries: Seq<(String, ArgValue)>, key: Seq<char>) -> Result<ArgMap, FaultView> {
    match field(entries, key) {
        Some(ArgValue::Object(m)) => Ok(m),
        Some(_) => Err((FaultKind::InvalidParams, "`"@ + key + "` must be an object"@)),
        None => Err((FaultKind::InvalidParams, "missing `"@ + key + "`"@)),
    }
}

/// A required object field, handed out in place.
pub fn object_field<'a>(map: &'a ArgMap, key: &str) -> (r: Result<&'a ArgMap, McpFault>)
    ensures
        match object_at(map.entries@, key@) {
            Ok(m) => r matches Ok(x) && *x == m,
            Err(f) => r matches Err(x) && x@ == f,
        },
{
    match get(map, key) {
        Some(ArgValue::Object(m)) => Ok(m),
        Some(_) => Err(keyed_fault("`", key, "` must be an object")),
        None => Err(keyed_fault("missing `", key, "`")),
    }
}

/// The refusal of a non-string attribute value.
pub open spec fn attr_value_message(key: Seq<char>) -> Seq<char> {
    "attrs value for `"@ + key + "` must be a string"@
}

/// The attributes of a set-attributes call as key/value text pairs, in
/// entry order. Every value must be a string; the first that is not is
/// named in the refusal.
pub fn attr_strings(attrs: &ArgMap) -> (r: Result<Vec<(String, String)>, McpFault>)
    ensures
        r is Ok <==> forall|i: int| 0 <= i < attrs.entries@.len() ==> #[trigger] attrs.entries@[i].1 is Str,
        r matches Ok(v) ==> {
            &&& v@.len() == attrs.entries@.len()
            &&& forall|i: int| 0 <= i < v@.len() ==> (#[trigger] v@[i]).0@ == attrs.entries@[i].0@
                && v@[i].1@ == string_at(attrs.entries@[i].1)
        },
        r matches Err(f) ==> exists|i: int| {
            &&& 0 <= i < attrs.entries@.len()
            &&& !(#[trigger] attrs.entries@[i].1 is Str)
            &&& forall|j: int| 0 <= j < i ==> #[trigger] attrs.entries@[j].1 is Str
            &&& f@ == (FaultKind::InvalidParams, attr_value_message(attrs.entries@[i].0@))
        },
{
    let mut out: Vec<(String, String)> = Vec::new();
    let mut i: usize = 0;
    while i < attrs.entries.len()
        invariant
            i <= attrs.entries@.len(),
            out@.len() == i,
            forall|j: int| 0 <= j < i ==> #[trigger] attrs.entries@[j].1 is Str,
            forall|j: int| 0 <= j < i ==> (#[trigger] out@[j]).0@ == attrs.entries@[j].0@
                && out@[j].1@ == string_at(attrs.entries@[j].1),
        decreases attrs.entries@.len() - i,
    {
        let k = &attrs.entries[i].0;
        match &attrs.entries[i].1 {
            ArgValue::Str(v) => {
                out.push((owned(k.as_str()), owned(v.as_str())));
            },
            _ => {
                assert(!(attrs.entries@[i as int].1 is Str));
                return Err(keyed_fault("attrs value for `", k.as_str(), "` must be a string"));
            },
        }
        i = i + 1;
    }
    Ok(out)
}

} // verus!
