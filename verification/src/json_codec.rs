//! The structured-text codec consumed by persistent shared objects.
//!
//! The codec itself is an external collaborator: parsing and printing are
//! done by the `json` crate behind the trusted items below. The library
//! reasons about documents through `Doc`, a mathematical document tree, and
//! two names: what a JSON value holds (`jv_doc`) and what printing a
//! document yields (`dump_text`).

use vstd::prelude::*;
use crate::table::table_find;

verus! {

/// A structured-text document: the mathematical shape of a JSON value.
/// A number is sign, mantissa and decimal exponent, exactly as the codec
/// holds it.
pub enum Doc {
    Null,
    Bool(bool),
    Num(bool, u64, i16),
    Str(Seq<char>),
    Obj(Seq<(Seq<char>, Doc)>),
    Arr(Seq<Doc>),
}

// The document a JSON value holds: Null to Null, booleans to Bool, numbers
// to Num with their sign/mantissa/exponent parts - except a not-a-number,
// which prints as a null node and maps to Null - short and long strings to
// Str, objects to Obj with entries in insertion order, arrays to Arr.
pub uninterp spec fn jv_doc(v: json::JsonValue) -> Doc;

// The text that printing a document yields; printing depends on the
// document alone.
pub uninterp spec fn dump_text(d: Doc) -> Seq<char>;

// The document that parsing a text yields, if the text is well-formed JSON;
// parsing depends on the text alone.
pub uninterp spec fn parsed_doc(s: Seq<char>) -> Option<Doc>;

/// The codec's `json::JsonValue` type, declared so values of it can cross
/// the library's signatures; the library never looks inside one except
/// through the trusted readers below.
#[verifier::external_type_specification]
#[verifier::external_body]
pub struct ExJsonValue(json::JsonValue);

/// An entry list updated the way the codec's object insert works: an
/// existing key keeps its slot and only the value changes, a new key is
/// appended.
pub open spec fn obj_insert(
    entries: Seq<(Seq<char>, Doc)>,
    key: Seq<char>,
    d: Doc,
) -> Seq<(Seq<char>, Doc)> {
    match table_find(entries, key, true) {
        Some(i) => entries.update(i, (entries[i].0, d)),
        None => entries.push((key, d)),
    }
}

/// A document the round-trip guarantee covers: no arrays, numbers with
/// exponent zero and a mantissa in the signed range (zero always positive),
/// objects with distinct keys, and nesting within the given depth budget,
/// which stays under the parser's nesting limit.
pub open spec fn wf_doc(d: Doc, depth: nat) -> bool
    decreases depth,
{
    match d {
        Doc::Null => true,
        Doc::Bool(_) => true,
        Doc::Num(positive, mantissa, exponent) => exponent == 0 && mantissa
            <= 0x8000000000000000u64 && (mantissa == 0 ==> positive),
        Doc::Str(_) => true,
        Doc::Obj(entries) => {
            &&& depth > 0
            &&& forall|i: int, j: int|
                0 <= i < j < entries.len() ==> entries[i].0 != entries[j].0
            &&& forall|i: int|
                0 <= i < entries.len() ==> wf_doc(#[trigger] entries[i].1, (depth - 1) as nat)
        },
        Doc::Arr(_) => false,
    }
}

/// Relies on `json::JsonValue::new_object`: a fresh empty object.
#[verifier::external_body]
pub(crate) fn jv_new_object() -> (r: json::JsonValue)
    ensures
        jv_doc(r) == Doc::Obj(Seq::<(Seq<char>, Doc)>::empty()),
{
    json::JsonValue::new_object()
}

/// Relies on `json::JsonValue::insert`: on an object it stores the value
/// under the key, appending a new key and overwriting an existing one in
/// place. Here the stored value is null.
#[verifier::external_body]
pub(crate) fn jv_insert_null(o: &mut json::JsonValue, key: &str)
    requires
        jv_doc(*old(o)) is Obj,
    ensures
        jv_doc(*final(o)) == Doc::Obj(obj_insert(jv_doc(*old(o))->Obj_0, key@, Doc::Null)),
{
    let _ = o.insert(key, json::JsonValue::Null);
}

/// Relies on `json::JsonValue::insert`, storing a boolean.
#[verifier::external_body]
pub(crate) fn jv_insert_bool(o: &mut json::JsonValue, key: &str, b: bool)
    requires
        jv_doc(*old(o)) is Obj,
    ensures
        jv_doc(*final(o)) == Doc::Obj(obj_insert(jv_doc(*old(o))->Obj_0, key@, Doc::Bool(b))),
{
    let _ = o.insert(key, b);
}

/// Relies on `json::JsonValue::insert` and `json::number::Number::from_parts`,
/// storing a number built from its sign and mantissa with exponent zero;
/// `from_parts` keeps those parts unchanged when the exponent is zero.
#[verifier::external_body]
pub(crate) fn jv_insert_num(o: &mut json::JsonValue, key: &str, positive: bool, mantissa: u64)
    requires
        jv_doc(*old(o)) is Obj,
        mantissa == 0 ==> positive,
    ensures
        jv_doc(*final(o)) == Doc::Obj(
            obj_insert(jv_doc(*old(o))->Obj_0, key@, Doc::Num(positive, mantissa, 0)),
        ),
{
    let _ = o.insert(key, json::number::Number::from_parts(positive, mantissa, 0));
}

/// Relies on `json::JsonValue::insert`, storing a string.
#[verifier::external_body]
pub(crate) fn jv_insert_str(o: &mut json::JsonValue, key: &str, s: &str)
    requires
        jv_doc(*old(o)) is Obj,
    ensures
        jv_doc(*final(o)) == Doc::Obj(obj_insert(jv_doc(*old(o))->Obj_0, key@, Doc::Str(s@))),
{
    let _ = o.insert(key, s);
}

/// Relies on `json::JsonValue::insert`, storing another JSON value whole.
#[verifier::external_body]
pub(crate) fn jv_insert_value(o: &mut json::JsonValue, key: &str, v: json::JsonValue)
    requires
        jv_doc(*old(o)) is Obj,
    ensures
        jv_doc(*final(o)) == Doc::Obj(obj_insert(jv_doc(*old(o))->Obj_0, key@, jv_doc(v))),
{
    let _ = o.insert(key, v);
}

/// Relies on `json::JsonValue::dump`: prints the value as minified JSON
/// text, a function of the held document alone.
#[verifier::external_body]
pub(crate) fn jv_dump(v: &json::JsonValue) -> (r: String)
    ensures
        r@ == dump_text(jv_doc(*v)),
{
    v.dump()
}

/// Relies on `json::parse`: yields the value a well-formed JSON text holds
/// and an error otherwise. Printing a well-formed document (see `wf_doc`)
/// yields text that parses back to that document: the printer emits valid
/// JSON whose object order, strings and exponent-zero integers the parser
/// reads back exactly.
#[verifier::external_body]
pub(crate) fn jv_parse(s: &str) -> (r: Option<json::JsonValue>)
    ensures
        match r {
            Some(v) => parsed_doc(s@) == Some(jv_doc(v)),
            None => parsed_doc(s@) is None,
        },
        forall|d: Doc|
            wf_doc(d, 500) && s@ == #[trigger] dump_text(d) ==> (r is Some && jv_doc(r->Some_0)
                == d),
{
    match json::parse(s) {
        Ok(v) => Some(v),
        Err(_) => None,
    }
}

/// Relies on `json::JsonValue::is_null` and `json::number::Number::is_nan`:
/// whether the value is a null node, counting a not-a-number, which the
/// codec prints as null.
#[verifier::external_body]
pub(crate) fn jv_is_null(v: &json::JsonValue) -> (r: bool)
    ensures
        r == (jv_doc(*v) is Null),
{
    match v.as_number() {
        Some(n) => n.is_nan(),
        None => v.is_null(),
    }
}

/// Relies on `json::JsonValue::as_bool`: the boolean held, for the boolean
/// variant only.
#[verifier::external_body]
pub(crate) fn jv_as_bool(v: &json::JsonValue) -> (r: Option<bool>)
    ensures
        r == match jv_doc(*v) {
            Doc::Bool(b) => Some(b),
            _ => None::<bool>,
        },
{
    v.as_bool()
}

/// Relies on `json::JsonValue::as_str`: the text held, for the two string
/// variants only.
#[verifier::external_body]
pub(crate) fn jv_as_str(v: &json::JsonValue) -> (r: Option<String>)
    ensures
        match r {
            Some(s) => jv_doc(*v) == Doc::Str(s@),
            None => !(jv_doc(*v) is Str),
        },
{
    match v.as_str() {
        Some(s) => Some(s.to_owned()),
        None => None,
    }
}

/// Relies on `json::JsonValue::as_number`, `json::number::Number::is_nan`
/// and `json::number::Number::as_parts`: the sign, mantissa and exponent of
/// the number held, for actual numbers only; a not-a-number counts as a
/// null node, not a number.
#[verifier::external_body]
pub(crate) fn jv_num_parts(v: &json::JsonValue) -> (r: Option<(bool, u64, i16)>)
    ensures
        r == match jv_doc(*v) {
            Doc::Num(p, m, e) => Some((p, m, e)),
            _ => None::<(bool, u64, i16)>,
        },
{
    match v.as_number() {
        Some(n) => if n.is_nan() {
            None
        } else {
            Some(n.as_parts())
        },
        None => None,
    }
}

/// Relies on `json::JsonValue::is_object`.
#[verifier::external_body]
pub(crate) fn jv_is_object(v: &json::JsonValue) -> (r: bool)
    ensures
        r == (jv_doc(*v) is Obj),
{
    v.is_object()
}

/// Relies on `json::JsonValue::entries`: the key/value entries of an object
/// in insertion order, and nothing for any other variant.
#[verifier::external_body]
pub(crate) fn jv_entries(v: &json::JsonValue) -> (r: Vec<(String, json::JsonValue)>)
    ensures
        jv_doc(*v) matches Doc::Obj(entries) ==> {
            &&& r@.len() == entries.len()
            &&& forall|i: int|
                0 <= i < entries.len() ==> (#[trigger] r@[i]).0@ == entries[i].0 && jv_doc(
                    r@[i].1,
                ) == entries[i].1
        },
        !(jv_doc(*v) is Obj) ==> r@.len() == 0,
{
    v.entries().map(|e: (&str, &json::JsonValue)| (e.0.to_owned(), e.1.clone())).collect()
}

} // verus!
