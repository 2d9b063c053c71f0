//! Serialization of circuit inputs for the witness-computation engine.
//!
//! The engine consumes a JSON object mapping signal names to arrays of
//! decimal-string values.  Building that text is `serde_json`'s work; the
//! call stands behind one trusted wrapper whose result is named by
//! [`inputs_json`].

use std::collections::HashMap;
use vstd::prelude::*;

verus! {

/// The JSON object text that an input map serializes to.  Named, not
/// defined: the exact text is `serde_json`'s, but it is a function of the
/// map contents alone.
pub uninterp spec fn inputs_json(inputs: Map<String, Vec<String>>) -> Seq<char>;

/// Serialize a map from signal names to value strings into the JSON
/// object text the witness-computation engine consumes.
///
/// Relies on `serde_json::Value::from` and `serde_json::to_string`: each
/// value list becomes a JSON array of strings, and the object is backed —
/// with the crate's default features — by an ordered map, so the text
/// depends on the map contents alone, not on the order the entries are
/// visited in.  Serializing such an object cannot fail: every key is a
/// string.
#[verifier::external_body]
pub fn convert_inputs_to_json(inputs: HashMap<String, Vec<String>>) -> (r: String)
    ensures
        r@ == inputs_json(inputs@),
{
    let json_map: serde_json::Map<String, serde_json::Value> = inputs
        .into_iter()
        .map(|(key, values)| (key, serde_json::Value::from(values)))
        .collect();
    let json = serde_json::Value::Object(json_map);
    serde_json::to_string(&json).unwrap()
}

} // verus!
