//! Trusted interface to the JSON codec that encodes the backing file:
//! a single flat JSON object of string keys and string values.

use vstd::prelude::*;

use crate::storage::pairs_map;
use crate::storage::unique_keys;

verus! {

/// The mapping that a JSON text encodes: `Some(m)` exactly when the text is
/// one valid JSON object of string keys and string values (with no trailing
/// structure), where `m` holds its entries with a later duplicate key
/// winning; `None` otherwise. Names the result of
/// `serde_json::from_str::<BTreeMap<String, String>>`, which depends on the
/// text alone.
pub uninterp spec fn json_object_of(text: Seq<char>) -> Option<Map<Seq<char>, Seq<char>>>;

/// The JSON text that a mapping is encoded as: one JSON object holding
/// exactly the mapping's entries, in ascending key order. Names the result
/// of `serde_json::to_string` on an ordered map, which depends on the
/// entries alone.
pub uninterp spec fn json_text_of(m: Map<Seq<char>, Seq<char>>) -> Seq<char>;

#[verifier::external_type_specification]
#[verifier::external_body]
pub struct ExSerdeJsonError(serde_json::Error);

/// Relies on `serde_json::from_str::<BTreeMap<String, String>>`: it returns
/// the entries of the object when the text is one valid JSON object of
/// strings, and an error otherwise; the returned map's keys are distinct.
#[verifier::external_body]
pub(crate) fn parse_object(text: &str) -> (r: Result<Vec<(String, String)>, serde_json::Error>)
    ensures
        r matches Ok(pairs) ==> unique_keys(pairs@) && json_object_of(text@) == Some(
            pairs_map(pairs@),
        ),
        r is Err <==> json_object_of(text@) is None,
{
    match serde_json::from_str::<std::collections::BTreeMap<String, String>>(text) {
        Ok(m) => Ok(m.into_iter().collect()),
        Err(e) => Err(e),
    }
}

/// Relies on `serde_json::to_string` on a `BTreeMap<&str, &str>`: it writes
/// one JSON object holding exactly the map's entries in ascending key order
/// (at least `{}`, so never empty), and `serde_json::from_str` parses that
/// text back to the same entries. The call cannot fail: serialization
/// errors arise only from non-string keys or a failing `Serialize`
/// implementation, and the output goes to an in-memory buffer.
#[verifier::external_body]
pub(crate) fn render_object(pairs: &Vec<(String, String)>) -> (r: Result<
    String,
    serde_json::Error,
>)
    ensures
        r is Ok,
        r matches Ok(text) ==> text@ == json_text_of(pairs_map(pairs@)) && json_object_of(text@)
            == Some(pairs_map(pairs@)) && text@.len() > 0,
{
    let mut m = std::collections::BTreeMap::new();
    for p in pairs.iter() {
        m.insert(p.0.as_str(), p.1.as_str());
    }
    serde_json::to_string(&m)
}

} // verus!
