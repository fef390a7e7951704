//! The one place where this library leans on an outside JSON parser: a named
//! predicate for "these bytes are a valid JSON document", used by the stream
//! decode policy to decide whether a payload may be handed on.

use vstd::prelude::*;

verus! {

/// Whether a byte sequence is a valid JSON document, as serde_json judges it.
/// The verdict is a function of the bytes alone.
pub uninterp spec fn json_ok(s: Seq<u8>) -> bool;

/// Relies on serde_json::from_slice::<serde_json::Value>, which succeeds
/// exactly on well-formed JSON; its verdict depends on the bytes alone.
#[verifier::external_body]
pub(crate) fn is_valid_json(payload: &[u8]) -> (r: bool)
    ensures
        r == json_ok(payload@),
{
    serde_json::from_slice::<serde_json::Value>(payload).is_ok()
}

/// Whether every payload of a sequence is valid JSON.
pub open spec fn all_json_ok(ps: Seq<Seq<u8>>) -> bool {
    forall|i: int| 0 <= i < ps.len() ==> json_ok(#[trigger] ps[i])
}

} // verus!
