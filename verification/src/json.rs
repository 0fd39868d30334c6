//! The one place where JSON text is judged. The codecs carry JSON payloads
//! as bytes and never look inside them; whether a payload is JSON at all is
//! asked of `serde_json`.

use vstd::prelude::*;

verus! {

/// Whether `text` is exactly one well-formed JSON document in the eyes of
/// `serde_json`. Nothing else is assumed about it.
pub uninterp spec fn json_wellformed(text: Seq<u8>) -> bool;

/// Hands `text` to `serde_json::from_slice` with `serde_json::Value` as the
/// target and reports whether it parsed. The parser reads nothing but the
/// slice and works with a fixed nesting limit, so the answer depends on the
/// bytes alone; the contract only gives that answer its name.
#[verifier::external_body]
pub(crate) fn is_json(text: &[u8]) -> (ok: bool)
    ensures
        ok == json_wellformed(text@),
{
    serde_json::from_slice::<serde_json::Value>(text).is_ok()
}

/// `data` is JSON that begins with the byte `first`.
pub open spec fn json_from(data: Seq<u8>, first: u8) -> bool {
    data.len() > 0 && data[0] == first && json_wellformed(data)
}

/// `data` is JSON that begins with `[`.
pub open spec fn array_text(data: Seq<u8>) -> bool {
    json_from(data, 91)
}

/// `data` is JSON that begins with `{`.
pub open spec fn object_text(data: Seq<u8>) -> bool {
    json_from(data, 123)
}

/// `data` is JSON that begins with `"`.
pub open spec fn string_text(data: Seq<u8>) -> bool {
    json_from(data, 34)
}

/// Whether `data` begins with `first` and is JSON.
pub fn json_starts(data: &[u8], first: u8) -> (ok: bool)
    ensures
        ok == json_from(data@, first),
{
    data.len() > 0 && data[0] == first && is_json(data)
}

} // verus!
