//! Shared trusted access to the outside JSON library's value type.
//! Each function wraps one small accessor chain; the record-level
//! decoders build on these and carry the contracts.

use vstd::prelude::*;

verus! {

#[verifier::external_type_specification]
#[verifier::external_body]
pub struct ExValue(serde_json::Value);

/// Relies on serde_json's `Value::get` and `Value::as_str`: the string
/// field stored under `k`, when the value is an object holding one.
#[verifier::external_body]
pub(crate) fn json_str(v: &serde_json::Value, k: &str) -> (r: Option<String>) {
    v.get(k).and_then(|x| x.as_str()).map(str::to_string)
}

/// Relies on serde_json's `Value::get` and `Value::as_f64`: the
/// numeric field stored under `k`, truncated towards zero.
#[verifier::external_body]
pub(crate) fn json_num_trunc(v: &serde_json::Value, k: &str) -> (r: Option<u64>) {
    v.get(k).and_then(|x| x.as_f64()).map(|d| d as u64)
}

/// Relies on serde_json's `Value::get` and `Value::as_u64`: the
/// unsigned integer field stored under `k`.
#[verifier::external_body]
pub(crate) fn json_u64(v: &serde_json::Value, k: &str) -> (r: Option<u64>) {
    v.get(k).and_then(|x| x.as_u64())
}

} // verus!
