//! Storage encoding of an edit record's two sequences: each is kept on
//! disk as one JSON array (absent entries as `null`), encoded and decoded
//! through serde_json.

use vstd::prelude::*;

use crate::error::StoreError;

verus! {

/// The JSON rendering of a timestamp sequence.
pub uninterp spec fn times_json_of(ts: Seq<Option<i64>>) -> Seq<char>;

/// The JSON rendering of a content-snapshot sequence.
pub uninterp spec fn contents_json_of(cs: Seq<Option<Seq<char>>>) -> Seq<char>;

/// Relies on `serde_json::to_string`: the rendering is a function of the
/// sequence alone, and serializing a vector of optional integers cannot
/// fail, so the error arm is never taken.
#[verifier::external_body]
pub(crate) fn encode_times(v: &Vec<Option<i64>>) -> (r: String)
    ensures
        r@ == times_json_of(v@),
{
    match serde_json::to_string(v) {
        Ok(s) => s,
        Err(_) => String::new(),
    }
}

/// Relies on `serde_json::from_str`: deserializing the exact string that
/// `serde_json::to_string` produced for a value yields that value back
/// (serde_json documents this round trip for such self-describing types).
#[verifier::external_body]
pub(crate) fn decode_times(s: &str) -> (r: Option<Vec<Option<i64>>>)
    ensures
        r matches Some(v) ==> forall|ts: Seq<Option<i64>>| s@ == times_json_of(ts) ==> v@ == ts,
        r is None ==> forall|ts: Seq<Option<i64>>| s@ != times_json_of(ts),
{
    serde_json::from_str::<Vec<Option<i64>>>(s).ok()
}

/// Relies on `serde_json::to_string`: the rendering is a function of the
/// sequence alone, and serializing a vector of optional strings cannot
/// fail, so the error arm is never taken.
#[verifier::external_body]
pub(crate) fn encode_contents(v: &Vec<Option<String>>) -> (r: String)
    ensures
        r@ == contents_json_of(v.deep_view()),
{
    match serde_json::to_string(v) {
        Ok(s) => s,
        Err(_) => String::new(),
    }
}

/// Relies on `serde_json::from_str`: deserializing the exact string that
/// `serde_json::to_string` produced for a value yields that value back
/// (serde_json documents this round trip for such self-describing types).
#[verifier::external_body]
pub(crate) fn decode_contents(s: &str) -> (r: Option<Vec<Option<String>>>)
    ensures
        r matches Some(v) ==> forall|cs: Seq<Option<Seq<char>>>|
            s@ == contents_json_of(cs) ==> v.deep_view() == cs,
        r is None ==> forall|cs: Seq<Option<Seq<char>>>| s@ != contents_json_of(cs),
{
    serde_json::from_str::<Vec<Option<String>>>(s).ok()
}

/// Rebuilds an edit row's two sequences from their stored JSON form, as
/// persisted storage hands them back. The strings that `insert_edit`
/// wrote always decode to exactly the sequences they were written from;
/// a string that decodes as neither is reported as `Malformed`.
pub fn decode_edit_sequences(times_json: &str, contents_json: &str) -> (r: Result<
    (Vec<Option<i64>>, Vec<Option<String>>),
    StoreError,
>)
    ensures
        forall|ts: Seq<Option<i64>>, cs: Seq<Option<Seq<char>>>|
            times_json@ == times_json_of(ts) && contents_json@ == contents_json_of(cs) ==> (
            r matches Ok(p) && p.0@ == ts && p.1.deep_view() == cs),
        (r matches Err(e) ==> e == StoreError::Malformed),
{
    let ts = match decode_times(times_json) {
        Some(t) => t,
        None => {
            return Err(StoreError::Malformed);
        },
    };
    let cs = match decode_contents(contents_json) {
        Some(c) => c,
        None => {
            return Err(StoreError::Malformed);
        },
    };
    Ok((ts, cs))
}

} // verus!
