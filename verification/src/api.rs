use vstd::prelude::*;
use crate::codec::{dec_result, enc_result};
use crate::decode::decode_result;
use crate::encode::encode_result;
use crate::json::Json;
use crate::types::{DecodeError, ErrV, QueryResult, QueryResultV};
use crate::wire::{parse_json, parse_text, ser_json, to_text};

verus! {

/// What decoding a whole response text yields: a failure on anything that
/// is not JSON, else the decode of the parsed value.
pub open spec fn dec_text(s: Seq<char>) -> Result<QueryResultV, ErrV> {
    match parse_text(s) {
        Option::None => Result::Err(ErrV::MalformedJson),
        Option::Some(j) => dec_result(j),
    }
}

/// The encoded text of a result: its envelope JSON, printed.
pub open spec fn enc_text(r: QueryResultV) -> Seq<char> {
    ser_json(enc_result(r))
}

impl QueryResult {
    /// Decode a response body of the query API: parse the text, then
    /// decode the envelope and its data payload.
    pub fn decode(s: &str) -> (r: Result<QueryResult, DecodeError>)
        ensures
            crate::types::out_view(r) == dec_text(s@),
    {
        match parse_json(s) {
            Result::Err(e) => Result::Err(e),
            Result::Ok(j) => decode_result(&j),
        }
    }

    /// Encode this result as a response body: the envelope JSON, printed
    /// without extra whitespace.
    pub fn encode(&self) -> (r: String)
        ensures
            r@ == enc_text(self@),
    {
        to_text(&encode_result(self))
    }
}

} // verus!
