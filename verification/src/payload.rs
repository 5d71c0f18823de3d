//! The bytes of a payload, as `cosmwasm_std` encodes them.

use cosmwasm_std::StdError;
use vstd::pervasive::unreached;
use vstd::prelude::*;

verus! {

/// `cosmwasm_std::StdError`, the error of that crate's encoders.
#[verifier::external_type_specification]
#[verifier::external_body]
pub struct ExStdError(StdError);

/// The bytes that `cosmwasm_std::to_json_binary` gives for a string: its
/// JSON text, quoted and escaped.
pub uninterp spec fn json_binary(text: Seq<char>) -> Seq<u8>;

/// `cosmwasm_std::to_json_binary` on a string slice, with the bytes taken out
/// of the `Binary`. For a string the encoder writes a quote, the escaped
/// characters and a quote, and never fails; the bytes depend on the text
/// alone.
#[verifier::external_body]
fn to_binary(text: &str) -> (r: Result<Vec<u8>, StdError>)
    ensures
        r is Ok,
        r->Ok_0@ == json_binary(text@),
{
    cosmwasm_std::to_json_binary(text).map(Vec::from)
}

/// The encoded form of `text`.
pub fn encode(text: &str) -> (r: Vec<u8>)
    ensures
        r@ == json_binary(text@),
{
    match to_binary(text) {
        Ok(bytes) => bytes,
        Err(_) => unreached(),
    }
}

} // verus!
