//! Decoder for a tagged, length-prefixed, recursively nestable binary chunk
//! format: each packet carries a 4-byte Latin-1 key, a one-byte type tag from
//! a fixed alphabet, an element size, a big-endian repeat count, a payload of
//! `size * repeat` bytes, and padding that rounds the payload up to a 32-bit
//! boundary. A NUL type tag marks a payload that is itself a complete packet
//! stream; decoding is all-consuming at every nesting level.

pub mod model;
pub mod props;
pub mod raw;

use vstd::prelude::*;
use vstd::slice::slice_subrange;
use crate::model::DecodeError;
use crate::model::latin1_decode;

verus! {

/// A packet key: the 4-byte tag decoded as Latin-1 text.
pub type Key = String;

/// Relies on `encoding_rs::mem::decode_latin1`: every input byte becomes the
/// Unicode code point of the same value, so the result has one character per
/// byte.
#[verifier::external_body]
fn latin1_to_string(b: &[u8]) -> (r: Key)
    ensures
        r@ == latin1_decode(b@),
{
    encoding_rs::mem::decode_latin1(b).into_owned()
}

/// Decodes the 4-byte key at the front of `i` as Latin-1 text and returns it
/// with the unconsumed remainder.
fn parse_fourcc<'a>(i: &'a [u8]) -> (r: Result<(Key, &'a [u8]), DecodeError>)
    ensures
        i@.len() >= 4 ==> (r matches Ok((k, rest))
            && k@ == latin1_decode(i@.subrange(0, 4))
            && rest@ == i@.skip(4)),
        i@.len() < 4 ==> (r matches Err(e) && e == DecodeError::Incomplete),
{
    if i.len() < 4 {
        Err(DecodeError::Incomplete)
    } else {
        let bytes = slice_subrange(i, 0, 4);
        let key = latin1_to_string(bytes);
        let rest = slice_subrange(i, 4, i.len());
        Ok((key, rest))
    }
}

} // verus!
