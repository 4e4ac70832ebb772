//! Mathematical model of the chunk format: ghost packet trees and the spec
//! level decoder that the executable functions are proved against.

use vstd::prelude::*;

verus! {

/// Ghost form of a decoded packet value: either raw payload bytes or a
/// nested, fully decoded packet stream.
#[verifier::ext_equal]
pub enum SpecValue {
    Raw(Seq<u8>),
    Nested(Seq<SpecPacket>),
}

/// Ghost form of a decoded packet.
#[verifier::ext_equal]
pub struct SpecPacket {
    pub key: Seq<char>,
    pub tag: char,
    pub size: nat,
    pub repeat: nat,
    pub value: SpecValue,
}

/// Why a decode failed.
#[derive(Clone, Copy, Debug, PartialEq, Eq, Structural)]
pub enum DecodeError {
    /// The buffer ends before a header field, the payload or the padding is
    /// fully present.
    Incomplete,
    /// The type byte is outside the legal alphabet.
    InvalidTypeTag,
    /// The recursive decode of a NUL-type payload failed.
    MalformedNestedPayload,
    /// The all-consuming stream decode left unconsumed input.
    TrailingBytes,
}

/// Latin-1 text decoding: every byte becomes the Unicode code point of the
/// same value.
pub open spec fn latin1_decode(bytes: Seq<u8>) -> Seq<char> {
    bytes.map_values(|b: u8| b as char)
}

/// The legal type-tag alphabet. NUL marks a nested packet stream.
pub open spec fn is_legal_tag(c: char) -> bool {
    ||| c == 'b' ||| c == 'B' ||| c == 'c' ||| c == 'd' ||| c == 'f' ||| c == 'F'
    ||| c == 'g' ||| c == 'j' ||| c == 'J' ||| c == 'l' ||| c == 'L' ||| c == 'q'
    ||| c == 'Q' ||| c == 's' ||| c == 'S' ||| c == 'U' ||| c == '?' ||| c == '\0'
}

/// Bytes of padding after a payload of `length` bytes: the least amount that
/// rounds `length` up to a multiple of 4.
pub open spec fn spec_padding(length: int) -> int {
    (4 - length % 4) % 4
}

/// Decodes one packet from the front of `i`. On success yields the packet and
/// the number of bytes consumed: the 8-byte header, the payload and the
/// padding.
pub open spec fn spec_parse_packet(i: Seq<u8>) -> Result<(SpecPacket, int), DecodeError>
    decreases i.len(), 0int,
{
    if i.len() < 5 {
        Err(DecodeError::Incomplete)
    } else if !is_legal_tag(i[4] as char) {
        Err(DecodeError::InvalidTypeTag)
    } else if i.len() < 8 {
        Err(DecodeError::Incomplete)
    } else {
        let size = i[5] as nat;
        let repeat = (i[6] as nat) * 256 + (i[7] as nat);
        let length = (size * repeat) as int;
        let padding = spec_padding(length);
        if i.len() < 8 + length + padding {
            Err(DecodeError::Incomplete)
        } else {
            let payload = i.subrange(8, 8 + length);
            let consumed = 8 + length + padding;
            if i[4] == 0u8 {
                match spec_parse_stream(payload) {
                    Ok(children) => Ok((
                        SpecPacket {
                            key: latin1_decode(i.subrange(0, 4)),
                            tag: i[4] as char,
                            size,
                            repeat,
                            value: SpecValue::Nested(children),
                        },
                        consumed,
                    )),
                    Err(_) => Err(DecodeError::MalformedNestedPayload),
                }
            } else {
                Ok((
                    SpecPacket {
                        key: latin1_decode(i.subrange(0, 4)),
                        tag: i[4] as char,
                        size,
                        repeat,
                        value: SpecValue::Raw(payload),
                    },
                    consumed,
                ))
            }
        }
    }
}

/// Decodes a whole buffer as a packet stream: zero or more packets, greedily,
/// with nothing left over. Any leftover input, whatever made the next packet
/// fail, is `TrailingBytes`.
pub open spec fn spec_parse_stream(i: Seq<u8>) -> Result<Seq<SpecPacket>, DecodeError>
    decreases i.len(), 1int,
{
    if i.len() == 0 {
        Ok(Seq::empty())
    } else {
        match spec_parse_packet(i) {
            Ok((p, n)) => {
                // a decoded packet always consumes at least its 8-byte header
                // and at most the buffer; the test keeps the recursion well
                // founded
                if 0 < n <= i.len() {
                    match spec_parse_stream(i.skip(n)) {
                        Ok(tail) => Ok(seq![p] + tail),
                        Err(e) => Err(e),
                    }
                } else {
                    Err(DecodeError::TrailingBytes)
                }
            },
            Err(_) => Err(DecodeError::TrailingBytes),
        }
    }
}

/// A chunk of bytes that is exactly one packet: decoding it consumes the
/// chunk in full.
pub open spec fn is_complete_packet(chunk: Seq<u8>) -> bool {
    match spec_parse_packet(chunk) {
        Ok((p, n)) => n == chunk.len(),
        Err(_) => false,
    }
}

/// `chunks` cuts `i` into zero or more pieces, each of which is exactly one
/// packet.
pub open spec fn is_packet_partition(i: Seq<u8>, chunks: Seq<Seq<u8>>) -> bool {
    &&& chunks.flatten() == i
    &&& forall|k: int| 0 <= k < chunks.len() ==> is_complete_packet(#[trigger] chunks[k])
}

/// `i` can be cut into zero or more complete packets with no leftover bytes.
pub open spec fn can_partition(i: Seq<u8>) -> bool {
    exists|chunks: Seq<Seq<u8>>| is_packet_partition(i, chunks)
}

/// Structural well-formedness of a decoded packet: the key has 4 characters,
/// the tag is legal, a raw payload holds exactly `size * repeat` bytes, and a
/// payload is nested exactly when the tag is NUL.
pub open spec fn spec_packet_wf(p: SpecPacket) -> bool
    decreases p,
{
    &&& p.key.len() == 4
    &&& is_legal_tag(p.tag)
    &&& p.size <= 255
    &&& p.repeat <= 65535
    &&& match p.value {
        SpecValue::Raw(b) => p.tag != '\0' && b.len() == p.size * p.repeat,
        SpecValue::Nested(cs) => p.tag == '\0' && forall|k: int|
            0 <= k < cs.len() ==> spec_packet_wf(#[trigger] cs[k]),
    }
}

} // verus!
