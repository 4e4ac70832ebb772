//! The executable decoder: packet trees of owned values, decoded from a byte
//! buffer and proved equal to the spec level decode of the same bytes.

use vstd::prelude::*;
use vstd::slice::slice_subrange;
use vstd::slice::slice_to_vec;
use vstd::slice::slice_index_get;
use super::parse_fourcc;
use super::Key;
use crate::model::DecodeError;
use crate::model::SpecPacket;
use crate::model::SpecValue;
use crate::model::is_legal_tag;
use crate::model::spec_parse_packet;
use crate::model::spec_parse_stream;
use crate::props::lemma_packet_consumed;

verus! {

broadcast use vstd::std_specs::vec::group_vec_axioms;

/// A packet's value: raw payload bytes, or the nested packet stream a NUL
/// type tag marks.
#[derive(Debug)]
pub enum Value {
    Raw(Vec<u8>),
    Nested(Vec<Packet>),
}

/// One decoded packet: 4-character key, type tag, element size, repeat
/// count, and the payload value.
#[derive(Debug)]
pub struct Packet {
    pub key: Key,
    pub tag: char,
    pub size: usize,
    pub repeat: usize,
    pub value: Value,
}

/// The ghost packet a decoded packet stands for.
pub open spec fn packet_view(p: Packet) -> SpecPacket
    decreases p,
{
    SpecPacket {
        key: p.key@,
        tag: p.tag,
        size: p.size as nat,
        repeat: p.repeat as nat,
        value: value_view(p.value),
    }
}

/// The ghost value a decoded value stands for.
pub open spec fn value_view(v: Value) -> SpecValue
    decreases v via value_view_decreases
{
    match v {
        Value::Raw(b) => SpecValue::Raw(b@),
        Value::Nested(ps) => SpecValue::Nested(packets_view(ps@)),
    }
}

#[via_fn]
proof fn value_view_decreases(v: Value) {
    match v {
        Value::Raw(b) => {},
        Value::Nested(ps) => {
            assert(decreases_to!(v => ps));
            assert(decreases_to!(ps => ps@));
        },
    }
}

/// The ghost packets a sequence of decoded packets stands for.
pub open spec fn packets_view(ps: Seq<Packet>) -> Seq<SpecPacket>
    decreases ps,
{
    if ps.len() == 0 {
        Seq::empty()
    } else {
        seq![packet_view(ps[0])] + packets_view(ps.drop_first())
    }
}

/// `packets_view` maps each packet to its view, in order.
pub proof fn lemma_packets_view_index(ps: Seq<Packet>)
    ensures
        packets_view(ps).len() == ps.len(),
        forall|k: int| 0 <= k < ps.len() ==> packets_view(ps)[k] == packet_view(ps[k]),
    decreases ps.len(),
{
    if ps.len() > 0 {
        lemma_packets_view_index(ps.drop_first());
    }
}

/// Appending one packet appends its view.
pub proof fn lemma_packets_view_push(ps: Seq<Packet>, p: Packet)
    ensures
        packets_view(ps.push(p)) == packets_view(ps) + seq![packet_view(p)],
{
    lemma_packets_view_index(ps.push(p));
    lemma_packets_view_index(ps);
    assert(packets_view(ps.push(p)) =~= packets_view(ps) + seq![packet_view(p)]);
}

/// Checks membership in the legal type-tag alphabet.
pub fn legal_tag(c: char) -> (r: bool)
    ensures
        r == is_legal_tag(c),
{
    c == 'b' || c == 'B' || c == 'c' || c == 'd' || c == 'f' || c == 'F' || c == 'g'
        || c == 'j' || c == 'J' || c == 'l' || c == 'L' || c == 'q' || c == 'Q' || c == 's'
        || c == 'S' || c == 'U' || c == '?' || c == '\0'
}

impl Packet {
    /// Decodes exactly one packet from the front of `i` and returns it with
    /// the unconsumed remainder of the buffer. The result, and which error
    /// comes back on which input, is exactly the spec level decode
    /// `spec_parse_packet`.
    pub fn parse<'a>(i: &'a [u8]) -> (r: Result<(Packet, &'a [u8]), DecodeError>)
        ensures
            match spec_parse_packet(i@) {
                Ok((sp, n)) => (r matches Ok((p, rest))
                    && packet_view(p) == sp
                    && rest@ == i@.skip(n)),
                Err(e) => (r matches Err(e2) && e2 == e),
            },
        decreases i@.len(), 0int,
    {
        let n_total = i.len();
        if n_total < 5 {
            return Err(DecodeError::Incomplete);
        }
        let key = match parse_fourcc(i) {
            Ok(kr) => kr.0,
            Err(e) => {
                return Err(e);
            },
        };
        let tag_byte = *slice_index_get(i, 4);
        let tag = tag_byte as char;
        if !legal_tag(tag) {
            return Err(DecodeError::InvalidTypeTag);
        }
        if n_total < 8 {
            return Err(DecodeError::Incomplete);
        }
        let size = *slice_index_get(i, 5) as usize;
        let repeat = (*slice_index_get(i, 6) as usize) * 256 + (*slice_index_get(i, 7) as usize);
        assert(size * repeat <= 255 * 65535) by (nonlinear_arith)
            requires
                size <= 255,
                repeat <= 65535,
        ;
        let length = size * repeat;
        let padding = (4 - length % 4) % 4;
        if n_total < 8 + length + padding {
            return Err(DecodeError::Incomplete);
        }
        let payload = slice_subrange(i, 8, 8 + length);
        let rest = slice_subrange(i, 8 + length + padding, n_total);
        let value = if tag_byte == 0 {
            match parse_stream(payload) {
                Ok(children) => Value::Nested(children),
                Err(_) => {
                    return Err(DecodeError::MalformedNestedPayload);
                },
            }
        } else {
            Value::Raw(slice_to_vec(payload))
        };
        let p = Packet { key, tag, size, repeat, value };
        Ok((p, rest))
    }
}

/// Decodes a whole buffer as a packet stream: zero or more packets in
/// encounter order, with nothing left over. The result, and when
/// `TrailingBytes` comes back, is exactly the spec level decode
/// `spec_parse_stream`.
pub fn parse_stream<'a>(i: &'a [u8]) -> (r: Result<Vec<Packet>, DecodeError>)
    ensures
        match spec_parse_stream(i@) {
            Ok(sps) => (r matches Ok(v) && packets_view(v@) == sps),
            Err(e) => (r matches Err(e2) && e2 == e),
        },
    decreases i@.len(), 1int,
{
    let mut rest: &[u8] = i;
    let mut out: Vec<Packet> = Vec::new();
    while rest.len() != 0
        invariant
            rest@.len() <= i@.len(),
            match spec_parse_stream(rest@) {
                Ok(tail) => spec_parse_stream(i@) == Ok::<Seq<SpecPacket>, DecodeError>(
                    packets_view(out@) + tail,
                ),
                Err(e) => spec_parse_stream(i@) == Err::<Seq<SpecPacket>, DecodeError>(e),
            },
        decreases rest@.len(),
    {
        match Packet::parse(rest) {
            Ok(pr) => {
                let (p, r2) = pr;
                proof {
                    lemma_packet_consumed(rest@);
                    let n = spec_parse_packet(rest@)->Ok_0.1;
                    let vp = spec_parse_packet(rest@)->Ok_0.0;
                    lemma_packets_view_push(out@, p);
                    if spec_parse_stream(r2@) is Ok {
                        let tail2 = spec_parse_stream(r2@)->Ok_0;
                        assert(spec_parse_stream(rest@) == Ok::<Seq<SpecPacket>, DecodeError>(
                            seq![vp] + tail2,
                        ));
                        assert(packets_view(out@) + (seq![vp] + tail2) =~= packets_view(
                            out@.push(p),
                        ) + tail2);
                    }
                }
                out.push(p);
                rest = r2;
            },
            Err(_) => {
                return Err(DecodeError::TrailingBytes);
            },
        }
    }
    proof {
        assert(packets_view(out@) + Seq::<SpecPacket>::empty() =~= packets_view(out@));
    }
    Ok(out)
}

} // verus!
