//! Proved laws of the format and helper lemmas about the spec level decoder.

use vstd::prelude::*;
use crate::model::DecodeError;
use crate::model::SpecValue;
use crate::model::can_partition;
use crate::model::is_packet_partition;
use crate::model::spec_packet_wf;
use crate::model::spec_padding;
use crate::model::spec_parse_packet;
use crate::model::spec_parse_stream;

verus! {

/// Padding law: the padding after a payload of `length` bytes is between 0
/// and 3, and rounds the payload up to a multiple of 4.
pub proof fn lemma_padding_bounds(length: int)
    requires
        length >= 0,
    ensures
        spec_padding(length) == (4 - length % 4) % 4,
        0 <= spec_padding(length) <= 3,
        (length + spec_padding(length)) % 4 == 0,
{
}

/// On success, decoding one packet consumes its 8-byte fixed header plus
/// payload and padding: at least 8 bytes, at most the whole buffer, and the
/// part beyond the header is a multiple of 4.
pub proof fn lemma_packet_consumed(i: Seq<u8>)
    requires
        spec_parse_packet(i) is Ok,
    ensures
        8 <= spec_parse_packet(i)->Ok_0.1 <= i.len(),
        (spec_parse_packet(i)->Ok_0.1 - 8) % 4 == 0,
{
    let size = i[5] as nat;
    let repeat = (i[6] as nat) * 256 + (i[7] as nat);
    let length = (size * repeat) as int;
    lemma_padding_bounds(length);
}

/// Determinism law: what a buffer decodes to is a function of its bytes
/// alone, so decoding the same bytes twice yields identical packet trees.
/// The executable decoders return exactly these spec level results.
pub proof fn lemma_decode_deterministic(b1: Seq<u8>, b2: Seq<u8>)
    requires
        b1 == b2,
    ensures
        spec_parse_stream(b1) == spec_parse_stream(b2),
        spec_parse_packet(b1) == spec_parse_packet(b2),
{
}

/// Length law: every packet that decodes from some buffer is well formed; in
/// particular a raw payload holds exactly `size * repeat` bytes.
pub proof fn lemma_parse_packet_wf(i: Seq<u8>)
    requires
        spec_parse_packet(i) is Ok,
    ensures
        spec_packet_wf(spec_parse_packet(i)->Ok_0.0),
    decreases i.len(), 0int,
{
    let size = i[5] as nat;
    let repeat = (i[6] as nat) * 256 + (i[7] as nat);
    let length = (size * repeat) as int;
    let payload = i.subrange(8, 8 + length);
    if i[4] == 0u8 {
        lemma_parse_stream_wf(payload);
    }
}

/// Every packet of a decoded stream is well formed.
pub proof fn lemma_parse_stream_wf(i: Seq<u8>)
    requires
        spec_parse_stream(i) is Ok,
    ensures
        forall|k: int|
            0 <= k < spec_parse_stream(i)->Ok_0.len() ==> spec_packet_wf(
                #[trigger] spec_parse_stream(i)->Ok_0[k],
            ),
    decreases i.len(), 1int,
{
    if i.len() != 0 {
        lemma_parse_packet_wf(i);
        lemma_packet_consumed(i);
        let n = spec_parse_packet(i)->Ok_0.1;
        lemma_parse_stream_wf(i.skip(n));
    }
}

/// Decoding one packet reads only the bytes it consumes: any buffer that
/// carries the same consumed prefix decodes to the same packet.
pub proof fn lemma_parse_packet_local(s1: Seq<u8>, s2: Seq<u8>)
    requires
        spec_parse_packet(s1) is Ok,
        spec_parse_packet(s1)->Ok_0.1 <= s2.len(),
        s2.take(spec_parse_packet(s1)->Ok_0.1) == s1.take(spec_parse_packet(s1)->Ok_0.1),
    ensures
        spec_parse_packet(s2) == spec_parse_packet(s1),
{
    lemma_packet_consumed(s1);
    let n = spec_parse_packet(s1)->Ok_0.1;
    assert forall|k: int| 0 <= k < n implies s2[k] == s1[k] by {
        assert(s2.take(n)[k] == s1.take(n)[k]);
        assert(s2.take(n)[k] == s2[k]);
        assert(s1.take(n)[k] == s1[k]);
    }
    let size = s1[5] as nat;
    let repeat = (s1[6] as nat) * 256 + (s1[7] as nat);
    let length = (size * repeat) as int;
    assert(s2.subrange(0, 4) =~= s1.subrange(0, 4));
    assert(s2.subrange(8, 8 + length) =~= s1.subrange(8, 8 + length));
}

/// A successful stream decode cuts the buffer into complete packets.
proof fn lemma_stream_gives_partition(i: Seq<u8>)
    requires
        spec_parse_stream(i) is Ok,
    ensures
        can_partition(i),
    decreases i.len(),
{
    if i.len() == 0 {
        let chunks = Seq::<Seq<u8>>::empty();
        assert(chunks.flatten() =~= i);
        assert(is_packet_partition(i, chunks));
    } else {
        lemma_packet_consumed(i);
        let n = spec_parse_packet(i)->Ok_0.1;
        lemma_stream_gives_partition(i.skip(n));
        let tailchunks = choose|c: Seq<Seq<u8>>| is_packet_partition(i.skip(n), c);
        let chunks = seq![i.take(n)] + tailchunks;
        assert(i.take(n).take(n) =~= i.take(n));
        lemma_parse_packet_local(i, i.take(n));
        assert(chunks.drop_first() =~= tailchunks);
        assert(chunks.flatten() == i.take(n) + tailchunks.flatten());
        assert(i.take(n) + i.skip(n) =~= i);
        assert(is_packet_partition(i, chunks));
    }
}

/// A buffer cut into complete packets decodes as a stream.
proof fn lemma_partition_gives_stream(i: Seq<u8>, chunks: Seq<Seq<u8>>)
    requires
        is_packet_partition(i, chunks),
    ensures
        spec_parse_stream(i) is Ok,
    decreases chunks.len(),
{
    if chunks.len() == 0 {
        assert(i =~= Seq::<u8>::empty());
    } else {
        let c0 = chunks[0];
        assert(chunks.flatten() == c0 + chunks.drop_first().flatten());
        let restbytes = chunks.drop_first().flatten();
        lemma_packet_consumed(c0);
        let n0 = spec_parse_packet(c0)->Ok_0.1;
        assert(n0 == c0.len());
        assert(i.take(n0) =~= c0.take(n0));
        lemma_parse_packet_local(c0, i);
        lemma_packet_consumed(i);
        assert(i.skip(n0) =~= restbytes);
        assert(forall|k: int|
            0 <= k < chunks.drop_first().len() ==> #[trigger] chunks.drop_first()[k]
                == chunks[k + 1]);
        lemma_partition_gives_stream(restbytes, chunks.drop_first());
    }
}

/// All-consuming law: the stream decode succeeds exactly when the buffer can
/// be cut into zero or more complete packets with no leftover bytes.
pub proof fn lemma_stream_all_consuming(i: Seq<u8>)
    ensures
        spec_parse_stream(i) is Ok <==> can_partition(i),
{
    if spec_parse_stream(i) is Ok {
        lemma_stream_gives_partition(i);
    }
    if can_partition(i) {
        let chunks = choose|c: Seq<Seq<u8>>| is_packet_partition(i, c);
        lemma_partition_gives_stream(i, chunks);
    }
}

/// Nesting law: a NUL-type packet's payload decodes as an independent,
/// all-consuming packet stream of its own; any other tag keeps the payload
/// as opaque raw bytes.
pub proof fn lemma_nesting(i: Seq<u8>)
    requires
        spec_parse_packet(i) is Ok,
    ensures
        ({
            let p = spec_parse_packet(i)->Ok_0.0;
            let payload = i.subrange(8, 8 + (p.size * p.repeat) as int);
            &&& p.tag == '\0' ==> (p.value matches SpecValue::Nested(cs)
                && spec_parse_stream(payload) == Ok::<Seq<crate::model::SpecPacket>, DecodeError>(cs)
                && can_partition(payload))
            &&& p.tag != '\0' ==> p.value == SpecValue::Raw(payload)
        }),
{
    let p = spec_parse_packet(i)->Ok_0.0;
    let payload = i.subrange(8, 8 + (p.size * p.repeat) as int);
    if p.tag == '\0' {
        lemma_stream_all_consuming(payload);
    }
}

} // verus!
