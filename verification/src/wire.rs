use vstd::bytes::*;
use vstd::prelude::*;
use vstd::utf8::*;

use crate::packet::{packets_view, FlowwPacket, PacketView};
use crate::point::Point;

verus! {

/// Wire tag of a `Msg` packet.
pub const MSG_TAG: u8 = 0;

/// Wire tag of a `Track` packet.
pub const TRACK_TAG: u8 = 1;

/// Wire tag of a `Point` packet.
pub const POINT_TAG: u8 = 2;

/// Offset used to carry a signed value in an unsigned wire word.
pub const WIRE_OFFSET: u64 = 0x8000_0000_0000_0000;

/// The unsigned word that stands for `x` on the wire: `x` plus 2^63,
/// so that the wire order of words matches the numeric order of values.
pub open spec fn wire64(x: i64) -> u64 {
    (x + 0x8000_0000_0000_0000) as u64
}

/// The signed value a wire word stands for; inverse of `wire64`.
pub open spec fn unwire64(u: u64) -> i64 {
    (u - 0x8000_0000_0000_0000) as i64
}

/// A text payload on the wire: its UTF-8 byte length as a little-endian
/// 64-bit word, then its UTF-8 bytes.
pub open spec fn enc_str(s: Seq<char>) -> Seq<u8> {
    spec_u64_to_le_bytes(encode_utf8(s).len() as u64) + encode_utf8(s)
}

/// One packet on the wire: a tag byte, then the payload. `Msg` and
/// `Track` carry a text payload; `Point` carries four fixed-width words.
pub open spec fn enc_packet(p: PacketView) -> Seq<u8> {
    match p {
        PacketView::Msg(s) => seq![MSG_TAG] + enc_str(s),
        PacketView::Track(s) => seq![TRACK_TAG] + enc_str(s),
        PacketView::Point(pt) => seq![POINT_TAG] + spec_u64_to_le_bytes(pt.id)
            + spec_u64_to_le_bytes(wire64(pt.time)) + spec_u64_to_le_bytes(wire64(pt.note))
            + spec_u64_to_le_bytes(wire64(pt.vel)),
    }
}

/// A packet sequence's payload bytes: each packet in order.
pub open spec fn enc_list(s: Seq<PacketView>) -> Seq<u8>
    decreases s.len(),
{
    if s.len() == 0 {
        Seq::empty()
    } else {
        enc_packet(s[0]) + enc_list(s.drop_first())
    }
}

/// The whole wire image of a packet sequence: the packet count as a
/// little-endian 64-bit word, then the packets in order. Self-contained:
/// no external schema is needed to decode it.
pub open spec fn enc_packets(s: Seq<PacketView>) -> Seq<u8> {
    spec_u64_to_le_bytes(s.len() as u64) + enc_list(s)
}

/// A packet whose wire image is faithful: its text payload's UTF-8 byte
/// length fits the length word. Every packet an actual `String` can
/// carry satisfies this.
pub open spec fn wf_packet(p: PacketView) -> bool {
    match p {
        PacketView::Msg(s) => encode_utf8(s).len() <= u64::MAX,
        PacketView::Track(s) => encode_utf8(s).len() <= u64::MAX,
        PacketView::Point(pt) => true,
    }
}

/// A packet sequence whose wire image is faithful.
pub open spec fn wf_packets(s: Seq<PacketView>) -> bool {
    s.len() <= u64::MAX && forall|i: int| 0 <= i < s.len() ==> wf_packet(#[trigger] s[i])
}

/// Reading a 64-bit word off the front of the wire.
pub open spec fn dec_u64(b: Seq<u8>) -> Option<(u64, Seq<u8>)> {
    if b.len() >= 8 {
        Some((spec_u64_from_le_bytes(b.take(8)), b.skip(8)))
    } else {
        None
    }
}

/// Reading a text payload off the front of the wire: a length word,
/// then that many bytes, which must be valid UTF-8.
pub open spec fn dec_str(b: Seq<u8>) -> Option<(Seq<char>, Seq<u8>)> {
    match dec_u64(b) {
        Option::None => Option::None,
        Option::Some((n, rest)) => {
            if rest.len() >= n && valid_utf8(rest.take(n as int)) {
                Option::Some((decode_utf8(rest.take(n as int)), rest.skip(n as int)))
            } else {
                Option::None
            }
        },
    }
}

/// Reading one packet off the front of the wire.
pub open spec fn dec_packet(b: Seq<u8>) -> Option<(PacketView, Seq<u8>)> {
    if b.len() == 0 {
        Option::None
    } else if b[0] == MSG_TAG {
        match dec_str(b.drop_first()) {
            Option::None => Option::None,
            Option::Some((s, r)) => Option::Some((PacketView::Msg(s), r)),
        }
    } else if b[0] == TRACK_TAG {
        match dec_str(b.drop_first()) {
            Option::None => Option::None,
            Option::Some((s, r)) => Option::Some((PacketView::Track(s), r)),
        }
    } else if b[0] == POINT_TAG {
        match dec_u64(b.drop_first()) {
            Option::None => Option::None,
            Option::Some((id, r1)) => match dec_u64(r1) {
                Option::None => Option::None,
                Option::Some((t, r2)) => match dec_u64(r2) {
                    Option::None => Option::None,
                    Option::Some((n, r3)) => match dec_u64(r3) {
                        Option::None => Option::None,
                        Option::Some((v, r4)) => Option::Some(
                            (
                                PacketView::Point(
                                    Point {
                                        id: id,
                                        time: unwire64(t),
                                        note: unwire64(n),
                                        vel: unwire64(v),
                                    },
                                ),
                                r4,
                            ),
                        ),
                    },
                },
            },
        }
    } else {
        Option::None
    }
}

/// Reading exactly `n` packets off the front of the wire.
pub open spec fn dec_list(b: Seq<u8>, n: nat) -> Option<(Seq<PacketView>, Seq<u8>)>
    decreases n,
{
    if n == 0 {
        Option::Some((Seq::empty(), b))
    } else {
        match dec_packet(b) {
            Option::None => Option::None,
            Option::Some((p, r)) => match dec_list(r, (n - 1) as nat) {
                Option::None => Option::None,
                Option::Some((ps, r2)) => Option::Some((seq![p] + ps, r2)),
            },
        }
    }
}

/// The whole decode: the count word, then exactly that many packets,
/// with nothing left over. `None` is a corrupt stream.
pub open spec fn dec_packets(b: Seq<u8>) -> Option<Seq<PacketView>> {
    match dec_u64(b) {
        Option::None => Option::None,
        Option::Some((n, rest)) => match dec_list(rest, n as nat) {
            Option::None => Option::None,
            Option::Some((ps, r)) => {
                if r.len() == 0 {
                    Option::Some(ps)
                } else {
                    Option::None
                }
            },
        },
    }
}

/// A word round-trips through its wire form.
pub proof fn lemma_wire64_roundtrip(x: i64)
    ensures
        unwire64(wire64(x)) == x,
{
}

/// A word written then read comes back, with the rest untouched.
pub proof fn lemma_dec_u64_enc(x: u64, r: Seq<u8>)
    ensures
        dec_u64(spec_u64_to_le_bytes(x) + r) == Some((x, r)),
{
    lemma_auto_spec_u64_to_from_le_bytes();
    let b = spec_u64_to_le_bytes(x) + r;
    assert(b.take(8) =~= spec_u64_to_le_bytes(x));
    assert(b.skip(8) =~= r);
}

/// A text payload written then read comes back, with the rest untouched.
pub proof fn lemma_dec_str_enc(s: Seq<char>, r: Seq<u8>)
    requires
        encode_utf8(s).len() <= u64::MAX,
    ensures
        dec_str(enc_str(s) + r) == Some((s, r)),
{
    let bs = encode_utf8(s);
    let n = bs.len() as u64;
    assert(enc_str(s) + r =~= spec_u64_to_le_bytes(n) + (bs + r));
    lemma_dec_u64_enc(n, bs + r);
    assert((bs + r).take(n as int) =~= bs);
    assert((bs + r).skip(n as int) =~= r);
    encode_utf8_valid_utf8(s);
    encode_utf8_decode_utf8(s);
}

/// A packet written then read comes back, with the rest untouched.
pub proof fn lemma_dec_packet_enc(p: PacketView, r: Seq<u8>)
    requires
        wf_packet(p),
    ensures
        dec_packet(enc_packet(p) + r) == Some((p, r)),
{
    let b = enc_packet(p) + r;
    match p {
        PacketView::Msg(s) => {
            assert(b[0] == MSG_TAG);
            assert(b.drop_first() =~= enc_str(s) + r);
            lemma_dec_str_enc(s, r);
        },
        PacketView::Track(s) => {
            assert(b[0] == TRACK_TAG);
            assert(b.drop_first() =~= enc_str(s) + r);
            lemma_dec_str_enc(s, r);
        },
        PacketView::Point(pt) => {
            assert(b[0] == POINT_TAG);
            let w1 = spec_u64_to_le_bytes(pt.id);
            let w2 = spec_u64_to_le_bytes(wire64(pt.time));
            let w3 = spec_u64_to_le_bytes(wire64(pt.note));
            let w4 = spec_u64_to_le_bytes(wire64(pt.vel));
            assert(b.drop_first() =~= w1 + (w2 + (w3 + (w4 + r))));
            lemma_dec_u64_enc(pt.id, w2 + (w3 + (w4 + r)));
            lemma_dec_u64_enc(wire64(pt.time), w3 + (w4 + r));
            lemma_dec_u64_enc(wire64(pt.note), w4 + r);
            lemma_dec_u64_enc(wire64(pt.vel), r);
            lemma_wire64_roundtrip(pt.time);
            lemma_wire64_roundtrip(pt.note);
            lemma_wire64_roundtrip(pt.vel);
        },
    }
}

/// A packet list written then read comes back, with the rest untouched.
pub proof fn lemma_dec_list_enc(q: Seq<PacketView>, r: Seq<u8>)
    requires
        forall|i: int| 0 <= i < q.len() ==> wf_packet(#[trigger] q[i]),
    ensures
        dec_list(enc_list(q) + r, q.len()) == Some((q, r)),
    decreases q.len(),
{
    if q.len() == 0 {
        assert(enc_list(q) + r =~= r);
        assert(dec_list(r, 0) == Some((Seq::<PacketView>::empty(), r)));
        assert(Seq::<PacketView>::empty() =~= q);
    } else {
        let tail = q.drop_first();
        assert(enc_list(q) + r =~= enc_packet(q[0]) + (enc_list(tail) + r));
        lemma_dec_packet_enc(q[0], enc_list(tail) + r);
        assert(forall|i: int| 0 <= i < tail.len() ==> wf_packet(#[trigger] tail[i]));
        lemma_dec_list_enc(tail, r);
        assert(seq![q[0]] + tail =~= q);
    }
}

/// Law: the codec round-trips — decoding the encoding of any faithful
/// packet sequence yields exactly that sequence, variants, payloads and
/// order included.
pub proof fn lemma_round_trip(q: Seq<PacketView>)
    requires
        wf_packets(q),
    ensures
        dec_packets(enc_packets(q)) == Some(q),
{
    lemma_dec_u64_enc(q.len() as u64, enc_list(q));
    lemma_dec_list_enc(q, Seq::empty());
    assert(enc_list(q) + Seq::<u8>::empty() =~= enc_list(q));
}

} // verus!
