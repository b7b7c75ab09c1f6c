use vstd::bytes::*;
use vstd::prelude::*;
use vstd::slice::*;
use vstd::utf8::*;

use crate::packet::{packets_view, FlowwPacket, PacketView};
use crate::point::Point;
use crate::wire::{
    dec_list, dec_packet, dec_packets, dec_str, dec_u64, enc_list, enc_packet, enc_packets,
    enc_str, unwire64, wf_packet, wf_packets, wire64, MSG_TAG, POINT_TAG, TRACK_TAG, WIRE_OFFSET,
};

verus! {

/// Why a byte stream failed to decode as a packet batch. The protocol
/// treats every corruption alike: a recoverable streaming condition.
#[derive(Clone, Copy, PartialEq, Eq, Structural, Debug)]
pub enum DecodeError {
    Malformed,
}

/// The wire word for `x`, computed without leaving `i64`/`u64` range.
fn wire64_of(x: i64) -> (u: u64)
    ensures
        u == wire64(x),
{
    if x >= 0 {
        (x as u64) + WIRE_OFFSET
    } else {
        ((x + 0x4000_0000_0000_0000i64) + 0x4000_0000_0000_0000i64) as u64
    }
}

/// The signed value of a wire word; inverse of `wire64_of`.
fn unwire64_of(u: u64) -> (x: i64)
    ensures
        x == unwire64(u),
{
    if u >= WIRE_OFFSET {
        (u - WIRE_OFFSET) as i64
    } else {
        ((u as i64) - 0x4000_0000_0000_0000i64) - 0x4000_0000_0000_0000i64
    }
}

/// Appending a packet to a list appends its bytes to the list's bytes.
proof fn lemma_enc_list_snoc(q: Seq<PacketView>, p: PacketView)
    ensures
        enc_list(q.push(p)) == enc_list(q) + enc_packet(p),
    decreases q.len(),
{
    let w = q.push(p);
    assert(w.len() == q.len() + 1);
    if q.len() == 0 {
        assert(w[0] == p);
        assert(w.drop_first() =~= Seq::<PacketView>::empty());
        assert(enc_list(w) == enc_packet(p) + enc_list(Seq::<PacketView>::empty()));
        assert(enc_list(w) =~= enc_list(q) + enc_packet(p));
    } else {
        assert(w[0] == q[0]);
        assert(w.drop_first() =~= q.drop_first().push(p));
        lemma_enc_list_snoc(q.drop_first(), p);
        assert(enc_list(w) == enc_packet(q[0]) + enc_list(q.drop_first().push(p)));
        assert(enc_list(w) =~= enc_list(q) + enc_packet(p));
    }
}

/// Append a 64-bit word to the output, little-endian.
fn write_u64(out: &mut Vec<u8>, x: u64)
    ensures
        final(out)@ == old(out)@ + spec_u64_to_le_bytes(x),
{
    let mut word = u64_to_le_bytes(x);
    out.append(&mut word);
}

/// Append a text payload to the output: length word, then UTF-8 bytes.
fn write_str(out: &mut Vec<u8>, s: &String)
    ensures
        final(out)@ == old(out)@ + enc_str(s@),
        encode_utf8(s@).len() <= u64::MAX,
{
    let bs: &[u8] = s.as_str().as_bytes();
    let n: usize = bs.len();
    write_u64(out, n as u64);
    out.extend_from_slice(bs);
    proof {
        assert(final(out)@ =~= old(out)@ + enc_str(s@));
    }
}

/// Append one packet to the output.
fn write_packet(out: &mut Vec<u8>, p: &FlowwPacket)
    ensures
        final(out)@ == old(out)@ + enc_packet(p@),
        wf_packet(p@),
{
    match p {
        FlowwPacket::Msg(s) => {
            out.push(MSG_TAG);
            write_str(out, s);
            proof {
                assert(final(out)@ =~= old(out)@ + enc_packet(p@));
            }
        },
        FlowwPacket::Track(s) => {
            out.push(TRACK_TAG);
            write_str(out, s);
            proof {
                assert(final(out)@ =~= old(out)@ + enc_packet(p@));
            }
        },
        FlowwPacket::Point(pt) => {
            out.push(POINT_TAG);
            write_u64(out, pt.id);
            write_u64(out, wire64_of(pt.time));
            write_u64(out, wire64_of(pt.note));
            write_u64(out, wire64_of(pt.vel));
            proof {
                assert(final(out)@ =~= old(out)@ + enc_packet(p@));
            }
        },
    }
}

/// Serialization of an ordered packet sequence into one self-contained
/// binary blob. Encoding a well-formed sequence cannot fail.
pub trait Encodable {
    /// The bytes this value encodes to, as contracts see them.
    spec fn spec_encoding(&self) -> Seq<u8>;

    /// The faithfulness condition the encoder establishes of its input.
    spec fn spec_wf(&self) -> bool;

    fn encode(&self) -> (r: Vec<u8>)
        ensures
            r@ == self.spec_encoding(),
            self.spec_wf(),
    ;

    /// Value-consuming form of `encode`.
    fn encoded(self) -> (r: Vec<u8>)
        ensures
            r@ == self.spec_encoding(),
            self.spec_wf(),
    ;
}

impl Encodable for Vec<FlowwPacket> {
    open spec fn spec_encoding(&self) -> Seq<u8> {
        enc_packets(packets_view(self@))
    }

    open spec fn spec_wf(&self) -> bool {
        wf_packets(packets_view(self@))
    }

    fn encode(&self) -> (r: Vec<u8>) {
        let ghost all = packets_view(self@);
        let mut out: Vec<u8> = Vec::new();
        write_u64(&mut out, self.len() as u64);
        let mut i: usize = 0;
        while i < self.len()
            invariant
                i <= self@.len(),
                all == packets_view(self@),
                out@ == spec_u64_to_le_bytes(self@.len() as u64) + enc_list(all.take(i as int)),
                forall|k: int| 0 <= k < i ==> wf_packet(#[trigger] all[k]),
            decreases self@.len() - i,
        {
            write_packet(&mut out, &self[i]);
            proof {
                assert(all.take(i + 1 as int) =~= all.take(i as int).push(all[i as int]));
                lemma_enc_list_snoc(all.take(i as int), all[i as int]);
                assert(out@ =~= spec_u64_to_le_bytes(self@.len() as u64) + enc_list(
                    all.take(i + 1 as int),
                ));
            }
            i = i + 1;
        }
        proof {
            assert(all.take(self@.len() as int) =~= all);
        }
        out
    }

    fn encoded(self) -> (r: Vec<u8>) {
        self.encode()
    }
}

/// Relies on `String::from_utf8`: it returns (only) the string whose
/// UTF-8 encoding is the given bytes, and rejects exactly the byte
/// sequences that are not valid UTF-8.
#[verifier::external_body]
fn string_from_utf8(v: Vec<u8>) -> (r: Option<String>)
    ensures
        match r {
            Some(s) => encode_utf8(s@) == v@,
            None => !valid_utf8(v@),
        },
{
    match String::from_utf8(v) {
        Ok(s) => Some(s),
        Err(_) => None,
    }
}

/// Read a 64-bit word at `pos`; `None` on truncation.
fn read_u64(bytes: &Vec<u8>, pos: usize) -> (r: Option<(u64, usize)>)
    requires
        pos <= bytes@.len(),
    ensures
        match r {
            Some(pair) => pos <= pair.1 <= bytes@.len() && dec_u64(bytes@.skip(pos as int))
                == Some((pair.0, bytes@.skip(pair.1 as int))),
            None => dec_u64(bytes@.skip(pos as int)) is None,
        },
{
    if bytes.len() - pos >= 8 {
        let sl = slice_subrange(bytes.as_slice(), pos, pos + 8);
        let x = u64_from_le_bytes(sl);
        proof {
            assert(bytes@.skip(pos as int).take(8) =~= bytes@.subrange(pos as int, pos + 8));
            assert(bytes@.skip(pos as int).skip(8) =~= bytes@.skip(pos + 8));
        }
        Some((x, pos + 8))
    } else {
        None
    }
}

/// Read a text payload at `pos`; `None` on truncation or invalid UTF-8.
fn read_str(bytes: &Vec<u8>, pos: usize) -> (r: Option<(String, usize)>)
    requires
        pos <= bytes@.len(),
    ensures
        match r {
            Some(pair) => pos <= pair.1 <= bytes@.len() && dec_str(bytes@.skip(pos as int))
                == Some((pair.0@, bytes@.skip(pair.1 as int))),
            None => dec_str(bytes@.skip(pos as int)) is None,
        },
{
    match read_u64(bytes, pos) {
        None => None,
        Some((n, p1)) => {
            if n <= (bytes.len() - p1) as u64 {
                let len_n: usize = n as usize;
                let sl = slice_subrange(bytes.as_slice(), p1, p1 + len_n);
                let payload: Vec<u8> = slice_to_vec(sl);
                proof {
                    assert(payload@ =~= bytes@.skip(p1 as int).take(n as int));
                }
                match string_from_utf8(payload) {
                    Some(s) => {
                        proof {
                            encode_utf8_valid_utf8(s@);
                            encode_utf8_decode_utf8(s@);
                            assert(bytes@.skip(p1 as int).skip(n as int) =~= bytes@.skip(
                                (p1 + len_n) as int,
                            ));
                        }
                        Some((s, p1 + len_n))
                    },
                    None => None,
                }
            } else {
                None
            }
        },
    }
}

/// Read one packet at `pos`; `None` on any malformation.
fn read_packet(bytes: &Vec<u8>, pos: usize) -> (r: Option<(FlowwPacket, usize)>)
    requires
        pos <= bytes@.len(),
    ensures
        match r {
            Some(pair) => pos <= pair.1 <= bytes@.len() && dec_packet(bytes@.skip(pos as int))
                == Some((pair.0@, bytes@.skip(pair.1 as int))),
            None => dec_packet(bytes@.skip(pos as int)) is None,
        },
{
    if pos >= bytes.len() {
        return None;
    }
    let tag = bytes[pos];
    proof {
        assert(bytes@.skip(pos as int)[0] == bytes@[pos as int]);
        assert(bytes@.skip(pos as int).drop_first() =~= bytes@.skip(pos + 1));
    }
    if tag == MSG_TAG {
        match read_str(bytes, pos + 1) {
            Some((s, np)) => Some((FlowwPacket::Msg(s), np)),
            None => None,
        }
    } else if tag == TRACK_TAG {
        match read_str(bytes, pos + 1) {
            Some((s, np)) => Some((FlowwPacket::Track(s), np)),
            None => None,
        }
    } else if tag == POINT_TAG {
        match read_u64(bytes, pos + 1) {
            None => None,
            Some((id, p1)) => match read_u64(bytes, p1) {
                None => None,
                Some((t, p2)) => match read_u64(bytes, p2) {
                    None => None,
                    Some((n, p3)) => match read_u64(bytes, p3) {
                        None => None,
                        Some((v, p4)) => {
                            let pt = Point {
                                id: id,
                                time: unwire64_of(t),
                                note: unwire64_of(n),
                                vel: unwire64_of(v),
                            };
                            Some((FlowwPacket::Point(pt), p4))
                        },
                    },
                },
            },
        }
    } else {
        None
    }
}

/// Decode a whole byte blob back into its packet sequence: the exact
/// inverse of `encode` on faithful input, `Err` on anything else.
fn decode_packets_vec(bytes: &Vec<u8>) -> (r: Result<Vec<FlowwPacket>, DecodeError>)
    ensures
        match r {
            Ok(v) => dec_packets(bytes@) == Some(packets_view(v@)),
            Err(e) => dec_packets(bytes@) is None && e == DecodeError::Malformed,
        },
{
    proof {
        assert(bytes@.skip(0) =~= bytes@);
    }
    match read_u64(bytes, 0) {
        None => Err(DecodeError::Malformed),
        Some((count, start)) => {
            let mut out: Vec<FlowwPacket> = Vec::new();
            let mut pos: usize = start;
            let mut k: u64 = 0;
            while k < count
                invariant
                    k <= count,
                    pos <= bytes@.len(),
                    out@.len() == k,
                    dec_u64(bytes@) == Some((count, bytes@.skip(start as int))),
                    match dec_list(bytes@.skip(pos as int), (count - k) as nat) {
                        Option::None => dec_list(bytes@.skip(start as int), count as nat)
                            is None,
                        Option::Some(pair) => dec_list(bytes@.skip(start as int), count as nat)
                            == Some((packets_view(out@) + pair.0, pair.1)),
                    },
                decreases count - k,
            {
                match read_packet(bytes, pos) {
                    None => {
                        proof {
                            assert(dec_list(bytes@.skip(pos as int), (count - k) as nat)
                                is None);
                        }
                        return Err(DecodeError::Malformed);
                    },
                    Some((p, np)) => {
                        proof {
                            let m = (count - k) as nat;
                            let b = bytes@.skip(pos as int);
                            assert(dec_list(b, m) == match dec_list(
                                bytes@.skip(np as int),
                                (m - 1) as nat,
                            ) {
                                Option::None => Option::<(Seq<PacketView>, Seq<u8>)>::None,
                                Option::Some(pair) => Option::Some(
                                    (seq![p@] + pair.0, pair.1),
                                ),
                            });
                            assert(packets_view(out@.push(p)) =~= packets_view(out@).push(p@));
                            match dec_list(bytes@.skip(np as int), (count - (k + 1)) as nat) {
                                Option::None => {},
                                Option::Some(pair) => {
                                    assert(packets_view(out@) + (seq![p@] + pair.0)
                                        =~= packets_view(out@).push(p@) + pair.0);
                                },
                            }
                        }
                        out.push(p);
                        pos = np;
                        k = k + 1;
                    },
                }
            }
            proof {
                assert(dec_list(bytes@.skip(pos as int), 0) == Some(
                    (Seq::<PacketView>::empty(), bytes@.skip(pos as int)),
                ));
                assert(packets_view(out@) + Seq::<PacketView>::empty() =~= packets_view(out@));
            }
            if pos == bytes.len() {
                proof {
                    assert(bytes@.skip(pos as int).len() == 0);
                }
                Ok(out)
            } else {
                proof {
                    assert(bytes@.skip(pos as int).len() > 0);
                }
                Err(DecodeError::Malformed)
            }
        },
    }
}

/// Deserialization of a byte blob back into an ordered packet sequence,
/// or a parse failure on a corrupt stream.
pub trait DecodeIntoFlowwPackets: Sized {
    /// The bytes this value holds, as contracts see them.
    spec fn wire_view(&self) -> Seq<u8>;

    fn decoded(self) -> (r: Result<Vec<FlowwPacket>, DecodeError>)
        ensures
            match r {
                Ok(v) => dec_packets(self.wire_view()) == Some(packets_view(v@)),
                Err(e) => dec_packets(self.wire_view()) is None && e == DecodeError::Malformed,
            },
    ;
}

impl DecodeIntoFlowwPackets for Vec<u8> {
    open spec fn wire_view(&self) -> Seq<u8> {
        self@
    }

    fn decoded(self) -> (r: Result<Vec<FlowwPacket>, DecodeError>) {
        decode_packets_vec(&self)
    }
}

} // verus!
