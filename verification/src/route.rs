use vstd::prelude::*;

use crate::codec::DecodeIntoFlowwPackets;
use crate::packet::{packets_view, FlowwPacket, PacketView};
use crate::point::{Floww, Point};
use crate::wire::dec_packets;

verus! {

/// The caller-supplied name-to-index mapping the decoder resolves
/// `Track` packets against. Lookup finds the first entry with the
/// name; callers keep names unique.
pub struct TrackMap {
    entries: Vec<(String, usize)>,
}

/// The index the map assigns to `name`, if any: first match wins.
pub open spec fn map_lookup(entries: Seq<(String, usize)>, name: Seq<char>) -> Option<usize>
    decreases entries.len(),
{
    if entries.len() == 0 {
        Option::None
    } else if entries[0].0@ == name {
        Option::Some(entries[0].1)
    } else {
        map_lookup(entries.drop_first(), name)
    }
}

impl TrackMap {
    /// The entries, in insertion order, as contracts see them.
    pub closed spec fn entries(&self) -> Seq<(String, usize)> {
        self.entries@
    }

    /// An empty mapping.
    pub fn new() -> (r: TrackMap)
        ensures
            r.entries() == Seq::<(String, usize)>::empty(),
    {
        TrackMap { entries: Vec::new() }
    }

    /// Record that `name` selects destination slot `index`.
    pub fn insert(&mut self, name: String, index: usize)
        ensures
            final(self).entries() == old(self).entries().push((name, index)),
    {
        self.entries.push((name, index));
    }

    /// The destination slot for `name`, or `None` if unknown.
    pub fn get(&self, name: &String) -> (r: Option<usize>)
        ensures
            r == map_lookup(self.entries(), name@),
    {
        let n = self.entries.len();
        let mut i: usize = 0;
        proof {
            assert(self.entries@.skip(0) =~= self.entries@);
        }
        while i < n
            invariant
                i <= n,
                n == self.entries@.len(),
                map_lookup(self.entries@, name@) == map_lookup(
                    self.entries@.skip(i as int),
                    name@,
                ),
            decreases n - i,
        {
            proof {
                assert(self.entries@.skip(i as int)[0] == self.entries@[i as int]);
                assert(self.entries@.skip(i as int).drop_first() =~= self.entries@.skip(
                    i + 1 as int,
                ));
            }
            if self.entries[i].0 == *name {
                return Some(self.entries[i].1);
            }
            i = i + 1;
        }
        proof {
            assert(self.entries@.skip(n as int).len() == 0);
        }
        None
    }
}

/// The timelines a destination array holds, as contracts see them.
pub open spec fn timelines_view(tls: Seq<Floww>) -> Seq<Seq<Point>> {
    Seq::new(tls.len(), |i: int| tls[i]@)
}

/// The texts a message list holds, as contracts see them.
pub open spec fn strings_view(msgs: Seq<String>) -> Seq<Seq<char>> {
    Seq::new(msgs.len(), |i: int| msgs[i]@)
}

/// One step of the decoder's state machine: what a single packet does
/// to the current destination, the destination timelines, and the
/// extracted messages. `Msg` changes no state; `Track` re-aims the
/// decoder, to nothing if the name is unknown; `Point` appends to the
/// current destination and is silently dropped if there is none or it
/// is out of range.
pub open spec fn route_one(
    cur: Option<usize>,
    tls: Seq<Seq<Point>>,
    p: PacketView,
    entries: Seq<(String, usize)>,
) -> (Option<usize>, Seq<Seq<Point>>, Seq<Seq<char>>) {
    match p {
        PacketView::Msg(m) => (cur, tls, seq![m]),
        PacketView::Track(name) => (map_lookup(entries, name), tls, Seq::empty()),
        PacketView::Point(pt) => match cur {
            Option::Some(i) => {
                if i < tls.len() {
                    (cur, tls.update(i as int, tls[i as int].push(pt)), Seq::empty())
                } else {
                    (cur, tls, Seq::empty())
                }
            },
            Option::None => (cur, tls, Seq::empty()),
        },
    }
}

/// The decoder's state machine run over a whole packet batch, one
/// packet at a time, front to back.
pub open spec fn route(
    cur: Option<usize>,
    tls: Seq<Seq<Point>>,
    packets: Seq<PacketView>,
    entries: Seq<(String, usize)>,
) -> (Option<usize>, Seq<Seq<Point>>, Seq<Seq<char>>)
    decreases packets.len(),
{
    if packets.len() == 0 {
        (cur, tls, Seq::empty())
    } else {
        let step = route_one(cur, tls, packets[0], entries);
        let rest = route(step.0, step.1, packets.drop_first(), entries);
        (rest.0, rest.1, step.2 + rest.2)
    }
}

/// The streaming decoder: a persistent state machine whose only state
/// is the current destination index — `None` until a `Track` packet
/// resolves, and never implicitly reset between calls.
pub struct StreamDecoder {
    /// The current destination slot, or `None` for no destination.
    pub current: Option<usize>,
}

impl StreamDecoder {
    /// A fresh decoder, with no destination selected.
    pub fn new() -> (r: StreamDecoder)
        ensures
            r.current == Option::<usize>::None,
    {
        StreamDecoder { current: None }
    }

    /// Feed one decoded packet batch through the state machine: `Msg`
    /// texts are returned in order, `Track` packets re-aim the decoder,
    /// `Point` packets land in the caller-supplied destinations.
    pub fn unpacket(
        &mut self,
        flowws: &mut Vec<Floww>,
        map: &TrackMap,
        packets: Vec<FlowwPacket>,
    ) -> (msgs: Vec<String>)
        ensures
            ({
                let r = route(
                    old(self).current,
                    timelines_view(old(flowws)@),
                    packets_view(packets@),
                    map.entries(),
                );
                final(self).current == r.0 && timelines_view(final(flowws)@) == r.1
                    && strings_view(msgs@) == r.2
            }),
    {
        let ghost cur0 = self.current;
        let ghost tls0 = timelines_view(flowws@);
        let ghost all = packets_view(packets@);
        let mut msgs: Vec<String> = Vec::new();
        let mut rest = packets;
        while rest.len() > 0
            invariant
                ({
                    let done = route(cur0, tls0, all, map.entries());
                    let todo = route(
                        self.current,
                        timelines_view(flowws@),
                        packets_view(rest@),
                        map.entries(),
                    );
                    done.0 == todo.0 && done.1 == todo.1 && done.2 == strings_view(msgs@)
                        + todo.2
                }),
            decreases rest@.len(),
        {
            let ghost pre_cur = self.current;
            let ghost pre_tls = timelines_view(flowws@);
            let ghost pre_pkts = packets_view(rest@);
            let ghost pre_msgs = msgs@;
            let p = rest.remove(0);
            proof {
                assert(pre_pkts[0] == p@);
                assert(pre_pkts.drop_first() =~= packets_view(rest@));
            }
            match p {
                FlowwPacket::Msg(m) => {
                    msgs.push(m);
                    proof {
                        let step = route_one(pre_cur, pre_tls, pre_pkts[0], map.entries());
                        let todo = route(step.0, step.1, packets_view(rest@), map.entries());
                        assert(strings_view(msgs@) =~= strings_view(pre_msgs) + step.2);
                        assert((strings_view(pre_msgs) + step.2) + todo.2 =~= strings_view(
                            pre_msgs,
                        ) + (step.2 + todo.2));
                    }
                },
                FlowwPacket::Track(name) => {
                    self.current = map.get(&name);
                    proof {
                        let step = route_one(pre_cur, pre_tls, pre_pkts[0], map.entries());
                        let todo = route(step.0, step.1, packets_view(rest@), map.entries());
                        assert(step.0 == self.current && step.1 == timelines_view(flowws@));
                        assert(strings_view(msgs@) + todo.2 =~= strings_view(msgs@) + (step.2
                            + todo.2));
                    }
                },
                FlowwPacket::Point(pt) => {
                    match self.current {
                        Some(i) => {
                            if i < flowws.len() {
                                flowws[i].push(pt);
                                proof {
                                    assert(timelines_view(flowws@) =~= pre_tls.update(
                                        i as int,
                                        pre_tls[i as int].push(pt),
                                    ));
                                }
                            }
                        },
                        None => {},
                    }
                    proof {
                        let step = route_one(pre_cur, pre_tls, pre_pkts[0], map.entries());
                        let todo = route(step.0, step.1, packets_view(rest@), map.entries());
                        assert(step.0 == self.current && step.1 == timelines_view(flowws@));
                        assert(strings_view(msgs@) + todo.2 =~= strings_view(msgs@) + (step.2
                            + todo.2));
                    }
                },
            }
        }
        proof {
            assert(packets_view(rest@).len() == 0);
            assert(strings_view(msgs@) + Seq::<Seq<char>>::empty() =~= strings_view(msgs@));
        }
        msgs
    }

    /// Feed a raw byte chunk through the decoder: decode it as a packet
    /// batch and route the packets. A corrupt chunk is an ordinary
    /// streaming condition, not an error: it yields an empty message
    /// list and leaves the destinations and the decoder state untouched.
    pub fn decode_bytes(
        &mut self,
        flowws: &mut Vec<Floww>,
        map: &TrackMap,
        bytes: Vec<u8>,
    ) -> (msgs: Vec<String>)
        ensures
            dec_packets(bytes@) is None ==> final(self).current == old(self).current
                && final(flowws)@ == old(flowws)@ && msgs@ == Seq::<String>::empty(),
            dec_packets(bytes@) matches Some(q) ==> ({
                let r = route(
                    old(self).current,
                    timelines_view(old(flowws)@),
                    q,
                    map.entries(),
                );
                final(self).current == r.0 && timelines_view(final(flowws)@) == r.1
                    && strings_view(msgs@) == r.2
            }),
    {
        match bytes.decoded() {
            Ok(packets) => self.unpacket(flowws, map, packets),
            Err(_) => Vec::new(),
        }
    }
}

/// A batch of bare point packets, one per point, in order.
pub open spec fn point_packets(ps: Seq<Point>) -> Seq<PacketView> {
    Seq::new(ps.len(), |k: int| PacketView::Point(ps[k]))
}

/// Routing a concatenation of two batches is routing the first, then
/// routing the second from where the first left off.
pub proof fn lemma_route_concat(
    cur: Option<usize>,
    tls: Seq<Seq<Point>>,
    a: Seq<PacketView>,
    b: Seq<PacketView>,
    entries: Seq<(String, usize)>,
)
    ensures
        ({
            let ra = route(cur, tls, a, entries);
            let rb = route(ra.0, ra.1, b, entries);
            let rab = route(cur, tls, a + b, entries);
            rab.0 == rb.0 && rab.1 == rb.1 && rab.2 == ra.2 + rb.2
        }),
    decreases a.len(),
{
    if a.len() == 0 {
        assert(a + b =~= b);
        let rb = route(cur, tls, b, entries);
        assert(Seq::<Seq<char>>::empty() + rb.2 =~= rb.2);
    } else {
        let step = route_one(cur, tls, a[0], entries);
        assert((a + b)[0] == a[0]);
        assert((a + b).drop_first() =~= a.drop_first() + b);
        lemma_route_concat(step.0, step.1, a.drop_first(), b, entries);
        let ra1 = route(step.0, step.1, a.drop_first(), entries);
        let ra = route(cur, tls, a, entries);
        let rb = route(ra.0, ra.1, b, entries);
        assert(step.2 + (ra1.2 + rb.2) =~= (step.2 + ra1.2) + rb.2);
    }
}

/// Law, first half of track-resolution gating: with no destination
/// selected, point packets are silently dropped — nothing changes and
/// nothing is said.
pub proof fn lemma_points_dropped(
    tls: Seq<Seq<Point>>,
    ps: Seq<Point>,
    entries: Seq<(String, usize)>,
)
    ensures
        ({
            let r = route(Option::<usize>::None, tls, point_packets(ps), entries);
            r.0 is None && r.1 == tls && r.2 == Seq::<Seq<char>>::empty()
        }),
    decreases ps.len(),
{
    if ps.len() > 0 {
        assert(point_packets(ps)[0] == PacketView::Point(ps[0]));
        assert(point_packets(ps).drop_first() =~= point_packets(ps.drop_first()));
        lemma_points_dropped(tls, ps.drop_first(), entries);
        assert(Seq::<Seq<char>>::empty() + Seq::<Seq<char>>::empty() =~= Seq::<
            Seq<char>,
        >::empty());
    }
}

/// Law, second half of track-resolution gating: with destination `i`
/// in range, a batch of point packets appends exactly those points to
/// slot `i`, in order, and touches nothing else.
pub proof fn lemma_points_delivered(
    tls: Seq<Seq<Point>>,
    i: usize,
    qs: Seq<Point>,
    entries: Seq<(String, usize)>,
)
    requires
        i < tls.len(),
    ensures
        ({
            let r = route(Option::Some(i), tls, point_packets(qs), entries);
            r.0 == Option::Some(i) && r.1 == tls.update(i as int, tls[i as int] + qs) && r.2
                == Seq::<Seq<char>>::empty()
        }),
    decreases qs.len(),
{
    if qs.len() == 0 {
        assert(tls[i as int] + qs =~= tls[i as int]);
        assert(tls.update(i as int, tls[i as int] + qs) =~= tls);
    } else {
        let tls1 = tls.update(i as int, tls[i as int].push(qs[0]));
        assert(point_packets(qs)[0] == PacketView::Point(qs[0]));
        assert(point_packets(qs).drop_first() =~= point_packets(qs.drop_first()));
        lemma_points_delivered(tls1, i, qs.drop_first(), entries);
        assert(tls1[i as int] + qs.drop_first() =~= tls[i as int] + qs);
        assert(tls1.update(i as int, tls1[i as int] + qs.drop_first()) =~= tls.update(
            i as int,
            tls[i as int] + qs,
        ));
        assert(Seq::<Seq<char>>::empty() + Seq::<Seq<char>>::empty() =~= Seq::<
            Seq<char>,
        >::empty());
    }
}

/// Law: track-resolution gating. After a `Track` packet that names an
/// unknown destination, every following point packet is dropped; a
/// subsequent `Track` packet that resolves to an in-range slot resumes
/// delivery, and exactly the points after it land in that slot.
pub proof fn lemma_track_gating(
    cur: Option<usize>,
    tls: Seq<Seq<Point>>,
    entries: Seq<(String, usize)>,
    unknown: Seq<char>,
    known: Seq<char>,
    ps: Seq<Point>,
    qs: Seq<Point>,
)
    requires
        map_lookup(entries, unknown) is None,
        map_lookup(entries, known) matches Some(i) && i < tls.len(),
    ensures
        ({
            let i = map_lookup(entries, known).unwrap();
            let batch = seq![PacketView::Track(unknown)] + point_packets(ps) + seq![
                PacketView::Track(known),
            ] + point_packets(qs);
            let r = route(cur, tls, batch, entries);
            r.0 == Option::Some(i) && r.1 == tls.update(i as int, tls[i as int] + qs) && r.2
                == Seq::<Seq<char>>::empty()
        }),
{
    reveal_with_fuel(route, 2);
    let i = map_lookup(entries, known).unwrap();
    let a1 = seq![PacketView::Track(unknown)];
    let a2 = point_packets(ps);
    let a3 = seq![PacketView::Track(known)];
    let a4 = point_packets(qs);
    assert(a1.drop_first() =~= Seq::<PacketView>::empty());
    assert(a3.drop_first() =~= Seq::<PacketView>::empty());
    assert(Seq::<Seq<char>>::empty() + Seq::<Seq<char>>::empty() =~= Seq::<Seq<char>>::empty());
    let r1 = route(cur, tls, a1, entries);
    assert(r1.0 is None && r1.1 == tls && r1.2 == Seq::<Seq<char>>::empty());
    lemma_points_dropped(tls, ps, entries);
    let r3 = route(Option::<usize>::None, tls, a3, entries);
    assert(r3.0 == Option::Some(i) && r3.1 == tls && r3.2 == Seq::<Seq<char>>::empty());
    lemma_points_delivered(tls, i, qs, entries);
    lemma_route_concat(cur, tls, a1 + a2 + a3, a4, entries);
    lemma_route_concat(cur, tls, a1 + a2, a3, entries);
    lemma_route_concat(cur, tls, a1, a2, entries);
    let rfull = route(cur, tls, a1 + a2 + a3 + a4, entries);
    assert(rfull.2 =~= Seq::<Seq<char>>::empty());
}

/// One-shot routing of a packet batch, starting with no destination:
/// the stateless convenience form of the streaming decoder.
pub fn unpacket(flowws: &mut Vec<Floww>, map: &TrackMap, packets: Vec<FlowwPacket>) -> (msgs: Vec<
    String,
>)
    ensures
        ({
            let r = route(
                Option::<usize>::None,
                timelines_view(old(flowws)@),
                packets_view(packets@),
                map.entries(),
            );
            timelines_view(final(flowws)@) == r.1 && strings_view(msgs@) == r.2
        }),
{
    let mut dec = StreamDecoder::new();
    dec.unpacket(flowws, map, packets)
}

} // verus!
