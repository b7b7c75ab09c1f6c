use vstd::prelude::*;

use crate::point::Point;

verus! {

/// One unit of the wire protocol: a free-text message, a track-selection
/// marker, or a single point. A packet sequence encodes a sheet as, for
/// each track in insertion order, a `Track` packet followed by that
/// track's points; `Msg` packets are out-of-band annotations.
#[derive(Clone, Debug)]
pub enum FlowwPacket {
    Msg(String),
    Track(String),
    Point(Point),
}

/// The mathematical shape of a packet: text payloads are their
/// character sequences. Contracts speak of packets through this view.
pub enum PacketView {
    Msg(Seq<char>),
    Track(Seq<char>),
    Point(Point),
}

impl View for FlowwPacket {
    type V = PacketView;

    open spec fn view(&self) -> PacketView {
        match self {
            FlowwPacket::Msg(s) => PacketView::Msg(s@),
            FlowwPacket::Track(s) => PacketView::Track(s@),
            FlowwPacket::Point(p) => PacketView::Point(*p),
        }
    }
}

/// The views of a packet sequence, element by element.
pub open spec fn packets_view(s: Seq<FlowwPacket>) -> Seq<PacketView> {
    Seq::new(s.len(), |i: int| s[i]@)
}

impl PartialEq for FlowwPacket {
    fn eq(&self, other: &FlowwPacket) -> (r: bool) {
        match (self, other) {
            (FlowwPacket::Msg(a), FlowwPacket::Msg(b)) => *a == *b,
            (FlowwPacket::Track(a), FlowwPacket::Track(b)) => *a == *b,
            (FlowwPacket::Point(a), FlowwPacket::Point(b)) => *a == *b,
            _ => false,
        }
    }
}

impl vstd::std_specs::cmp::PartialEqSpecImpl for FlowwPacket {
    open spec fn obeys_eq_spec() -> bool {
        true
    }

    open spec fn eq_spec(&self, other: &FlowwPacket) -> bool {
        self@ == other@
    }
}

/// Lifting a single value into a packet.
pub trait IntoFlowwPacket: Sized {
    /// The packet this value becomes, as contracts see it.
    spec fn spec_into_packet(&self) -> PacketView;

    fn into_packet(self) -> (r: FlowwPacket)
        ensures
            r@ == self.spec_into_packet(),
    ;
}

impl IntoFlowwPacket for Point {
    open spec fn spec_into_packet(&self) -> PacketView {
        PacketView::Point(*self)
    }

    fn into_packet(self) -> FlowwPacket {
        FlowwPacket::Point(self)
    }
}

/// Lifting a whole collection into a packet sequence.
pub trait IntoFlowwPackets: Sized {
    /// The packet sequence this value becomes, as contracts see it.
    spec fn spec_into_packets(&self) -> Seq<PacketView>;

    fn into_packets(self) -> (r: Vec<FlowwPacket>)
        ensures
            packets_view(r@) == self.spec_into_packets(),
    ;
}

impl IntoFlowwPackets for Vec<Point> {
    open spec fn spec_into_packets(&self) -> Seq<PacketView> {
        Seq::new(self@.len(), |i: int| PacketView::Point(self@[i]))
    }

    fn into_packets(self) -> (r: Vec<FlowwPacket>) {
        let mut out: Vec<FlowwPacket> = Vec::new();
        let mut i: usize = 0;
        while i < self.len()
            invariant
                i <= self@.len(),
                out@.len() == i,
                forall|k: int| 0 <= k < i ==> #[trigger] out@[k]@ == PacketView::Point(self@[k]),
            decreases self@.len() - i,
        {
            out.push(FlowwPacket::Point(self[i]));
            i = i + 1;
        }
        proof {
            assert(packets_view(out@) =~= self.spec_into_packets());
        }
        out
    }
}

} // verus!
