use vstd::prelude::*;

use crate::codec::Encodable;
use crate::packet::{packets_view, FlowwPacket, PacketView};
use crate::point::{Floww, Point};
use crate::wire::{enc_packets, wf_packets};

verus! {

/// Index of the first name in `names` whose characters are `name`, or
/// `names.len()` if none matches.
pub open spec fn first_match(names: Seq<String>, name: Seq<char>) -> int
    decreases names.len(),
{
    if names.len() == 0 {
        0
    } else if names[0]@ == name {
        0
    } else {
        1 + first_match(names.drop_first(), name)
    }
}

/// What `first_match` finds: the smallest matching index, if any.
pub proof fn lemma_first_match(names: Seq<String>, name: Seq<char>)
    ensures
        0 <= first_match(names, name) <= names.len(),
        first_match(names, name) < names.len() ==> names[first_match(names, name)]@ == name,
        forall|j: int| 0 <= j < first_match(names, name) ==> names[j]@ != name,
    decreases names.len(),
{
    if names.len() > 0 && names[0]@ != name {
        lemma_first_match(names.drop_first(), name);
        let f = first_match(names, name);
        assert forall|j: int| 0 <= j < f implies names[j]@ != name by {
            if j > 0 {
                assert(names.drop_first()[j - 1] == names[j]);
            }
        }
        if f < names.len() {
            assert(names.drop_first()[f - 1] == names[f]);
        }
    }
}

/// The packets that announce one track: its selection marker, then its
/// points in timeline order.
pub open spec fn track_packets(name: Seq<char>, pts: Seq<Point>) -> Seq<PacketView> {
    seq![PacketView::Track(name)] + Seq::new(pts.len(), |i: int| PacketView::Point(pts[i]))
}

/// The flattened wire image of a sheet: for each track in insertion
/// order, its marker and then its points in current timeline order.
pub open spec fn sheet_packets(names: Seq<String>, tls: Seq<Floww>) -> Seq<PacketView>
    recommends
        names.len() == tls.len(),
    decreases names.len(),
{
    if names.len() == 0 {
        Seq::empty()
    } else {
        sheet_packets(names.drop_last(), tls.drop_last()) + track_packets(
            names.last()@,
            tls.last()@,
        )
    }
}

/// Registry mapping track names to timelines, preserving insertion
/// order. Two parallel structures are kept consistent at all times: the
/// ordered names and the identically indexed timelines, so a name's
/// index is stable for the sheet's lifetime. Names are expected unique;
/// adding a duplicate is the caller's contract to avoid (lookups then
/// find the first).
#[derive(Clone)]
pub struct FlowwSheet {
    flowws: Vec<Floww>,
    names: Vec<String>,
}

impl FlowwSheet {
    /// The registry is well formed: one timeline per name.
    pub closed spec fn wf(&self) -> bool {
        self.names@.len() == self.flowws@.len()
    }

    /// The names, in insertion order.
    pub closed spec fn spec_names(&self) -> Seq<String> {
        self.names@
    }

    /// The timelines, indexed as the names are.
    pub closed spec fn spec_flowws(&self) -> Seq<Floww> {
        self.flowws@
    }

    /// An empty registry.
    pub fn new() -> (r: FlowwSheet)
        ensures
            r.wf(),
            r.spec_names() == Seq::<String>::empty(),
            r.spec_flowws() == Seq::<Floww>::empty(),
    {
        FlowwSheet { flowws: Vec::new(), names: Vec::new() }
    }

    /// Append a timeline under `name`, assigning the next sequential
    /// index. No name validation: duplicates are the caller's to avoid.
    pub fn add(&mut self, floww: Floww, name: String)
        requires
            old(self).wf(),
        ensures
            final(self).wf(),
            final(self).spec_names() == old(self).spec_names().push(name),
            final(self).spec_flowws() == old(self).spec_flowws().push(floww),
    {
        self.flowws.push(floww);
        self.names.push(name);
    }

    /// A read-only view of the timeline under `name`, or an empty view
    /// if the name is absent; never fails.
    pub fn get_floww_ref_by_name(&self, name: &String) -> (r: &[Point])
        requires
            self.wf(),
        ensures
            ({
                let i = first_match(self.spec_names(), name@);
                if i < self.spec_names().len() {
                    r@ == self.spec_flowws()[i]@
                } else {
                    r@ == Seq::<Point>::empty()
                }
            }),
    {
        let n = self.names.len();
        let mut i: usize = 0;
        while i < n
            invariant
                i <= n,
                n == self.names@.len(),
                self.wf(),
                forall|j: int| 0 <= j < i ==> self.names@[j]@ != name@,
            decreases n - i,
        {
            if self.names[i] == *name {
                proof {
                    lemma_first_match(self.names@, name@);
                }
                return self.flowws[i].as_slice();
            }
            i = i + 1;
        }
        proof {
            lemma_first_match(self.names@, name@);
        }
        &[]
    }

    /// A snapshot of all names, in insertion order.
    pub fn get_names(&self) -> (r: Vec<String>)
        ensures
            r@ == self.spec_names(),
    {
        let mut out: Vec<String> = Vec::new();
        let mut i: usize = 0;
        while i < self.names.len()
            invariant
                i <= self.names@.len(),
                out@.len() == i,
                forall|j: int| 0 <= j < i ==> out@[j] == self.names@[j],
            decreases self.names@.len() - i,
        {
            out.push(self.names[i].clone());
            i = i + 1;
        }
        proof {
            assert(out@ =~= self.names@);
        }
        out
    }

    /// Replace the timeline under an existing `name` in place, keeping
    /// its index and position; no-op returning `false` if absent.
    pub fn reset(&mut self, name: &String, new_floww: Floww) -> (r: bool)
        requires
            old(self).wf(),
        ensures
            final(self).wf(),
            ({
                let i = first_match(old(self).spec_names(), name@);
                if i < old(self).spec_names().len() {
                    r == true && final(self).spec_names() == old(self).spec_names()
                        && final(self).spec_flowws() == old(self).spec_flowws().update(
                        i,
                        new_floww,
                    )
                } else {
                    r == false && *final(self) == *old(self)
                }
            }),
    {
        let n = self.names.len();
        let mut i: usize = 0;
        while i < n
            invariant
                i <= n,
                n == self.names@.len(),
                self.wf(),
                *self == *old(self),
                forall|j: int| 0 <= j < i ==> self.names@[j]@ != name@,
            decreases n - i,
        {
            if self.names[i] == *name {
                proof {
                    lemma_first_match(self.names@, name@);
                }
                let slot = &mut self.flowws[i];
                *slot = new_floww;
                return true;
            }
            i = i + 1;
        }
        proof {
            lemma_first_match(self.names@, name@);
        }
        false
    }

    /// Consume the sheet into its flattened packet sequence: for each
    /// track in insertion order, a `Track` packet followed by that
    /// track's points in current timeline order.
    pub fn to_floww_packets(self) -> (r: Vec<FlowwPacket>)
        requires
            self.wf(),
        ensures
            packets_view(r@) == sheet_packets(self.spec_names(), self.spec_flowws()),
    {
        let ghost names = self.names@;
        let ghost tls = self.flowws@;
        let mut res: Vec<FlowwPacket> = Vec::new();
        let mut t: usize = 0;
        while t < self.names.len()
            invariant
                t <= names.len(),
                self.names@ == names,
                self.flowws@ == tls,
                names.len() == tls.len(),
                packets_view(res@) =~= sheet_packets(names.take(t as int), tls.take(t as int)),
            decreases names.len() - t,
        {
            res.push(FlowwPacket::Track(self.names[t].clone()));
            let pts = &self.flowws[t];
            let mut j: usize = 0;
            while j < pts.len()
                invariant
                    j <= pts@.len(),
                    pts@ == tls[t as int]@,
                    t < names.len(),
                    self.names@ == names,
                    self.flowws@ == tls,
                    names.len() == tls.len(),
                    packets_view(res@) =~= sheet_packets(names.take(t as int), tls.take(t as int))
                        + seq![PacketView::Track(names[t as int]@)] + Seq::new(
                        j as nat,
                        |k: int| PacketView::Point(tls[t as int]@[k]),
                    ),
                decreases pts@.len() - j,
            {
                let ghost prev = res@;
                res.push(FlowwPacket::Point(pts[j]));
                proof {
                    let a = sheet_packets(names.take(t as int), tls.take(t as int));
                    let b = seq![PacketView::Track(names[t as int]@)];
                    let f = |k: int| PacketView::Point(tls[t as int]@[k]);
                    assert(packets_view(res@) =~= packets_view(prev).push(
                        PacketView::Point(tls[t as int]@[j as int]),
                    ));
                    assert(a + b + Seq::new((j + 1) as nat, f) =~= (a + b + Seq::new(
                        j as nat,
                        f,
                    )).push(PacketView::Point(tls[t as int]@[j as int])));
                }
                j = j + 1;
            }
            proof {
                assert(names.take(t + 1 as int).drop_last() =~= names.take(t as int));
                assert(tls.take(t + 1 as int).drop_last() =~= tls.take(t as int));
                assert(Seq::new(pts@.len(), |k: int| PacketView::Point(tls[t as int]@[k]))
                    =~= Seq::new(tls[t as int]@.len(), |k: int| PacketView::Point(
                    tls[t as int]@[k],
                )));
                assert(packets_view(res@) =~= sheet_packets(
                    names.take(t + 1 as int),
                    tls.take(t + 1 as int),
                ));
            }
            t = t + 1;
        }
        proof {
            assert(names.take(names.len() as int) =~= names);
            assert(tls.take(tls.len() as int) =~= tls);
        }
        res
    }

    /// Consume the sheet into one self-contained binary blob: the wire
    /// image of its flattened packet sequence. Total: a well-formed
    /// sheet always serializes.
    pub fn serialize(self) -> (r: Vec<u8>)
        requires
            self.wf(),
        ensures
            r@ == enc_packets(sheet_packets(self.spec_names(), self.spec_flowws())),
            wf_packets(sheet_packets(self.spec_names(), self.spec_flowws())),
    {
        let packets = self.to_floww_packets();
        packets.encoded()
    }
}

impl Default for FlowwSheet {
    fn default() -> (r: FlowwSheet)
        ensures
            r.wf(),
            r.spec_names() == Seq::<String>::empty(),
            r.spec_flowws() == Seq::<Floww>::empty(),
    {
        FlowwSheet::new()
    }
}

} // verus!
