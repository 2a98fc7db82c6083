use vstd::prelude::*;
use crate::packet::{Packet, PacketView};

verus! {

/// Selects the packets addressed to `dst_port`, and, when `src_port` is given, sent from it.
#[derive(Clone, Copy, Debug, PartialEq, Eq, Structural)]
pub struct PacketFilter {
    pub dst_port: u32,
    pub src_port: Option<u32>,
}

/// Whether the filter lets the packet through.
pub open spec fn accepts(f: PacketFilter, p: PacketView) -> bool {
    p.dst_port == f.dst_port && match f.src_port {
        Some(src) => p.src_port == src,
        None => true,
    }
}

/// The index of the first packet of `s` that the filter lets through, or `s.len()` if none.
pub open spec fn first_match(s: Seq<PacketView>, f: PacketFilter) -> int
    decreases s.len(),
{
    if s.len() == 0 {
        0
    } else if accepts(f, s[0]) {
        0
    } else {
        1 + first_match(s.drop_first(), f)
    }
}

/// `first_match` is the index before which no packet matches and at which one does.
pub proof fn lemma_first_match(s: Seq<PacketView>, f: PacketFilter, i: int)
    requires
        0 <= i <= s.len(),
        forall|j: int| 0 <= j < i ==> !accepts(f, #[trigger] s[j]),
        i < s.len() ==> accepts(f, s[i]),
    ensures
        first_match(s, f) == i,
    decreases i,
{
    if i > 0 {
        assert(!accepts(f, s[0]));
        let t = s.drop_first();
        assert forall|j: int| 0 <= j < i - 1 implies !accepts(f, #[trigger] t[j]) by {
            assert(t[j] == s[j + 1]);
        }
        if i < s.len() {
            assert(t[i - 1] == s[i]);
        }
        lemma_first_match(t, f, i - 1);
    }
}

/// What the transport holds: packets received and not yet taken, and packets sent.
pub struct TransportView {
    pub rx: Seq<PacketView>,
    pub tx: Seq<PacketView>,
}

/// The views of a sequence of packets.
pub open spec fn packet_views(s: Seq<Packet>) -> Seq<PacketView> {
    s.map_values(|p: Packet| p@)
}

/// A packet transport over a pair of queues: received packets wait in order until a filtered
/// read takes them, and sent packets are kept in order of sending. A read does not wait: while
/// the caller runs nothing else can deliver, so a read finding no matching packet returns none.
pub struct VSock {
    rx: Vec<Packet>,
    tx: Vec<Packet>,
}

impl View for VSock {
    type V = TransportView;

    closed spec fn view(&self) -> TransportView {
        TransportView { rx: packet_views(self.rx@), tx: packet_views(self.tx@) }
    }
}

impl VSock {
    /// A transport with empty queues.
    pub fn new() -> (r: VSock)
        ensures
            r@.rx == Seq::<PacketView>::empty(),
            r@.tx == Seq::<PacketView>::empty(),
    {
        let r = VSock { rx: Vec::new(), tx: Vec::new() };
        assert(r@.rx =~= Seq::<PacketView>::empty());
        assert(r@.tx =~= Seq::<PacketView>::empty());
        r
    }

    /// Queues a packet that arrived from the peer.
    pub fn deliver(&mut self, packet: Packet)
        ensures
            final(self)@.rx == old(self)@.rx.push(packet@),
            final(self)@.tx == old(self)@.tx,
    {
        self.rx.push(packet);
        assert(packet_views(self.rx@) =~= packet_views(old(self).rx@).push(packet@));
    }

    /// Enqueues a packet for transmission.
    pub fn write_packet(&mut self, packet: Packet)
        ensures
            final(self)@.tx == old(self)@.tx.push(packet@),
            final(self)@.rx == old(self)@.rx,
    {
        self.tx.push(packet);
        assert(packet_views(self.tx@) =~= packet_views(old(self).tx@).push(packet@));
    }

    /// Hands out the packets sent so far, in order of sending, and empties that queue.
    pub fn take_sent(&mut self) -> (r: Vec<Packet>)
        ensures
            packet_views(r@) == old(self)@.tx,
            final(self)@.tx == Seq::<PacketView>::empty(),
            final(self)@.rx == old(self)@.rx,
    {
        let mut r: Vec<Packet> = Vec::new();
        std::mem::swap(&mut r, &mut self.tx);
        assert(packet_views(self.tx@) =~= Seq::<PacketView>::empty());
        r
    }

    /// Takes the first received packet that the filter lets through, if there is one.
    pub fn read_filtered_packet(&mut self, filter: PacketFilter) -> (r: Option<Packet>)
        ensures
            ({
                let i = first_match(old(self)@.rx, filter);
                &&& 0 <= i <= old(self)@.rx.len()
                &&& i == old(self)@.rx.len() ==> r is None && final(self)@ == old(self)@
                &&& i < old(self)@.rx.len() ==> (r matches Some(p) && p@ == old(self)@.rx[i]
                    && final(self)@.rx == old(self)@.rx.remove(i)
                    && final(self)@.tx == old(self)@.tx)
            }),
    {
        let mut i: usize = 0;
        while i < self.rx.len()
            invariant
                i <= self.rx@.len(),
                forall|j: int| 0 <= j < i ==> !accepts(filter, #[trigger] packet_views(self.rx@)[j]),
            ensures
                i <= self.rx@.len(),
                forall|j: int| 0 <= j < i ==> !accepts(filter, #[trigger] packet_views(self.rx@)[j]),
                i < self.rx@.len() ==> accepts(filter, packet_views(self.rx@)[i as int]),
            decreases self.rx@.len() - i,
        {
            let p = &self.rx[i];
            let hit = p.get_dst_port() == filter.dst_port && match filter.src_port {
                Some(src) => p.get_src_port() == src,
                None => true,
            };
            assert(packet_views(self.rx@)[i as int] == self.rx@[i as int]@);
            if hit {
                break;
            }
            i = i + 1;
        }
        proof {
            lemma_first_match(packet_views(self.rx@), filter, i as int);
        }
        if i < self.rx.len() {
            let ghost before = self.rx@;
            let p = self.rx.remove(i);
            assert(packet_views(self.rx@) =~= packet_views(before).remove(i as int));
            Some(p)
        } else {
            None
        }
    }
}

} // verus!
