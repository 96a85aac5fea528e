//! Traffic classes and the queue that serves them in order.

use crate::packet::{ip_head, read_ip_head, v4_header_len, v4_header_ok, IpHead};
use crate::proto::DataPacketType;
use std::collections::VecDeque;
use vstd::prelude::*;

verus! {

#[derive(Debug, Clone, Copy, PartialEq, Eq, Structural)]
pub enum TrafficClass {
    Control,
    Realtime,
    Interactive,
    Bulk,
}

/// The class of an IP packet by the protocol that it carries and where that
/// begins. A segment that opens a connection is served before others.
pub open spec fn protocol_class(protocol: u8, at: int, payload: Seq<u8>) -> TrafficClass {
    if protocol == 1 || protocol == 58 {
        TrafficClass::Control
    } else if protocol == 17 && payload.len() <= 512 {
        TrafficClass::Realtime
    } else if protocol == 6 {
        if payload.len() - at >= 14 && (payload[at + 13] / 2) % 2 == 1 {
            TrafficClass::Interactive
        } else {
            TrafficClass::Bulk
        }
    } else {
        TrafficClass::Interactive
    }
}

/// The class of an IP packet by what its header reads as.
pub open spec fn ip_class(head: Option<IpHead>, payload: Seq<u8>) -> TrafficClass {
    match head {
        None => TrafficClass::Realtime,
        Some(IpHead::V4 { protocol, payload_at, .. }) => protocol_class(
            protocol,
            payload_at as int,
            payload,
        ),
        Some(IpHead::V6 { protocol, payload_at }) => protocol_class(
            protocol,
            payload_at as int,
            payload,
        ),
    }
}

/// The class of a packet.
pub open spec fn packet_class(t: DataPacketType, payload: Seq<u8>) -> TrafficClass {
    match t {
        DataPacketType::Keepalive | DataPacketType::Ping | DataPacketType::Pong =>
            TrafficClass::Control,
        DataPacketType::Broadcast
        | DataPacketType::Multicast
        | DataPacketType::Discovery
        | DataPacketType::Ethernet => TrafficClass::Realtime,
        DataPacketType::IPv4 | DataPacketType::IPv6 => ip_class(ip_head(payload), payload),
    }
}

/// The class that a packet is sent in.
pub fn classify_packet(packet_type: DataPacketType, payload: &[u8]) -> (c: TrafficClass)
    ensures
        c == packet_class(packet_type, payload@),
        (packet_type == DataPacketType::IPv4 || packet_type == DataPacketType::IPv6)
            && v4_header_ok(payload@) && payload@[9] != 51 ==> c == protocol_class(
            payload@[9],
            v4_header_len(payload@),
            payload@,
        ),
{
    match packet_type {
        DataPacketType::Keepalive | DataPacketType::Ping | DataPacketType::Pong =>
            TrafficClass::Control,
        DataPacketType::Broadcast
        | DataPacketType::Multicast
        | DataPacketType::Discovery
        | DataPacketType::Ethernet => TrafficClass::Realtime,
        DataPacketType::IPv4 | DataPacketType::IPv6 => classify_ip_packet(payload),
    }
}

fn classify_ip_packet(payload: &[u8]) -> (c: TrafficClass)
    ensures
        c == ip_class(ip_head(payload@), payload@),
        v4_header_ok(payload@) && payload@[9] != 51 ==> c == protocol_class(
            payload@[9],
            v4_header_len(payload@),
            payload@,
        ),
{
    let head = read_ip_head(payload);
    class_of_head(&head, payload)
}

/// The class of an IP packet whose header was read.
pub fn class_of_head(head: &Option<IpHead>, payload: &[u8]) -> (c: TrafficClass)
    requires
        match *head {
            Some(IpHead::V4 { payload_at, .. }) => payload_at <= payload@.len(),
            Some(IpHead::V6 { payload_at, .. }) => payload_at <= payload@.len(),
            None => true,
        },
    ensures
        c == ip_class(*head, payload@),
{
    let (protocol, at): (u8, usize) = match head {
        None => {
            return TrafficClass::Realtime;
        },
        Some(IpHead::V4 { protocol, payload_at, .. }) => (*protocol, *payload_at),
        Some(IpHead::V6 { protocol, payload_at }) => (*protocol, *payload_at),
    };
    let n: usize = payload.len();
    if protocol == 1 || protocol == 58 {
        return TrafficClass::Control;
    }
    if protocol == 17 && n <= 512 {
        return TrafficClass::Realtime;
    }
    if protocol == 6 {
        if n - at >= 14 && (payload[at + 13] / 2) % 2 == 1 {
            return TrafficClass::Interactive;
        }
        return TrafficClass::Bulk;
    }
    TrafficClass::Interactive
}

/// Four queues, served in the order of their classes. The lowest is bounded and
/// gives up its oldest item for a new one.
pub struct QosScheduler<T> {
    control: VecDeque<T>,
    realtime: VecDeque<T>,
    interactive: VecDeque<T>,
    bulk: VecDeque<T>,
    bulk_capacity: usize,
}

/// What a full queue makes of a new item.
pub open spec fn bounded_push<T>(q: Seq<T>, capacity: nat, item: T) -> Seq<T> {
    if q.len() >= capacity && q.len() > 0 {
        q.subrange(1, q.len() as int).push(item)
    } else {
        q.push(item)
    }
}

impl<T> QosScheduler<T> {
    /// What waits in a class, oldest first.
    pub closed spec fn queue(self, class: TrafficClass) -> Seq<T> {
        match class {
            TrafficClass::Control => self.control@,
            TrafficClass::Realtime => self.realtime@,
            TrafficClass::Interactive => self.interactive@,
            TrafficClass::Bulk => self.bulk@,
        }
    }

    /// How many items the lowest class may hold.
    pub closed spec fn capacity(self) -> nat {
        self.bulk_capacity as nat
    }

    /// The class that is served next.
    pub open spec fn next_class(self) -> TrafficClass {
        if self.queue(TrafficClass::Control).len() > 0 {
            TrafficClass::Control
        } else if self.queue(TrafficClass::Realtime).len() > 0 {
            TrafficClass::Realtime
        } else if self.queue(TrafficClass::Interactive).len() > 0 {
            TrafficClass::Interactive
        } else {
            TrafficClass::Bulk
        }
    }

    pub fn new(bulk_capacity: usize) -> (s: QosScheduler<T>)
        ensures
            s.capacity() == bulk_capacity,
            forall|c: TrafficClass| #[trigger] s.queue(c) == Seq::<T>::empty(),
    {
        QosScheduler {
            control: VecDeque::new(),
            realtime: VecDeque::new(),
            interactive: VecDeque::new(),
            bulk: VecDeque::new(),
            bulk_capacity,
        }
    }

    /// Puts an item at the end of its class.
    pub fn push(&mut self, class: TrafficClass, item: T)
        ensures
            final(self).capacity() == old(self).capacity(),
            final(self).queue(class) == if class == TrafficClass::Bulk {
                bounded_push(old(self).queue(class), old(self).capacity(), item)
            } else {
                old(self).queue(class).push(item)
            },
            forall|c: TrafficClass|
                c != class ==> #[trigger] final(self).queue(c) == old(self).queue(c),
    {
        match class {
            TrafficClass::Control => {
                self.control.push_back(item);
            },
            TrafficClass::Realtime => {
                self.realtime.push_back(item);
            },
            TrafficClass::Interactive => {
                self.interactive.push_back(item);
            },
            TrafficClass::Bulk => {
                if self.bulk.len() >= self.bulk_capacity {
                    let _ = self.bulk.pop_front();
                }
                self.bulk.push_back(item);
            },
        }
    }

    /// Takes the oldest item of the highest class that has one.
    pub fn pop(&mut self) -> (r: Option<T>)
        ensures
            final(self).capacity() == old(self).capacity(),
            match r {
                Some(item) => {
                    let c = old(self).next_class();
                    &&& old(self).queue(c).len() > 0
                    &&& item == old(self).queue(c)[0]
                    &&& final(self).queue(c) == old(self).queue(c).subrange(
                        1,
                        old(self).queue(c).len() as int,
                    )
                    &&& forall|d: TrafficClass|
                        d != c ==> #[trigger] final(self).queue(d) == old(self).queue(d)
                },
                None => {
                    &&& forall|c: TrafficClass| #[trigger] old(self).queue(c).len() == 0
                    &&& forall|c: TrafficClass| #[trigger] final(self).queue(c) == old(self).queue(c)
                },
            },
    {
        if self.control.len() > 0 {
            return self.control.pop_front();
        }
        if self.realtime.len() > 0 {
            return self.realtime.pop_front();
        }
        if self.interactive.len() > 0 {
            return self.interactive.pop_front();
        }
        self.bulk.pop_front()
    }
}

/// Within its bound the lowest class never grows beyond its capacity, unless
/// that is zero, in which case it holds one item.
pub proof fn bulk_stays_bounded<T>(q: Seq<T>, capacity: nat, item: T)
    requires
        q.len() <= if capacity == 0 {
            1
        } else {
            capacity
        },
    ensures
        bounded_push(q, capacity, item).len() <= if capacity == 0 {
            1
        } else {
            capacity
        },
        bounded_push(q, capacity, item).last() == item,
{
}

/// Which class a version 4 packet is of, by its header: messages about the network
/// come first, then short datagrams; a connection that is being set up goes before
/// one that carries data, which comes last.
pub proof fn packets_are_ranked_by_what_they_carry(p: Seq<u8>, at: int)
    requires
        p.len() >= 20,
        20 <= at <= p.len(),
    ensures
        protocol_class(1, at, p) == TrafficClass::Control,
        protocol_class(58, at, p) == TrafficClass::Control,
        p.len() <= 512 ==> protocol_class(17, at, p) == TrafficClass::Realtime,
        p.len() > 512 ==> protocol_class(17, at, p) == TrafficClass::Interactive,
        at + 14 <= p.len() && (p[at + 13] / 2) % 2 == 1 ==> protocol_class(6, at, p)
            == TrafficClass::Interactive,
        at + 14 <= p.len() && (p[at + 13] / 2) % 2 == 0 ==> protocol_class(6, at, p)
            == TrafficClass::Bulk,
        at + 14 > p.len() ==> protocol_class(6, at, p) == TrafficClass::Bulk,
        forall|protocol: u8|
            protocol != 1 && protocol != 58 && protocol != 17 && protocol != 6
                ==> #[trigger] protocol_class(protocol, at, p) == TrafficClass::Interactive,
{
}

/// What keeps a way open goes before everything else, what goes to all or to a
/// group is not kept waiting, and an IP packet that cannot be read is not either.
pub proof fn upkeep_goes_first(t: DataPacketType, payload: Seq<u8>)
    ensures
        t == DataPacketType::Keepalive || t == DataPacketType::Ping || t == DataPacketType::Pong
            ==> packet_class(t, payload) == TrafficClass::Control,
        t == DataPacketType::Broadcast || t == DataPacketType::Multicast || t
            == DataPacketType::Discovery || t == DataPacketType::Ethernet ==> packet_class(t, payload)
            == TrafficClass::Realtime,
        (t == DataPacketType::IPv4 || t == DataPacketType::IPv6) && ip_head(payload) is None
            ==> packet_class(t, payload) == TrafficClass::Realtime,
{
}

/// Nothing is taken from a class as long as a higher one has something waiting.
pub proof fn higher_classes_go_first<T>(s: QosScheduler<T>)
    ensures
        s.queue(TrafficClass::Control).len() > 0 ==> s.next_class() == TrafficClass::Control,
        s.next_class() == TrafficClass::Realtime ==> s.queue(TrafficClass::Control).len() == 0
            && s.queue(TrafficClass::Realtime).len() > 0,
        s.next_class() == TrafficClass::Interactive ==> s.queue(TrafficClass::Control).len() == 0
            && s.queue(TrafficClass::Realtime).len() == 0 && s.queue(
            TrafficClass::Interactive,
        ).len() > 0,
        s.next_class() == TrafficClass::Bulk ==> s.queue(TrafficClass::Control).len() == 0
            && s.queue(TrafficClass::Realtime).len() == 0 && s.queue(
            TrafficClass::Interactive,
        ).len() == 0,
{
}

/// Where the lowest class is full, the item that waited longest makes room; the
/// others stay in their order, and the new one comes last.
pub proof fn the_longest_waiting_makes_room<T>(q: Seq<T>, capacity: nat, item: T)
    ensures
        bounded_push(q, capacity, item).last() == item,
        q.len() < capacity || q.len() == 0 ==> bounded_push(q, capacity, item).len() == q.len() + 1
            && forall|i: int|
            0 <= i < q.len() ==> #[trigger] bounded_push(q, capacity, item)[i] == q[i],
        q.len() >= capacity && q.len() > 0 ==> bounded_push(q, capacity, item).len() == q.len()
            && forall|i: int|
            0 <= i < q.len() - 1 ==> #[trigger] bounded_push(q, capacity, item)[i] == q[i + 1],
{
}

} // verus!
