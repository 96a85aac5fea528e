//! A pool of fixed-size packet buffers.

use crossbeam_queue::ArrayQueue;
use vstd::prelude::*;

verus! {

/// Bytes of a buffer.
pub const DEFAULT_FRAME_CAP: usize = 1600;

/// Bytes kept free in front of a payload.
pub const DEFAULT_HEADROOM: usize = 128;

#[derive(Debug, Clone, Copy, PartialEq, Eq, Structural)]
pub enum TrafficClass {
    Control,
    Realtime,
    Interactive,
    Bulk,
}

/// A buffer that its holder may use.
#[derive(Debug, Clone, Copy, PartialEq, Eq, Structural)]
pub struct PacketDesc {
    pub slot: u32,
    pub data_offset: usize,
    pub payload_offset: usize,
    pub len: usize,
    pub class: TrafficClass,
}

/// The bounded queue of the `crossbeam_queue` crate.
#[verifier::external_type_specification]
#[verifier::external_body]
#[verifier::reject_recursive_types(T)]
pub struct ExArrayQueue<T>(crossbeam_queue::ArrayQueue<T>);

/// What a queue holds, oldest first.
pub uninterp spec fn queued(q: ArrayQueue<u32>) -> Seq<u32>;

/// How much a queue can hold.
pub uninterp spec fn queue_limit(q: ArrayQueue<u32>) -> nat;

/// `ArrayQueue::new`: an empty queue of this capacity. It panics on a capacity
/// of zero and on one whose next power of two does not fit its counter.
#[verifier::external_body]
fn queue_new(cap: usize) -> (q: ArrayQueue<u32>)
    requires
        0 < cap <= 0xffff_ffff,
        cap <= usize::MAX / 2,
    ensures
        queued(q).len() == 0,
        queue_limit(q) == cap,
{
    ArrayQueue::new(cap)
}

/// `ArrayQueue::push`: adds at the end, unless the queue is full, in which case
/// it stays as it was.
#[verifier::external_body]
fn queue_push(q: &mut ArrayQueue<u32>, v: u32)
    ensures
        queue_limit(*final(q)) == queue_limit(*old(q)),
        queued(*final(q)) == if queued(*old(q)).len() < queue_limit(*old(q)) {
            queued(*old(q)).push(v)
        } else {
            queued(*old(q))
        },
{
    let _ = q.push(v);
}

/// `ArrayQueue::pop`: takes the oldest item, if there is one.
#[verifier::external_body]
fn queue_pop(q: &mut ArrayQueue<u32>) -> (r: Option<u32>)
    ensures
        queue_limit(*final(q)) == queue_limit(*old(q)),
        r is Some <==> queued(*old(q)).len() > 0,
        r is Some ==> r->0 == queued(*old(q))[0] && queued(*final(q)) == queued(*old(q)).subrange(
            1,
            queued(*old(q)).len() as int,
        ),
        r is None ==> queued(*final(q)) == queued(*old(q)),
{
    q.pop()
}

/// `ArrayQueue::len`: how many items the queue holds.
#[verifier::external_body]
fn queue_len(q: &ArrayQueue<u32>) -> (n: usize)
    ensures
        n == queued(*q).len(),
{
    q.len()
}

/// A pool of buffers of `FRAME_CAP` bytes each.
pub struct PacketSlab<const FRAME_CAP: usize> {
    slots: Vec<[u8; FRAME_CAP]>,
    free: ArrayQueue<u32>,
    headroom: usize,
}

impl<const FRAME_CAP: usize> PacketSlab<FRAME_CAP> {
    /// The buffers that nobody holds, in the order in which they are handed out.
    pub closed spec fn free_slots(self) -> Seq<u32> {
        queued(self.free)
    }

    /// How many buffers there are.
    pub closed spec fn capacity(self) -> nat {
        self.slots@.len()
    }

    /// Bytes kept free in front of a payload.
    pub closed spec fn room(self) -> usize {
        self.headroom
    }

    /// The bytes of a buffer.
    pub closed spec fn bytes(self, slot: int) -> Seq<u8> {
        self.slots@[slot]@
    }

    /// The free list has room for every buffer and holds nothing else.
    pub closed spec fn wf(self) -> bool {
        &&& queue_limit(self.free) == self.slots@.len()
        &&& self.slots@.len() <= 0xffff_ffff
        &&& queued(self.free).len() <= self.slots@.len()
        &&& forall|i: int|
            0 <= i < queued(self.free).len() ==> #[trigger] queued(self.free)[i] < self.slots@.len()
    }

    /// No buffer is free twice.
    pub open spec fn free_once(self) -> bool {
        self.free_slots().no_duplicates()
    }

    /// No more buffers are free than there are.
    pub proof fn free_fits(self)
        requires
            self.wf(),
        ensures
            self.free_slots().len() <= self.capacity(),
    {
    }

    /// A pool with all its buffers free, in order, and blank.
    pub fn new(capacity: usize, headroom: usize) -> (s: PacketSlab<FRAME_CAP>)
        requires
            0 < capacity <= 0xffff_ffff,
            capacity <= usize::MAX / 2,
        ensures
            s.wf(),
            s.free_once(),
            s.capacity() == capacity,
            s.room() == headroom,
            s.free_slots() == Seq::new(capacity as nat, |i: int| i as u32),
            forall|k: int, b: int|
                0 <= k < capacity && 0 <= b < FRAME_CAP ==> #[trigger] s.bytes(k)[b] == 0,
    {
        let mut slots: Vec<[u8; FRAME_CAP]> = Vec::new();
        let mut free = queue_new(capacity);
        for i in 0..capacity
            invariant
                capacity <= 0xffff_ffff,
                slots@.len() == i,
                queue_limit(free) == capacity,
                queued(free) == Seq::new(i as nat, |k: int| k as u32),
                forall|k: int, b: int|
                    0 <= k < i && 0 <= b < FRAME_CAP ==> #[trigger] slots@[k]@[b] == 0,
        {
            slots.push([0u8; FRAME_CAP]);
            queue_push(&mut free, i as u32);
            assert(queued(free) =~= Seq::new((i + 1) as nat, |k: int| k as u32));
        }
        PacketSlab { slots, free, headroom }
    }

    /// A pool with the usual headroom.
    pub fn default_pool(capacity: usize) -> (s: PacketSlab<FRAME_CAP>)
        requires
            0 < capacity <= 0xffff_ffff,
            capacity <= usize::MAX / 2,
        ensures
            s.wf(),
            s.free_once(),
            s.capacity() == capacity,
            s.room() == DEFAULT_HEADROOM,
            s.free_slots() == Seq::new(capacity as nat, |i: int| i as u32),
    {
        Self::new(capacity, DEFAULT_HEADROOM)
    }

    /// Takes the buffer that has been free for longest, if one is free.
    pub fn acquire(&mut self) -> (r: Option<PacketDesc>)
        requires
            old(self).wf(),
        ensures
            final(self).wf(),
            final(self).capacity() == old(self).capacity(),
            final(self).room() == old(self).room(),
            forall|k: int| #[trigger] final(self).bytes(k) == old(self).bytes(k),
            match r {
                Some(desc) => {
                    &&& old(self).free_slots().len() > 0
                    &&& desc == (PacketDesc {
                        slot: old(self).free_slots()[0],
                        data_offset: 0,
                        payload_offset: old(self).room(),
                        len: 0,
                        class: TrafficClass::Bulk,
                    })
                    &&& desc.slot < old(self).capacity()
                    &&& final(self).free_slots() == old(self).free_slots().subrange(
                        1,
                        old(self).free_slots().len() as int,
                    )
                },
                None => {
                    &&& old(self).free_slots().len() == 0
                    &&& final(self).free_slots() == old(self).free_slots()
                },
            },
    {
        match queue_pop(&mut self.free) {
            Some(slot) => Some(
                PacketDesc {
                    slot,
                    data_offset: 0,
                    payload_offset: self.headroom,
                    len: 0,
                    class: TrafficClass::Bulk,
                },
            ),
            None => None,
        }
    }

    /// Gives a buffer back; it is handed out again after all that are free
    /// already. With every buffer free nothing changes.
    pub fn release(&mut self, desc: PacketDesc)
        requires
            old(self).wf(),
        ensures
            desc.slot < old(self).capacity() ==> final(self).wf(),
            final(self).capacity() == old(self).capacity(),
            final(self).room() == old(self).room(),
            forall|k: int| #[trigger] final(self).bytes(k) == old(self).bytes(k),
            final(self).free_slots() == given_back(
                old(self).free_slots(),
                old(self).capacity(),
                desc.slot,
            ),
    {
        queue_push(&mut self.free, desc.slot);
    }

    /// How many buffers are free.
    pub fn available(&self) -> (n: usize)
        ensures
            n == self.free_slots().len(),
    {
        queue_len(&self.free)
    }

    /// The bytes of a buffer, to be written.
    pub fn with_slot_mut(&mut self, desc: PacketDesc) -> (buf: &mut [u8; FRAME_CAP])
        requires
            old(self).wf(),
            desc.slot < old(self).capacity(),
        ensures
            buf@ == old(self).bytes(desc.slot as int),
            final(self).wf(),
            final(self).capacity() == old(self).capacity(),
            final(self).room() == old(self).room(),
            final(self).free_slots() == old(self).free_slots(),
            final(self).bytes(desc.slot as int) == final(buf)@,
            forall|k: int|
                0 <= k < old(self).capacity() && k != desc.slot ==> #[trigger] final(self).bytes(k)
                    == old(self).bytes(k),
    {
        &mut self.slots[desc.slot as usize]
    }

    /// The bytes of a buffer.
    pub fn get_slot_slice(&self, desc: &PacketDesc) -> (s: &[u8])
        requires
            desc.slot < self.capacity(),
        ensures
            s@ == self.bytes(desc.slot as int),
            s@.len() == FRAME_CAP,
    {
        self.slots[desc.slot as usize].as_slice()
    }
}

/// A buffer that was taken and given back is free again, once, and no other
/// buffer was touched: `free` is the free list before, and none of it is lost.
pub proof fn taken_slot_returns(free: Seq<u32>, cap: nat)
    requires
        0 < free.len() <= cap,
        free.no_duplicates(),
    ensures
        ({
            let taken = free.subrange(1, free.len() as int);
            let back = taken.push(free[0]);
            &&& taken.len() < cap
            &&& !taken.contains(free[0])
            &&& back.len() == free.len()
            &&& back.no_duplicates()
            &&& forall|x: u32| #[trigger] back.contains(x) <==> free.contains(x)
        }),
{
    let taken = free.subrange(1, free.len() as int);
    let back = taken.push(free[0]);
    assert forall|x: u32| #[trigger] back.contains(x) <==> free.contains(x) by {
        if free.contains(x) {
            let i = choose|i: int| 0 <= i < free.len() && free[i] == x;
            if i == 0 {
                assert(back[back.len() - 1] == x);
            } else {
                assert(back[i - 1] == x);
            }
        }
        if back.contains(x) {
            let i = choose|i: int| 0 <= i < back.len() && back[i] == x;
            if i == back.len() - 1 {
                assert(free[0] == x);
            } else {
                assert(free[i + 1] == x);
            }
        }
    }
    assert(!taken.contains(free[0])) by {
        if taken.contains(free[0]) {
            let i = choose|i: int| 0 <= i < taken.len() && taken[i] == free[0];
            assert(free[i + 1] == free[0]);
        }
    }
    assert forall|i: int, j: int| 0 <= i < back.len() && 0 <= j < back.len() && i != j implies
        back[i] != back[j] by {
        if i == back.len() - 1 {
            assert(back[j] == free[j + 1]);
        } else if j == back.len() - 1 {
            assert(back[i] == free[i + 1]);
        } else {
            assert(back[i] == free[i + 1]);
            assert(back[j] == free[j + 1]);
        }
    }
}

/// The free buffers with one given back; where all are free already, none is added.
pub open spec fn given_back(free: Seq<u32>, capacity: nat, slot: u32) -> Seq<u32> {
    if free.len() < capacity {
        free.push(slot)
    } else {
        free
    }
}

/// A buffer that is given back is free, and is taken again last; those that were free stay so.
pub proof fn buffers_are_taken_in_turn(free: Seq<u32>, capacity: nat, slot: u32)
    requires
        free.len() < capacity,
    ensures
        given_back(free, capacity, slot).contains(slot),
        given_back(free, capacity, slot).last() == slot,
        given_back(free, capacity, slot).len() == free.len() + 1,
        forall|i: int|
            0 <= i < free.len() ==> #[trigger] given_back(free, capacity, slot)[i] == free[i],
        given_back(free, capacity, slot).len() <= capacity,
        given_back(free, free.len(), slot) == free,
{
    assert(given_back(free, capacity, slot)[free.len() as int] == slot);
}

} // verus!
