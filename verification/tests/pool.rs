use r2n::slab::PacketSlab;

#[test]
fn acquire_and_release_slots() {
    let mut slab = PacketSlab::<512>::new(2, 64);
    let a = slab.acquire().expect("first slot");
    let b = slab.acquire().expect("second slot");
    assert!(slab.acquire().is_none());

    slab.release(a);
    let c = slab.acquire().expect("reused slot");
    assert_eq!(c.slot, a.slot);

    let buf = slab.with_slot_mut(c);
    buf[64] = 7;
    assert_eq!(buf[64], 7);

    slab.release(c);
    slab.release(b);
    assert_eq!(slab.available(), 2);
}

#[test]
fn slots_are_handed_out_oldest_first() {
    let mut slab = PacketSlab::<16>::new(3, 4);
    let a = slab.acquire().unwrap();
    let b = slab.acquire().unwrap();
    assert_eq!((a.slot, b.slot), (0, 1));
    assert_eq!(a.payload_offset, 4);
    slab.release(b);
    slab.release(a);
    assert_eq!(slab.acquire().unwrap().slot, 2);
    assert_eq!(slab.acquire().unwrap().slot, 1);
    assert_eq!(slab.acquire().unwrap().slot, 0);
}

#[test]
fn a_full_pool_takes_nothing_back() {
    let mut slab = PacketSlab::<16>::default_pool(2);
    let a = slab.acquire().unwrap();
    slab.release(a);
    slab.release(a);
    assert_eq!(slab.available(), 2);
}

#[test]
fn what_is_written_to_a_slot_is_read_from_it() {
    let mut slab = PacketSlab::<4>::new(2, 0);
    let a = slab.acquire().unwrap();
    let b = slab.acquire().unwrap();
    slab.with_slot_mut(a).copy_from_slice(&[1, 2, 3, 4]);
    assert_eq!(slab.get_slot_slice(&a), &[1, 2, 3, 4]);
    assert_eq!(slab.get_slot_slice(&b), &[0, 0, 0, 0]);
}
