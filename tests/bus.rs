use rvsim::bus::Bus;

#[test]
fn new_bus_is_zeroed() {
    let bus = Bus::new(16);
    assert_eq!(bus.memory.len(), 16);
    assert!(bus.memory.iter().all(|b| *b == 0));
    assert_eq!(bus.load64(8), 0);
}

#[test]
fn store_then_load_returns_value_at_each_width() {
    let mut bus = Bus::new(64);
    let v: u64 = 0x8877_6655_4433_2211;
    for addr in [0u64, 3, 56] {
        bus.store64(addr, v);
        assert_eq!(bus.load64(addr), v);
        bus.store32(addr, v);
        assert_eq!(bus.load32(addr), v & 0xffff_ffff);
        bus.store16(addr, v);
        assert_eq!(bus.load16(addr), v & 0xffff);
        bus.store8(addr, v);
        assert_eq!(bus.load8(addr), v & 0xff);
    }
    bus.store64(8, u64::MAX);
    assert_eq!(bus.load64(8), u64::MAX);
}

#[test]
fn stores_are_little_endian() {
    let mut bus = Bus::new(8);
    bus.store32(0, 0x0403_0201);
    assert_eq!(bus.load8(0), 1);
    assert_eq!(bus.load8(1), 2);
    assert_eq!(bus.load8(2), 3);
    assert_eq!(bus.load8(3), 4);
    assert_eq!(bus.load16(1), 0x0302);
}

#[test]
fn narrow_store_leaves_neighbours() {
    let mut bus = Bus::new(8);
    bus.store64(0, u64::MAX);
    bus.store16(2, 0);
    assert_eq!(bus.load64(0), 0xffff_ffff_0000_ffff);
}

#[test]
fn unaligned_access_is_allowed() {
    let mut bus = Bus::new(16);
    bus.store64(5, 0x0102_0304_0506_0708);
    assert_eq!(bus.load64(5), 0x0102_0304_0506_0708);
    assert_eq!(bus.load8(5), 0x08);
    assert_eq!(bus.load8(12), 0x01);
}

#[test]
fn store_bytes_copies_in_place() {
    let mut bus = Bus::new(8);
    bus.store_bytes(2, &[9, 8, 7]);
    assert_eq!(bus.memory, vec![0, 0, 9, 8, 7, 0, 0, 0]);
}
