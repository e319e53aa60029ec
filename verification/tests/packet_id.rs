use lightyear::packet_id::PacketId;

#[test]
fn circular_diff_of_neighbours() {
    assert_eq!(PacketId(5).circular_diff(PacketId(3)), 2);
    assert_eq!(PacketId(3).circular_diff(PacketId(5)), -2);
    assert_eq!(PacketId(7).circular_diff(PacketId(7)), 0);
}

#[test]
fn circular_diff_across_the_wrap() {
    assert_eq!(PacketId(0).circular_diff(PacketId(65535)), 1);
    assert_eq!(PacketId(65535).circular_diff(PacketId(0)), -1);
    assert_eq!(PacketId(10).circular_diff(PacketId(65530)), 16);
    assert_eq!(PacketId(65530).circular_diff(PacketId(10)), -16);
}

#[test]
fn circular_diff_at_the_ends_of_its_range() {
    assert_eq!(PacketId(32767).circular_diff(PacketId(0)), 32767);
    assert_eq!(PacketId(32768).circular_diff(PacketId(0)), -32768);
    assert_eq!(PacketId(0).circular_diff(PacketId(32768)), -32768);
    assert_eq!(PacketId(0).circular_diff(PacketId(32767)), -32767);
    assert_eq!(PacketId(0).circular_diff(PacketId(32769)), 32767);
}

#[test]
fn circular_diff_round_trips_for_every_step() {
    for a in [0u16, 1, 1000, 32767, 32768, 65000, 65535] {
        for k in [-32768i32, -32767, -33, -1, 0, 1, 32, 33, 32766, 32767] {
            let moved = PacketId(((a as i32 + k).rem_euclid(65536)) as u16);
            assert_eq!(moved.circular_diff(PacketId(a)) as i32, k);
        }
    }
}

#[test]
fn increment_wraps() {
    assert_eq!(PacketId(0).increment(), PacketId(1));
    assert_eq!(PacketId(65534).increment(), PacketId(65535));
    assert_eq!(PacketId(65535).increment(), PacketId(0));
}

#[test]
fn preceding_wraps() {
    assert_eq!(PacketId(10).preceding(3), PacketId(7));
    assert_eq!(PacketId(0).preceding(1), PacketId(65535));
    assert_eq!(PacketId(5).preceding(32), PacketId(65509));
    assert_eq!(PacketId(5).preceding(0), PacketId(5));
}
