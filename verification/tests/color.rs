use raytracer::chunk::{from_rgb, to_rgb};

#[test]
fn pack_known_values() {
    assert_eq!(from_rgb(0, 0, 0), 0);
    assert_eq!(from_rgb(255, 255, 255), 0x00ff_ffff);
    assert_eq!(from_rgb(1, 2, 3), 0x0001_0203);
    assert_eq!(from_rgb(0xa1, 0xb2, 0xc3), 0x00a1_b2c3);
}

#[test]
fn unpack_known_values() {
    assert_eq!(to_rgb(0), (0, 0, 0));
    assert_eq!(to_rgb(0x00ff_ffff), (255, 255, 255));
    assert_eq!(to_rgb(0x00a1_b2c3), (0xa1, 0xb2, 0xc3));
}

#[test]
fn unpack_ignores_the_top_byte() {
    assert_eq!(to_rgb(0xff12_3456), (0x12, 0x34, 0x56));
}

#[test]
fn unpack_after_pack_round_trip() {
    for &(r, g, b) in &[(0u8, 0u8, 0u8), (255, 255, 255), (1, 2, 3), (200, 100, 50)] {
        assert_eq!(to_rgb(from_rgb(r, g, b)), (r, g, b));
    }
}

#[test]
fn pack_after_unpack_round_trip() {
    for &c in &[0u32, 0x00ff_ffff, 0x0001_0203, 0x00a1_b2c3, 0x0012_3456] {
        let (r, g, b) = to_rgb(c);
        assert_eq!(from_rgb(r, g, b), c);
    }
}
