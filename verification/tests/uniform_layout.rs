use shader_rs::{binary32_bits_from_u32, Uniform};

#[test]
fn uniform_layout_is_sixteen_bytes() {
    let u = Uniform::new(800, 600);
    let bytes = u.to_bytes();
    assert_eq!(bytes.len(), 16);
}

#[test]
fn uniform_bytes_follow_field_order() {
    let u = Uniform {
        time_bits: 0x3F80_0000, // 1.0
        padding: 0,
        res_x_bits: 0x4448_0000, // 800.0
        res_y_bits: 0x4416_0000, // 600.0
    };
    let bytes = u.to_bytes();
    // time, little endian
    assert_eq!(&bytes[0..4], &[0x00, 0x00, 0x80, 0x3F]);
    // reserved alignment word
    assert_eq!(&bytes[4..8], &[0x00, 0x00, 0x00, 0x00]);
    // resolution x, then y
    assert_eq!(&bytes[8..12], &[0x00, 0x00, 0x48, 0x44]);
    assert_eq!(&bytes[12..16], &[0x00, 0x00, 0x16, 0x44]);
}

#[test]
fn uniform_bytes_round_trip() {
    let mut u = Uniform::new(1024, 1024);
    u.set_time_bits(2.5f32.to_bits());
    let bytes = u.to_bytes();
    let back = Uniform::from_bytes(&bytes).expect("16 bytes must decode");
    assert_eq!(back, u);
}

#[test]
fn uniform_from_bytes_rejects_wrong_length() {
    assert!(Uniform::from_bytes(&[0u8; 15]).is_none());
    assert!(Uniform::from_bytes(&[0u8; 17]).is_none());
    assert!(Uniform::from_bytes(&[]).is_none());
    assert!(Uniform::from_bytes(&[0u8; 16]).is_some());
}

#[test]
fn uniform_matches_shader_layout_for_new() {
    // Uniform::new(w, h) must hold time 0.0 and resolution (w as f32, h as f32).
    let u = Uniform::new(800, 600);
    assert_eq!(u.time_bits, 0.0f32.to_bits());
    assert_eq!(u.padding, 0);
    assert_eq!(u.res_x_bits, (800.0f32).to_bits());
    assert_eq!(u.res_y_bits, (600.0f32).to_bits());
}

#[test]
fn binary32_encoding_matches_hardware_on_known_values() {
    for &n in &[
        0u32,
        1,
        2,
        3,
        5,
        10,
        100,
        255,
        256,
        511,
        512,
        600,
        800,
        1023,
        1024,
        65535,
        65536,
        (1 << 24) - 1,
        1 << 24,
        (1 << 24) + 1,
        (1 << 24) + 2,
        (1 << 24) + 3,
        (1 << 25) + 6,
        0x8000_0000,
        0xFFFF_FF00,
        0xFFFF_FF40,
        0xFFFF_FF80,
        0xFFFF_FFBF,
        0xFFFF_FFC0,
        u32::MAX,
    ] {
        assert_eq!(binary32_bits_from_u32(n), (n as f32).to_bits(), "n = {}", n);
    }
}

#[test]
fn binary32_encoding_matches_hardware_on_a_sweep() {
    // A strided sweep across the whole 32-bit range, plus a dense band at
    // the rounding boundary near 2^24.
    let mut n: u32 = 0;
    for _ in 0..200_000 {
        assert_eq!(binary32_bits_from_u32(n), (n as f32).to_bits(), "n = {}", n);
        n = n.wrapping_add(2_654_435_761);
    }
    for n in (1u32 << 24) - 64..(1u32 << 24) + 64 {
        assert_eq!(binary32_bits_from_u32(n), (n as f32).to_bits(), "n = {}", n);
    }
}
