use fletcher_simd::lanes::{update_fletcher_simd, LaneAccumulator};
use fletcher_simd::scalar::{scalar_step, update_fletcher_scalar};
use fletcher_simd::{Fletcher128, Fletcher16, Fletcher32, Fletcher64};

/// The recurrence written out plainly, for comparison.
fn reference16(a0: u8, b0: u8, data: &[u8]) -> u16 {
    let mut a = a0 as u32;
    let mut b = b0 as u32;
    for &e in data {
        a = (a + e as u32) % 256;
        b = (b + a) % 256;
    }
    ((b << 8) | a) as u16
}

fn reference64(a0: u32, b0: u32, data: &[u32]) -> u64 {
    let mut a = a0 as u64;
    let mut b = b0 as u64;
    for &e in data {
        a = (a + e as u64) % (1u64 << 32);
        b = (b + a) % (1u64 << 32);
    }
    (b << 32) | a
}

fn bytes(n: usize, seed: u32) -> Vec<u8> {
    let mut x = seed;
    (0..n)
        .map(|_| {
            x = x.wrapping_mul(1_103_515_245).wrapping_add(12_345);
            (x >> 16) as u8
        })
        .collect()
}

#[test]
fn two_bytes_exact_value() {
    let mut f = Fletcher16::new();
    f.update_with_slice(&[1, 2]);
    assert_eq!(f.value(), 0x0403);
}

#[test]
fn initial_values_form_halves() {
    assert_eq!(Fletcher16::with_initial_values(0x12, 0x34).value(), 0x3412);
    assert_eq!(Fletcher32::with_initial_values(0x1234, 0xABCD).value(), 0xABCD_1234);
    assert_eq!(
        Fletcher64::with_initial_values(0x0102_0304, 0x0A0B_0C0D).value(),
        0x0A0B_0C0D_0102_0304
    );
    assert_eq!(
        Fletcher128::with_initial_values(u64::MAX, 1).value(),
        0x1_FFFF_FFFF_FFFF_FFFF
    );
}

#[test]
fn conversion_gives_value() {
    let mut f = Fletcher32::new();
    f.update_with_slice(&[7, 9, 11]);
    let v: u32 = f.into();
    assert_eq!(v, f.value());
    assert_eq!(u16::from(Fletcher16::with_initial_values(1, 2)), 0x0201);
}

#[test]
fn default_is_zero() {
    let f: Fletcher64 = Default::default();
    assert_eq!(f.value(), 0);
    assert_eq!(f, Fletcher64::new());
}

#[test]
fn seeded_state_counts_in_lane_path() {
    // 32 zero bytes form one whole group of the lane path; the seed `a`
    // is added to `b` once per byte.
    let mut f = Fletcher16::with_initial_values(1, 0);
    f.update_with_slice(&[0u8; 32]);
    assert_eq!(f.value(), 0x2001);
    let mut g = Fletcher16::with_initial_values(1, 0);
    g.update_with_iter([0u8; 32].iter().copied());
    assert_eq!(g.value(), 0x2001);
}

#[test]
fn empty_updates_change_nothing() {
    let mut f = Fletcher32::with_initial_values(0x1111, 0x2222);
    f.update_with_slice(&[]);
    assert_eq!(f.value(), 0x2222_1111);
    f.update_with_iter(std::iter::empty());
    assert_eq!(f.value(), 0x2222_1111);
    f.update_with_iter_scalar(std::iter::empty());
    assert_eq!(f.value(), 0x2222_1111);
}

#[test]
fn three_paths_agree_on_every_length() {
    for n in 0..100 {
        let data = bytes(n, n as u32 + 3);
        let mut s = Fletcher16::with_initial_values(17, 200);
        let mut i = Fletcher16::with_initial_values(17, 200);
        let mut c = Fletcher16::with_initial_values(17, 200);
        s.update_with_slice(&data);
        i.update_with_iter(data.iter().copied());
        c.update_with_iter_scalar(data.iter().copied());
        let expected = reference16(17, 200, &data);
        assert_eq!(s.value(), expected);
        assert_eq!(i.value(), expected);
        assert_eq!(c.value(), expected);
    }
}

#[test]
fn three_paths_agree_on_words() {
    for n in 0..40 {
        let data: Vec<u32> = bytes(4 * n, 99)
            .chunks(4)
            .map(|c| u32::from_le_bytes([c[0], c[1], c[2], c[3]]))
            .collect();
        let mut s = Fletcher64::with_initial_values(0xFFFF_FFFF, 5);
        let mut i = Fletcher64::with_initial_values(0xFFFF_FFFF, 5);
        let mut c = Fletcher64::with_initial_values(0xFFFF_FFFF, 5);
        s.update_with_slice(&data);
        i.update_with_iter(data.iter().copied());
        c.update_with_iter_scalar(data.iter().copied());
        let expected = reference64(0xFFFF_FFFF, 5, &data);
        assert_eq!(s.value(), expected);
        assert_eq!(i.value(), expected);
        assert_eq!(c.value(), expected);
    }
}

#[test]
fn split_updates_equal_one_update() {
    let data = bytes(150, 42);
    let mut whole = Fletcher16::new();
    whole.update_with_slice(&data);
    for cut in [0usize, 1, 31, 32, 33, 64, 100, 150] {
        let mut parts = Fletcher16::new();
        parts.update_with_slice(&data[..cut]);
        parts.update_with_slice(&data[cut..]);
        assert_eq!(parts.value(), whole.value());
        let mut mixed = Fletcher16::new();
        mixed.update_with_iter(data[..cut].iter().copied());
        mixed.update_with_iter_scalar(data[cut..].iter().copied());
        assert_eq!(mixed.value(), whole.value());
    }
}

#[test]
fn wraparound_on_long_input() {
    let data = vec![0xFFu8; 1000];
    let mut f = Fletcher16::new();
    f.update_with_slice(&data);
    assert_eq!(f.value(), reference16(0, 0, &data));
}

#[test]
fn lane_path_matches_scalar_path() {
    let data: Vec<u16> = (0..48u16).map(|i| i.wrapping_mul(4099).wrapping_add(7)).collect();
    let simd = update_fletcher_simd(3u16, 9u16, &data, 16);
    let scalar = update_fletcher_scalar(3u16, 9u16, &data);
    assert_eq!(simd, scalar);
    let small = update_fletcher_simd(0u8, 0u8, &[1, 2, 3, 4], 2);
    assert_eq!(small, (10, 20));
}

#[test]
fn scalar_step_wraps() {
    assert_eq!(scalar_step(250u8, 10u8, 10u8), (4, 14));
    assert_eq!(update_fletcher_scalar(0u8, 0u8, &[1, 2, 3]), (6, 10));
}

#[test]
fn accumulator_groups_then_finishes() {
    let data = [1u8, 2, 3, 4, 5, 6, 7, 8];
    let mut acc = LaneAccumulator::<u8>::new(4);
    acc.add_group(&data, 0);
    acc.add_group(&data, 4);
    assert_eq!(acc.finish(0, 0), update_fletcher_scalar(0u8, 0u8, &data));
    assert_eq!(acc.finish(0, 0), (36, 120));
    assert_eq!(acc.finish(2, 1), update_fletcher_scalar(2u8, 1u8, &data));
}
