use ige_core::rng::TinyRng;
use ige_core::sobol::Sobol1d;

#[test]
fn sobol_first_values_are_bit_reversed_gray_codes() {
    let mut s = Sobol1d::new(0);
    let got: Vec<u32> = (0..6).map(|_| s.next_raw()).collect();
    assert_eq!(got, vec![0x0, 0x8000_0000, 0xc000_0000, 0x4000_0000, 0x6000_0000, 0xe000_0000]);
    assert_eq!(s.i, 6);
}

#[test]
fn sobol_offset_start() {
    let mut s = Sobol1d::new(1000);
    assert_eq!(s.next_raw(), 0x3840_0000);
    assert_eq!(s.next_raw(), 0xb840_0000);
    assert_eq!(s.next_raw(), 0xf840_0000);
}

#[test]
fn sobol_direction_numbers() {
    let s = Sobol1d::new(3);
    for b in 0..32 {
        assert_eq!(s.dirs[b], 1u32 << (31 - b));
    }
}

#[test]
fn rng_forces_odd_seed() {
    assert_eq!(TinyRng::new(0).state, 1);
    assert_eq!(TinyRng::new(42).state, 43);
}

#[test]
fn rng_xorshift_star_sequence() {
    let mut r = TinyRng::new(42);
    assert_eq!(r.next_u64(), 0x9eb3_1902_fb08_80bd);
    assert_eq!(r.state, 0x5600_0021);
    assert_eq!(r.next_u64(), 0x7411_91fc_cc34_92f7);
    assert_eq!(r.next_u64(), 0x1d2f_a72b_7757_ad59);
    assert_eq!(r.state, 0x01f7_0840_5365_286d);
}

#[test]
fn rng_state_never_zero() {
    let mut r = TinyRng::new(0);
    for _ in 0..10000 {
        r.next_u64();
        assert_ne!(r.state, 0);
    }
}

#[test]
fn sobol_first_power_of_two_draws_are_dyadic_points() {
    for k in 0..8u32 {
        let mut s = Sobol1d::new(0);
        let n = 1u32 << k;
        let mut vals: Vec<u64> = (0..n).map(|_| s.next_raw() as u64).collect();
        vals.sort();
        let step = 1u64 << (32 - k);
        let expected: Vec<u64> = (0..n as u64).map(|j| j * step).collect();
        assert_eq!(vals, expected, "k = {k}");
    }
}
