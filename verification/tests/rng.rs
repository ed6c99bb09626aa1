use estros::rng::{Rng, XORShiftRng};

#[test]
fn xorshift_sequence_from_kernel_seed() {
    let mut rng = XORShiftRng::new(69420);
    assert_eq!(rng.rand_u64(), 74005201765938);
    assert_eq!(rng.rand_u64(), 9497832976310012990);
    assert_eq!(rng.rand_u64(), 6550716635657414054);
    assert_eq!(rng.rand_u64(), 16516394677510125677);
}

#[test]
fn xorshift_step_from_one() {
    let mut rng = XORShiftRng::new(1);
    assert_eq!(rng.rand_u64(), 1082269761);
}

#[test]
fn zero_seed_stays_zero() {
    let mut rng = XORShiftRng::new(0);
    for _ in 0..5 {
        assert_eq!(rng.rand_u64(), 0);
    }
}

#[test]
fn same_seed_same_sequence() {
    let mut a = XORShiftRng::new(12345);
    let mut b = XORShiftRng::new(12345);
    for _ in 0..10 {
        assert_eq!(a.rand_u64(), b.rand_u64());
    }
}

#[test]
fn narrower_draws_keep_low_bits() {
    let mut rng = XORShiftRng::new(69420);
    assert_eq!(rng.rand_u32(), 2915255858);
    assert_eq!(rng.rand_u16(), 3134);
    assert_eq!(rng.rand_u8(), 166);
    let mut rng = XORShiftRng::new(69420);
    rng.rand_u64();
    rng.rand_u64();
    rng.rand_u64();
    assert_eq!(rng.rand_u16(), 47213);
}

#[test]
fn signed_draws_are_twos_complement() {
    let mut rng = XORShiftRng::new(69420);
    assert_eq!(rng.rand_i64(), 74005201765938);
    assert_eq!(rng.rand_i64(), 9497832976310012990u64 as i64);
    assert!((9497832976310012990u64 as i64) < 0);
    let mut rng = XORShiftRng::new(69420);
    assert_eq!(rng.rand_i32(), 2915255858u32 as i32);
    assert_eq!(rng.rand_i16(), 3134);
    assert_eq!(rng.rand_i8(), 166u8 as i8);
    assert_eq!(rng.rand_i8(), 109);
}

#[test]
fn each_draw_advances_once() {
    let mut a = XORShiftRng::new(7);
    let mut b = XORShiftRng::new(7);
    a.rand_u8();
    b.rand_u64();
    assert_eq!(a.rand_u64(), b.rand_u64());
}
