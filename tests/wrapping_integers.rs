use cs144_rust::wrapping_integers::WrappingInt32;
use rand::Rng;

#[test]
fn wrapping_integers_test_new() {
    let w = WrappingInt32::new(12345);
    assert_eq!(w.raw_value(), 12345);
}

#[test]
fn test_wrap() {
    let mut rng = rand::thread_rng();
    for _ in 0..10000 {
        let isn_value = rng.gen_range(0..=std::u32::MAX);
        let isn = WrappingInt32::new(isn_value);
        let n = rng.gen_range(0..=std::u64::MAX);
        let w = WrappingInt32::wrap(n, isn);
        assert_eq!(
            w.raw_value(),
            ((n & 0xFFFF_FFFFu64) as u32).wrapping_add(isn_value)
        );
    }
}

#[test]
fn test_wrap_unwrap() {
    let mut rng = rand::thread_rng();
    for _ in 0..10000 {
        let isn_value = rng.gen_range(0..=std::u32::MAX);
        let isn = WrappingInt32::new(isn_value);
        let n = rng.gen_range(0..=std::u64::MAX);
        let w = WrappingInt32::wrap(n, isn);
        let u = w.unwrap(isn, n & 0xFFFF_FFFF_FFFF_FFFF);
        assert_eq!(u, n & 0xFFFF_FFFF_FFFF_FFFF);
    }
}

#[test]
fn test_display() {
    let w = WrappingInt32::new(12345);
    assert_eq!(w.to_string(), "12345");
}

#[test]
fn display_of_zero_and_max() {
    assert_eq!(WrappingInt32::new(0).to_string(), "0");
    assert_eq!(WrappingInt32::new(u32::MAX).to_string(), "4294967295");
}

#[test]
fn wrap_and_unwrap_scenarios() {
    let isn = WrappingInt32::new(0);
    let a = 3u64 << 32;
    assert_eq!(WrappingInt32::wrap(a, isn).unwrap(isn, a), a);
    assert_eq!(
        WrappingInt32::new(15).unwrap(WrappingInt32::new(16), 0),
        (1u64 << 32) - 1
    );
}

#[test]
fn unwrap_tie_takes_smaller() {
    // Checkpoint exactly halfway between 0 and 2^32: both are 2^31 away.
    let isn = WrappingInt32::new(0);
    assert_eq!(WrappingInt32::new(0).unwrap(isn, 1u64 << 31), 0);
    // Near the top of the 64-bit range the candidate above does not exist.
    assert_eq!(
        WrappingInt32::new(0).unwrap(isn, u64::MAX),
        u64::MAX - 0xFFFF_FFFF
    );
}

#[test]
fn unwrap_round_trip_within_half_range() {
    let isn = WrappingInt32::new(0x1234_5678);
    for a in [0u64, 1, 1 << 31, (1 << 32) + 7, 5 << 32] {
        for cp in [a, a + (1 << 31), a.saturating_sub((1 << 31) - 1)] {
            assert_eq!(WrappingInt32::wrap(a, isn).unwrap(isn, cp), a);
        }
    }
}
