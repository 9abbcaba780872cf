use std::time::Duration;
use stellaris_performance_test::elapsed::{format_elapsed_millis, time, MAX_DURATION_MILLIS};

/// The text that single-precision seconds give, printed with `{}`.
fn printed(millis: u128) -> String {
    let seconds = (millis as f32 / 1000f32).floor();
    format!("{:#02}:{:#03}", seconds, millis % 1000)
}

#[test]
fn pads_seconds_and_milliseconds() {
    assert_eq!(format_elapsed_millis(12034), "12:034");
    assert_eq!(format_elapsed_millis(5), "00:005");
    assert_eq!(format_elapsed_millis(0), "00:000");
    assert_eq!(format_elapsed_millis(123456), "123:456");
    assert_eq!(format_elapsed_millis(9999), "09:999");
    assert_eq!(format_elapsed_millis(999), "00:999");
    assert_eq!(format_elapsed_millis(1000), "01:000");
}

#[test]
fn seconds_are_rounded_through_single_precision() {
    // 16 777 999 lies halfway between two single-precision numbers and goes to the even one.
    assert_eq!(format_elapsed_millis(16_777_999), "16778:999");
    assert_eq!(format_elapsed_millis(16_777_215), "16777:215");
    assert_eq!(format_elapsed_millis(16_777_217), "16777:217");
    assert_eq!(format_elapsed_millis(1_000_000_000_000), "1000000000:000");
    assert_eq!(format_elapsed_millis(33_554_431_999), "33554432:999");
    // 2^35 s: the shortest digits that read back as that single-precision number
    assert_eq!(format_elapsed_millis(34_359_738_368_000), "34359740000:000");
}

#[test]
fn agrees_with_printing_single_precision() {
    let mut m: u128 = 0;
    while m < 40_000_000 {
        assert_eq!(format_elapsed_millis(m), printed(m), "at {} ms", m);
        m += 997;
    }
    let mut m: u128 = 1;
    while m < MAX_DURATION_MILLIS / 4 {
        for k in [m - 1, m, m + 1, m + 499, m + 500, m + 999] {
            assert_eq!(format_elapsed_millis(k), printed(k), "at {} ms", k);
        }
        m = m * 3 + 7;
    }
}

#[test]
fn agrees_with_printing_large_single_precision() {
    // around powers of two and of ten of seconds, and on a spread of large values
    for e in 20..64u32 {
        let s = 1u128 << e;
        for d in [0u128, 1, 2, 3, 5, 7, 1000, 4096, 65536] {
            for ms in [s * 1000 - d * 1000, s * 1000 + d * 1000, s * 1000 + d * 999] {
                assert_eq!(format_elapsed_millis(ms), printed(ms), "at {} ms", ms);
            }
        }
    }
    for e in 7..19u32 {
        let s = 10u128.pow(e);
        for d in [0u128, 1, 3, 64, 500, 4096, 100_000] {
            for ms in [s * 1000 - d * 1000, s * 1000 + d * 1000] {
                assert_eq!(format_elapsed_millis(ms), printed(ms), "at {} ms", ms);
            }
        }
    }
    let mut m: u128 = 33_554_432_000;
    while m < MAX_DURATION_MILLIS {
        assert_eq!(format_elapsed_millis(m), printed(m), "at {} ms", m);
        m = m + m / 997 + 12_345_678_901;
    }
    assert_eq!(format_elapsed_millis(MAX_DURATION_MILLIS), printed(MAX_DURATION_MILLIS));
}

#[test]
fn the_longest_duration() {
    assert_eq!(MAX_DURATION_MILLIS, Duration::MAX.as_millis());
    let text = format_elapsed_millis(MAX_DURATION_MILLIS);
    assert!(text.ends_with(":999"));
}

#[test]
fn time_of_a_duration() {
    assert_eq!(time(Duration::from_millis(1500)), "01:500");
    assert_eq!(time(Duration::from_micros(2_345_999)), "02:345");
    assert_eq!(time(Duration::from_secs(75)), "75:000");
    assert_eq!(time(Duration::from_millis(16_777_999)), "16778:999");
}
