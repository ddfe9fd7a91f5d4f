use embedded_profiling::{convert_instant, gcd, reduced_fraction, ticks_to_micros, EPContainer, TickConverter};

#[test]
fn check_conversion() {
    // 4 / 4_000_000 seconds per tick is one microsecond: nothing may saturate
    const NOM: u32 = 4;
    const DENOM: u32 = 4_000_000;
    let initial = EPContainer::MAX - 10;
    let result = convert_instant(initial, NOM, DENOM);
    assert!(result.ticks() == initial);
}

#[test]
fn convert_instant_millis_to_micros() {
    assert_eq!(convert_instant(100, 1, 1_000).ticks(), 100_000);
}

#[test]
fn convert_instant_saturates() {
    assert_eq!(convert_instant(EPContainer::MAX, 1, 1).ticks(), EPContainer::MAX);
}

#[test]
fn gcd_of_known_pairs() {
    assert_eq!(gcd(0, 0), 0);
    assert_eq!(gcd(0, 12), 12);
    assert_eq!(gcd(12, 0), 12);
    assert_eq!(gcd(12, 18), 6);
    assert_eq!(gcd(17, 5), 1);
    assert_eq!(gcd(1_000_000, 120_000_000), 1_000_000);
    assert_eq!(gcd(1_000_000, 48_000_000), 1_000_000);
    assert_eq!(gcd(1_000_000, 32_768), 64);
    assert_eq!(gcd(u32::MAX, u32::MAX), u32::MAX);
    assert_eq!(gcd(1 << 31, 1 << 20), 1 << 20);
}

#[test]
fn reduce_120_mhz() {
    assert_eq!(reduced_fraction(120_000_000), (1, 120));
}

#[test]
fn reduce_rates_to_lowest_terms() {
    assert_eq!(reduced_fraction(1_000_000), (1, 1));
    assert_eq!(reduced_fraction(32_768), (15_625, 512));
    assert_eq!(reduced_fraction(1), (1_000_000, 1));
    assert_eq!(reduced_fraction(7), (1_000_000, 7));
    for rate in [3u32, 1_024, 48_000_000, 72_000_000, 16_000_000, 999_983] {
        let (n, d) = reduced_fraction(rate);
        assert_eq!(gcd(n, d), 1);
        assert_eq!(n as u64 * rate as u64, d as u64 * 1_000_000);
    }
}

#[test]
fn ticks_120_mhz_to_micros() {
    let converter = TickConverter::new(120_000_000);
    assert_eq!(converter.rate(), 120_000_000);
    assert_eq!(converter.micros(120_000), 1_000);
    assert_eq!(converter.micros(119), 0);
    assert_eq!(converter.micros(120), 1);
}

#[test]
fn reduced_conversion_matches_unreduced() {
    for rate in [1u32, 7, 32_768, 48_000_000, 120_000_000] {
        let converter = TickConverter::new(rate);
        for t in [0u64, 1, 999, 123_456_789, u32::MAX as u64, 1 << 40] {
            let expected = (t as u128 * 1_000_000 / rate as u128).min(u64::MAX as u128) as u64;
            assert_eq!(converter.micros(t), expected);
        }
    }
}

#[test]
fn ticks_to_micros_without_overflow() {
    assert_eq!(ticks_to_micros(u64::MAX, 1, 120), u64::MAX / 120);
    assert_eq!(ticks_to_micros(u64::MAX, 2, 1), u64::MAX);
    assert_eq!(ticks_to_micros(1 << 40, 15_625, 512), (1u64 << 40) / 512 * 15_625);
}
