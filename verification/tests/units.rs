use sptl_spi::text::{chars_of, push_decimal, push_hexadecimal};
use sptl_spi::units::{
    attenuate, reinforce, weaken, INTERPRET_DELTA, PRUNE_LEVEL, TICK_RATE, UNIT,
};

#[test]
fn the_constants_are_millionths() {
    assert_eq!(UNIT, 1_000_000);
    assert_eq!(INTERPRET_DELTA as f64 / UNIT as f64, 0.1);
    assert_eq!(TICK_RATE as f64 / UNIT as f64, 0.05);
    assert_eq!(PRUNE_LEVEL as f64 / UNIT as f64, 0.01);
}

#[test]
fn reinforce_adds_and_clamps_at_both_ends() {
    assert_eq!(reinforce(500_000, 100_000), 600_000);
    assert_eq!(reinforce(950_000, 100_000), UNIT);
    assert_eq!(reinforce(UNIT, i64::MAX), UNIT);
    assert_eq!(reinforce(500_000, -200_000), 300_000);
    assert_eq!(reinforce(50_000, -100_000), 0);
    assert_eq!(reinforce(0, i64::MIN), 0);
    assert_eq!(reinforce(0, 0), 0);
}

#[test]
fn reinforce_brings_an_out_of_range_stability_back() {
    assert_eq!(reinforce(u64::MAX, 0), UNIT);
    assert_eq!(reinforce(u64::MAX, i64::MIN), UNIT);
    assert_eq!(reinforce(5 * UNIT, -(4 * UNIT as i64) - 500_000), 500_000);
}

#[test]
fn weaken_subtracts_and_stops_at_zero() {
    assert_eq!(weaken(UNIT, TICK_RATE), 950_000);
    assert_eq!(weaken(50_000, 50_000), 0);
    assert_eq!(weaken(49_999, 50_000), 0);
    assert_eq!(weaken(0, u64::MAX), 0);
    assert_eq!(weaken(700_000, 0), 700_000);
}

#[test]
fn attenuate_scales_by_one_minus_rate_and_rounds_down() {
    assert_eq!(attenuate(UNIT, TICK_RATE), 950_000);
    assert_eq!(attenuate(2 * UNIT, 250_000), 1_500_000);
    assert_eq!(attenuate(3, 500_000), 1);
    assert_eq!(attenuate(666_667, 333_333), 444_444);
    assert_eq!(attenuate(UNIT, 0), UNIT);
    assert_eq!(attenuate(u64::MAX, 0), u64::MAX);
    assert_eq!(attenuate(u64::MAX, 1), 18_446_725_626_965_477_905);
}

#[test]
fn attenuate_at_a_rate_of_one_or_more_leaves_nothing() {
    assert_eq!(attenuate(UNIT, UNIT), 0);
    assert_eq!(attenuate(u64::MAX, UNIT), 0);
    assert_eq!(attenuate(u64::MAX, UNIT + 1), 0);
    assert_eq!(attenuate(7, u64::MAX), 0);
}

#[test]
fn numbers_are_written_in_decimal() {
    let mut out = String::from("n=");
    push_decimal(&mut out, 0);
    assert_eq!(out, "n=0");
    let mut out = String::new();
    push_decimal(&mut out, 7);
    push_decimal(&mut out, 10);
    push_decimal(&mut out, 1_000_000);
    assert_eq!(out, "7101000000");
    let mut out = String::new();
    push_decimal(&mut out, u128::MAX);
    assert_eq!(out, "340282366920938463463374607431768211455");
}

#[test]
fn numbers_are_written_in_lower_case_hexadecimal() {
    let mut out = String::from("q");
    push_hexadecimal(&mut out, 0);
    assert_eq!(out, "q0");
    let mut out = String::new();
    push_hexadecimal(&mut out, 255);
    assert_eq!(out, "ff");
    let mut out = String::new();
    push_hexadecimal(&mut out, 0x1a2b3c);
    assert_eq!(out, "1a2b3c");
    let mut out = String::new();
    push_hexadecimal(&mut out, 16);
    assert_eq!(out, "10");
}

#[test]
fn chars_of_gives_every_character_in_order() {
    assert_eq!(chars_of(""), Vec::<char>::new());
    assert_eq!(chars_of("aτ=b"), vec!['a', 'τ', '=', 'b']);
}

fn fraction(level: u64) -> f64 {
    level as f64 / UNIT as f64
}

#[test]
fn levels_follow_the_arithmetic_of_fractions_to_a_millionth() {
    let levels: [u64; 7] = [0, 1, 10_000, 333_333, 950_000, UNIT, 7 * UNIT + 123_456];
    let rates: [u64; 7] = [0, 1, 50_000, 333_333, 500_000, 999_999, UNIT];
    for &level in &levels {
        for &rate in &rates {
            let exact = (fraction(level) * (1.0 - fraction(rate))).max(0.0);
            let got = fraction(attenuate(level, rate));
            assert!(got <= exact + 1e-12, "{} {}", level, rate);
            assert!(exact - got < 1.0e-6 + 1e-12, "{} {}", level, rate);
            let exact = (fraction(level.min(UNIT)) - fraction(rate)).max(0.0);
            assert!((fraction(weaken(level.min(UNIT), rate)) - exact).abs() < 1e-12);
        }
    }
    let deltas: [i64; 5] = [-2_000_000, -100_000, 0, 100_000, 2_000_000];
    for &level in &levels {
        for &delta in &deltas {
            let exact = (fraction(level) + delta as f64 / UNIT as f64).clamp(0.0, 1.0);
            assert!((fraction(reinforce(level, delta)) - exact).abs() < 1e-12);
        }
    }
}
