use reticulum::channel::window::{
    adjust_params, packet_timeout_time, ChannelParams, RttBand, RTT_FAST, RTT_MEDIUM, RTT_SLOW,
};

#[test]
fn params_start_small() {
    let params = ChannelParams::new(false);
    assert_eq!(params.max_tries, 5);
    assert_eq!(params.window, 2);
    assert_eq!(params.window_min, 2);
    assert_eq!(params.window_max, 5);
    assert_eq!(params.window_flexibility, 4);
    assert_eq!(params.fast_rate_rounds, 0);
    assert_eq!(params.medium_rate_rounds, 0);

    let slow = ChannelParams::new(true);
    assert_eq!(slow.window, 1);
    assert_eq!(slow.window_min, 1);
    assert_eq!(slow.window_max, 1);
    assert_eq!(slow.window_flexibility, 1);
}

#[test]
fn bands_follow_the_thresholds() {
    assert_eq!(RttBand::of(0), RttBand::Fast);
    assert_eq!(RttBand::of(RTT_FAST), RttBand::Fast);
    assert_eq!(RttBand::of(RTT_FAST + 1), RttBand::Medium);
    assert_eq!(RttBand::of(RTT_MEDIUM), RttBand::Medium);
    assert_eq!(RttBand::of(RTT_MEDIUM + 1), RttBand::Strained);
    assert_eq!(RttBand::of(RTT_SLOW), RttBand::Strained);
    assert_eq!(RttBand::of(RTT_SLOW + 1), RttBand::Slow);
}

#[test]
fn timeout_formula() {
    // 1.5^0 * max(2.5 * 0, 0.025 s) * (1 + 1.5)
    assert_eq!(packet_timeout_time(0, 1, 1), 62_500);
    // 1.5^2 * 2.5 s * (2 + 1.5)
    assert_eq!(packet_timeout_time(1_000_000, 2, 3), 19_687_500);
    // no tries count as one
    assert_eq!(packet_timeout_time(1_000_000, 2, 0), 8_750_000);
    assert_eq!(packet_timeout_time(1_000_000, 2, 1), 8_750_000);
    // the round-trip factor has a floor of 25 ms: 2.5 * 9.999 ms is below it
    assert_eq!(packet_timeout_time(9_999, 0, 1), 37_500);
    assert_eq!(packet_timeout_time(10_000, 0, 1), 37_500);
    assert_eq!(packet_timeout_time(10_001, 0, 1), 37_503);
    // 1.5^5 * 25 ms * 1.5 = 284.765625 ms, rounded down
    assert_eq!(packet_timeout_time(0, 0, 6), 284_765);
}

#[test]
fn timeout_is_held_at_the_largest_time() {
    assert_eq!(packet_timeout_time(u64::MAX, usize::MAX, 1), u64::MAX);
    assert_eq!(packet_timeout_time(0, 0, 64), u64::MAX);
    assert_eq!(packet_timeout_time(0, 0, u64::MAX), u64::MAX);
    assert!(packet_timeout_time(0, 0, 63) < u64::MAX);
}

#[test]
fn deliveries_widen_the_window_up_to_the_limit() {
    let mut params = ChannelParams::new(false);
    adjust_params(RTT_SLOW + 1, &mut params);
    assert_eq!(params.window, 3);
    adjust_params(RTT_SLOW + 1, &mut params);
    adjust_params(RTT_SLOW + 1, &mut params);
    assert_eq!(params.window, 5);
    adjust_params(RTT_SLOW + 1, &mut params);
    assert_eq!(params.window, 5);
    assert_eq!(params.window_max, 5);
    assert_eq!(params.fast_rate_rounds, 0);
    assert_eq!(params.medium_rate_rounds, 0);
}

#[test]
fn ten_fast_rounds_raise_the_limits() {
    let mut params = ChannelParams::new(false);
    for round in 1..=9u16 {
        adjust_params(100_000, &mut params);
        assert_eq!(params.fast_rate_rounds, round);
        assert_eq!(params.window_max, 5);
        assert_eq!(params.window_min, 2);
        assert!(params.window_min <= params.window && params.window <= params.window_max);
    }
    adjust_params(100_000, &mut params);
    assert_eq!(params.fast_rate_rounds, 10);
    assert_eq!(params.window_max, 48);
    assert_eq!(params.window_min, 16);
    // the limits have jumped past the window
    assert_eq!(params.window, 5);
    adjust_params(100_000, &mut params);
    assert_eq!(params.window, 6);
    assert_eq!(params.window_max, 48);
}

#[test]
fn ten_medium_rounds_raise_the_limits() {
    let mut params = ChannelParams::new(false);
    for _ in 0..5 {
        adjust_params(500_000, &mut params);
    }
    for _ in 0..4 {
        adjust_params(1_000_000, &mut params);
    }
    assert_eq!(params.medium_rate_rounds, 9);
    assert_eq!(params.window_max, 5);
    adjust_params(500_000, &mut params);
    assert_eq!(params.medium_rate_rounds, 10);
    assert_eq!(params.window_max, 12);
    assert_eq!(params.window_min, 5);
    assert_eq!(params.window, 5);
}

#[test]
fn strained_rounds_reset_the_fast_count() {
    let mut params = ChannelParams::new(false);
    adjust_params(100_000, &mut params);
    adjust_params(100_000, &mut params);
    assert_eq!(params.fast_rate_rounds, 2);
    adjust_params(500_000, &mut params);
    assert_eq!(params.fast_rate_rounds, 2);
    assert_eq!(params.medium_rate_rounds, 1);
    adjust_params(1_000_000, &mut params);
    assert_eq!(params.fast_rate_rounds, 0);
    assert_eq!(params.medium_rate_rounds, 2);
    adjust_params(2_000_000, &mut params);
    assert_eq!(params.fast_rate_rounds, 0);
    assert_eq!(params.medium_rate_rounds, 2);
}

#[test]
fn timeouts_narrow_the_window_down_to_the_limit() {
    let mut params = ChannelParams::new(false);
    for _ in 0..12 {
        adjust_params(100_000, &mut params);
    }
    for _ in 0..30 {
        adjust_params(2_000_000, &mut params);
    }
    assert_eq!((params.window, params.window_min, params.window_max), (37, 16, 48));
    params.shrink();
    assert_eq!((params.window, params.window_min, params.window_max), (36, 16, 47));
    for _ in 0..40 {
        params.shrink();
        assert!(params.window_min <= params.window && params.window <= params.window_max);
    }
    assert_eq!((params.window, params.window_min, params.window_max), (16, 16, 27));
    params.shrink();
    assert_eq!((params.window, params.window_min, params.window_max), (16, 16, 27));
}
