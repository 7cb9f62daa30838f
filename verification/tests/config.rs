use backrun::config::{
    block_window, dashboard_port, env_flag, env_u64, env_usize, limit_bribe, nonempty,
    parse_builder_urls, DEFAULT_BRIBE_BPS, DEFAULT_BUNDLE_BLOCK_WINDOW, DEFAULT_MAX_BRIBE_BPS,
    DEFAULT_SIM_CONCURRENCY,
};

#[test]
fn switches_are_on_for_four_words() {
    for on in ["1", "true", "TRUE", "Yes", "on", "oN"] {
        assert!(env_flag(Some(on), false));
    }
    for off in ["", "0", "false", "no", "off", "true ", "2"] {
        assert!(!env_flag(Some(off), true));
    }
    assert!(env_flag(None, true));
    assert!(!env_flag(None, false));
}

#[test]
fn numbers_fall_back_to_the_default() {
    assert_eq!(env_u64(Some("12"), 5), 12);
    assert_eq!(env_u64(Some("18446744073709551616"), 5), 5);
    assert_eq!(env_u64(Some("x"), 5), 5);
    assert_eq!(env_u64(None, 5), 5);
    assert_eq!(env_usize(Some("64"), DEFAULT_SIM_CONCURRENCY), 64);
    assert_eq!(env_usize(Some("-1"), DEFAULT_SIM_CONCURRENCY), 128);
    assert_eq!(env_usize(None, DEFAULT_SIM_CONCURRENCY), 128);
    assert_eq!(dashboard_port(Some("8080")), 8080);
    assert_eq!(dashboard_port(Some("65536")), 4000);
    assert_eq!(dashboard_port(None), 4000);
}

#[test]
fn share_of_the_builder_is_limited() {
    let plain = limit_bribe(DEFAULT_BRIBE_BPS, DEFAULT_MAX_BRIBE_BPS);
    assert_eq!((plain.bribe_bps, plain.max_bribe_bps, plain.reduced), (9000, 9000, false));
    let high = limit_bribe(9500, 9000);
    assert_eq!((high.bribe_bps, high.max_bribe_bps, high.reduced), (9000, 9000, true));
    let whole = limit_bribe(10_000, 20_000);
    assert_eq!((whole.bribe_bps, whole.max_bribe_bps, whole.reduced), (9999, 9999, true));
    let low = limit_bribe(900, 20_000);
    assert_eq!((low.bribe_bps, low.max_bribe_bps, low.reduced), (900, 9999, false));
}

#[test]
fn block_window_is_one_at_least() {
    assert_eq!(block_window(DEFAULT_BUNDLE_BLOCK_WINDOW), 3);
    assert_eq!(block_window(0), 1);
    assert_eq!(block_window(1), 1);
}

#[test]
fn empty_settings_do_not_count() {
    assert_eq!(nonempty(Some("".to_string())), None);
    assert_eq!(nonempty(Some("key".to_string())), Some("key".to_string()));
    assert_eq!(nonempty(None), None);
}

#[test]
fn builders_are_separated_by_commas() {
    let known = vec!["https://polygon.api.blxrbdn.com", "https://rpc.fastlane.finance"];
    assert_eq!(parse_builder_urls(None), known);
    assert_eq!(parse_builder_urls(Some("")), known);
    assert_eq!(parse_builder_urls(Some(" https://a , ,https://b")), vec!["https://a", "https://b"]);
    assert!(parse_builder_urls(Some(" , ")).is_empty());
}
