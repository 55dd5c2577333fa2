//! Rate limits and when they end.
use tttt::mcp::rate_limit::{calculate_wait_duration, parse_rate_limit_reset};
use tttt::time::UnixTime;

/// Noon on a day in November 2023.
const NOON: UnixTime = UnixTime { secs: 1_700_049_600, nanos: 0 };

#[test]
fn test_parse_rate_limit_pm_no_minutes() {
    let screen = "You've hit your limit - resets 2pm (Europe/Brussels)\nSome other text";
    let result = parse_rate_limit_reset(screen);
    assert_eq!(result, Some((14, 0, "Europe/Brussels".to_string())));
}

#[test]
fn test_parse_rate_limit_am_no_minutes() {
    let screen = "resets 11am (US/Pacific) foo";
    let result = parse_rate_limit_reset(screen);
    assert_eq!(result, Some((11, 0, "US/Pacific".to_string())));
}

#[test]
fn test_parse_rate_limit_pm_with_minutes() {
    let screen = "resets 2:30pm (America/New_York)";
    let result = parse_rate_limit_reset(screen);
    assert_eq!(result, Some((14, 30, "America/New_York".to_string())));
}

#[test]
fn test_parse_rate_limit_am_with_minutes() {
    let screen = "resets 9:45am (Asia/Tokyo)";
    let result = parse_rate_limit_reset(screen);
    assert_eq!(result, Some((9, 45, "Asia/Tokyo".to_string())));
}

#[test]
fn test_parse_rate_limit_12pm_is_noon() {
    let screen = "resets 12pm (UTC)";
    let result = parse_rate_limit_reset(screen);
    assert_eq!(result, Some((12, 0, "UTC".to_string())));
}

#[test]
fn test_parse_rate_limit_12am_is_midnight() {
    let screen = "resets 12am (UTC)";
    let result = parse_rate_limit_reset(screen);
    assert_eq!(result, Some((0, 0, "UTC".to_string())));
}

#[test]
fn test_parse_rate_limit_no_match_returns_none() {
    let screen = "No rate limit here. Everything is fine.";
    assert_eq!(parse_rate_limit_reset(screen), None);
}

#[test]
fn test_parse_rate_limit_full_dialog() {
    let screen = [
        "You've hit your limit - resets 2pm (Europe/Brussels)\n\n",
        "/rate-limit-options\n\n",
        "What do you want to do?\n\n",
        "} 1. Stop and wait for limit to reset\n",
        "  2. Add funds to continue with extra usage\n",
        "  3. Upgrade your plan\n\n",
        "Enter to confirm · Esc to cancel",
    ]
    .concat();
    let result = parse_rate_limit_reset(&screen);
    assert_eq!(result, Some((14, 0, "Europe/Brussels".to_string())));
}

#[test]
fn test_calculate_wait_duration_adds_safety_margin() {
    // Pick a reset time far in the future (23:59 UTC) so we know it hasn't passed.
    let dur = calculate_wait_duration(23, 59, "UTC", 10, NOON).unwrap();
    // Safety margin of 10 minutes must be included.
    assert!(dur.as_secs() >= 10 * 60);
}

#[test]
fn test_calculate_wait_duration_unknown_tz_errors() {
    let result = calculate_wait_duration(14, 0, "Fake/NotReal", 0, NOON);
    assert!(result.is_err());
    assert!(result.unwrap_err().contains("Unknown timezone"));
}

#[test]
fn test_calculate_wait_duration_past_time_wraps_to_tomorrow() {
    // Use hour 0 minute 1 UTC. If it has passed today we expect ~24h wait;
    // if not (extremely unlikely: test runs in the first minute of the day)
    // we expect < 2 minutes. Either way the safety margin of 0 is excluded.
    // We simply verify the function succeeds and returns a sensible value.
    let dur = calculate_wait_duration(0, 1, "UTC", 0, NOON).unwrap();
    // Result must be somewhere in (0, 25 hours).
    assert!(dur.as_secs() <= 25 * 3600, "wait too long: {:?}", dur);
    // Must be at least 0 seconds (non-negative).
    assert!(dur.as_secs() < 25 * 3600);
}

#[test]
fn test_calculate_wait_duration_valid_timezone() {
    // Should not error for a well-known timezone.
    let result = calculate_wait_duration(14, 0, "Europe/Brussels", 15, NOON);
    assert!(result.is_ok());
}
