use cfproxy::relay::{admission, upstream_error_response, Admission};
use cfproxy::addr::IpAddress;
use cfproxy::config::Config;
use governor::{Quota, RateLimiter};
use std::num::NonZeroU32;

#[test]
fn upstream_failure_gives_500_with_text() {
    let r = upstream_error_response();
    assert_eq!(r.status, 500);
    assert_eq!(r.body, "Proxy Server Error while reading request");
    assert!(r.content_type.starts_with("text/plain"));
}

#[test]
fn admission_never_drops() {
    assert_eq!(admission(true), Admission::Forward);
    assert_eq!(admission(false), Admission::LogAndWait);
}

#[test]
fn burst_over_rate_is_delayed_not_dropped() {
    let config = Config::from_values(None, None, Some("key")).unwrap();
    let rate = config.req_limit_per_sec;
    let limiter = RateLimiter::<IpAddress, _, _>::keyed(config.quota());
    let key = IpAddress::V4([203, 0, 113, 5]);
    let burst = rate + 4;
    let mut prompt = 0;
    let mut delayed = 0;
    for _ in 0..burst {
        match admission(limiter.check_key(&key).is_ok()) {
            Admission::Forward => prompt += 1,
            Admission::LogAndWait => delayed += 1,
        }
    }
    assert!(prompt <= rate);
    assert_eq!(prompt + delayed, burst);
    let other = IpAddress::V4([198, 51, 100, 1]);
    assert_eq!(admission(limiter.check_key(&other).is_ok()), Admission::Forward);
}

#[test]
fn quota_matches_a_quota_per_second() {
    let config = Config::from_values(None, Some("10"), Some("key")).unwrap();
    assert_eq!(config.quota(), Quota::per_second(NonZeroU32::new(10).unwrap()));
    assert_eq!(config.quota().burst_size().get(), 10);
}
