use dns_agent::control_plane::RegisterRequest;
use dns_agent::double::Double;
use dns_agent::http::api::{
    admit_registration, check_agent, config_answer, register_key, ConfigAnswer, Endpoint,
};
use dns_agent::http::error::{storage_error, ApiError};
use dns_agent::runtime::middleware::{
    check_headers, enforce_rate_limit, map_auth_error, AuthStep, RateLimitRejection,
};
use dns_agent::runtime::rate_limit::{
    rate_key, RateLimitError, RateLimitPolicy, RateWindow, SharedRateLimiter,
};
use dns_agent::workers::storage::StorageError;

const SEC: u64 = 1_000_000_000;

#[test]
fn rate_limit_is_enforced() {
    let mut limiter = SharedRateLimiter::new();
    let endpoint = Endpoint::Heartbeat;
    for _ in 0..3 {
        assert!(enforce_rate_limit(
            &mut limiter,
            endpoint.name(),
            &endpoint.policy(),
            Some(7),
            0
        )
        .is_ok());
    }
    let rejection =
        enforce_rate_limit(&mut limiter, endpoint.name(), &endpoint.policy(), Some(7), 0)
            .unwrap_err();
    assert_eq!(rejection.retry_after, 10 * SEC);
    let error = rejection.error();
    assert_eq!(error.status, 429);
    let envelope = error.envelope();
    assert_eq!(envelope.error, "ERR_RATE_LIMITED");
    assert_eq!(envelope.message, "rate limit exceeded for heartbeat");
    assert!(envelope.retryable);
    assert_eq!(error.retry_after_secs(), Some(10));
    assert!(
        enforce_rate_limit(&mut limiter, endpoint.name(), &endpoint.policy(), Some(8), 0).is_ok()
    );
    assert!(
        enforce_rate_limit(&mut limiter, endpoint.name(), &endpoint.policy(), None, 0).is_ok()
    );
    assert!(
        enforce_rate_limit(&mut limiter, endpoint.name(), &endpoint.policy(), Some(7), 10 * SEC)
            .is_ok()
    );
}

#[test]
fn endpoints_have_their_limits() {
    let minute = 60 * SEC;
    for (endpoint, capacity, burst, interval) in [
        (Endpoint::Register, 1, 1, 600 * SEC),
        (Endpoint::Heartbeat, 6, 3, minute),
        (Endpoint::Claim, 12, 6, minute),
        (Endpoint::Extend, 30, 10, minute),
        (Endpoint::Report, 12, 6, minute),
        (Endpoint::Metrics, 60, 10, minute),
        (Endpoint::Config, 6, 2, 3600 * SEC),
    ] {
        assert_eq!(endpoint.policy(), RateLimitPolicy { capacity, burst, interval });
        let route = endpoint.route();
        assert_eq!(route.path, format!("/{}", endpoint.name()));
        assert_eq!(route.protected, endpoint != Endpoint::Register);
        assert_eq!(route.reads, endpoint == Endpoint::Config);
    }
}

#[test]
fn registrations_are_limited_by_host() {
    let mut limiter = SharedRateLimiter::new();
    let named = RegisterRequest { hostname: Some("a".to_string()) };
    let unnamed = RegisterRequest::default();
    assert_eq!(register_key(&named, Some("1.2.3.4")), "register:a");
    assert_eq!(register_key(&unnamed, Some("1.2.3.4")), "register:1.2.3.4");
    assert_eq!(register_key(&unnamed, None), "register:unknown");
    assert!(admit_registration(&mut limiter, &named, None, 0).is_ok());
    let error = admit_registration(&mut limiter, &named, None, SEC).unwrap_err();
    assert_eq!(error.message, "rate limit exceeded for register");
    assert_eq!(error.retry_after_secs(), Some(599));
    assert!(admit_registration(&mut limiter, &unnamed, None, SEC).is_ok());
    assert!(admit_registration(&mut limiter, &named, None, 600 * SEC).is_ok());
}

#[test]
fn keys_tell_agents_apart() {
    assert_eq!(rate_key("claim", 0), "claim:anonymous");
    assert_eq!(rate_key("claim", 18446744073709551615), "claim:18446744073709551615");
}

#[test]
fn buckets_refill() {
    let policy = RateLimitPolicy { capacity: 2, burst: 2, interval: 10 };
    let mut window = RateWindow::new(&policy, 100);
    assert!(window.try_acquire(&policy));
    assert!(window.try_acquire(&policy));
    assert!(!window.try_acquire(&policy));
    assert_eq!(window.retry_after(&policy), 5);
    window.refill(&policy, 104);
    assert!(!window.try_acquire(&policy));
    assert_eq!(window.retry_after(&policy), 1);
    window.refill(&policy, 105);
    assert!(window.try_acquire(&policy));
    window.refill(&policy, 1_000);
    assert_eq!(window.tokens, Double::whole(2));
    window.refill(&policy, 900);
    assert_eq!(window.tokens, Double::whole(2));
}

#[test]
fn buckets_count_on_under_another_policy() {
    let mut window =
        RateWindow::new(&RateLimitPolicy { capacity: 1, burst: 3, interval: 10 }, 0);
    let other = RateLimitPolicy { capacity: 1, burst: 5, interval: 40 };
    window.refill(&other, 0);
    assert_eq!(window.tokens, Double::whole(3));
    window.refill(&RateLimitPolicy { capacity: 1, burst: 2, interval: 0 }, 1);
    assert_eq!(window.tokens, Double::whole(2));
    assert_eq!(window.last_refill, 1);
}

#[test]
fn limits_without_capacity_never_recover() {
    let mut limiter = SharedRateLimiter::new();
    let closed = RateLimitPolicy { capacity: 0, burst: 0, interval: 30 };
    assert_eq!(limiter.check("x", &closed, 0), Err(RateLimitError { retry_after: 30 }));
    let open = RateLimitPolicy { capacity: 0, burst: 1, interval: 0 };
    assert!(limiter.check("y", &open, 0).is_ok());
    assert!(limiter.check("y", &open, 0).is_ok());
}

#[test]
fn requests_must_bring_credentials() {
    let exempt = vec!["/register"];
    assert!(matches!(check_headers(&exempt, "/register", None, None), AuthStep::Pass));
    let refused = |agent: Option<&[u8]>, token: Option<&[u8]>| match check_headers(
        &exempt, "/claim", agent, token,
    ) {
        AuthStep::Reject(rejection) => {
            (rejection.status, rejection.code, rejection.message, rejection.retryable)
        }
        _ => panic!("request passed"),
    };
    assert_eq!(
        refused(None, Some(b"t")),
        (401, "ERR_UNAUTHORIZED", "missing X-Agent-Id header".to_string(), false)
    );
    assert_eq!(
        refused(Some(b"1"), None),
        (401, "ERR_UNAUTHORIZED", "missing X-Agent-Token header".to_string(), false)
    );
    let invalid = (400, "ERR_VALIDATION", "X-Agent-Id must be a valid integer".to_string(), false);
    for id in [&b"x"[..], b"", b"-1", b"18446744073709551616", b"1 ", b"\xff", b"+"] {
        assert_eq!(refused(Some(id), Some(b"t")), invalid);
    }
    assert_eq!(
        refused(Some(b"1"), Some(b"\xc3\xa9")),
        (400, "ERR_VALIDATION", "X-Agent-Token must be valid UTF-8".to_string(), false)
    );
    match check_headers(&exempt, "/claim", Some(b"+42"), Some(b"a token")) {
        AuthStep::Authenticate { agent_id, token } => {
            assert_eq!((agent_id, token.as_str()), (42, "a token"));
        }
        _ => panic!("request refused"),
    }
}

#[test]
fn failed_proofs_are_answered() {
    let answer = |error: StorageError| {
        let r = map_auth_error(&error);
        (r.status, r.code, r.message, r.retryable)
    };
    assert_eq!(
        answer(StorageError::AgentNotFound),
        (401, "ERR_UNAUTHORIZED", "agent credentials are unknown".to_string(), false)
    );
    assert_eq!(
        answer(StorageError::AgentRevoked),
        (403, "ERR_FORBIDDEN", "agent has been revoked".to_string(), false)
    );
    assert_eq!(
        answer(StorageError::AgentDisabled),
        (403, "ERR_FORBIDDEN", "agent is disabled".to_string(), false)
    );
    assert_eq!(
        answer(StorageError::Forbidden("invalid token")),
        (401, "ERR_UNAUTHORIZED", "invalid credentials".to_string(), false)
    );
    assert_eq!(
        answer(StorageError::Database("down".to_string())),
        (500, "ERR_BACKEND", "authentication backend failure".to_string(), true)
    );
}

#[test]
fn storage_errors_are_answered() {
    let answer = |error: StorageError| {
        let r = storage_error(&error);
        (r.status, r.code, r.message, r.retryable)
    };
    let missing = (404, "ERR_NOT_FOUND", "resource not found".to_string(), false);
    assert_eq!(answer(StorageError::AgentNotFound), missing);
    assert_eq!(answer(StorageError::LeaseNotFound), missing);
    assert_eq!(answer(StorageError::TaskNotFound), missing);
    assert_eq!(answer(StorageError::AgentRevoked).0, 403);
    assert_eq!(answer(StorageError::AgentDisabled).2, "agent is disabled");
    assert_eq!(answer(StorageError::Forbidden("x")).0, 401);
    assert_eq!(answer(StorageError::Database(String::new())).2, "database operation failed");
    assert_eq!(
        answer(StorageError::Serialization(String::new())).2,
        "storage serialization error"
    );
    assert_eq!(
        answer(StorageError::Other(String::new())),
        (500, "ERR_BACKEND", "storage backend error".to_string(), true)
    );
}

#[test]
fn api_errors_carry_a_delay() {
    let error = ApiError::new(418, "ERR_TEAPOT", "short and stout", true);
    assert_eq!(error.retry_after_secs(), None);
    assert_eq!(error.with_retry_after(2 * SEC + 5).retry_after_secs(), Some(2));
    let rejection = RateLimitRejection { endpoint: "claim", retry_after: 999_999_999 };
    assert_eq!(rejection.error().retry_after_secs(), Some(0));
}

#[test]
fn agents_speak_for_themselves() {
    assert!(check_agent(3, 3).is_ok());
    let error = check_agent(3, 4).unwrap_err();
    assert_eq!((error.status, error.code), (403, "ERR_FORBIDDEN"));
    assert_eq!(error.message, "agent identifier mismatch");
}

#[test]
fn config_not_modified_uses_etag() {
    assert!(matches!(
        config_answer(Some("rev-1"), Some(b"rev-1")),
        ConfigAnswer::NotModified
    ));
    assert!(matches!(
        config_answer(Some("rev-1"), Some(b"\"rev-1\"")),
        ConfigAnswer::NotModified
    ));
    assert!(matches!(
        config_answer(Some("rev-2"), Some(b"\"rev-1\"")),
        ConfigAnswer::Send { tagged: true }
    ));
    assert!(matches!(
        config_answer(Some("rev\n2"), None),
        ConfigAnswer::Send { tagged: false }
    ));
    assert!(matches!(
        config_answer(Some("r\u{e9}v"), Some(b"r\xc3\xa9v")),
        ConfigAnswer::Send { tagged: true }
    ));
    assert!(matches!(config_answer(Some(""), Some(b"\"\"\"")), ConfigAnswer::NotModified));
    match config_answer(None, None) {
        ConfigAnswer::NotFound(error) => {
            assert_eq!((error.status, error.code), (404, "ERR_NOT_FOUND"));
            assert_eq!(error.message, "configuration bundle not found");
            assert!(error.retryable);
        }
        _ => panic!("configuration found"),
    }
}

#[test]
fn refused_clients_are_served_after_the_announced_time() {
    let policy = Endpoint::Claim.policy();
    let mut limiter = SharedRateLimiter::new();
    for _ in 0..6 {
        assert!(limiter.check("k", &policy, 7).is_ok());
    }
    let wait = limiter.check("k", &policy, 7).unwrap_err().retry_after;
    assert_eq!(wait, 5 * SEC);
    assert!(limiter.check("k", &policy, 7 + wait - 1_000).is_err());
    assert!(limiter.check("k", &policy, 7 + wait).is_ok());
    assert!(limiter.check("k", &policy, 7 + 2 * wait).is_ok());
}

/// The same bucket, with the machine's own double-precision numbers.
struct MachineBucket {
    tokens: f64,
    last: u64,
}

impl MachineBucket {
    fn check(&mut self, policy: &RateLimitPolicy, now: u64) -> Result<(), u64> {
        let seconds = |nanos: u64| std::time::Duration::from_nanos(nanos).as_secs_f64();
        let burst = policy.burst as f64;
        let rate = policy.capacity as f64 / seconds(policy.interval);
        if now > self.last {
            self.tokens = (self.tokens + rate * seconds(now - self.last)).min(burst);
            self.last = now;
        }
        if self.tokens >= 1.0 {
            self.tokens -= 1.0;
            Ok(())
        } else if policy.burst != 0 && self.tokens + 1.0e-9 >= 1.0 {
            self.tokens = 0.0;
            Ok(())
        } else {
            let missing = (1.0f64 - self.tokens).max(0.0);
            let nanos = ((missing / rate).max(0.0) * 1e9).ceil() as u64;
            Err(if nanos == 0 { 1_000_000 } else { nanos })
        }
    }
}

#[test]
fn buckets_round_as_doubles_do() {
    let mut state = 88172645463325252u64;
    let mut random = |most: u64| {
        state ^= state << 13;
        state ^= state >> 7;
        state ^= state << 17;
        state % most
    };
    for round in 0..300 {
        let policy = RateLimitPolicy {
            capacity: 1 + random(70) as u32,
            burst: random(12) as u32,
            interval: 1 + random(if round % 2 == 0 { 3_600 * SEC } else { 5_000 }),
        };
        let mut limiter = SharedRateLimiter::new();
        let mut machine = MachineBucket { tokens: policy.burst as f64, last: 0 };
        let mut now = 0;
        for _ in 0..60 {
            now += random(policy.interval / 3 + 2);
            let expected = machine.check(&policy, now);
            let answer = limiter.check("k", &policy, now).map_err(|e| e.retry_after);
            assert_eq!(answer, expected, "{policy:?} at {now}");
        }
    }
}
