use oxllm_core::router::{
    circuit_status, feedback_in_range, AdaptivePriorityStrategy, RoutingStrategy,
};
use oxllm_core::state::{CircuitState, ProviderState};

const NOW: u64 = 10_000_000;

fn setup_provider(name: &str) -> ProviderState {
    ProviderState::new(
        name.to_string(),
        "https://api.example.com/".to_string(),
        "test_key".to_string(),
        vec!["gpt-4".to_string()],
    )
}

#[test]
fn test_router_select_healthy_first() {
    let mut pool = vec![setup_provider("prov1"), setup_provider("prov2")];
    let candidates = vec![0, 1];

    let strategy = AdaptivePriorityStrategy;
    let selected = strategy.select(&mut pool, &candidates, NOW).unwrap();

    assert_eq!(selected.name, "prov1");
    assert!(!selected.is_probe);
}

#[test]
fn test_router_feedback_success() {
    let mut p = setup_provider("prov1");
    p.consecutive_failures = 2;
    p.circuit = CircuitState::Open { until: NOW + 60_000 };

    let strategy = AdaptivePriorityStrategy;
    strategy.feedback(&mut p, true, false, Some(200), None, NOW);

    assert_eq!(p.consecutive_failures, 0);
    assert_eq!(p.circuit, CircuitState::Closed);
}

#[test]
fn test_router_feedback_failure_trips_circuit() {
    let mut p = setup_provider("prov1");
    let strategy = AdaptivePriorityStrategy;

    // First failure
    strategy.feedback(&mut p, false, false, Some(500), None, NOW);
    assert_eq!(p.consecutive_failures, 1);
    assert_eq!(p.circuit, CircuitState::Closed);

    // Second failure
    strategy.feedback(&mut p, false, false, Some(500), None, NOW);
    assert_eq!(p.consecutive_failures, 2);
    assert_eq!(p.circuit, CircuitState::Closed);

    // Third failure - should trip
    strategy.feedback(&mut p, false, false, Some(500), None, NOW);
    assert_eq!(p.consecutive_failures, 3);
    match p.circuit {
        CircuitState::Open { .. } => {},
        _ => panic!("Expected Open circuit state"),
    };
}

#[test]
fn test_router_feedback_rate_limited() {
    let mut p = setup_provider("prov1");
    let strategy = AdaptivePriorityStrategy;

    strategy.feedback(&mut p, false, false, Some(429), Some(10), NOW);

    assert!(p.rate_limited_until.is_some());
}

#[test]
fn test_router_half_open_single_probe() {
    let mut pool = vec![setup_provider("prov1")];
    pool[0].consecutive_failures = 3;
    // Cooldown expired
    pool[0].circuit = CircuitState::Open { until: NOW - 10_000 };

    let strategy = AdaptivePriorityStrategy;
    let candidates = vec![0];

    // First request should get a probe
    let selected1 = strategy.select(&mut pool, &candidates, NOW).unwrap();
    assert_eq!(selected1.name, "prov1");
    assert!(selected1.is_probe);
    assert!(pool[0].probe_in_flight);

    // Second concurrent request should be bypassed since probe is in flight
    let selected2 = strategy.select(&mut pool, &candidates, NOW);
    assert!(selected2.is_none());

    // Feedback success on probe resolves the circuit
    strategy.feedback(&mut pool[0], true, true, Some(200), None, NOW);
    assert_eq!(pool[0].circuit, CircuitState::Closed);
    assert!(!pool[0].probe_in_flight);
}

#[test]
fn test_router_decay() {
    let mut pool = vec![setup_provider("prov1")];
    pool[0].consecutive_failures = 4;
    // 11 minutes ago
    pool[0].last_attempt_time = Some(NOW - 660_000);

    let strategy = AdaptivePriorityStrategy;
    let candidates = vec![0];

    // Select triggers decay check
    let _ = strategy.select(&mut pool, &candidates, NOW);

    // Should decay by 2 failures (660s / 300s = 2)
    assert_eq!(pool[0].consecutive_failures, 2);
}

#[test]
fn decay_moves_last_attempt_by_whole_steps_and_closes_open_circuit() {
    let mut pool = vec![setup_provider("prov1")];
    pool[0].consecutive_failures = 4;
    pool[0].last_attempt_time = Some(NOW - 660_000);
    pool[0].circuit = CircuitState::Open { until: NOW + 1_000_000 };
    let strategy = AdaptivePriorityStrategy;
    let selected = strategy.select(&mut pool, &vec![0], NOW).unwrap();
    assert_eq!(pool[0].consecutive_failures, 2);
    assert_eq!(pool[0].last_attempt_time, Some(NOW - 660_000 + 600_000));
    assert_eq!(pool[0].circuit, CircuitState::Closed);
    assert!(!selected.is_probe);
}

#[test]
fn disabled_provider_is_skipped_for_the_next() {
    let mut pool = vec![setup_provider("prov1"), setup_provider("prov2")];
    pool[0].manual_disabled = true;
    let strategy = AdaptivePriorityStrategy;
    let selected = strategy.select(&mut pool, &vec![0, 1], NOW).unwrap();
    assert_eq!(selected.name, "prov2");
}

#[test]
fn rate_limited_provider_is_skipped_until_the_window_ends() {
    let mut pool = vec![setup_provider("prov1"), setup_provider("prov2")];
    let strategy = AdaptivePriorityStrategy;
    strategy.feedback(&mut pool[0], false, false, Some(429), Some(10), NOW);
    assert_eq!(pool[0].rate_limited_until, Some(NOW + 10_000));
    let s = strategy.select(&mut pool, &vec![0, 1], NOW + 9_999).unwrap();
    assert_eq!(s.name, "prov2");
    let s = strategy.select(&mut pool, &vec![0, 1], NOW + 10_000).unwrap();
    assert_eq!(s.name, "prov1");
    assert_eq!(pool[0].rate_limited_until, None);
}

#[test]
fn rate_limit_defaults_to_thirty_seconds() {
    let mut p = setup_provider("prov1");
    AdaptivePriorityStrategy.feedback(&mut p, false, false, Some(429), None, NOW);
    assert_eq!(p.rate_limited_until, Some(NOW + 30_000));
    assert_eq!(p.consecutive_failures, 1);
    assert_eq!(p.last_attempt_time, Some(NOW));
}

#[test]
fn rate_limit_at_third_failure_also_opens_the_circuit() {
    let mut p = setup_provider("prov1");
    p.consecutive_failures = 2;
    AdaptivePriorityStrategy.feedback(&mut p, false, false, Some(429), Some(5), NOW);
    assert_eq!(p.rate_limited_until, Some(NOW + 5_000));
    assert_eq!(p.circuit, CircuitState::Open { until: NOW + 60_000 });
}

#[test]
fn cooldown_doubles_per_failure_beyond_three() {
    let mut p = setup_provider("prov1");
    p.consecutive_failures = 4;
    AdaptivePriorityStrategy.feedback(&mut p, false, false, Some(503), None, NOW);
    // five failures: 60 s * 2^2
    assert_eq!(p.circuit, CircuitState::Open { until: NOW + 240_000 });
}

#[test]
fn failed_probe_reopens_and_releases_slot() {
    let mut p = setup_provider("prov1");
    p.circuit = CircuitState::HalfOpen;
    p.probe_in_flight = true;
    AdaptivePriorityStrategy.feedback(&mut p, false, true, None, None, NOW);
    assert_eq!(p.consecutive_failures, 1);
    assert_eq!(p.circuit, CircuitState::Open { until: NOW + 60_000 });
    assert!(!p.probe_in_flight);
}

#[test]
fn open_circuit_within_cooldown_is_skipped() {
    let mut pool = vec![setup_provider("prov1")];
    pool[0].consecutive_failures = 3;
    pool[0].last_attempt_time = Some(NOW);
    pool[0].circuit = CircuitState::Open { until: NOW + 60_000 };
    let s = AdaptivePriorityStrategy.select(&mut pool, &vec![0], NOW + 59_999);
    assert!(s.is_none());
    assert_eq!(pool[0].circuit, CircuitState::Open { until: NOW + 60_000 });
}

#[test]
fn out_of_range_candidate_is_passed_over() {
    let mut pool = vec![setup_provider("prov1")];
    let s = AdaptivePriorityStrategy.select(&mut pool, &vec![7, 0], NOW).unwrap();
    assert_eq!(s.name, "prov1");
    assert_eq!(s.base_url, "https://api.example.com/");
    assert_eq!(s.api_key, "test_key");
}

#[test]
fn circuit_status_codes() {
    let mut p = setup_provider("prov1");
    assert_eq!(circuit_status(&p, NOW), 0);
    p.rate_limited_until = Some(NOW + 1);
    assert_eq!(circuit_status(&p, NOW), 1);
    p.rate_limited_until = None;
    p.circuit = CircuitState::HalfOpen;
    assert_eq!(circuit_status(&p, NOW), 1);
    p.circuit = CircuitState::Open { until: NOW + 1 };
    assert_eq!(circuit_status(&p, NOW), 2);
    assert_eq!(circuit_status(&p, NOW + 1), 1);
}

#[test]
fn feedback_range_check() {
    let mut p = setup_provider("prov1");
    assert!(feedback_in_range(&p, false, false, Some(500), None, NOW));
    assert!(!feedback_in_range(&p, false, false, Some(429), Some(u64::MAX), NOW));
    p.consecutive_failures = u32::MAX;
    assert!(!feedback_in_range(&p, false, false, Some(500), None, NOW));
    assert!(feedback_in_range(&p, true, false, Some(200), None, NOW));
    p.consecutive_failures = 60;
    assert!(!feedback_in_range(&p, false, false, Some(500), None, NOW));
    p.consecutive_failures = 10;
    assert!(feedback_in_range(&p, false, false, Some(500), None, NOW));
}

#[test]
fn routing_keeps_identity_and_counters() {
    let mut pool = vec![setup_provider("prov1"), setup_provider("prov2")];
    pool[0].requests = 3;
    pool[0].successes = 2;
    pool[0].manual_disabled = true;
    let _ = AdaptivePriorityStrategy.select(&mut pool, &vec![0, 1], NOW);
    assert_eq!(pool[0].requests, 3);
    assert_eq!(pool[0].successes, 2);
    assert_eq!(pool[0].name, "prov1");
    assert!(pool[0].manual_disabled);
    assert_eq!(pool[1].models, vec!["gpt-4".to_string()]);
}

#[test]
fn cooldown_doubles_again() {
    let mut p = setup_provider("prov1");
    p.consecutive_failures = 5;
    AdaptivePriorityStrategy.feedback(&mut p, false, false, Some(500), None, NOW);
    assert_eq!(p.circuit, CircuitState::Open { until: NOW + 480_000 });
}

#[test]
fn tripped_provider_reports_tripped_until_cooldown_ends() {
    let mut p = setup_provider("prov1");
    p.consecutive_failures = 2;
    AdaptivePriorityStrategy.feedback(&mut p, false, false, Some(500), None, NOW);
    assert_eq!(circuit_status(&p, NOW), 2);
    assert_eq!(circuit_status(&p, NOW + 59_999), 2);
    assert_eq!(circuit_status(&p, NOW + 60_000), 1);
}

#[test]
fn rate_limited_probe_only_opens_the_window() {
    let mut p = setup_provider("prov1");
    p.circuit = CircuitState::HalfOpen;
    p.probe_in_flight = true;
    AdaptivePriorityStrategy.feedback(&mut p, false, true, Some(429), Some(12), NOW);
    assert_eq!(p.consecutive_failures, 1);
    assert_eq!(p.circuit, CircuitState::HalfOpen);
    assert_eq!(p.rate_limited_until, Some(NOW + 12_000));
    assert!(!p.probe_in_flight);
}

#[test]
fn disabled_provider_is_never_chosen_even_when_healthy() {
    let mut pool = vec![setup_provider("prov1")];
    pool[0].manual_disabled = true;
    assert!(AdaptivePriorityStrategy.select(&mut pool, &vec![0, 0], NOW).is_none());
    assert_eq!(pool[0].requests, 0);
}
