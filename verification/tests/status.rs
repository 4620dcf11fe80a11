use oxllm_core::state::{AppState, CircuitState, ProviderState, VirtualModelTarget};
use oxllm_core::status::{get_status, join_strings, list_models, requests_total_fits};

const NOW: u64 = 1_000_000_000_000;

fn provider(name: &str, models: &[&str]) -> ProviderState {
    ProviderState::new(
        name.to_string(),
        "https://api.example.com/".to_string(),
        "k".to_string(),
        models.iter().map(|m| m.to_string()).collect(),
    )
}

fn target(p: &str, m: &str) -> VirtualModelTarget {
    VirtualModelTarget { provider: p.to_string(), model: m.to_string() }
}

fn app() -> AppState {
    AppState {
        providers: vec![provider("groq", &["llama", "scout"]), provider("local", &["granite"])],
        virtual_models: vec![
            ("smart".to_string(), vec![target("groq", "llama"), target("gone", "x")]),
            ("basic".to_string(), vec![target("local", "granite")]),
            ("ghost".to_string(), vec![target("gone", "x")]),
        ],
        upstream_timeout_secs: 5,
    }
}

#[test]
fn models_listing_follows_health() {
    let mut state = app();
    let r = list_models(&state, NOW);
    assert_eq!(r.object, "list");
    let ids: Vec<&str> = r.data.iter().map(|m| m.id.as_str()).collect();
    assert_eq!(ids, vec!["smart", "basic"]);
    assert_eq!(r.data[0].object, "model");
    assert_eq!(r.data[0].created, 1717070400);
    assert_eq!(r.data[0].owned_by, "oxllm-virtual");

    state.providers[0].circuit = CircuitState::Open { until: NOW + 1 };
    state.providers[1].rate_limited_until = Some(NOW + 1);
    assert!(list_models(&state, NOW).data.is_empty());
    // an expired cooldown counts as healthy again
    let ids: Vec<String> = list_models(&state, NOW + 1).data.into_iter().map(|m| m.id).collect();
    assert_eq!(ids, vec!["smart".to_string(), "basic".to_string()]);
}

#[test]
fn status_rows_and_routing_table() {
    let mut state = app();
    state.providers[0].circuit = CircuitState::Open { until: NOW + 197_500 };
    state.providers[0].consecutive_failures = 5;
    state.providers[0].requests = 16;
    state.providers[0].last_attempt_time = Some(NOW - 5_000);
    state.providers[1].requests = 30;
    state.providers[1].successes = 8;
    state.providers[1].rate_limited_until = Some(NOW + 1);
    state.providers[1].last_attempt_time = Some(NOW - 7_200_000);
    assert!(requests_total_fits(&state.providers));
    let r = get_status(&state, NOW, 311);
    assert_eq!(r.uptime_secs, 311);
    assert_eq!(r.total_requests, 46);
    assert_eq!(r.providers[0].name, "groq");
    assert_eq!(r.providers[0].models, "llama, scout");
    assert_eq!(r.providers[0].circuit, "Open (Cooldown: 197s left)");
    assert_eq!(r.providers[0].failures, 5);
    assert!(!r.providers[0].rate_limited);
    assert_eq!(r.providers[0].last_request, "Just now");
    assert_eq!(r.providers[1].circuit, "Closed (Healthy)");
    assert!(r.providers[1].rate_limited);
    assert_eq!(r.providers[1].last_request, "2h ago");

    assert_eq!(r.virtual_models[0].0, "smart");
    let hops = &r.virtual_models[0].1;
    assert_eq!(hops[0].provider, "groq");
    assert_eq!(hops[0].model, "llama");
    assert_eq!(hops[0].circuit, "Open (197s cooldown)");
    assert_eq!(hops[0].requests, 16);
    assert_eq!(hops[1].circuit, "Unknown");
    assert_eq!(hops[1].requests, 0);
    assert_eq!(r.virtual_models[1].1[0].successes, 8);
}

#[test]
fn last_request_ages() {
    let mut state = app();
    for (ago_ms, label) in [
        (59_999u64, "Just now"),
        (60_000, "1m ago"),
        (3_599_999, "59m ago"),
        (3_600_000, "1h ago"),
        (86_400_000, "1d ago"),
        (3 * 86_400_000 + 5, "3d ago"),
    ] {
        state.providers[0].last_attempt_time = Some(NOW - ago_ms);
        assert_eq!(get_status(&state, NOW, 0).providers[0].last_request, label);
    }
    state.providers[0].last_attempt_time = None;
    assert_eq!(get_status(&state, NOW, 0).providers[0].last_request, "Never");
    state.providers[0].circuit = CircuitState::HalfOpen;
    assert_eq!(get_status(&state, NOW, 0).providers[0].circuit, "Half-Open (Probing)");
}

#[test]
fn join_and_overflow_check() {
    assert_eq!(join_strings(&vec![], ", "), "");
    assert_eq!(join_strings(&vec!["a".to_string()], ", "), "a");
    assert_eq!(join_strings(&vec!["a".to_string(), "b".to_string(), "c".to_string()], "-"), "a-b-c");
    let mut state = app();
    state.providers[0].requests = u64::MAX;
    state.providers[1].requests = 1;
    assert!(!requests_total_fits(&state.providers));
}

#[test]
fn disabled_provider_is_not_listed() {
    let mut state = app();
    state.providers[1].manual_disabled = true;
    let ids: Vec<String> = list_models(&state, NOW).data.into_iter().map(|m| m.id).collect();
    assert_eq!(ids, vec!["smart".to_string()]);
    state.providers[1].manual_disabled = false;
    let ids: Vec<String> = list_models(&state, NOW).data.into_iter().map(|m| m.id).collect();
    assert_eq!(ids, vec!["smart".to_string(), "basic".to_string()]);
}
