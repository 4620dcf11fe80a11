use oxllm_core::admin::{admin_offline, admin_online, admin_reset};
use oxllm_core::router::{AdaptivePriorityStrategy, RoutingStrategy};
use oxllm_core::state::{find_provider, AppState, CircuitState, ProviderState, VirtualModelTarget};
use oxllm_core::version;

fn provider(name: &str) -> ProviderState {
    ProviderState::new(name.to_string(), "https://api.example.com/".to_string(), "k".to_string(), vec![])
}

fn target(p: &str, m: &str) -> VirtualModelTarget {
    VirtualModelTarget { provider: p.to_string(), model: m.to_string() }
}

fn app() -> AppState {
    AppState {
        providers: vec![provider("a"), provider("b"), provider("a")],
        virtual_models: vec![
            ("basic".to_string(), vec![target("b", "mb"), target("zzz", "m0"), target("a", "ma"), target("b", "mb2")]),
            ("smart".to_string(), vec![target("a", "m1")]),
            ("basic".to_string(), vec![target("a", "shadowed")]),
        ],
        upstream_timeout_secs: 5,
    }
}

#[test]
fn resolve_candidates_in_chain_order() {
    let state = app();
    let c = state.resolve_candidates("basic");
    assert_eq!(c, vec![(1, "mb".to_string()), (0, "ma".to_string()), (1, "mb2".to_string())]);
    assert_eq!(state.resolve_candidates("smart"), vec![(0, "m1".to_string())]);
    assert!(state.resolve_candidates("nope").is_empty());
}

#[test]
fn find_provider_first_match() {
    let state = app();
    assert_eq!(find_provider(&state.providers, &"a".to_string()), Some(0));
    assert_eq!(find_provider(&state.providers, &"b".to_string()), Some(1));
    assert_eq!(find_provider(&state.providers, &"c".to_string()), None);
}

#[test]
fn admin_offline_online_reset() {
    let mut state = app();
    let (code, msg) = admin_offline(&mut state, "b");
    assert_eq!(code, 200);
    assert_eq!(msg, "Provider 'b' taken offline");
    assert!(state.providers[1].manual_disabled);
    let chosen = AdaptivePriorityStrategy.select(&mut state.providers, &vec![1], 0);
    assert!(chosen.is_none());

    let (code, msg) = admin_online(&mut state, "b");
    assert_eq!(code, 200);
    assert_eq!(msg, "Provider 'b' brought online");
    assert!(!state.providers[1].manual_disabled);

    state.providers[0].circuit = CircuitState::Open { until: 99 };
    state.providers[0].consecutive_failures = 7;
    state.providers[0].rate_limited_until = Some(99);
    state.providers[0].manual_disabled = true;
    let (code, msg) = admin_reset(&mut state, "a");
    assert_eq!(code, 200);
    assert_eq!(msg, "Provider 'a' reset to healthy");
    assert_eq!(state.providers[0].circuit, CircuitState::Closed);
    assert_eq!(state.providers[0].consecutive_failures, 0);
    assert_eq!(state.providers[0].rate_limited_until, None);
    assert!(!state.providers[0].manual_disabled);
    let chosen = AdaptivePriorityStrategy.select(&mut state.providers, &vec![0], 0).unwrap();
    assert!(!chosen.is_probe);

    let (code, msg) = admin_reset(&mut state, "ghost");
    assert_eq!(code, 404);
    assert_eq!(msg, "Provider 'ghost' not found");
    let (code, msg) = admin_offline(&mut state, "ghost");
    assert_eq!((code, msg.as_str()), (404, "Provider 'ghost' not found"));
}

#[test]
fn version_is_package_version() {
    assert_eq!(version(), "0.1.12");
}

#[test]
fn app_state_rejects_duplicate_virtual_models() {
    let dup = AppState::new(
        vec![provider("a")],
        vec![
            ("basic".to_string(), vec![target("a", "m1")]),
            ("basic".to_string(), vec![target("a", "m2")]),
        ],
        5,
    );
    assert!(dup.is_none());
    let ok = AppState::new(
        vec![provider("a")],
        vec![("basic".to_string(), vec![target("a", "m1")]), ("smart".to_string(), vec![target("a", "m2")])],
        5,
    );
    match ok {
        Some(state) => {
            assert_eq!(state.virtual_models.len(), 2);
            assert_eq!(state.upstream_timeout_secs, 5);
            assert_eq!(state.resolve_candidates("smart"), vec![(0, "m2".to_string())]);
        },
        None => panic!("rejected"),
    }
}
