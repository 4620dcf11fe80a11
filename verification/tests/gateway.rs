use oxllm_core::gateway::{
    classify_request, pick_error_text, should_copy_header, start_route, usage_counts, Attempt,
    Operation, RouteSession,
};
use oxllm_core::state::{AppState, ProviderState, VirtualModelTarget};
use oxllm_core::telemetry::TelemetryEvent;

const NOW: u64 = 5_000_000;

fn provider(name: &str, url: &str) -> ProviderState {
    ProviderState::new(name.to_string(), url.to_string(), format!("key-{}", name), vec![])
}

fn target(p: &str, m: &str) -> VirtualModelTarget {
    VirtualModelTarget { provider: p.to_string(), model: m.to_string() }
}

fn app() -> AppState {
    AppState {
        providers: vec![
            provider("groq", "https://groq.example/openai/v1/"),
            provider("local", "http://localhost:11434/v1/"),
        ],
        virtual_models: vec![(
            "smart".to_string(),
            vec![target("groq", "llama"), target("missing", "x"), target("local", "granite")],
        )],
        upstream_timeout_secs: 5,
    }
}

fn start(state: &AppState, op: Operation, body: &str) -> RouteSession {
    match start_route(state, op, body.as_bytes().to_vec(), "oxllm-1".to_string(), None) {
        Ok(s) => s,
        Err(e) => panic!("unexpected error {}", e.message),
    }
}

fn forward(s: &mut RouteSession, state: &mut AppState, now: u64) -> (String, String, String, Vec<u8>) {
    match s.next_attempt(state, now) {
        Attempt::Forward { selected, model, url, body } => (selected.name, model, url, body),
        other => panic!("expected forward, got {:?}", other),
    }
}

#[test]
fn invalid_json_is_rejected() {
    let state = app();
    let e = match start_route(&state, Operation::Chat, b"{not json".to_vec(), "r".to_string(), None) {
        Err(e) => e,
        Ok(_) => panic!("accepted"),
    };
    assert!(e.message.starts_with("Invalid JSON payload: "));
    assert!(e.message.len() > "Invalid JSON payload: ".len());
    assert_eq!(e.error_type, "invalid_request_error");
    assert_eq!(e.status, 400);
}

#[test]
fn missing_model_is_rejected() {
    let state = app();
    for body in [&b"{\"messages\": []}"[..], &b"{\"model\": 7}"[..], &b"[1, 2]"[..]] {
        let e = match start_route(&state, Operation::Embeddings, body.to_vec(), "r".to_string(), None) {
            Err(e) => e,
            Ok(_) => panic!("accepted"),
        };
        assert_eq!(e.message, "Missing required 'model' field");
        assert_eq!(e.status, 400);
    }
}

#[test]
fn unmapped_model_is_rejected() {
    let state = app();
    let e = match start_route(&state, Operation::Chat, b"{\"model\": \"gpt-9\"}".to_vec(), "r".to_string(), None) {
        Err(e) => e,
        Ok(_) => panic!("accepted"),
    };
    assert_eq!(e.message, "Invalid or unmapped virtual model: gpt-9");
    assert_eq!(e.error_type, "invalid_request_error");
}

#[test]
fn first_attempt_goes_to_first_provider_with_rewritten_body() {
    let mut state = app();
    let mut s = start(&state, Operation::Chat, "{\"model\": \"smart\", \"stream\": true, \"messages\": []}");
    assert!(s.is_streaming());
    let (name, model, url, body) = forward(&mut s, &mut state, NOW);
    assert_eq!(name, "groq");
    assert_eq!(model, "llama");
    assert_eq!(url, "https://groq.example/openai/v1/chat/completions");
    let v: serde_json::Value = serde_json::from_slice(&body).unwrap();
    assert_eq!(v["model"], "llama");
    assert_eq!(v["stream"], true);
    assert_eq!(s.attempts(), 1);
    assert_eq!(state.providers[0].requests, 1);
}

#[test]
fn embeddings_path_and_stream_flag() {
    let mut state = app();
    let mut s = start(&state, Operation::Embeddings, "{\"model\": \"smart\", \"input\": \"hi\"}");
    assert!(!s.is_streaming());
    let (_, _, url, _) = forward(&mut s, &mut state, NOW);
    assert_eq!(url, "https://groq.example/openai/v1/embeddings");
}

#[test]
fn server_error_moves_on_to_the_next_provider_then_exhausts() {
    let mut state = app();
    let mut s = start(&state, Operation::Chat, "{\"model\": \"smart\"}");
    let (name, _, _, _) = forward(&mut s, &mut state, NOW);
    assert_eq!(name, "groq");
    assert!(s.feedback_would_fit(&state, false, Some(500), None, NOW));
    let ev = s.record_upstream_failure(&mut state, 500, None, Some(b"{\"error\": {\"message\": \"boom\"}}".to_vec()), NOW);
    assert_eq!(ev.len(), 1);
    assert_eq!(state.providers[0].consecutive_failures, 1);
    // a provider that failed is not tried again within the request
    let (name, model, _, _) = forward(&mut s, &mut state, NOW);
    assert_eq!(name, "local");
    assert_eq!(model, "granite");
    let _ = s.record_upstream_failure(&mut state, 502, None, Some(b"bad gateway".to_vec()), NOW);
    assert_eq!(s.attempts(), 2);
    assert_eq!(state.providers[0].requests, 1);
    assert_eq!(state.providers[1].requests, 1);
    match s.next_attempt(&mut state, NOW) {
        Attempt::Exhausted(e) => {
            assert_eq!(
                e.message,
                "All upstream chat completions providers failed or are rate-limited. Last error from local (502): bad gateway"
            );
            assert_eq!(e.error_type, "server_error");
            assert_eq!(e.status, 502);
        },
        other => panic!("expected exhaustion, got {:?}", other),
    }
}

#[test]
fn failover_after_server_error_sends_one_request_each() {
    let mut state = app();
    let mut s = start(&state, Operation::Chat, "{\"model\": \"smart\", \"messages\": []}");
    let (name, _, _, _) = forward(&mut s, &mut state, NOW);
    assert_eq!(name, "groq");
    let _ = s.record_upstream_failure(&mut state, 500, None, Some(b"oops".to_vec()), NOW);
    let (name, _, _, _) = forward(&mut s, &mut state, NOW);
    assert_eq!(name, "local");
    let _ = s.accept_chat(&mut state, 200, NOW);
    let _ = s.complete_chat(&mut state, b"{\"usage\": {\"prompt_tokens\": 3, \"completion_tokens\": 4}}", 7);
    assert_eq!(state.providers[0].requests, 1);
    assert_eq!(state.providers[1].requests, 1);
    assert_eq!(state.providers[0].consecutive_failures, 1);
    assert_eq!(state.providers[0].successes, 0);
    assert_eq!(state.providers[1].successes, 1);
    assert_eq!((state.providers[1].tokens_input, state.providers[1].tokens_output), (3, 4));
    assert_eq!(state.providers[1].consecutive_failures, 0);
}

#[test]
fn error_message_is_taken_from_json_body() {
    let mut state = app();
    let mut s = start(&state, Operation::Embeddings, "{\"model\": \"smart\"}");
    let _ = forward(&mut s, &mut state, NOW);
    let _ = s.record_upstream_failure(&mut state, 429, Some(20), Some(b"{\"error\": {\"message\": \"slow down\"}}".to_vec()), NOW);
    assert_eq!(state.providers[0].rate_limited_until, Some(NOW + 20_000));
    let (name, _, _, _) = forward(&mut s, &mut state, NOW + 1);
    assert_eq!(name, "local");
    let _ = s.record_connect_failure(&mut state, NOW + 1);
    assert_eq!(state.providers[1].consecutive_failures, 1);
    match s.next_attempt(&mut state, NOW + 1) {
        Attempt::Exhausted(e) => assert_eq!(
            e.message,
            "All upstream embeddings providers failed or are rate-limited. Last error from groq (429): slow down"
        ),
        other => panic!("expected exhaustion, got {:?}", other),
    }
}

#[test]
fn rate_limited_provider_is_passed_over_by_a_new_request() {
    let mut state = app();
    let mut s = start(&state, Operation::Embeddings, "{\"model\": \"smart\"}");
    let _ = forward(&mut s, &mut state, NOW);
    let _ = s.record_upstream_failure(&mut state, 429, None, None, NOW);
    assert_eq!(state.providers[0].rate_limited_until, Some(NOW + 30_000));
    let mut t = start(&state, Operation::Embeddings, "{\"model\": \"smart\"}");
    let (name, _, _, _) = forward(&mut t, &mut state, NOW + 1);
    assert_eq!(name, "local");
    let mut u = start(&state, Operation::Embeddings, "{\"model\": \"smart\"}");
    let (name, _, _, _) = forward(&mut u, &mut state, NOW + 30_000);
    assert_eq!(name, "groq");
    assert_eq!(state.providers[0].rate_limited_until, None);
}

#[test]
fn exhausted_without_upstream_error_has_short_message() {
    let mut state = app();
    state.providers[0].manual_disabled = true;
    state.providers[1].manual_disabled = true;
    let mut s = start(&state, Operation::Embeddings, "{\"model\": \"smart\"}");
    match s.next_attempt(&mut state, NOW) {
        Attempt::Exhausted(e) => assert_eq!(e.message, "All upstream embeddings providers failed or are rate-limited"),
        other => panic!("expected exhaustion, got {:?}", other),
    }
}

#[test]
fn embeddings_success_counts_tokens_and_reports() {
    let mut state = app();
    let mut s = start(&state, Operation::Embeddings, "{\"model\": \"smart\"}");
    let _ = forward(&mut s, &mut state, NOW);
    let ev = s.complete_embeddings(
        &mut state,
        200,
        b"{\"usage\": {\"prompt_tokens\": 12, \"completion_tokens\": 3}}",
        1_500_000,
        NOW,
    );
    assert_eq!(state.providers[0].successes, 1);
    assert_eq!(state.providers[0].tokens_input, 12);
    assert_eq!(state.providers[0].tokens_output, 3);
    assert_eq!(ev.len(), 2);
    match &ev[0] {
        TelemetryEvent::UpdateStatus { provider, status } => {
            assert_eq!(provider, "groq");
            assert_eq!(*status, 0);
        },
        _ => panic!("expected status"),
    }
    match &ev[1] {
        TelemetryEvent::RecordTransaction { operation, provider, model, input_tokens, output_tokens, duration_nanos, attempts, failure_reason, request_id, .. } => {
            assert_eq!(operation, "embeddings");
            assert_eq!(provider, "groq");
            assert_eq!(model, "llama");
            assert_eq!(*input_tokens, 12);
            assert_eq!(*output_tokens, 3);
            assert_eq!(*duration_nanos, 1_500_000);
            assert_eq!(*attempts, 1);
            assert!(failure_reason.is_none());
            assert_eq!(request_id, "oxllm-1");
        },
        _ => panic!("expected transaction"),
    }
}

#[test]
fn chat_success_is_counted_once() {
    let mut state = app();
    let mut s = start(&state, Operation::Chat, "{\"model\": \"smart\"}");
    let _ = forward(&mut s, &mut state, NOW);
    let ev = s.accept_chat(&mut state, 200, NOW);
    assert_eq!(ev.len(), 1);
    assert_eq!(state.providers[0].successes, 0);
    let ev = s.complete_chat(&mut state, b"not json", 10);
    assert_eq!(ev.len(), 1);
    assert_eq!(state.providers[0].successes, 1);
    assert_eq!(state.providers[0].tokens_input, 0);
}

#[test]
fn broken_stream_is_reported_as_failure() {
    let mut state = app();
    let mut s = start(&state, Operation::Chat, "{\"model\": \"smart\", \"stream\": true}");
    let _ = forward(&mut s, &mut state, NOW);
    let ev = s.finish_stream(&mut state, 200, false, 42, NOW);
    assert_eq!(state.providers[0].consecutive_failures, 1);
    assert_eq!(state.providers[0].successes, 0);
    match ev.last().unwrap() {
        TelemetryEvent::RecordTransaction { failure_reason, input_tokens, .. } => {
            assert_eq!(failure_reason.as_deref(), Some("stream_failed"));
            assert_eq!(*input_tokens, 0);
        },
        _ => panic!("expected transaction"),
    }
}

#[test]
fn body_read_failure_counts_as_failure() {
    let mut state = app();
    let mut s = start(&state, Operation::Embeddings, "{\"model\": \"smart\"}");
    let _ = forward(&mut s, &mut state, NOW);
    let _ = s.record_body_failure(&mut state, 200, NOW);
    assert_eq!(state.providers[0].consecutive_failures, 1);
    assert_eq!(state.providers[0].last_attempt_time, Some(NOW));
}

#[test]
fn traceparent_is_kept_in_the_session_records() {
    let mut state = app();
    let mut s = match start_route(
        &state,
        Operation::Chat,
        b"{\"model\": \"smart\"}".to_vec(),
        "rid".to_string(),
        Some("00-4bf92f3577b34da6a3ce929d0e0e4736-00f067aa0ba902b7-01"),
    ) {
        Ok(s) => s,
        Err(_) => panic!("rejected"),
    };
    let _ = forward(&mut s, &mut state, NOW);
    let ev = s.complete_chat(&mut state, b"{}", 1);
    match &ev[0] {
        TelemetryEvent::RecordTransaction { trace_id, parent_span_id, .. } => {
            assert_eq!(trace_id.as_deref(), Some("4bf92f3577b34da6a3ce929d0e0e4736"));
            assert_eq!(parent_span_id.as_deref(), Some("00f067aa0ba902b7"));
        },
        _ => panic!("expected transaction"),
    }
}

#[test]
fn invalid_base_url_gives_nothing_to_send() {
    let mut state = app();
    state.providers[0].base_url = "not a url".to_string();
    let mut s = start(&state, Operation::Chat, "{\"model\": \"smart\"}");
    match s.next_attempt(&mut state, NOW) {
        Attempt::Skip => {},
        other => panic!("expected skip, got {:?}", other),
    }
    assert_eq!(s.attempts(), 1);
    assert_eq!(state.providers[0].requests, 0);
}

#[test]
fn copied_headers() {
    assert!(should_copy_header("x-request-id"));
    assert!(should_copy_header("content-type"));
    assert!(should_copy_header("cache-control"));
    assert!(should_copy_header("openai-version"));
    assert!(!should_copy_header("content-encoding"));
    assert!(!should_copy_header("transfer-encoding"));
    assert!(!should_copy_header("x"));
}

#[test]
fn classify_request_decisions() {
    let state = app();
    match classify_request(&state, Err("oops".to_string())) {
        Err(e) => assert_eq!(e.message, "Invalid JSON payload: oops"),
        Ok(_) => panic!("accepted"),
    }
    match classify_request(&state, Ok((Some("smart".to_string()), Some(true)))) {
        Ok((model, candidates, streaming)) => {
            assert_eq!(model, "smart");
            assert_eq!(candidates, vec![(0, "llama".to_string()), (1, "granite".to_string())]);
            assert!(streaming);
        },
        Err(_) => panic!("rejected"),
    }
    match classify_request(&state, Ok((Some("smart".to_string()), Some(false)))) {
        Ok((_, _, streaming)) => assert!(!streaming),
        Err(_) => panic!("rejected"),
    }
}

#[test]
fn error_text_choice() {
    assert_eq!(pick_error_text(String::new(), Some("m".to_string())), "");
    assert_eq!(pick_error_text("raw".to_string(), None), "raw");
    assert_eq!(pick_error_text("raw".to_string(), Some("msg".to_string())), "msg");
}

#[test]
fn usage_variants_count_given_tokens() {
    let mut state = app();
    let mut s = start(&state, Operation::Chat, "{\"model\": \"smart\"}");
    let _ = forward(&mut s, &mut state, NOW);
    let _ = s.record_upstream_error(&mut state, 503, None, "down".to_string(), NOW);
    assert_eq!(state.providers[0].consecutive_failures, 1);
    let (name, _, _, _) = forward(&mut s, &mut state, NOW);
    assert_eq!(name, "local");
    let ev = s.complete_embeddings_usage(&mut state, 200, 5, 6, 9, NOW);
    assert_eq!(ev.len(), 2);
    assert_eq!(state.providers[0].consecutive_failures, 1);
    assert_eq!(state.providers[1].consecutive_failures, 0);
    assert_eq!((state.providers[1].tokens_input, state.providers[1].tokens_output), (5, 6));
    let ev = s.complete_chat_usage(&mut state, 1, 2, 9);
    assert_eq!(ev.len(), 1);
    assert_eq!(state.providers[1].successes, 2);
    assert_eq!((state.providers[1].tokens_input, state.providers[1].tokens_output), (6, 8));
    match &ev[0] {
        TelemetryEvent::RecordTransaction { attempts, operation, provider, .. } => {
            assert_eq!(*attempts, 2);
            assert_eq!(operation, "chat");
            assert_eq!(provider, "local");
        },
        _ => panic!("expected transaction"),
    }
}

#[test]
fn usage_reads_default_to_zero() {
    assert_eq!(usage_counts(None), (0, 0));
    assert_eq!(usage_counts(Some((Some(4), None))), (4, 0));
    assert_eq!(usage_counts(Some((None, Some(9)))), (0, 9));
    assert_eq!(usage_counts(Some((Some(1), Some(2)))), (1, 2));
}

#[test]
fn embeddings_usage_partly_missing() {
    let mut state = app();
    let mut s = start(&state, Operation::Embeddings, "{\"model\": \"smart\"}");
    let _ = forward(&mut s, &mut state, NOW);
    let _ = s.complete_embeddings(&mut state, 200, b"{\"usage\": {\"prompt_tokens\": 8}}", 1, NOW);
    assert_eq!((state.providers[0].tokens_input, state.providers[0].tokens_output), (8, 0));
}

#[test]
fn every_request_ends_after_one_attempt_per_candidate() {
    let mut state = app();
    let mut s = start(&state, Operation::Chat, "{\"model\": \"smart\"}");
    let mut forwards = 0;
    loop {
        match s.next_attempt(&mut state, NOW) {
            Attempt::Forward { .. } => {
                forwards += 1;
                let _ = s.record_connect_failure(&mut state, NOW);
            },
            Attempt::Skip => {},
            Attempt::Exhausted(_) => break,
        }
        assert!(s.attempts() <= 2);
    }
    assert_eq!(forwards, 2);
}
