use oxllm_core::telemetry::{plan_export, AttributeValue, ExportPlan, TelemetryEvent};

fn tx(trace: Option<&str>, parent: Option<&str>, input: u64, output: u64, reason: Option<&str>) -> TelemetryEvent {
    TelemetryEvent::RecordTransaction {
        operation: "chat".to_string(),
        provider: "groq".to_string(),
        model: "llama".to_string(),
        input_tokens: input,
        output_tokens: output,
        duration_nanos: 2_000_000,
        attempts: 2,
        failure_reason: reason.map(|r| r.to_string()),
        trace_id: trace.map(|t| t.to_string()),
        parent_span_id: parent.map(|p| p.to_string()),
        request_id: "oxllm-9".to_string(),
    }
}

fn keys(v: &[oxllm_core::telemetry::Attribute]) -> Vec<String> {
    v.iter().map(|a| a.key.clone()).collect()
}

#[test]
fn status_event_plan() {
    match plan_export(TelemetryEvent::UpdateStatus { provider: "groq".to_string(), status: 2 }) {
        ExportPlan::ProviderStatus { status, attributes } => {
            assert_eq!(status, 2);
            assert_eq!(keys(&attributes), vec!["provider.name"]);
        },
        _ => panic!("wrong plan"),
    }
}

#[test]
fn transaction_plan_with_parent() {
    let plan = plan_export(tx(
        Some("4bf92f3577b34da6a3ce929d0e0e4736"),
        Some("00F067AA0BA902B7"),
        1420,
        0,
        Some("429_too_many_requests"),
    ));
    match plan {
        ExportPlan::Transaction { duration_nanos, duration_attributes, token_counts, span_attributes, parent } => {
            assert_eq!(duration_nanos, 2_000_000);
            assert_eq!(keys(&duration_attributes), vec!["gen_ai.operation.name", "gen_ai.provider.name", "gen_ai.request.model"]);
            assert_eq!(token_counts.len(), 1);
            assert_eq!(token_counts[0].0, 1420);
            match &token_counts[0].1[3].value {
                AttributeValue::Text(t) => assert_eq!(t, "input"),
                _ => panic!("type attribute"),
            }
            assert_eq!(
                keys(&span_attributes),
                vec![
                    "gen_ai.operation.name",
                    "gen_ai.provider.name",
                    "gen_ai.request.model",
                    "gen_ai.usage.input_tokens",
                    "gen_ai.usage.output_tokens",
                    "proxy.attempts_required",
                    "proxy.initial_failure_reason",
                    "proxy.request_id",
                ]
            );
            match span_attributes[5].value {
                AttributeValue::Int(i) => assert_eq!(i, 2),
                _ => panic!("attempts"),
            }
            let (t, s) = parent.unwrap();
            assert_eq!(t, vec![0x4b, 0xf9, 0x2f, 0x35, 0x77, 0xb3, 0x4d, 0xa6, 0xa3, 0xce, 0x92, 0x9d, 0x0e, 0x0e, 0x47, 0x36]);
            assert_eq!(s, vec![0x00, 0xf0, 0x67, 0xaa, 0x0b, 0xa9, 0x02, 0xb7]);
        },
        _ => panic!("wrong plan"),
    }
}

#[test]
fn transaction_plan_without_parent() {
    for (t, p) in [
        (Some("4bf92f3577b34da6a3ce929d0e0e4736"), None),
        (Some("4bf92f"), Some("00f067aa0ba902b7")),
        (Some("zz"), Some("00f067aa0ba902b7")),
        (Some("4bf92f3577b34da6a3ce929d0e0e473"), Some("00f067aa0ba902b7")),
    ] {
        match plan_export(tx(t, p, 0, 5, None)) {
            ExportPlan::Transaction { parent, token_counts, span_attributes, .. } => {
                assert!(parent.is_none());
                assert_eq!(token_counts.len(), 1);
                assert_eq!(token_counts[0].0, 5);
                assert_eq!(span_attributes.len(), 7);
            },
            _ => panic!("wrong plan"),
        }
    }
}
