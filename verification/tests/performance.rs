use oxllm_core::router::{AdaptivePriorityStrategy, RoutingStrategy};
use oxllm_core::state::ProviderState;
use std::time::{Duration, Instant};

#[test]
fn test_routing_loop_latency_performance() {
    // 1. Create a typical 5-provider fallback pool
    let mut candidates = Vec::new();
    for i in 0..5 {
        candidates.push(ProviderState::new(
            format!("provider-{}", i),
            "https://api.example.com".to_string(),
            "key".to_string(),
            vec!["model-a".to_string()],
        ));
    }

    let candidate_refs: Vec<usize> = (0..candidates.len()).collect();
    let strategy = AdaptivePriorityStrategy;
    let now: u64 = 1_000;

    // 2. Warm up the CPU caches
    for _ in 0..100 {
        let _ = strategy.select(&mut candidates, &candidate_refs, now);
    }

    // 3. Measure 10,000 select operations
    let iterations = 10_000;
    let start = Instant::now();
    for _ in 0..iterations {
        let selected = strategy.select(&mut candidates, &candidate_refs, now);
        assert!(selected.is_some());
    }
    let elapsed = start.elapsed();
    let avg_latency = elapsed / iterations;

    println!(
        "\n[BENCHMARK] Total elapsed for {} selects: {:?}",
        iterations, elapsed
    );
    println!("[BENCHMARK] Average latency per select: {:?}", avg_latency);

    // 4. Assert routing loop latency is strictly under 2ms (2,000,000 ns)
    assert!(
        avg_latency < Duration::from_millis(2),
        "Routing latency {:?} exceeded 2ms budget!",
        avg_latency
    );
}
