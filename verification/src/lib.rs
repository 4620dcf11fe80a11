//! Adaptive priority routing for an OpenAI-compatible LLM gateway: provider
//! health state, the circuit breaker, candidate resolution and the decisions
//! that drive a routed request.
use vstd::prelude::*;

pub mod admin;
pub mod codec;
pub mod gateway;
pub mod laws;
pub mod router;
pub mod state;
pub mod status;
pub mod telemetry;
pub mod text;

verus! {

/// The package version of the gateway core.
pub fn version() -> (v: &'static str)
    ensures
        v@ == "0.1.12"@,
{
    "0.1.12"
}

} // verus!
