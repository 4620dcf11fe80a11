//! Runtime administration of providers: take offline, bring online, reset.
use vstd::prelude::*;

use crate::state::{find_provider, provider_index, AppState, CircuitState, ProviderState};

verus! {

/// HTTP status of a successful admin action.
pub const STATUS_OK: u16 = 200;

/// HTTP status when no provider has the given name.
pub const STATUS_NOT_FOUND: u16 = 404;

/// `Provider '<name>'<tail>`.
pub open spec fn provider_message(name: Seq<char>, tail: Seq<char>) -> Seq<char> {
    "Provider '"@ + name + tail
}

/// The provider an admin takes offline.
pub open spec fn offline(p: ProviderState) -> ProviderState {
    ProviderState { manual_disabled: true, ..p }
}

/// The provider an admin brings online.
pub open spec fn online(p: ProviderState) -> ProviderState {
    ProviderState { manual_disabled: false, ..p }
}

/// The provider after an admin reset: circuit Closed, no failures, no rate
/// limit, manual override cleared.
pub open spec fn reset_spec(p: ProviderState) -> ProviderState {
    ProviderState {
        circuit: CircuitState::Closed,
        consecutive_failures: 0,
        rate_limited_until: None,
        manual_disabled: false,
        ..p
    }
}

/// The answer and the pool after an admin action that applies `f` to the
/// first provider named `name` and reports `tail` on success.
pub open spec fn admin_spec(
    old_state: AppState,
    new_state: AppState,
    name: Seq<char>,
    reply: (u16, String),
    f: spec_fn(ProviderState) -> ProviderState,
    tail: Seq<char>,
) -> bool {
    &&& new_state.virtual_models == old_state.virtual_models
    &&& new_state.upstream_timeout_secs == old_state.upstream_timeout_secs
    &&& match provider_index(old_state.providers@, name) {
        Some(i) => {
            &&& new_state.providers@ == old_state.providers@.update(
                i,
                f(old_state.providers@[i]),
            )
            &&& reply.0 == STATUS_OK
            &&& reply.1@ == provider_message(name, tail)
        },
        None => {
            &&& new_state.providers@ == old_state.providers@
            &&& reply.0 == STATUS_NOT_FOUND
            &&& reply.1@ == provider_message(name, "' not found"@)
        },
    }
}

fn provider_reply(status: u16, name: &str, tail: &str) -> (r: (u16, String))
    ensures
        r.0 == status,
        r.1@ == provider_message(name@, tail@),
{
    let mut msg = String::from_str("Provider '");
    msg.append(name);
    msg.append(tail);
    (status, msg)
}

/// Takes the provider named `name` out of rotation.
pub fn admin_offline(state: &mut AppState, name: &str) -> (r: (u16, String))
    ensures
        admin_spec(
            *old(state),
            *final(state),
            name@,
            r,
            |p: ProviderState| offline(p),
            "' taken offline"@,
        ),
{
    let wanted = String::from_str(name);
    match find_provider(&state.providers, &wanted) {
        Some(i) => {
            state.providers[i].manual_disabled = true;
            provider_reply(STATUS_OK, name, "' taken offline")
        },
        None => provider_reply(STATUS_NOT_FOUND, name, "' not found"),
    }
}

/// Brings the provider named `name` back into rotation.
pub fn admin_online(state: &mut AppState, name: &str) -> (r: (u16, String))
    ensures
        admin_spec(
            *old(state),
            *final(state),
            name@,
            r,
            |p: ProviderState| online(p),
            "' brought online"@,
        ),
{
    let wanted = String::from_str(name);
    match find_provider(&state.providers, &wanted) {
        Some(i) => {
            state.providers[i].manual_disabled = false;
            provider_reply(STATUS_OK, name, "' brought online")
        },
        None => provider_reply(STATUS_NOT_FOUND, name, "' not found"),
    }
}

fn reset_provider(p: &mut ProviderState)
    ensures
        *final(p) == reset_spec(*old(p)),
{
    p.circuit = CircuitState::Closed;
    p.consecutive_failures = 0;
    p.rate_limited_until = None;
    p.manual_disabled = false;
}

/// Resets the provider named `name` to healthy: circuit Closed, failures 0,
/// rate limit cleared, manual override cleared.
pub fn admin_reset(state: &mut AppState, name: &str) -> (r: (u16, String))
    ensures
        admin_spec(
            *old(state),
            *final(state),
            name@,
            r,
            |p: ProviderState| reset_spec(p),
            "' reset to healthy"@,
        ),
{
    let wanted = String::from_str(name);
    match find_provider(&state.providers, &wanted) {
        Some(i) => {
            reset_provider(&mut state.providers[i]);
            provider_reply(STATUS_OK, name, "' reset to healthy")
        },
        None => provider_reply(STATUS_NOT_FOUND, name, "' not found"),
    }
}

} // verus!
