//! What `/v1/models` and `/status` report about the provider pool.
use vstd::prelude::*;

use crate::router::{is_available, provider_available};
use crate::state::{
    distinct_names, find_provider, lemma_first_match_spec, provider_index, provider_names,
    virtual_model_names, AppState, CircuitState, ProviderState, VirtualModelTarget,
};
use crate::text::{decimal, push_decimal};

verus! {

/// Creation timestamp reported for every virtual model.
pub const MODEL_CREATED: u64 = 1717070400;

/// One entry of `/v1/models`.
#[derive(Debug)]
pub struct ModelObject {
    pub id: String,
    pub object: String,
    pub created: u64,
    pub owned_by: String,
}

/// The `/v1/models` listing.
#[derive(Debug)]
pub struct ModelsResponse {
    pub object: String,
    pub data: Vec<ModelObject>,
}

/// One provider row of `/status`.
#[derive(Debug)]
pub struct ProviderStatus {
    pub name: String,
    pub models: String,
    pub circuit: String,
    pub failures: u32,
    pub rate_limited: bool,
    pub requests: u64,
    pub successes: u64,
    pub tokens_input: u64,
    pub tokens_output: u64,
    pub last_request: String,
}

/// One hop of a virtual model's routing table in `/status`.
#[derive(Debug)]
pub struct RouteEntry {
    pub provider: String,
    pub model: String,
    pub circuit: String,
    pub requests: u64,
    pub successes: u64,
}

/// The `/status` report.
#[derive(Debug)]
pub struct StatusResponse {
    pub uptime_secs: u64,
    pub total_requests: u64,
    pub providers: Vec<ProviderStatus>,
    pub virtual_models: Vec<(String, Vec<RouteEntry>)>,
}

/// A virtual model is listed when some hop names a provider of the pool that
/// is available (enabled, no running Open cooldown, no running rate-limit
/// window).
pub open spec fn chain_healthy(ps: Seq<ProviderState>, targets: Seq<VirtualModelTarget>, now: u64) -> bool {
    exists|t: int|
        #![trigger targets[t]]
        0 <= t < targets.len() && (provider_index(ps, targets[t].provider@) matches Some(i)
            && is_available(ps[i], now))
}

/// Names of the listed virtual models, in configured order.
pub open spec fn healthy_models(
    ps: Seq<ProviderState>,
    vms: Seq<(String, Vec<VirtualModelTarget>)>,
    now: u64,
) -> Seq<Seq<char>>
    decreases vms.len(),
{
    if vms.len() == 0 {
        seq![]
    } else {
        let prev = healthy_models(ps, vms.drop_last(), now);
        if chain_healthy(ps, vms.last().1@, now) {
            prev.push(vms.last().0@)
        } else {
            prev
        }
    }
}

/// Every listed name is the name of some virtual model.
pub proof fn lemma_healthy_models_named(
    ps: Seq<ProviderState>,
    vms: Seq<(String, Vec<VirtualModelTarget>)>,
    now: u64,
)
    ensures
        forall|k: int|
            0 <= k < healthy_models(ps, vms, now).len() ==> exists|m: int|
                0 <= m < vms.len() && #[trigger] healthy_models(ps, vms, now)[k] == vms[m].0@,
    decreases vms.len(),
{
    if vms.len() > 0 {
        lemma_healthy_models_named(ps, vms.drop_last(), now);
        let h = healthy_models(ps, vms, now);
        let prev = healthy_models(ps, vms.drop_last(), now);
        assert forall|k: int| 0 <= k < h.len() implies exists|m: int|
            0 <= m < vms.len() && #[trigger] h[k] == vms[m].0@ by {
            if k < prev.len() {
                assert(h[k] == prev[k]);
                let m = choose|m: int| 0 <= m < vms.drop_last().len() && prev[k] == vms.drop_last()[m].0@;
                assert(vms[m] == vms.drop_last()[m]);
            } else {
                assert(h[k] == vms.last().0@);
                assert(vms[vms.len() - 1] == vms.last());
            }
        }
    }
}

/// Listed names are distinct when the virtual model names are.
pub proof fn lemma_healthy_models_distinct(
    ps: Seq<ProviderState>,
    vms: Seq<(String, Vec<VirtualModelTarget>)>,
    now: u64,
)
    requires
        distinct_names(virtual_model_names(vms)),
    ensures
        distinct_names(healthy_models(ps, vms, now)),
    decreases vms.len(),
{
    if vms.len() > 0 {
        let rest = vms.drop_last();
        assert(virtual_model_names(rest) =~= virtual_model_names(vms).drop_last());
        lemma_healthy_models_distinct(ps, rest, now);
        lemma_healthy_models_named(ps, rest, now);
        let prev = healthy_models(ps, rest, now);
        let h = healthy_models(ps, vms, now);
        if chain_healthy(ps, vms.last().1@, now) {
            assert forall|i: int, j: int| 0 <= i < j < h.len() implies h[i] != h[j] by {
                if j == prev.len() {
                    let m = choose|m: int| 0 <= m < rest.len() && #[trigger] prev[i] == rest[m].0@;
                    assert(virtual_model_names(vms)[m] == rest[m].0@);
                    assert(virtual_model_names(vms)[vms.len() - 1] == vms.last().0@);
                }
            }
        }
    }
}

/// A hop naming `provider` can serve at `now`: the first provider of the
/// pool with that name is enabled, outside any Open cooldown and outside any
/// rate-limit window.
pub open spec fn hop_serves(ps: Seq<ProviderState>, provider: Seq<char>, now: u64) -> bool {
    exists|i: int|
        #![trigger ps[i]]
        0 <= i < ps.len() && ps[i].name@ == provider && (forall|j: int|
            0 <= j < i ==> ps[j].name@ != provider) && !ps[i].manual_disabled && !(
        ps[i].circuit matches CircuitState::Open { until } && now < until) && !(
        ps[i].rate_limited_until matches Some(u) && now < u)
}

proof fn lemma_hop_serves(ps: Seq<ProviderState>, provider: Seq<char>, now: u64)
    ensures
        (provider_index(ps, provider) matches Some(i) && is_available(ps[i], now)) <==> hop_serves(
            ps,
            provider,
            now,
        ),
{
    let names = provider_names(ps);
    assert(names.len() == ps.len());
    lemma_first_match_spec(names, provider, ps.len() as int);
    assert forall|j: int| 0 <= j < ps.len() implies #[trigger] names[j] == ps[j].name@ by {}
    if hop_serves(ps, provider, now) {
        let i = choose|i: int|
            #![trigger ps[i]]
            0 <= i < ps.len() && ps[i].name@ == provider && (forall|j: int|
                0 <= j < i ==> ps[j].name@ != provider) && !ps[i].manual_disabled && !(
            ps[i].circuit matches CircuitState::Open { until } && now < until) && !(
            ps[i].rate_limited_until matches Some(u) && now < u);
        assert(names[i] == provider);
        match provider_index(ps, provider) {
            Some(i0) => {
                assert(names[i0] == provider);
                if i0 < i {
                    assert(ps[i0].name@ == provider);
                }
                assert(i0 == i);
            },
            None => {
                assert(names[i] != provider);
            },
        }
    }
    if let Some(i) = provider_index(ps, provider) {
        if is_available(ps[i], now) {
            assert forall|j: int| 0 <= j < i implies ps[j].name@ != provider by {
                assert(names[j] != provider);
            }
            assert(ps[i].name@ == provider);
        }
    }
}

/// A chain is healthy exactly when some hop of it, at any position, can serve.
pub proof fn lemma_chain_healthy_iff_some_hop_serves(
    ps: Seq<ProviderState>,
    targets: Seq<VirtualModelTarget>,
    now: u64,
)
    ensures
        chain_healthy(ps, targets, now) <==> exists|t: int|
            0 <= t < targets.len() && hop_serves(ps, #[trigger] targets[t].provider@, now),
{
    assert forall|t: int| 0 <= t < targets.len() implies ((provider_index(
        ps,
        targets[t].provider@,
    ) matches Some(i) && is_available(ps[i], now)) <==> hop_serves(
        ps,
        #[trigger] targets[t].provider@,
        now,
    )) by {
        lemma_hop_serves(ps, targets[t].provider@, now);
    }
}

/// `/v1/models` lists a virtual model (of a configuration whose names are
/// distinct) exactly when some hop of its chain, at any position, can serve.
pub proof fn lemma_listed_iff_some_hop_serves(
    ps: Seq<ProviderState>,
    vms: Seq<(String, Vec<VirtualModelTarget>)>,
    now: u64,
    k: int,
)
    requires
        0 <= k < vms.len(),
        distinct_names(virtual_model_names(vms)),
    ensures
        healthy_models(ps, vms, now).contains(vms[k].0@) <==> exists|t: int|
            0 <= t < vms[k].1@.len() && hop_serves(ps, #[trigger] vms[k].1@[t].provider@, now),
    decreases vms.len(),
{
    lemma_chain_healthy_iff_some_hop_serves(ps, vms[k].1@, now);
    let rest = vms.drop_last();
    let prev = healthy_models(ps, rest, now);
    let h = healthy_models(ps, vms, now);
    let last = vms.len() - 1;
    assert(virtual_model_names(vms)[last] == vms[last].0@);
    if k == last {
        lemma_healthy_models_named(ps, rest, now);
        if prev.contains(vms[k].0@) {
            let q = choose|q: int| 0 <= q < prev.len() && prev[q] == vms[k].0@;
            let m = choose|m: int| 0 <= m < rest.len() && #[trigger] prev[q] == rest[m].0@;
            assert(virtual_model_names(vms)[m] == rest[m].0@);
        }
        if chain_healthy(ps, vms.last().1@, now) {
            assert(h[h.len() - 1] == vms[k].0@);
        }
    } else {
        assert(virtual_model_names(rest) =~= virtual_model_names(vms).drop_last());
        assert(rest[k] == vms[k]);
        lemma_listed_iff_some_hop_serves(ps, rest, now, k);
        assert(virtual_model_names(vms)[k] == vms[k].0@);
        if chain_healthy(ps, vms.last().1@, now) {
            assert(h =~= prev.push(vms.last().0@));
            assert(h.contains(vms[k].0@) <==> prev.contains(vms[k].0@)) by {
                if h.contains(vms[k].0@) {
                    let q = choose|q: int| 0 <= q < h.len() && h[q] == vms[k].0@;
                    if q < prev.len() {
                        assert(prev[q] == h[q]);
                    }
                }
                if prev.contains(vms[k].0@) {
                    let q = choose|q: int| 0 <= q < prev.len() && prev[q] == vms[k].0@;
                    assert(h[q] == prev[q]);
                }
            }
        }
    }
}

/// A provider row carries the provider's own counters, field for field.
pub proof fn lemma_row_counters(r: ProviderStatus, p: ProviderState, now: u64)
    requires
        provider_row(r, p, now),
    ensures
        r.name == p.name,
        r.failures == p.consecutive_failures,
        r.requests == p.requests,
        r.successes == p.successes,
        r.tokens_input == p.tokens_input,
        r.tokens_output == p.tokens_output,
{
}

/// A routing-table hop names its own target and carries the counters of the
/// first pool provider of that name (0 when there is none).
pub proof fn lemma_route_row_counters(e: RouteEntry, ps: Seq<ProviderState>, t: VirtualModelTarget, now: u64)
    requires
        route_row(e, ps, t, now),
    ensures
        e.provider == t.provider,
        e.model == t.model,
        e.requests == match provider_index(ps, t.provider@) {
            Some(i) => ps[i].requests,
            None => 0u64,
        },
        e.successes == match provider_index(ps, t.provider@) {
            Some(i) => ps[i].successes,
            None => 0u64,
        },
{
}

/// Whole seconds from `now` until `until`, 0 once passed.
pub open spec fn secs_left(until: u64, now: u64) -> nat {
    if until > now {
        ((until - now) / 1000) as nat
    } else {
        0
    }
}

/// Circuit label of a provider row.
pub open spec fn circuit_label(c: CircuitState, now: u64) -> Seq<char> {
    match c {
        CircuitState::Closed => "Closed (Healthy)"@,
        CircuitState::HalfOpen => "Half-Open (Probing)"@,
        CircuitState::Open { until } => "Open (Cooldown: "@ + decimal(secs_left(until, now))
            + "s left)"@,
    }
}

/// Circuit label of a routing-table hop.
pub open spec fn route_circuit_label(c: CircuitState, now: u64) -> Seq<char> {
    match c {
        CircuitState::Closed => "Closed (Healthy)"@,
        CircuitState::HalfOpen => "Half-Open (Probing)"@,
        CircuitState::Open { until } => "Open ("@ + decimal(secs_left(until, now))
            + "s cooldown)"@,
    }
}

/// Age of the last attempt: "Never", "Just now" under a minute, then whole
/// minutes, hours or days ago.
pub open spec fn last_request_label(last: Option<u64>, now: u64) -> Seq<char> {
    match last {
        None => "Never"@,
        Some(t) => {
            let e = secs_left(now, t);
            if e < 60 {
                "Just now"@
            } else if e < 3600 {
                decimal(e / 60) + "m ago"@
            } else if e < 86400 {
                decimal(e / 3600) + "h ago"@
            } else {
                decimal(e / 86400) + "d ago"@
            }
        },
    }
}

/// `items` joined with `sep` between neighbours.
pub open spec fn join_with(items: Seq<Seq<char>>, sep: Seq<char>) -> Seq<char>
    decreases items.len(),
{
    if items.len() == 0 {
        seq![]
    } else if items.len() == 1 {
        items[0]
    } else {
        join_with(items.drop_last(), sep) + sep + items.last()
    }
}

pub open spec fn string_views(v: Seq<String>) -> Seq<Seq<char>> {
    v.map_values(|s: String| s@)
}

/// Inside a rate-limit window at `now`.
pub open spec fn rate_limited_at(p: ProviderState, now: u64) -> bool {
    p.rate_limited_until matches Some(until) && now < until
}

/// The provider row of `p`.
pub open spec fn provider_row(r: ProviderStatus, p: ProviderState, now: u64) -> bool {
    &&& r.name == p.name
    &&& r.models@ == join_with(string_views(p.models@), ", "@)
    &&& r.circuit@ == circuit_label(p.circuit, now)
    &&& r.failures == p.consecutive_failures
    &&& r.rate_limited == rate_limited_at(p, now)
    &&& r.requests == p.requests
    &&& r.successes == p.successes
    &&& r.tokens_input == p.tokens_input
    &&& r.tokens_output == p.tokens_output
    &&& r.last_request@ == last_request_label(p.last_attempt_time, now)
}

/// The routing-table hop of `t`.
pub open spec fn route_row(e: RouteEntry, ps: Seq<ProviderState>, t: VirtualModelTarget, now: u64) -> bool {
    &&& e.provider == t.provider
    &&& e.model == t.model
    &&& match provider_index(ps, t.provider@) {
        Some(i) => {
            &&& e.circuit@ == route_circuit_label(ps[i].circuit, now)
            &&& e.requests == ps[i].requests
            &&& e.successes == ps[i].successes
        },
        None => {
            &&& e.circuit@ == "Unknown"@
            &&& e.requests == 0
            &&& e.successes == 0
        },
    }
}

/// Sum of the request counters of `ps`.
pub open spec fn requests_total(ps: Seq<ProviderState>) -> int
    decreases ps.len(),
{
    if ps.len() == 0 {
        0
    } else {
        requests_total(ps.drop_last()) + ps.last().requests
    }
}

fn string_from(s: &str) -> (r: String)
    ensures
        r@ == s@,
{
    String::from_str(s)
}

fn cloned(s: &String) -> (r: String)
    ensures
        r == *s,
{
    s.clone()
}

/// Whether some hop of `targets` is available at `now`.
fn chain_is_healthy(ps: &Vec<ProviderState>, targets: &Vec<VirtualModelTarget>, now: u64) -> (r:
    bool)
    ensures
        r == chain_healthy(ps@, targets@, now),
{
    let mut t: usize = 0;
    while t < targets.len()
        invariant
            0 <= t <= targets.len(),
            forall|j: int|
                #![trigger targets@[j]]
                0 <= j < t ==> !(provider_index(ps@, targets@[j].provider@) matches Some(i)
                    && is_available(ps@[i], now)),
        decreases targets.len() - t,
    {
        match find_provider(ps, &targets[t].provider) {
            Some(i) => {
                if provider_available(&ps[i], now) {
                    assert(targets@[t as int] == targets@[t as int]);
                    return true;
                }
            },
            None => {},
        }
        t = t + 1;
    }
    false
}

/// The `/v1/models` listing at `now`: each virtual model with an available
/// hop, in configured order.
pub fn list_models(state: &AppState, now: u64) -> (r: ModelsResponse)
    ensures
        r.object@ == "list"@,
        r.data@.map_values(|m: ModelObject| m.id@) == healthy_models(
            state.providers@,
            state.virtual_models@,
            now,
        ),
        forall|k: int|
            0 <= k < r.data@.len() ==> {
                &&& (#[trigger] r.data@[k]).object@ == "model"@
                &&& r.data@[k].created == MODEL_CREATED
                &&& r.data@[k].owned_by@ == "oxllm-virtual"@
            },
        state.wf() ==> distinct_names(r.data@.map_values(|m: ModelObject| m.id@)),
{
    proof {
        if state.wf() {
            lemma_healthy_models_distinct(state.providers@, state.virtual_models@, now);
        }
    }
    let vms = &state.virtual_models;
    let mut data: Vec<ModelObject> = Vec::new();
    let mut k: usize = 0;
    while k < vms.len()
        invariant
            0 <= k <= vms.len(),
            vms == state.virtual_models,
            data@.map_values(|m: ModelObject| m.id@) == healthy_models(
                state.providers@,
                vms@.subrange(0, k as int),
                now,
            ),
            forall|j: int|
                0 <= j < data@.len() ==> {
                    &&& (#[trigger] data@[j]).object@ == "model"@
                    &&& data@[j].created == MODEL_CREATED
                    &&& data@[j].owned_by@ == "oxllm-virtual"@
                },
        decreases vms.len() - k,
    {
        let ghost pre = vms@.subrange(0, k as int);
        let ghost next = vms@.subrange(0, k + 1);
        assert(next.drop_last() =~= pre);
        if chain_is_healthy(&state.providers, &vms[k].1, now) {
            let ghost before = data@;
            data.push(
                ModelObject {
                    id: cloned(&vms[k].0),
                    object: string_from("model"),
                    created: MODEL_CREATED,
                    owned_by: string_from("oxllm-virtual"),
                },
            );
            assert(data@.map_values(|m: ModelObject| m.id@) =~= before.map_values(
                |m: ModelObject| m.id@,
            ).push(vms@[k as int].0@));
        }
        k = k + 1;
    }
    assert(vms@.subrange(0, vms@.len() as int) =~= vms@);
    ModelsResponse { object: string_from("list"), data }
}

/// Circuit label of a provider row.
fn circuit_text(c: CircuitState, now: u64, route: bool) -> (r: String)
    ensures
        route ==> r@ == route_circuit_label(c, now),
        !route ==> r@ == circuit_label(c, now),
{
    match c {
        CircuitState::Closed => string_from("Closed (Healthy)"),
        CircuitState::HalfOpen => string_from("Half-Open (Probing)"),
        CircuitState::Open { until } => {
            let left: u64 = if until > now {
                (until - now) / 1000
            } else {
                0
            };
            let mut s = if route {
                string_from("Open (")
            } else {
                string_from("Open (Cooldown: ")
            };
            push_decimal(&mut s, left);
            if route {
                s.append("s cooldown)");
            } else {
                s.append("s left)");
            }
            s
        },
    }
}

fn last_request_text(last: Option<u64>, now: u64) -> (r: String)
    ensures
        r@ == last_request_label(last, now),
{
    match last {
        None => string_from("Never"),
        Some(t) => {
            let e: u64 = if now > t {
                (now - t) / 1000
            } else {
                0
            };
            if e < 60 {
                string_from("Just now")
            } else if e < 3600 {
                let mut s = String::new();
                push_decimal(&mut s, e / 60);
                s.append("m ago");
                s
            } else if e < 86400 {
                let mut s = String::new();
                push_decimal(&mut s, e / 3600);
                s.append("h ago");
                s
            } else {
                let mut s = String::new();
                push_decimal(&mut s, e / 86400);
                s.append("d ago");
                s
            }
        },
    }
}

/// `items` joined with `sep`, as `join_with` states.
pub fn join_strings(items: &Vec<String>, sep: &str) -> (r: String)
    ensures
        r@ == join_with(string_views(items@), sep@),
{
    let mut r = String::new();
    let mut i: usize = 0;
    while i < items.len()
        invariant
            0 <= i <= items.len(),
            r@ == join_with(string_views(items@.subrange(0, i as int)), sep@),
        decreases items.len() - i,
    {
        let ghost pre = string_views(items@.subrange(0, i as int));
        let ghost next = string_views(items@.subrange(0, i + 1));
        assert(next.drop_last() =~= pre);
        assert(next.last() == items@[i as int]@);
        if i != 0 {
            r.append(sep);
        } else {
            assert(pre =~= Seq::<Seq<char>>::empty());
            assert(next.len() == 1);
        }
        r.append(items[i].as_str());
        i = i + 1;
    }
    assert(items@.subrange(0, items@.len() as int) =~= items@);
    r
}

fn provider_status(p: &ProviderState, now: u64) -> (r: ProviderStatus)
    ensures
        provider_row(r, *p, now),
        r.tokens_input == p.tokens_input,
        r.tokens_output == p.tokens_output,
{
    let rate_limited = match p.rate_limited_until {
        Some(until) => now < until,
        None => false,
    };
    ProviderStatus {
        name: cloned(&p.name),
        models: join_strings(&p.models, ", "),
        circuit: circuit_text(p.circuit, now, false),
        failures: p.consecutive_failures,
        rate_limited,
        requests: p.requests,
        successes: p.successes,
        tokens_input: p.tokens_input,
        tokens_output: p.tokens_output,
        last_request: last_request_text(p.last_attempt_time, now),
    }
}

fn route_entry(ps: &Vec<ProviderState>, t: &VirtualModelTarget, now: u64) -> (r: RouteEntry)
    ensures
        route_row(r, ps@, *t, now),
{
    match find_provider(ps, &t.provider) {
        Some(i) => RouteEntry {
            provider: cloned(&t.provider),
            model: cloned(&t.model),
            circuit: circuit_text(ps[i].circuit, now, true),
            requests: ps[i].requests,
            successes: ps[i].successes,
        },
        None => RouteEntry {
            provider: cloned(&t.provider),
            model: cloned(&t.model),
            circuit: string_from("Unknown"),
            requests: 0,
            successes: 0,
        },
    }
}

/// Whether the request counters of the pool sum to a `u64`.
pub fn requests_total_fits(ps: &Vec<ProviderState>) -> (r: bool)
    ensures
        r == (requests_total(ps@) <= u64::MAX),
{
    let mut total: u64 = 0;
    let mut i: usize = 0;
    while i < ps.len()
        invariant
            0 <= i <= ps.len(),
            total == requests_total(ps@.subrange(0, i as int)),
        decreases ps.len() - i,
    {
        let ghost next = ps@.subrange(0, i + 1);
        assert(next.drop_last() =~= ps@.subrange(0, i as int));
        if ps[i].requests > u64::MAX - total {
            proof {
                lemma_requests_total_prefix(ps@, i + 1);
            }
            return false;
        }
        total = total + ps[i].requests;
        i = i + 1;
    }
    assert(ps@.subrange(0, ps@.len() as int) =~= ps@);
    true
}

/// Request totals only grow with longer prefixes.
pub proof fn lemma_requests_total_prefix(ps: Seq<ProviderState>, n: int)
    requires
        0 <= n <= ps.len(),
    ensures
        requests_total(ps.subrange(0, n)) <= requests_total(ps),
    decreases ps.len() - n,
{
    if n < ps.len() {
        lemma_requests_total_prefix(ps, n + 1);
        assert(ps.subrange(0, n + 1).drop_last() =~= ps.subrange(0, n));
    } else {
        assert(ps.subrange(0, n) =~= ps);
    }
}

/// The `/status` report at `now` after `uptime_secs` of uptime: one row per
/// provider, the sum of their request counters, and the routing table of
/// every virtual model.
pub fn get_status(state: &AppState, now: u64, uptime_secs: u64) -> (r: StatusResponse)
    requires
        requests_total(state.providers@) <= u64::MAX,
    ensures
        r.uptime_secs == uptime_secs,
        r.total_requests == requests_total(state.providers@),
        r.providers@.len() == state.providers@.len(),
        forall|k: int|
            0 <= k < r.providers@.len() ==> provider_row(
                #[trigger] r.providers@[k],
                state.providers@[k],
                now,
            ),
        forall|k: int|
            0 <= k < r.providers@.len() ==> {
                &&& (#[trigger] r.providers@[k]).name == state.providers@[k].name
                &&& r.providers@[k].failures == state.providers@[k].consecutive_failures
                &&& r.providers@[k].requests == state.providers@[k].requests
                &&& r.providers@[k].successes == state.providers@[k].successes
                &&& r.providers@[k].tokens_input == state.providers@[k].tokens_input
                &&& r.providers@[k].tokens_output == state.providers@[k].tokens_output
            },
        r.virtual_models@.len() == state.virtual_models@.len(),
        forall|k: int|
            0 <= k < r.virtual_models@.len() ==> {
                let (name, entries) = #[trigger] r.virtual_models@[k];
                let (vm, targets) = state.virtual_models@[k];
                &&& name == vm
                &&& entries@.len() == targets@.len()
                &&& forall|j: int|
                    0 <= j < entries@.len() ==> route_row(
                        #[trigger] entries@[j],
                        state.providers@,
                        targets@[j],
                        now,
                    )
            },
{
    let ps = &state.providers;
    let mut rows: Vec<ProviderStatus> = Vec::new();
    let mut total: u64 = 0;
    let mut i: usize = 0;
    while i < ps.len()
        invariant
            0 <= i <= ps.len(),
            ps == state.providers,
            requests_total(ps@) <= u64::MAX,
            total == requests_total(ps@.subrange(0, i as int)),
            rows@.len() == i,
            forall|k: int| 0 <= k < i ==> provider_row(#[trigger] rows@[k], ps@[k], now),
        decreases ps.len() - i,
    {
        let ghost next = ps@.subrange(0, i + 1);
        assert(next.drop_last() =~= ps@.subrange(0, i as int));
        proof {
            lemma_requests_total_prefix(ps@, i + 1);
        }
        rows.push(provider_status(&ps[i], now));
        total = total + ps[i].requests;
        i = i + 1;
    }
    assert(ps@.subrange(0, ps@.len() as int) =~= ps@);
    let vms = &state.virtual_models;
    let mut table: Vec<(String, Vec<RouteEntry>)> = Vec::new();
    let mut k: usize = 0;
    while k < vms.len()
        invariant
            0 <= k <= vms.len(),
            vms == state.virtual_models,
            ps == state.providers,
            table@.len() == k,
            forall|m: int|
                0 <= m < k ==> {
                    let (name, entries) = #[trigger] table@[m];
                    let (vm, targets) = vms@[m];
                    &&& name == vm
                    &&& entries@.len() == targets@.len()
                    &&& forall|j: int|
                        0 <= j < entries@.len() ==> route_row(
                            #[trigger] entries@[j],
                            ps@,
                            targets@[j],
                            now,
                        )
                },
        decreases vms.len() - k,
    {
        let targets = &vms[k].1;
        let mut entries: Vec<RouteEntry> = Vec::new();
        let mut j: usize = 0;
        while j < targets.len()
            invariant
                0 <= j <= targets.len(),
                targets == vms@[k as int].1,
                entries@.len() == j,
                forall|m: int|
                    0 <= m < j ==> route_row(#[trigger] entries@[m], ps@, targets@[m], now),
            decreases targets.len() - j,
        {
            entries.push(route_entry(ps, &targets[j], now));
            j = j + 1;
        }
        table.push((cloned(&vms[k].0), entries));
        k = k + 1;
    }
    StatusResponse { uptime_secs, total_requests: total, providers: rows, virtual_models: table }
}

} // verus!
