//! Provider health state, the routing table and candidate resolution.
use vstd::prelude::*;

verus! {

/// Circuit breaker state of one upstream provider. `until` is a time in
/// milliseconds on the gateway's monotonic clock.
#[derive(Debug, Clone, Copy, PartialEq, Eq, Structural)]
pub enum CircuitState {
    Closed,
    Open { until: u64 },
    HalfOpen,
}

/// Everything the gateway knows about one upstream provider: its identity,
/// its circuit breaker and rate-limit state, and its local counters.
/// Times are milliseconds on the gateway's monotonic clock.
#[derive(Debug)]
pub struct ProviderState {
    pub name: String,
    pub base_url: String,
    pub api_key: String,
    pub models: Vec<String>,
    pub circuit: CircuitState,
    pub consecutive_failures: u32,
    pub rate_limited_until: Option<u64>,
    pub last_attempt_time: Option<u64>,
    /// Set while the single HalfOpen probe request is in flight.
    pub probe_in_flight: bool,
    /// Manual admin override: the provider is skipped by routing.
    pub manual_disabled: bool,
    pub requests: u64,
    pub successes: u64,
    pub tokens_input: u64,
    pub tokens_output: u64,
}

/// The provider picked for one upstream attempt.
#[derive(Debug)]
pub struct SelectedProvider {
    pub name: String,
    pub base_url: String,
    pub api_key: String,
    pub is_probe: bool,
}

/// One hop of a virtual model's fallback chain.
#[derive(Debug)]
pub struct VirtualModelTarget {
    pub provider: String,
    pub model: String,
}

/// The provider pool and the virtual models (fallback chains) routed over it.
/// `virtual_models` keeps the configured order; a name that occurs twice is
/// resolved to its first occurrence.
#[derive(Debug)]
pub struct AppState {
    pub providers: Vec<ProviderState>,
    pub virtual_models: Vec<(String, Vec<VirtualModelTarget>)>,
    pub upstream_timeout_secs: u64,
}

/// A fresh provider: circuit Closed, no failures, no rate limit, never used,
/// enabled, all counters zero.
pub open spec fn fresh_provider(
    name: String,
    base_url: String,
    api_key: String,
    models: Vec<String>,
) -> ProviderState {
    ProviderState {
        name,
        base_url,
        api_key,
        models,
        circuit: CircuitState::Closed,
        consecutive_failures: 0,
        rate_limited_until: None,
        last_attempt_time: None,
        probe_in_flight: false,
        manual_disabled: false,
        requests: 0,
        successes: 0,
        tokens_input: 0,
        tokens_output: 0,
    }
}

impl ProviderState {
    pub fn new(name: String, base_url: String, api_key: String, models: Vec<String>) -> (p:
        ProviderState)
        ensures
            p == fresh_provider(name, base_url, api_key, models),
    {
        ProviderState {
            name,
            base_url,
            api_key,
            models,
            circuit: CircuitState::Closed,
            consecutive_failures: 0,
            rate_limited_until: None,
            last_attempt_time: None,
            probe_in_flight: false,
            manual_disabled: false,
            requests: 0,
            successes: 0,
            tokens_input: 0,
            tokens_output: 0,
        }
    }
}

/// No name occurs twice.
pub open spec fn distinct_names(names: Seq<Seq<char>>) -> bool {
    forall|i: int, j: int| 0 <= i < j < names.len() ==> names[i] != names[j]
}

impl AppState {
    /// Well-formed: every virtual model name occurs once.
    pub open spec fn wf(&self) -> bool {
        distinct_names(virtual_model_names(self.virtual_models@))
    }
}

/// Index of the first name in `names[0..n]` equal to `name`.
pub open spec fn first_match_in(names: Seq<Seq<char>>, name: Seq<char>, n: int) -> Option<int>
    decreases n,
{
    if n <= 0 {
        None
    } else {
        match first_match_in(names, name, n - 1) {
            Some(i) => Some(i),
            None => if names[n - 1] == name {
                Some(n - 1)
            } else {
                None
            },
        }
    }
}

/// Index of the first element of `names` equal to `name`.
pub open spec fn first_match(names: Seq<Seq<char>>, name: Seq<char>) -> Option<int> {
    first_match_in(names, name, names.len() as int)
}

pub open spec fn provider_names(ps: Seq<ProviderState>) -> Seq<Seq<char>> {
    ps.map_values(|p: ProviderState| p.name@)
}

pub open spec fn virtual_model_names(vms: Seq<(String, Vec<VirtualModelTarget>)>) -> Seq<
    Seq<char>,
> {
    vms.map_values(|e: (String, Vec<VirtualModelTarget>)| e.0@)
}

/// Index of the first provider of the pool named `name`.
pub open spec fn provider_index(ps: Seq<ProviderState>, name: Seq<char>) -> Option<int> {
    first_match(provider_names(ps), name)
}

/// The first match, once found, stays the first match in every longer prefix.
pub proof fn lemma_first_match_stable(names: Seq<Seq<char>>, name: Seq<char>, n: int, m: int)
    requires
        n <= m,
        first_match_in(names, name, n) is Some,
    ensures
        first_match_in(names, name, m) == first_match_in(names, name, n),
    decreases m - n,
{
    if n < m {
        lemma_first_match_stable(names, name, n, m - 1);
    }
}

/// What `first_match_in` finds: a match, with no match before it; and `None`
/// exactly when nothing in the prefix matches.
pub proof fn lemma_first_match_spec(names: Seq<Seq<char>>, name: Seq<char>, n: int)
    requires
        0 <= n <= names.len(),
    ensures
        first_match_in(names, name, n) matches Some(i) ==> 0 <= i < n && names[i] == name
            && forall|j: int| 0 <= j < i ==> names[j] != name,
        first_match_in(names, name, n) is None ==> forall|j: int|
            0 <= j < n ==> names[j] != name,
    decreases n,
{
    if n > 0 {
        lemma_first_match_spec(names, name, n - 1);
    }
}

/// The candidate list of a fallback chain: each target whose provider is in the
/// pool, as (index of the first provider of that name, upstream model), in order.
pub open spec fn chain_candidates(ps: Seq<ProviderState>, targets: Seq<VirtualModelTarget>) -> Seq<
    (int, Seq<char>),
>
    decreases targets.len(),
{
    if targets.len() == 0 {
        seq![]
    } else {
        let prev = chain_candidates(ps, targets.drop_last());
        match provider_index(ps, targets.last().provider@) {
            Some(i) => prev.push((i, targets.last().model@)),
            None => prev,
        }
    }
}

/// The candidates of virtual model `vm`: empty when `vm` is not configured.
pub open spec fn candidates_spec(app: AppState, vm: Seq<char>) -> Seq<(int, Seq<char>)> {
    match first_match(virtual_model_names(app.virtual_models@), vm) {
        Some(k) => chain_candidates(app.providers@, app.virtual_models@[k].1@),
        None => seq![],
    }
}

/// A candidate list as plain values.
pub open spec fn candidates_view(c: Seq<(usize, String)>) -> Seq<(int, Seq<char>)> {
    c.map_values(|e: (usize, String)| (e.0 as int, e.1@))
}

/// Index of the first provider named `name`, as `provider_index` states.
pub fn find_provider(providers: &Vec<ProviderState>, name: &String) -> (r: Option<usize>)
    ensures
        r matches Some(i) ==> i < providers@.len() && provider_index(providers@, name@) == Some(
            i as int,
        ),
        r is None ==> provider_index(providers@, name@) is None,
{
    let ghost names = provider_names(providers@);
    let mut i: usize = 0;
    while i < providers.len()
        invariant
            0 <= i <= providers.len(),
            names == provider_names(providers@),
            first_match_in(names, name@, i as int) is None,
        decreases providers.len() - i,
    {
        if providers[i].name == *name {
            proof {
                assert(names[i as int] == name@);
                lemma_first_match_stable(names, name@, i + 1, names.len() as int);
            }
            return Some(i);
        }
        i = i + 1;
    }
    None
}

/// Index of the first virtual model named `name`.
fn find_virtual_model(vms: &Vec<(String, Vec<VirtualModelTarget>)>, name: &String) -> (r: Option<
    usize,
>)
    ensures
        r matches Some(i) ==> i < vms@.len() && first_match(virtual_model_names(vms@), name@)
            == Some(i as int),
        r is None ==> first_match(virtual_model_names(vms@), name@) is None,
{
    let ghost names = virtual_model_names(vms@);
    let mut i: usize = 0;
    while i < vms.len()
        invariant
            0 <= i <= vms.len(),
            names == virtual_model_names(vms@),
            first_match_in(names, name@, i as int) is None,
        decreases vms.len() - i,
    {
        if vms[i].0 == *name {
            proof {
                assert(names[i as int] == name@);
                lemma_first_match_stable(names, name@, i + 1, names.len() as int);
            }
            return Some(i);
        }
        i = i + 1;
    }
    None
}

impl AppState {
    /// Builds the routing state; `None` when a virtual model name occurs twice.
    pub fn new(
        providers: Vec<ProviderState>,
        virtual_models: Vec<(String, Vec<VirtualModelTarget>)>,
        upstream_timeout_secs: u64,
    ) -> (r: Option<AppState>)
        ensures
            r is Some <==> distinct_names(virtual_model_names(virtual_models@)),
            r matches Some(a) ==> a.providers == providers && a.virtual_models == virtual_models
                && a.upstream_timeout_secs == upstream_timeout_secs && a.wf(),
    {
        let ghost names = virtual_model_names(virtual_models@);
        let mut j: usize = 0;
        while j < virtual_models.len()
            invariant
                0 <= j <= virtual_models.len(),
                names == virtual_model_names(virtual_models@),
                forall|a: int, b: int| 0 <= a < b < j ==> names[a] != names[b],
            decreases virtual_models.len() - j,
        {
            let mut i: usize = 0;
            while i < j
                invariant
                    0 <= i <= j < virtual_models.len(),
                    names == virtual_model_names(virtual_models@),
                    forall|a: int| 0 <= a < i ==> names[a] != names[j as int],
                decreases j - i,
            {
                if virtual_models[i].0 == virtual_models[j].0 {
                    assert(names[i as int] == names[j as int]);
                    return None;
                }
                i = i + 1;
            }
            j = j + 1;
        }
        Some(AppState { providers, virtual_models, upstream_timeout_secs })
    }

    /// Resolves the candidate list for a given virtual model.
    pub fn resolve_candidates(&self, virtual_model: &str) -> (r: Vec<(usize, String)>)
        ensures
            candidates_view(r@) == candidates_spec(*self, virtual_model@),
            forall|k: int| 0 <= k < r@.len() ==> (#[trigger] r@[k]).0 < self.providers@.len(),
    {
        let wanted = String::from_str(virtual_model);
        let k = match find_virtual_model(&self.virtual_models, &wanted) {
            Some(k) => k,
            None => {
                let empty: Vec<(usize, String)> = Vec::new();
                assert(candidates_view(empty@) =~= seq![]);
                return empty;
            },
        };
        let targets = &self.virtual_models[k].1;
        let mut candidates: Vec<(usize, String)> = Vec::new();
        let mut t: usize = 0;
        while t < targets.len()
            invariant
                0 <= t <= targets.len(),
                targets == self.virtual_models@[k as int].1,
                candidates_view(candidates@) == chain_candidates(
                    self.providers@,
                    targets@.subrange(0, t as int),
                ),
                forall|j: int|
                    0 <= j < candidates@.len() ==> (#[trigger] candidates@[j]).0
                        < self.providers@.len(),
            decreases targets.len() - t,
        {
            let ghost prefix = targets@.subrange(0, t as int);
            let ghost next = targets@.subrange(0, t + 1);
            assert(next.drop_last() =~= prefix);
            assert(next.last() == targets@[t as int]);
            match find_provider(&self.providers, &targets[t].provider) {
                Some(i) => {
                    proof {
                        lemma_first_match_spec(
                            provider_names(self.providers@),
                            targets@[t as int].provider@,
                            self.providers@.len() as int,
                        );
                    }
                    candidates.push((i, targets[t].model.clone()));
                    assert(candidates_view(candidates@) =~= candidates_view(
                        candidates@.drop_last(),
                    ).push((i as int, targets@[t as int].model@)));
                },
                None => {},
            }
            t = t + 1;
        }
        assert(targets@.subrange(0, targets@.len() as int) =~= targets@);
        candidates
    }
}

} // verus!
