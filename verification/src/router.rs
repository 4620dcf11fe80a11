//! The adaptive priority routing strategy: priority order over a fallback
//! chain, circuit breakers with exponential backoff, a single HalfOpen probe,
//! rate-limit windows, and idle-based penalty decay.
use vstd::arithmetic::power2::*;
use vstd::prelude::*;

use crate::state::{CircuitState, ProviderState, SelectedProvider};

verus! {

/// Idle time after which one consecutive failure is forgiven (5 minutes).
pub const DECAY_STEP_MS: u64 = 300000;

/// Failures at which the circuit opens.
pub const TRIP_THRESHOLD: u32 = 3;

/// Base circuit cooldown (60 seconds), doubled per failure beyond the threshold.
pub const BASE_COOLDOWN_MS: u64 = 60000;

/// Rate-limit window applied to a 429 without a `Retry-After` (30 seconds).
pub const DEFAULT_RATE_LIMIT_SECS: u64 = 30;

/// Idle decay: each full 5 minutes since the last attempt forgives one failure
/// (the step count taken modulo 2^32, saturating at zero), the last attempt time
/// moves forward by the forgiven steps, and an Open circuit closes once fewer
/// than 3 failures remain.
pub open spec fn decay_spec(p: ProviderState, now: u64) -> ProviderState {
    if p.consecutive_failures > 0 && p.last_attempt_time is Some {
        let last = p.last_attempt_time->0;
        let elapsed: int = if now >= last {
            now - last
        } else {
            0
        };
        let steps: int = elapsed / (DECAY_STEP_MS as int);
        if steps > 0 {
            let dec: int = steps % 0x1_0000_0000;
            let f: int = if p.consecutive_failures >= dec {
                p.consecutive_failures - dec
            } else {
                0
            };
            let circuit = if f < TRIP_THRESHOLD && p.circuit is Open {
                CircuitState::Closed
            } else {
                p.circuit
            };
            ProviderState {
                consecutive_failures: f as u32,
                last_attempt_time: Some((last + steps * (DECAY_STEP_MS as int)) as u64),
                circuit,
                ..p
            }
        } else {
            p
        }
    } else {
        p
    }
}

/// Claims the probe slot: succeeds only when no probe is in flight.
pub open spec fn claim_probe(p: ProviderState) -> (ProviderState, Option<bool>) {
    if !p.probe_in_flight {
        (ProviderState { probe_in_flight: true, ..p }, Some(true))
    } else {
        (p, None)
    }
}

/// What routing does to one candidate at time `now`, and whether it is chosen
/// (`Some(is_probe)`). A disabled provider is skipped untouched. Otherwise decay
/// applies; a provider inside its rate-limit window is skipped, an expired
/// window is cleared; Closed is chosen; an Open circuit whose cooldown has
/// expired turns HalfOpen; a HalfOpen circuit is chosen as a probe only when
/// no probe is in flight.
pub open spec fn select_step(p: ProviderState, now: u64) -> (ProviderState, Option<bool>) {
    if p.manual_disabled {
        (p, None)
    } else {
        let p1 = decay_spec(p, now);
        if p1.rate_limited_until is Some && now < p1.rate_limited_until->0 {
            (p1, None)
        } else {
            let p2 = ProviderState { rate_limited_until: None, ..p1 };
            match p2.circuit {
                CircuitState::Closed => (p2, Some(false)),
                CircuitState::Open { until } => {
                    if now >= until {
                        claim_probe(ProviderState { circuit: CircuitState::HalfOpen, ..p2 })
                    } else {
                        (p2, None)
                    }
                },
                CircuitState::HalfOpen => claim_probe(p2),
            }
        }
    }
}

/// Routing over candidate indices in priority order: the pool after every
/// visited candidate has been stepped, and the first chosen candidate with its
/// probe flag. An index outside the pool is passed over.
pub open spec fn select_rec(pool: Seq<ProviderState>, cands: Seq<usize>, now: u64) -> (Seq<
    ProviderState,
>, Option<(usize, bool)>)
    decreases cands.len(),
{
    if cands.len() == 0 {
        (pool, None)
    } else {
        let i = cands[0] as int;
        if i >= pool.len() {
            select_rec(pool, cands.drop_first(), now)
        } else {
            let (p, r) = select_step(pool[i], now);
            let pool1 = pool.update(i, p);
            match r {
                Some(probe) => (pool1, Some((cands[0], probe))),
                None => select_rec(pool1, cands.drop_first(), now),
            }
        }
    }
}

/// The identity a selection hands out for provider `p`.
pub open spec fn selected_from(p: ProviderState, is_probe: bool) -> SelectedProvider {
    SelectedProvider { name: p.name, base_url: p.base_url, api_key: p.api_key, is_probe }
}

/// Whether a failure opens the circuit: from the third consecutive failure
/// on, or when a probe fails other than by a rate limit (a rate-limited probe
/// only opens a rate-limit window).
pub open spec fn opens_circuit(failures: int, is_probe: bool, status_code: Option<u16>) -> bool {
    failures >= TRIP_THRESHOLD || (is_probe && status_code != Some(429u16))
}

/// Cooldown of an Open circuit after `failures` consecutive failures:
/// 60 s × 2^(failures − 3), the exponent saturating at 0.
pub open spec fn open_cooldown_ms(failures: int) -> int {
    let e: int = if failures >= TRIP_THRESHOLD {
        failures - TRIP_THRESHOLD
    } else {
        0
    };
    BASE_COOLDOWN_MS * pow2(e as nat)
}

/// Rate-limit window of a 429: `Retry-After` seconds, 30 s by default.
pub open spec fn rate_limit_ms(retry_after_secs: Option<u64>) -> int {
    match retry_after_secs {
        Some(s) => s * 1000,
        None => DEFAULT_RATE_LIMIT_SECS * 1000,
    }
}

/// Health update after an attempt. Success: failures 0, Closed, no rate limit,
/// last attempt now, probe slot released if this was the probe. Failure:
/// one more failure, last attempt now; a 429 opens a rate-limit window; from
/// the third failure on, or after a probe that failed other than by a rate
/// limit, the circuit opens with the
/// exponential cooldown; a probe releases its slot.
pub open spec fn feedback_spec(
    p: ProviderState,
    success: bool,
    is_probe: bool,
    status_code: Option<u16>,
    retry_after_secs: Option<u64>,
    now: u64,
) -> ProviderState {
    if success {
        ProviderState {
            consecutive_failures: 0,
            circuit: CircuitState::Closed,
            last_attempt_time: Some(now),
            rate_limited_until: None,
            probe_in_flight: if is_probe {
                false
            } else {
                p.probe_in_flight
            },
            ..p
        }
    } else {
        let f: int = p.consecutive_failures + 1;
        let p1 = ProviderState { consecutive_failures: f as u32, last_attempt_time: Some(now), ..p };
        let p2 = if status_code == Some(429u16) {
            ProviderState {
                rate_limited_until: Some((now + rate_limit_ms(retry_after_secs)) as u64),
                ..p1
            }
        } else {
            p1
        };
        let p3 = if opens_circuit(f, is_probe, status_code) {
            ProviderState {
                circuit: CircuitState::Open { until: (now + open_cooldown_ms(f)) as u64 },
                ..p2
            }
        } else {
            p2
        };
        if is_probe {
            ProviderState { probe_in_flight: false, ..p3 }
        } else {
            p3
        }
    }
}

/// The machine limits of a failure update: the failure count fits in `u32`
/// and every deadline it sets fits on the `u64` millisecond clock.
pub open spec fn feedback_fits(
    p: ProviderState,
    success: bool,
    is_probe: bool,
    status_code: Option<u16>,
    retry_after_secs: Option<u64>,
    now: u64,
) -> bool {
    !success ==> {
        let f: int = p.consecutive_failures + 1;
        &&& f <= u32::MAX
        &&& status_code == Some(429u16) ==> now + rate_limit_ms(retry_after_secs) <= u64::MAX
        &&& opens_circuit(f, is_probe, status_code) ==> now + open_cooldown_ms(f) <= u64::MAX
    }
}

/// Telemetry health code: 0 healthy, 1 cooldown (rate-limited, probing, or an
/// expired Open cooldown), 2 tripped.
pub open spec fn circuit_status_spec(p: ProviderState, now: u64) -> u64 {
    match p.circuit {
        CircuitState::Closed => if p.rate_limited_until is Some && now
            < p.rate_limited_until->0 {
            1
        } else {
            0
        },
        CircuitState::HalfOpen => 1,
        CircuitState::Open { until } => if now < until {
            2
        } else {
            1
        },
    }
}

/// Health as `/v1/models` sees it: enabled, not inside an Open cooldown and
/// not inside a rate-limit window.
pub open spec fn is_available(p: ProviderState, now: u64) -> bool {
    &&& !p.manual_disabled
    &&& !(p.circuit matches CircuitState::Open { until } && now < until)
    &&& !(p.rate_limited_until matches Some(until) && now < until)
}

fn apply_decay(p: &mut ProviderState, now: u64)
    ensures
        *final(p) == decay_spec(*old(p), now),
{
    if p.consecutive_failures > 0 {
        if let Some(last) = p.last_attempt_time {
            let elapsed: u64 = if now >= last {
                now - last
            } else {
                0
            };
            let steps: u64 = elapsed / DECAY_STEP_MS;
            if steps > 0 {
                assert(steps * DECAY_STEP_MS <= elapsed) by (nonlinear_arith)
                    requires
                        steps == elapsed / 300000,
                        DECAY_STEP_MS == 300000,
                ;
                let dec: u32 = (steps % 0x1_0000_0000) as u32;
                p.consecutive_failures = p.consecutive_failures.saturating_sub(dec);
                p.last_attempt_time = Some(last + steps * DECAY_STEP_MS);
                if p.consecutive_failures < TRIP_THRESHOLD {
                    if let CircuitState::Open { .. } = p.circuit {
                        p.circuit = CircuitState::Closed;
                    }
                }
            }
        }
    }
}

fn try_claim_probe(p: &mut ProviderState) -> (r: Option<bool>)
    ensures
        (*final(p), r) == claim_probe(*old(p)),
{
    if !p.probe_in_flight {
        p.probe_in_flight = true;
        Some(true)
    } else {
        None
    }
}

/// Steps one candidate as `select_step` states.
fn step_provider(p: &mut ProviderState, now: u64) -> (r: Option<bool>)
    ensures
        (*final(p), r) == select_step(*old(p), now),
{
    if p.manual_disabled {
        return None;
    }
    apply_decay(p, now);
    if let Some(until) = p.rate_limited_until {
        if now < until {
            return None;
        }
    }
    p.rate_limited_until = None;
    match p.circuit {
        CircuitState::Closed => Some(false),
        CircuitState::Open { until } => {
            if now >= until {
                p.circuit = CircuitState::HalfOpen;
                try_claim_probe(p)
            } else {
                None
            }
        },
        CircuitState::HalfOpen => try_claim_probe(p),
    }
}

/// Routing keeps the pool's size and chooses only indices inside it.
pub proof fn lemma_select_rec_bounds(pool: Seq<ProviderState>, cands: Seq<usize>, now: u64)
    ensures
        select_rec(pool, cands, now).0.len() == pool.len(),
        select_rec(pool, cands, now).1 matches Some((i, _)) ==> i < pool.len(),
    decreases cands.len(),
{
    if cands.len() > 0 {
        let i = cands[0] as int;
        if i >= pool.len() {
            lemma_select_rec_bounds(pool, cands.drop_first(), now);
        } else {
            let (p, r) = select_step(pool[i], now);
            lemma_select_rec_bounds(pool.update(i, p), cands.drop_first(), now);
        }
    }
}

/// Routing chooses only among the candidates it was given.
pub proof fn lemma_select_rec_chooses_candidate(pool: Seq<ProviderState>, cands: Seq<usize>, now: u64)
    ensures
        select_rec(pool, cands, now).1 matches Some((i, _)) ==> cands.contains(i),
    decreases cands.len(),
{
    if cands.len() > 0 {
        let c = cands[0] as int;
        let rest = cands.drop_first();
        if c >= pool.len() {
            lemma_select_rec_chooses_candidate(pool, rest, now);
        } else {
            let (p, r) = select_step(pool[c], now);
            lemma_select_rec_chooses_candidate(pool.update(c, p), rest, now);
        }
        let r = select_rec(pool, cands, now).1;
        if r is Some {
            let i = (r->0).0;
            if i == cands[0] {
                assert(cands[0] == i);
            } else {
                assert(select_rec(pool, cands, now).1 == select_rec(
                    if c >= pool.len() {
                        pool
                    } else {
                        pool.update(c, select_step(pool[c], now).0)
                    },
                    rest,
                    now,
                ).1);
                let j = choose|j: int| 0 <= j < rest.len() && rest[j] == i;
                assert(cands[j + 1] == i);
            }
        }
    }
}

/// Routes over `candidates` as `select_rec` states, returning the chosen
/// index and its probe flag.
pub fn select_index(pool: &mut Vec<ProviderState>, candidates: &Vec<usize>, now: u64) -> (r:
    Option<(usize, bool)>)
    ensures
        final(pool)@ == select_rec(old(pool)@, candidates@, now).0,
        r == select_rec(old(pool)@, candidates@, now).1,
        r matches Some((i, _)) ==> i < final(pool)@.len(),
{
    let ghost target = select_rec(old(pool)@, candidates@, now);
    proof {
        lemma_select_rec_bounds(old(pool)@, candidates@, now);
        assert(candidates@.skip(0) =~= candidates@);
    }
    let mut k: usize = 0;
    while k < candidates.len()
        invariant
            0 <= k <= candidates.len(),
            pool@.len() == old(pool)@.len(),
            target == select_rec(old(pool)@, candidates@, now),
            select_rec(pool@, candidates@.skip(k as int), now) == target,
            target.1 is None || (target.1->0).0 < pool@.len(),
        decreases candidates.len() - k,
    {
        let ghost rest = candidates@.skip(k as int);
        assert(rest.drop_first() =~= candidates@.skip(k + 1));
        assert(rest[0] == candidates@[k as int]);
        let i = candidates[k];
        if i < pool.len() {
            let ghost before = pool@;
            let r = step_provider(&mut pool[i], now);
            proof {
                assert(pool@ == before.update(i as int, pool@[i as int]));
                assert(select_step(before[i as int], now) == (pool@[i as int], r));
            }
            if let Some(probe) = r {
                assert(select_rec(before, rest, now) == (pool@, Some((i, probe))));
                assert(target == (pool@, Some((i, probe))));
                return Some((i, probe));
            }
        }
        k = k + 1;
    }
    assert(candidates@.skip(k as int) =~= Seq::<usize>::empty());
    None
}

/// Strategy for choosing an upstream provider and for recording the outcome
/// of each attempt.
pub trait RoutingStrategy {
    /// Selects a provider among `candidates` (indices into `pool`, in priority
    /// order) at time `now`, updating the visited providers' health.
    fn select(&self, pool: &mut Vec<ProviderState>, candidates: &Vec<usize>, now: u64) -> Option<
        SelectedProvider,
    >;

    /// Records the outcome of one attempt on `provider`.
    fn feedback(
        &self,
        provider: &mut ProviderState,
        success: bool,
        is_probe: bool,
        status_code: Option<u16>,
        retry_after_secs: Option<u64>,
        now: u64,
    )
        requires
            feedback_fits(*old(provider), success, is_probe, status_code, retry_after_secs, now),
    ;
}

/// The default strategy: priority order, exponential circuit backoff, a single
/// HalfOpen probe, rate-limit windows and idle decay.
pub struct AdaptivePriorityStrategy;

impl RoutingStrategy for AdaptivePriorityStrategy {
    fn select(&self, pool: &mut Vec<ProviderState>, candidates: &Vec<usize>, now: u64) -> (r:
        Option<SelectedProvider>)
        ensures
            final(pool)@ == select_rec(old(pool)@, candidates@, now).0,
            match select_rec(old(pool)@, candidates@, now).1 {
                Some((i, probe)) => r == Some(selected_from(final(pool)@[i as int], probe)),
                None => r is None,
            },
    {
        match select_index(pool, candidates, now) {
            Some((i, probe)) => Some(
                SelectedProvider {
                    name: pool[i].name.clone(),
                    base_url: pool[i].base_url.clone(),
                    api_key: pool[i].api_key.clone(),
                    is_probe: probe,
                },
            ),
            None => None,
        }
    }

    fn feedback(
        &self,
        provider: &mut ProviderState,
        success: bool,
        is_probe: bool,
        status_code: Option<u16>,
        retry_after_secs: Option<u64>,
        now: u64,
    )
        ensures
            *final(provider) == feedback_spec(
                *old(provider),
                success,
                is_probe,
                status_code,
                retry_after_secs,
                now,
            ),
    {
        apply_feedback(provider, success, is_probe, status_code, retry_after_secs, now)
    }
}

/// 2^e as a `u64`, for exponents whose power fits.
fn pow2_u64(e: u32) -> (r: u64)
    requires
        pow2(e as nat) <= u64::MAX,
    ensures
        r == pow2(e as nat),
{
    let mut r: u64 = 1;
    let mut k: u32 = 0;
    proof {
        lemma2_to64();
    }
    while k < e
        invariant
            k <= e,
            r == pow2(k as nat),
            pow2(e as nat) <= u64::MAX,
        decreases e - k,
    {
        proof {
            lemma_pow2_unfold((k + 1) as nat);
            if k + 1 < e {
                lemma_pow2_strictly_increases((k + 1) as nat, e as nat);
            }
        }
        r = r * 2;
        k = k + 1;
    }
    r
}

/// Applies `feedback_spec` to `provider`.
pub fn apply_feedback(
    provider: &mut ProviderState,
    success: bool,
    is_probe: bool,
    status_code: Option<u16>,
    retry_after_secs: Option<u64>,
    now: u64,
)
    requires
        feedback_fits(*old(provider), success, is_probe, status_code, retry_after_secs, now),
    ensures
        *final(provider) == feedback_spec(
            *old(provider),
            success,
            is_probe,
            status_code,
            retry_after_secs,
            now,
        ),
{
    if success {
        provider.consecutive_failures = 0;
        provider.circuit = CircuitState::Closed;
        provider.last_attempt_time = Some(now);
        provider.rate_limited_until = None;
        if is_probe {
            provider.probe_in_flight = false;
        }
    } else {
        provider.consecutive_failures = provider.consecutive_failures + 1;
        provider.last_attempt_time = Some(now);
        if status_code == Some(429u16) {
            let cooldown_secs: u64 = match retry_after_secs {
                Some(s) => s,
                None => DEFAULT_RATE_LIMIT_SECS,
            };
            provider.rate_limited_until = Some(now + cooldown_secs * 1000);
        }
        let failures = provider.consecutive_failures;
        if failures >= TRIP_THRESHOLD || (is_probe && status_code != Some(429u16)) {
            let exponent: u32 = failures.saturating_sub(TRIP_THRESHOLD);
            proof {
                lemma_pow2_pos(exponent as nat);
                assert(BASE_COOLDOWN_MS * pow2(exponent as nat) >= pow2(exponent as nat))
                    by (nonlinear_arith)
                    requires
                        BASE_COOLDOWN_MS == 60000,
                ;
            }
            let multiplier = pow2_u64(exponent);
            let cooldown: u64 = BASE_COOLDOWN_MS * multiplier;
            provider.circuit = CircuitState::Open { until: now + cooldown };
        }
        if is_probe {
            provider.probe_in_flight = false;
        }
    }
}

/// Telemetry health code of `provider` at `now`.
pub fn circuit_status(provider: &ProviderState, now: u64) -> (r: u64)
    ensures
        r == circuit_status_spec(*provider, now),
{
    match provider.circuit {
        CircuitState::Closed => {
            match provider.rate_limited_until {
                Some(until) => if now < until {
                    1
                } else {
                    0
                },
                None => 0,
            }
        },
        CircuitState::HalfOpen => 1,
        CircuitState::Open { until } => if now < until {
            2
        } else {
            1
        },
    }
}

/// Whether `provider` is available at `now`, as `is_available` states.
pub fn provider_available(provider: &ProviderState, now: u64) -> (r: bool)
    ensures
        r == is_available(*provider, now),
{
    let tripped = match provider.circuit {
        CircuitState::Closed | CircuitState::HalfOpen => false,
        CircuitState::Open { until } => now < until,
    };
    let limited = match provider.rate_limited_until {
        Some(until) => now < until,
        None => false,
    };
    !provider.manual_disabled && !tripped && !limited
}

/// Whether `feedback_fits` holds, for callers that check before recording.
pub fn feedback_in_range(
    provider: &ProviderState,
    success: bool,
    is_probe: bool,
    status_code: Option<u16>,
    retry_after_secs: Option<u64>,
    now: u64,
) -> (r: bool)
    ensures
        r == feedback_fits(*provider, success, is_probe, status_code, retry_after_secs, now),
{
    if success {
        return true;
    }
    if provider.consecutive_failures == u32::MAX {
        return false;
    }
    let f: u32 = provider.consecutive_failures + 1;
    if status_code == Some(429u16) {
        let secs: u64 = match retry_after_secs {
            Some(s) => s,
            None => DEFAULT_RATE_LIMIT_SECS,
        };
        if secs > (u64::MAX - now) / 1000 {
            assert(now + secs * 1000 > u64::MAX) by (nonlinear_arith)
                requires
                    secs > (u64::MAX - now) / 1000,
                    now <= u64::MAX,
            ;
            return false;
        }
        assert(now + secs * 1000 <= u64::MAX) by (nonlinear_arith)
            requires
                secs <= (u64::MAX - now) / 1000,
                now <= u64::MAX,
        ;
    }
    if f >= TRIP_THRESHOLD || (is_probe && status_code != Some(429u16)) {
        let e: u32 = f.saturating_sub(TRIP_THRESHOLD);
        // the largest multiplier whose cooldown still fits after `now`
        let room: u64 = (u64::MAX - now) / BASE_COOLDOWN_MS;
        assert(open_cooldown_ms(f as int) == 60000 * pow2(e as nat));
        proof {
            lemma2_to64();
            lemma_pow2_pos(e as nat);
        }
        if room == 0 {
            assert(60000 * pow2(e as nat) > u64::MAX - now) by (nonlinear_arith)
                requires
                    pow2(e as nat) >= 1,
                    room == (u64::MAX - now) / 60000,
                    room == 0,
                    now <= u64::MAX,
            ;
            return false;
        }
        let mut m: u64 = 1;
        let mut k: u32 = 0;
        while k < e
            invariant
                k <= e,
                m == pow2(k as nat),
                1 <= m <= room,
                room == (u64::MAX - now) / 60000,
                open_cooldown_ms(f as int) == 60000 * pow2(e as nat),
                opens_circuit(f as int, is_probe, status_code),
                !success,
                f == provider.consecutive_failures + 1,
            decreases e - k,
        {
            proof {
                lemma_pow2_unfold((k + 1) as nat);
                if k + 1 < e {
                    lemma_pow2_strictly_increases((k + 1) as nat, e as nat);
                }
            }
            if m > room / 2 {
                proof {
                    assert(pow2((k + 1) as nat) == 2 * m);
                    assert(2 * m > room);
                    assert(pow2(e as nat) >= pow2((k + 1) as nat));
                    assert(pow2(e as nat) > room);
                    assert(60000 * pow2(e as nat) > u64::MAX - now) by (nonlinear_arith)
                        requires
                            pow2(e as nat) > room,
                            room == (u64::MAX - now) / 60000,
                            now <= u64::MAX,
                    ;
                }
                return false;
            }
            m = m * 2;
            k = k + 1;
        }
        proof {
            assert(60000 * m <= u64::MAX - now) by (nonlinear_arith)
                requires
                    m <= room,
                    room == (u64::MAX - now) / 60000,
                    now <= u64::MAX,
            ;
        }
    }
    true
}

} // verus!
