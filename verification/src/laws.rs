//! Properties of the routing state machine that span several calls.
use vstd::arithmetic::power2::*;
use vstd::prelude::*;

use crate::admin::{offline, online, reset_spec};
use crate::router::{
    circuit_status_spec, decay_spec, feedback_fits, feedback_spec, is_available, open_cooldown_ms, opens_circuit,
    rate_limit_ms, select_rec, select_step, BASE_COOLDOWN_MS,
};
use crate::state::{CircuitState, ProviderState};

verus! {

/// The fields routing and feedback never touch: identity and counters.
pub open spec fn same_identity(a: ProviderState, b: ProviderState) -> bool {
    &&& a.name == b.name
    &&& a.base_url == b.base_url
    &&& a.api_key == b.api_key
    &&& a.models == b.models
    &&& a.requests == b.requests
    &&& a.successes == b.successes
    &&& a.tokens_input == b.tokens_input
    &&& a.tokens_output == b.tokens_output
}

/// A HalfOpen provider whose probe is in flight.
pub open spec fn probing(p: ProviderState) -> bool {
    p.circuit == CircuitState::HalfOpen && p.probe_in_flight
}

/// Routing visits every candidate with `select_step` only: it keeps each
/// provider's identity and counters, never raises a failure count, and leaves
/// providers that are not candidates untouched.
pub proof fn lemma_select_keeps_identity(pool: Seq<ProviderState>, cands: Seq<usize>, now: u64)
    ensures
        select_rec(pool, cands, now).0.len() == pool.len(),
        forall|k: int|
            0 <= k < pool.len() ==> {
                let q = #[trigger] select_rec(pool, cands, now).0[k];
                &&& same_identity(q, pool[k])
                &&& q.consecutive_failures <= pool[k].consecutive_failures
                &&& (forall|j: int| 0 <= j < cands.len() ==> cands[j] != k as usize) ==> q
                    == pool[k]
            },
    decreases cands.len(),
{
    if cands.len() > 0 {
        let c = cands[0] as int;
        let rest = cands.drop_first();
        assert forall|j: int| 0 <= j < rest.len() implies #[trigger] rest[j] == cands[j + 1] by {}
        if c >= pool.len() {
            lemma_select_keeps_identity(pool, rest, now);
        } else {
            let (p, r) = select_step(pool[c], now);
            lemma_select_keeps_identity(pool.update(c, p), rest, now);
        }
    }
}

/// A disabled provider is never chosen and routing leaves it untouched.
pub proof fn lemma_disabled_never_selected(
    pool: Seq<ProviderState>,
    cands: Seq<usize>,
    now: u64,
    i: int,
)
    requires
        0 <= i < pool.len(),
        pool[i].manual_disabled,
    ensures
        select_rec(pool, cands, now).0[i] == pool[i],
        select_rec(pool, cands, now).1 matches Some((j, _)) ==> j != i,
    decreases cands.len(),
{
    if cands.len() > 0 {
        let c = cands[0] as int;
        if c >= pool.len() {
            lemma_disabled_never_selected(pool, cands.drop_first(), now, i);
        } else {
            let (p, r) = select_step(pool[c], now);
            lemma_disabled_never_selected(pool.update(c, p), cands.drop_first(), now, i);
        }
    }
}

/// While its probe is in flight, a HalfOpen provider is never chosen, and it
/// stays HalfOpen with its probe in flight: concurrent requests bypass it.
pub proof fn lemma_probe_blocks(pool: Seq<ProviderState>, cands: Seq<usize>, now: u64, i: int)
    requires
        0 <= i < pool.len(),
        probing(pool[i]),
    ensures
        probing(select_rec(pool, cands, now).0[i]),
        select_rec(pool, cands, now).1 matches Some((j, _)) ==> j != i,
    decreases cands.len(),
{
    if cands.len() > 0 {
        let c = cands[0] as int;
        if c >= pool.len() {
            lemma_probe_blocks(pool, cands.drop_first(), now, i);
        } else {
            let (p, r) = select_step(pool[c], now);
            if c == i {
                assert(decay_spec(pool[i], now).circuit == CircuitState::HalfOpen);
                assert(probing(p) && r is None);
            }
            lemma_probe_blocks(pool.update(c, p), cands.drop_first(), now, i);
        }
    }
}

/// A provider handed out as a probe is left HalfOpen with its probe in flight.
pub proof fn lemma_probe_marks_in_flight(pool: Seq<ProviderState>, cands: Seq<usize>, now: u64)
    ensures
        select_rec(pool, cands, now).1 matches Some((i, probe)) ==> probe ==> probing(
            select_rec(pool, cands, now).0[i as int],
        ),
    decreases cands.len(),
{
    if cands.len() > 0 {
        let c = cands[0] as int;
        if c >= pool.len() {
            lemma_probe_marks_in_flight(pool, cands.drop_first(), now);
        } else {
            let (p, r) = select_step(pool[c], now);
            if r is None {
                lemma_probe_marks_in_flight(pool.update(c, p), cands.drop_first(), now);
            } else {
                assert(decay_spec(pool[c], now).circuit != CircuitState::Closed ==> decay_spec(
                    pool[c],
                    now,
                ).circuit == pool[c].circuit);
            }
        }
    }
}

/// Single probe: once routing hands a provider out as the HalfOpen probe, no
/// later routing, at any time and over any candidates, hands it out again
/// before its feedback arrives.
pub proof fn lemma_single_probe(
    pool: Seq<ProviderState>,
    cands: Seq<usize>,
    now: u64,
    later_cands: Seq<usize>,
    later: u64,
)
    requires
        select_rec(pool, cands, now).1 matches Some((_, probe)) && probe,
    ensures
        ({
            let (pool1, r) = select_rec(pool, cands, now);
            let i = (r->0).0;
            select_rec(pool1, later_cands, later).1 matches Some((j, _)) ==> j != i
        }),
{
    let (pool1, r) = select_rec(pool, cands, now);
    crate::router::lemma_select_rec_bounds(pool, cands, now);
    lemma_probe_marks_in_flight(pool, cands, now);
    lemma_probe_blocks(pool1, later_cands, later, (r->0).0 as int);
}

/// Priority order: when the first candidate is enabled, Closed and outside
/// any rate-limit window, it is chosen, and not as a probe.
pub proof fn lemma_healthy_first(pool: Seq<ProviderState>, cands: Seq<usize>, now: u64)
    requires
        cands.len() > 0,
        (cands[0] as int) < pool.len(),
        !pool[cands[0] as int].manual_disabled,
        pool[cands[0] as int].circuit == CircuitState::Closed,
        pool[cands[0] as int].rate_limited_until matches Some(until) ==> now >= until,
    ensures
        select_rec(pool, cands, now).1 == Some((cands[0], false)),
{
}

/// Success heals: after successful feedback the provider is Closed with no
/// failures and no rate-limit window, reports healthy, is available, is
/// chosen (not as a probe) by routing at any later time while enabled, and a
/// probe releases its slot; the admin override is left alone.
pub proof fn lemma_success_heals(
    p: ProviderState,
    is_probe: bool,
    status_code: Option<u16>,
    retry_after_secs: Option<u64>,
    now: u64,
)
    ensures
        ({
            let q = feedback_spec(p, true, is_probe, status_code, retry_after_secs, now);
            &&& q.circuit == CircuitState::Closed
            &&& q.consecutive_failures == 0
            &&& circuit_status_spec(q, now) == 0
            &&& !p.manual_disabled ==> is_available(q, now)
            &&& is_probe ==> !q.probe_in_flight
            &&& !is_probe ==> q.probe_in_flight == p.probe_in_flight
            &&& q.rate_limited_until is None
            &&& q.last_attempt_time == Some(now)
            &&& q.manual_disabled == p.manual_disabled
            &&& same_identity(q, p)
            &&& forall|later: u64|
                !p.manual_disabled ==> #[trigger] select_step(q, later).1 == Some(false)
        }),
{
}

/// Tripping: a failure that is not a probe leaves the circuit as it was while
/// fewer than 3 consecutive failures have been seen, and the third opens it
/// for 60 seconds.
pub proof fn lemma_third_failure_trips(
    p: ProviderState,
    status_code: Option<u16>,
    retry_after_secs: Option<u64>,
    now: u64,
)
    requires
        p.consecutive_failures <= 2,
    ensures
        ({
            let q = feedback_spec(p, false, false, status_code, retry_after_secs, now);
            &&& q.consecutive_failures == p.consecutive_failures + 1
            &&& p.consecutive_failures < 2 ==> q.circuit == p.circuit
            &&& p.consecutive_failures == 2 ==> q.circuit == CircuitState::Open {
                until: (now + 60000) as u64,
            }
        }),
{
    lemma2_to64();
}

/// Exponential backoff: beyond the threshold every further failure doubles
/// the circuit cooldown.
pub proof fn lemma_backoff_doubles(failures: int)
    requires
        failures >= 3,
    ensures
        open_cooldown_ms(failures + 1) == 2 * open_cooldown_ms(failures),
{
    lemma_pow2_unfold((failures + 1 - 3) as nat);
    assert(BASE_COOLDOWN_MS * (2 * pow2((failures - 3) as nat)) == 2 * (BASE_COOLDOWN_MS * pow2(
        (failures - 3) as nat,
    ))) by (nonlinear_arith);
}

/// Rate limiting: after a 429, the provider is not chosen before its window
/// (`Retry-After`, 30 s by default) has passed.
pub proof fn lemma_rate_limit_respected(
    p: ProviderState,
    is_probe: bool,
    retry_after_secs: Option<u64>,
    now: u64,
    later: u64,
)
    requires
        feedback_fits(p, false, is_probe, Some(429u16), retry_after_secs, now),
        now <= later,
        later < now + rate_limit_ms(retry_after_secs),
    ensures
        select_step(
            feedback_spec(p, false, is_probe, Some(429u16), retry_after_secs, now),
            later,
        ).1 is None,
{
}

/// An Open circuit is not chosen before its cooldown ends, as long as idle
/// decay has not closed it.
pub proof fn lemma_open_respected(p: ProviderState, now: u64)
    requires
        decay_spec(p, now).circuit matches CircuitState::Open { until } && now < until,
    ensures
        select_step(p, now).1 is None,
{
}

/// Recovery: an enabled provider whose Open cooldown has expired (and that
/// decay has not already closed) is handed out as the probe and turns
/// HalfOpen; successful feedback on that probe closes the circuit and
/// releases the probe slot.
pub proof fn lemma_half_open_recovery(
    p: ProviderState,
    now: u64,
    status_code: Option<u16>,
    done: u64,
)
    requires
        !p.manual_disabled,
        !p.probe_in_flight,
        decay_spec(p, now).circuit matches CircuitState::Open { until } && now >= until,
        decay_spec(p, now).rate_limited_until matches Some(rl) ==> now >= rl,
    ensures
        ({
            let (q, r) = select_step(p, now);
            &&& r == Some(true)
            &&& probing(q)
            &&& select_step(q, now).1 is None
            &&& feedback_spec(q, true, true, status_code, None, done).circuit
                == CircuitState::Closed
            &&& !feedback_spec(q, true, true, status_code, None, done).probe_in_flight
        }),
{
    let (q, r) = select_step(p, now);
    assert(decay_spec(q, now).circuit == CircuitState::HalfOpen);
}

/// Idle decay never raises the failure count.
pub proof fn lemma_decay_never_raises(p: ProviderState, now: u64)
    ensures
        decay_spec(p, now).consecutive_failures <= p.consecutive_failures,
        same_identity(decay_spec(p, now), p),
{
}

/// After an admin reset the provider is chosen by routing at any time, and
/// not as a probe.
pub proof fn lemma_reset_routable(p: ProviderState, now: u64)
    ensures
        select_step(reset_spec(p), now).1 == Some(false),
{
}


/// Taking a provider offline keeps it out of every routing decision.
pub proof fn lemma_offline_blocks_routing(
    pool: Seq<ProviderState>,
    i: int,
    cands: Seq<usize>,
    now: u64,
)
    requires
        0 <= i < pool.len(),
    ensures
        select_rec(pool.update(i, offline(pool[i])), cands, now).1 matches Some((j, _)) ==> j
            != i,
{
    lemma_disabled_never_selected(pool.update(i, offline(pool[i])), cands, now, i);
}

/// Bringing a provider back online undoes taking it offline.
pub proof fn lemma_online_undoes_offline(p: ProviderState)
    requires
        !p.manual_disabled,
    ensures
        online(offline(p)) == p,
{
}


/// A failure that opens the circuit makes the provider report "tripped" (2)
/// and unavailable until the cooldown ends.
pub proof fn lemma_trip_reports_tripped(
    p: ProviderState,
    is_probe: bool,
    status_code: Option<u16>,
    retry_after_secs: Option<u64>,
    now: u64,
    later: u64,
)
    requires
        feedback_fits(p, false, is_probe, status_code, retry_after_secs, now),
        opens_circuit(p.consecutive_failures + 1, is_probe, status_code),
        now <= later,
        later < now + open_cooldown_ms(p.consecutive_failures + 1),
    ensures
        ({
            let q = feedback_spec(p, false, is_probe, status_code, retry_after_secs, now);
            &&& circuit_status_spec(q, later) == 2
            &&& !is_available(q, later)
        }),
{
}

} // verus!
verus! {

/// Whether routing at `now` chooses provider `p` once it reaches it: enabled,
/// outside any rate-limit window, and Closed after idle decay, or HalfOpen or
/// past its Open cooldown with no probe in flight.
pub open spec fn eligible(p: ProviderState, now: u64) -> bool {
    let d = decay_spec(p, now);
    &&& !p.manual_disabled
    &&& !(d.rate_limited_until matches Some(u) && now < u)
    &&& (d.circuit == CircuitState::Closed || ((d.circuit == CircuitState::HalfOpen
        || open_expired(d.circuit, now)) && !p.probe_in_flight))
}

/// An Open circuit whose cooldown has ended by `now`.
pub open spec fn open_expired(c: CircuitState, now: u64) -> bool {
    c matches CircuitState::Open { until } && until <= now
}

/// Routing result `r` hands pool index `i` out as the probe.
pub open spec fn grants_probe(r: Option<(usize, bool)>, i: int) -> bool {
    r matches Some((j, p)) && j as int == i && p
}

/// Position of the first candidate inside the pool that is eligible.
pub open spec fn first_eligible(pool: Seq<ProviderState>, cands: Seq<usize>, now: u64) -> Option<int>
    decreases cands.len(),
{
    if cands.len() == 0 {
        None
    } else if (cands[0] as int) < pool.len() && eligible(pool[cands[0] as int], now) {
        Some(0)
    } else {
        match first_eligible(pool, cands.drop_first(), now) {
            Some(j) => Some(j + 1),
            None => None,
        }
    }
}

/// Number of candidate positions routing visits.
pub open spec fn reach(pool: Seq<ProviderState>, cands: Seq<usize>, now: u64) -> int {
    match first_eligible(pool, cands, now) {
        Some(j) => j + 1,
        None => cands.len() as int,
    }
}

/// Pool index `k` is among the first `m` candidates.
pub open spec fn visited_before(cands: Seq<usize>, m: int, k: int) -> bool {
    exists|q: int| 0 <= q < m && q < cands.len() && #[trigger] cands[q] as int == k
}

/// One routing step chooses exactly the eligible providers; a probe exactly
/// when the circuit after decay is not Closed.
pub proof fn lemma_step_eligible(p: ProviderState, now: u64)
    ensures
        select_step(p, now).1 is Some <==> eligible(p, now),
        select_step(p, now).1 matches Some(probe) ==> probe == (decay_spec(p, now).circuit
            != CircuitState::Closed),
{
}

/// A step that does not choose its provider is a fixed point: stepping the
/// result again changes nothing and chooses nothing.
pub proof fn lemma_step_idempotent(p: ProviderState, now: u64)
    requires
        select_step(p, now).1 is None,
    ensures
        select_step(select_step(p, now).0, now) == (select_step(p, now).0, None::<bool>),
{
    let d = decay_spec(p, now);
    if !p.manual_disabled && p.consecutive_failures > 0 && p.last_attempt_time is Some {
        let last = p.last_attempt_time->0;
        let elapsed: int = if now >= last { now - last } else { 0 };
        let steps: int = elapsed / 300000;
        if steps > 0 {
            assert(elapsed - steps * 300000 < 300000) by (nonlinear_arith)
                requires
                    steps == elapsed / 300000,
                    elapsed >= 0,
            ;
            assert(steps * 300000 <= elapsed) by (nonlinear_arith)
                requires
                    steps == elapsed / 300000,
                    elapsed >= 0,
            ;
            let nl: int = last + steps * 300000;
            let e2: int = if now >= nl { now - nl } else { 0 };
            assert(e2 / 300000 == 0);
        }
    }
    assert(decay_spec(d, now) == d);
}

/// Routing relates to the pool it started from pointwise: where a provider's
/// state is either its start state or its unchosen step from it.
pub open spec fn stepped_from(cur: Seq<ProviderState>, orig: Seq<ProviderState>, now: u64) -> bool {
    &&& cur.len() == orig.len()
    &&& forall|k: int|
        0 <= k < orig.len() ==> #[trigger] cur[k] == orig[k] || (cur[k] == select_step(
            orig[k],
            now,
        ).0 && select_step(orig[k], now).1 is None)
}

proof fn lemma_select_pointwise_from(
    cur: Seq<ProviderState>,
    orig: Seq<ProviderState>,
    cands: Seq<usize>,
    now: u64,
)
    requires
        stepped_from(cur, orig, now),
    ensures
        select_rec(cur, cands, now).1 == match first_eligible(orig, cands, now) {
            Some(j) => Some((cands[j], select_step(orig[cands[j] as int], now).1->0)),
            None => None,
        },
        first_eligible(orig, cands, now) matches Some(j) ==> 0 <= j < cands.len() && (cands[j]
            as int) < orig.len(),
        select_rec(cur, cands, now).0.len() == orig.len(),
        forall|k: int|
            0 <= k < orig.len() ==> #[trigger] select_rec(cur, cands, now).0[k] == if visited_before(
                cands,
                reach(orig, cands, now),
                k,
            ) {
                select_step(orig[k], now).0
            } else {
                cur[k]
            },
    decreases cands.len(),
{
    if cands.len() > 0 {
        let c = cands[0] as int;
        let rest = cands.drop_first();
        assert forall|q: int| 0 <= q < rest.len() implies #[trigger] rest[q] == cands[q + 1] by {}
        if c >= cur.len() {
            lemma_select_pointwise_from(cur, orig, rest, now);
            assert forall|k: int| 0 <= k < orig.len() implies visited_before(
                cands,
                reach(orig, cands, now),
                k,
            ) == visited_before(rest, reach(orig, rest, now), k) by {
                if visited_before(cands, reach(orig, cands, now), k) {
                    let q = choose|q: int|
                        0 <= q < reach(orig, cands, now) && q < cands.len() && #[trigger] cands[q]
                            as int == k;
                    assert(q != 0);
                    assert(rest[q - 1] as int == k);
                }
                if visited_before(rest, reach(orig, rest, now), k) {
                    let q = choose|q: int|
                        0 <= q < reach(orig, rest, now) && q < rest.len() && #[trigger] rest[q]
                            as int == k;
                    assert(cands[q + 1] as int == k);
                }
            }
        } else {
            let (p, r) = select_step(cur[c], now);
            lemma_step_eligible(orig[c], now);
            if cur[c] != orig[c] {
                lemma_step_idempotent(orig[c], now);
            }
            assert(r == select_step(orig[c], now).1);
            if r is Some {
                assert(cur[c] == orig[c]);
                assert forall|k: int| 0 <= k < orig.len() implies visited_before(
                    cands,
                    reach(orig, cands, now),
                    k,
                ) == (k == c) by {
                    if k == c {
                        assert(cands[0] as int == k);
                    }
                }
            } else {
                let cur1 = cur.update(c, p);
                assert(p == select_step(orig[c], now).0);
                assert(stepped_from(cur1, orig, now));
                lemma_select_pointwise_from(cur1, orig, rest, now);
                assert forall|k: int| 0 <= k < orig.len() implies visited_before(
                    cands,
                    reach(orig, cands, now),
                    k,
                ) == (k == c || visited_before(rest, reach(orig, rest, now), k)) by {
                    if visited_before(cands, reach(orig, cands, now), k) && k != c {
                        let q = choose|q: int|
                            0 <= q < reach(orig, cands, now) && q < cands.len() && #[trigger] cands[q]
                                as int == k;
                        assert(q != 0);
                        assert(rest[q - 1] as int == k);
                    }
                    if k == c {
                        assert(cands[0] as int == k);
                    }
                    if visited_before(rest, reach(orig, rest, now), k) {
                        let q = choose|q: int|
                            0 <= q < reach(orig, rest, now) && q < rest.len() && #[trigger] rest[q]
                                as int == k;
                        assert(cands[q + 1] as int == k);
                    }
                }
                assert forall|k: int| 0 <= k < orig.len() && k == c implies #[trigger] select_rec(
                    cur1,
                    rest,
                    now,
                ).0[k] == select_step(orig[k], now).0 by {
                    if cur1[c] != orig[c] {
                    }
                    if visited_before(rest, reach(orig, rest, now), k) {
                    } else {
                        assert(cur1[k] == select_step(orig[k], now).0);
                    }
                }
            }
        }
    }
}

/// Routing, stated over the pool it starts from: the chosen candidate is the
/// first one that is eligible (`None` when none is); each provider routing
/// reaches ends in the state of one step from its start state, and every
/// provider it does not reach is left unchanged. A provider listed twice is
/// stepped once.
pub proof fn lemma_select_pointwise(pool: Seq<ProviderState>, cands: Seq<usize>, now: u64)
    ensures
        select_rec(pool, cands, now).1 == match first_eligible(pool, cands, now) {
            Some(j) => Some((cands[j], select_step(pool[cands[j] as int], now).1->0)),
            None => None,
        },
        select_rec(pool, cands, now).0.len() == pool.len(),
        forall|k: int|
            0 <= k < pool.len() ==> #[trigger] select_rec(pool, cands, now).0[k] == if visited_before(
                cands,
                reach(pool, cands, now),
                k,
            ) {
                select_step(pool[k], now).0
            } else {
                pool[k]
            },
{
    lemma_select_pointwise_from(pool, pool, cands, now);
}

/// The least eligible candidate is chosen: every earlier candidate inside
/// the pool is not eligible, and the choice is a probe exactly when that
/// provider's circuit after decay is not Closed.
pub proof fn lemma_select_least_eligible(pool: Seq<ProviderState>, cands: Seq<usize>, now: u64)
    ensures
        match select_rec(pool, cands, now).1 {
            Some((i, probe)) => exists|j: int|
                0 <= j < cands.len() && cands[j] == i && (i as int) < pool.len() && eligible(
                    pool[i as int],
                    now,
                ) && probe == (decay_spec(pool[i as int], now).circuit != CircuitState::Closed)
                    && forall|q: int|
                    0 <= q < j && (cands[q] as int) < pool.len() ==> !eligible(
                        #[trigger] pool[cands[q] as int],
                        now,
                    ),
            None => forall|q: int|
                0 <= q < cands.len() && (cands[q] as int) < pool.len() ==> !eligible(
                    #[trigger] pool[cands[q] as int],
                    now,
                ),
        },
{
    lemma_select_pointwise(pool, cands, now);
    lemma_first_eligible_spec(pool, cands, now);
    if let Some(j) = first_eligible(pool, cands, now) {
        lemma_step_eligible(pool[cands[j] as int], now);
    }
}

proof fn lemma_first_eligible_spec(pool: Seq<ProviderState>, cands: Seq<usize>, now: u64)
    ensures
        match first_eligible(pool, cands, now) {
            Some(j) => 0 <= j < cands.len() && (cands[j] as int) < pool.len() && eligible(
                pool[cands[j] as int],
                now,
            ) && forall|q: int|
                0 <= q < j && (cands[q] as int) < pool.len() ==> !eligible(
                    #[trigger] pool[cands[q] as int],
                    now,
                ),
            None => forall|q: int|
                0 <= q < cands.len() && (cands[q] as int) < pool.len() ==> !eligible(
                    #[trigger] pool[cands[q] as int],
                    now,
                ),
        },
    decreases cands.len(),
{
    if cands.len() > 0 {
        let rest = cands.drop_first();
        lemma_first_eligible_spec(pool, rest, now);
        if (cands[0] as int) < pool.len() && eligible(pool[cands[0] as int], now) {
        } else {
            match first_eligible(pool, rest, now) {
                Some(j) => {
                    assert(cands[j + 1] == rest[j]);
                    assert forall|q: int|
                        0 <= q < j + 1 && (cands[q] as int) < pool.len() implies !eligible(
                        #[trigger] pool[cands[q] as int],
                        now,
                    ) by {
                        if q > 0 {
                            assert(cands[q] == rest[q - 1]);
                        }
                    }
                },
                None => {
                    assert forall|q: int|
                        0 <= q < cands.len() && (cands[q] as int) < pool.len() implies !eligible(
                        #[trigger] pool[cands[q] as int],
                        now,
                    ) by {
                        if q > 0 {
                            assert(cands[q] == rest[q - 1]);
                        }
                    }
                },
            }
        }
    }
}

/// A provider routing reaches inside its rate-limit window is passed over and
/// keeps its window; one whose window has passed has it cleared, and is then
/// chosen or passed over by its circuit alone.
pub proof fn lemma_select_rate_limit(pool: Seq<ProviderState>, cands: Seq<usize>, now: u64, k: int)
    requires
        0 <= k < pool.len(),
        visited_before(cands, reach(pool, cands, now), k),
        !pool[k].manual_disabled,
        pool[k].rate_limited_until is Some,
    ensures
        ({
            let (pool1, r) = select_rec(pool, cands, now);
            let u = pool[k].rate_limited_until->0;
            &&& now < u ==> pool1[k].rate_limited_until == Some(u) && !(r matches Some((i, _))
                && i as int == k)
            &&& u <= now ==> pool1[k].rate_limited_until is None
        }),
{
    lemma_select_pointwise(pool, cands, now);
    lemma_select_least_eligible(pool, cands, now);
    let u = pool[k].rate_limited_until->0;
    if now < u {
        lemma_step_eligible(pool[k], now);
    }
}

/// Idle decay of a provider routing reaches: with `f` failures, last attempt
/// at `t` and `s` = whole 5-minute steps since then (s > 0), it is left with
/// `f` minus `s` (mod 2^32) failures, saturating at 0, its last attempt moved
/// to `t` + 5 min × `s`, and an Open circuit closes when under 3 failures remain.
pub proof fn lemma_select_decay(pool: Seq<ProviderState>, cands: Seq<usize>, now: u64, k: int)
    requires
        0 <= k < pool.len(),
        visited_before(cands, reach(pool, cands, now), k),
        !pool[k].manual_disabled,
        pool[k].consecutive_failures > 0,
        pool[k].last_attempt_time matches Some(t) && t <= now && (now - t) / 300000 > 0,
    ensures
        ({
            let p = pool[k];
            let q = select_rec(pool, cands, now).0[k];
            let t = p.last_attempt_time->0;
            let s: int = (now - t) / 300000;
            let dec: int = s % 0x1_0000_0000;
            let f: int = if p.consecutive_failures >= dec {
                p.consecutive_failures - dec
            } else {
                0
            };
            &&& q.consecutive_failures == f
            &&& q.last_attempt_time == Some((t + 300000 * s) as u64)
            &&& (f < 3 && p.circuit is Open) ==> q.circuit == CircuitState::Closed
        }),
{
    lemma_select_pointwise(pool, cands, now);
}

/// The provider routing hands out keeps its identity (name, base URL, key);
/// a probe goes only to a provider that had no probe in flight, which is
/// then HalfOpen with its probe in flight.
pub proof fn lemma_select_choice(pool: Seq<ProviderState>, cands: Seq<usize>, now: u64)
    ensures
        select_rec(pool, cands, now).1 matches Some((i, probe)) ==> {
            let q = select_rec(pool, cands, now).0[i as int];
            &&& (i as int) < pool.len()
            &&& same_identity(q, pool[i as int])
            &&& probe ==> !pool[i as int].probe_in_flight && probing(q)
            &&& !probe <==> decay_spec(pool[i as int], now).circuit == CircuitState::Closed
        },
{
    lemma_select_least_eligible(pool, cands, now);
    lemma_select_keeps_identity(pool, cands, now);
    lemma_probe_marks_in_flight(pool, cands, now);
    crate::router::lemma_select_rec_bounds(pool, cands, now);
}

/// A run of routings, each over its own candidates at its own time, with no
/// feedback in between: the final pool and each routing's choice.
pub open spec fn select_seq(pool: Seq<ProviderState>, calls: Seq<(Seq<usize>, u64)>) -> (Seq<
    ProviderState,
>, Seq<Option<(usize, bool)>>)
    decreases calls.len(),
{
    if calls.len() == 0 {
        (pool, seq![])
    } else {
        let (pool1, r) = select_rec(pool, calls[0].0, calls[0].1);
        let (pool2, rs) = select_seq(pool1, calls.drop_first());
        (pool2, seq![r] + rs)
    }
}

proof fn lemma_seq_probing_blocks(pool: Seq<ProviderState>, calls: Seq<(Seq<usize>, u64)>, i: int)
    requires
        0 <= i < pool.len(),
        probing(pool[i]),
    ensures
        select_seq(pool, calls).1.len() == calls.len(),
        forall|k: int|
            0 <= k < calls.len() ==> !(#[trigger] select_seq(pool, calls).1[k] matches Some(
                (j, _),
            ) && j as int == i),
    decreases calls.len(),
{
    if calls.len() > 0 {
        let (pool1, r) = select_rec(pool, calls[0].0, calls[0].1);
        lemma_probe_blocks(pool, calls[0].0, calls[0].1, i);
        crate::router::lemma_select_rec_bounds(pool, calls[0].0, calls[0].1);
        lemma_seq_probing_blocks(pool1, calls.drop_first(), i);
        let rs = select_seq(pool, calls).1;
        assert forall|k: int| 0 <= k < calls.len() implies !(#[trigger] rs[k] matches Some((j, _))
            && j as int == i) by {
            if k > 0 {
                assert(rs[k] == select_seq(pool1, calls.drop_first()).1[k - 1]);
            }
        }
    }
}

/// Single probe over any number of routings without feedback in between (the
/// gateway serialises routing decisions): at most one of them hands a given
/// provider out as the probe.
pub proof fn lemma_single_probe_any_number(pool: Seq<ProviderState>, calls: Seq<(Seq<usize>, u64)>, i: int)
    ensures
        select_seq(pool, calls).1.len() == calls.len(),
        forall|a: int, b: int|
            0 <= a < calls.len() && 0 <= b < calls.len() && grants_probe(
                #[trigger] select_seq(pool, calls).1[a],
                i,
            ) && grants_probe(#[trigger] select_seq(pool, calls).1[b], i) ==> a == b,
    decreases calls.len(),
{
    if calls.len() > 0 {
        let (pool1, r) = select_rec(pool, calls[0].0, calls[0].1);
        let rest = calls.drop_first();
        lemma_single_probe_any_number(pool1, rest, i);
        let rs = select_seq(pool, calls).1;
        assert forall|k: int| 0 < k < calls.len() implies rs[k] == select_seq(pool1, rest).1[k - 1] by {}
        if grants_probe(r, i) {
            {
                crate::router::lemma_select_rec_bounds(pool, calls[0].0, calls[0].1);
                lemma_probe_marks_in_flight(pool, calls[0].0, calls[0].1);
                lemma_seq_probing_blocks(pool1, rest, i);
            }
        }
    }
}

/// A failure other than a rate limit: one more failure, last attempt now,
/// rate-limit window unchanged; the circuit opens for 60 s × 2^(f − 3) from
/// the third failure on or after a failed probe, and is otherwise unchanged;
/// a probe releases its slot.
pub proof fn lemma_failure_update(
    p: ProviderState,
    is_probe: bool,
    status_code: Option<u16>,
    retry_after_secs: Option<u64>,
    now: u64,
)
    requires
        status_code != Some(429u16),
        feedback_fits(p, false, is_probe, status_code, retry_after_secs, now),
    ensures
        ({
            let q = feedback_spec(p, false, is_probe, status_code, retry_after_secs, now);
            let f: int = p.consecutive_failures + 1;
            &&& q.consecutive_failures == f
            &&& q.last_attempt_time == Some(now)
            &&& q.rate_limited_until == p.rate_limited_until
            &&& (f >= 3 || is_probe) ==> q.circuit == CircuitState::Open {
                until: (now + 60000 * pow2((if f >= 3 { f - 3 } else { 0 }) as nat)) as u64,
            }
            &&& !(f >= 3 || is_probe) ==> q.circuit == p.circuit
            &&& is_probe ==> !q.probe_in_flight
            &&& same_identity(q, p)
        }),
{
}

/// A rate-limited failure: the window runs `Retry-After` seconds (30 s by
/// default) from now, one more failure, last attempt now, and a probe
/// releases its slot.
pub proof fn lemma_rate_limited_update(
    p: ProviderState,
    is_probe: bool,
    retry_after_secs: Option<u64>,
    now: u64,
)
    requires
        feedback_fits(p, false, is_probe, Some(429u16), retry_after_secs, now),
    ensures
        ({
            let q = feedback_spec(p, false, is_probe, Some(429u16), retry_after_secs, now);
            &&& q.rate_limited_until == Some(
                (now + match retry_after_secs {
                    Some(s) => s * 1000,
                    None => 30000,
                }) as u64,
            )
            &&& q.consecutive_failures == p.consecutive_failures + 1
            &&& q.last_attempt_time == Some(now)
            &&& is_probe ==> !q.probe_in_flight
        }),
{
}


/// Whole 5-minute steps of idle time between the last attempt and `now`
/// (0 without a last attempt, or when it lies after `now`).
pub open spec fn idle_steps(p: ProviderState, now: u64) -> int {
    match p.last_attempt_time {
        Some(t) => if t <= now {
            (now - t) / 300000
        } else {
            0
        },
        None => 0,
    }
}

/// Idle decay forgives at most one failure per idle step, and touches the
/// circuit only to close an Open one once fewer than 3 failures remain:
/// with 3 or more failures left the circuit is exactly as it was. The admin
/// override, the rate-limit window and the probe slot are left alone.
pub proof fn lemma_decay_closes_only_below_three(p: ProviderState, now: u64)
    ensures
        decay_spec(p, now).consecutive_failures >= p.consecutive_failures - idle_steps(p, now),
        decay_spec(p, now).consecutive_failures >= 3 ==> decay_spec(p, now).circuit == p.circuit,
        decay_spec(p, now).circuit != p.circuit ==> p.circuit is Open && decay_spec(p, now).circuit
            == CircuitState::Closed && decay_spec(p, now).consecutive_failures < 3,
        decay_spec(p, now).manual_disabled == p.manual_disabled,
        decay_spec(p, now).rate_limited_until == p.rate_limited_until,
        decay_spec(p, now).probe_in_flight == p.probe_in_flight,
{
    if p.consecutive_failures > 0 && p.last_attempt_time is Some {
        let last = p.last_attempt_time->0;
        if now >= last {
            let steps: int = (now - last) / 300000;
            assert(steps >= 0);
            assert(steps % 0x1_0000_0000 <= steps) by (nonlinear_arith)
                requires
                    steps >= 0,
            ;
        }
    }
}

/// A tripped provider inside its cooldown is not chosen and stays Open, as
/// long as at least 3 failures remain once one is forgiven per idle step.
pub proof fn lemma_tripped_in_cooldown_not_chosen(p: ProviderState, now: u64)
    requires
        p.circuit matches CircuitState::Open { until } && now < until,
        p.consecutive_failures >= 3 + idle_steps(p, now),
    ensures
        select_step(p, now).1 is None,
        select_step(p, now).0.circuit == p.circuit,
{
    lemma_decay_closes_only_below_three(p, now);
}

/// Feedback never touches the admin override, nor a provider's identity,
/// models and traffic counters, whatever the outcome.
pub proof fn lemma_feedback_keeps_override(
    p: ProviderState,
    success: bool,
    is_probe: bool,
    status_code: Option<u16>,
    retry_after_secs: Option<u64>,
    now: u64,
)
    ensures
        feedback_spec(p, success, is_probe, status_code, retry_after_secs, now).manual_disabled
            == p.manual_disabled,
        same_identity(feedback_spec(p, success, is_probe, status_code, retry_after_secs, now), p),
{
}

/// An enabled provider that a failure (other than a rate limit) leaves Open
/// comes back once the cooldown has ended: routing chooses it at any time
/// from then on, and as the HalfOpen probe while no full idle step has
/// passed since the failure.
pub proof fn lemma_tripped_provider_returns(
    p: ProviderState,
    status_code: Option<u16>,
    now: u64,
    later: u64,
)
    requires
        !p.manual_disabled,
        !p.probe_in_flight,
        p.rate_limited_until is None,
        status_code != Some(429u16),
        feedback_spec(p, false, false, status_code, None, now).circuit matches CircuitState::Open {
            until,
        } && until <= later,
    ensures
        select_step(feedback_spec(p, false, false, status_code, None, now), later).1 is Some,
        later < now + 300000 ==> select_step(
            feedback_spec(p, false, false, status_code, None, now),
            later,
        ).1 == Some(true),
{
    let q = feedback_spec(p, false, false, status_code, None, now);
    lemma_decay_closes_only_below_three(q, later);
}

} // verus!
