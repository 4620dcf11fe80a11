//! The decisions behind `POST /v1/chat/completions` and `POST /v1/embeddings`:
//! validating the request, choosing the next upstream attempt, and recording
//! each attempt's outcome. The caller performs the HTTP exchange between the
//! steps and feeds its outcome back.
use vstd::prelude::*;

use crate::codec::{
    error_message, inspect_request, json_error_message, json_usage_reads, json_with_model,
    join_url, joined_url, lossy_utf8, opt_view, request_json, rewrite_model, usage_reads,
    utf8_lossy,
};
use crate::router::{
    apply_feedback, circuit_status, circuit_status_spec, feedback_fits, feedback_in_range,
    feedback_spec, select_index, select_rec, selected_from,
};
use crate::state::{
    candidates_spec, candidates_view, find_provider, provider_index, AppState, ProviderState,
    SelectedProvider,
};
use crate::telemetry::TelemetryEvent;
use crate::text::{decimal, extract_traceparent, header_trace, header_view, push_decimal};

verus! {

/// Which OpenAI endpoint a request targets.
#[derive(Debug, Clone, Copy, PartialEq, Eq, Structural)]
pub enum Operation {
    Chat,
    Embeddings,
}

/// An OpenAI-style error answer.
#[derive(Debug)]
pub struct ErrorResponse {
    pub message: String,
    pub error_type: String,
    pub status: u16,
}

/// Upstream path of an operation, relative to the provider's base URL.
pub open spec fn endpoint_path(op: Operation) -> Seq<char> {
    match op {
        Operation::Chat => "chat/completions"@,
        Operation::Embeddings => "embeddings"@,
    }
}

/// Operation name reported to telemetry.
pub open spec fn operation_name(op: Operation) -> Seq<char> {
    match op {
        Operation::Chat => "chat"@,
        Operation::Embeddings => "embeddings"@,
    }
}

/// Operation as named in the final error message.
pub open spec fn operation_label(op: Operation) -> Seq<char> {
    match op {
        Operation::Chat => "chat completions"@,
        Operation::Embeddings => "embeddings"@,
    }
}

pub open spec fn error_is(e: ErrorResponse, message: Seq<char>, error_type: Seq<char>, status: u16) -> bool {
    e.message@ == message && e.error_type@ == error_type && e.status == status
}

/// The attempt in progress: provider name, probe flag, upstream model.
pub type CurrentView = Option<(Seq<char>, bool, Seq<char>)>;

/// A routed request as plain values.
pub struct SessionView {
    pub operation: Operation,
    pub body: Seq<u8>,
    pub request_id: Seq<char>,
    pub candidates: Seq<(int, Seq<char>)>,
    pub is_streaming: bool,
    pub trace_id: Option<Seq<char>>,
    pub parent_span_id: Option<Seq<char>>,
    pub attempts: u32,
    pub last_upstream_error: Seq<char>,
    pub last_failed_provider: Seq<char>,
    pub last_failed_status: u16,
    pub current: CurrentView,
    /// Pool indices not yet tried in this request, in priority order.
    pub remaining: Seq<usize>,
}

/// One routed request.
pub struct RouteSession {
    operation: Operation,
    body: Vec<u8>,
    request_id: String,
    candidates: Vec<(usize, String)>,
    remaining: Vec<usize>,
    is_streaming: bool,
    trace_id: Option<String>,
    parent_span_id: Option<String>,
    attempts: u32,
    last_upstream_error: String,
    last_failed_provider: String,
    last_failed_status: u16,
    current: Option<(String, bool, String)>,
}

/// What to do next for a routed request.
#[derive(Debug)]
pub enum Attempt {
    /// Send `body` to `url` with the selected provider's credentials.
    Forward { selected: SelectedProvider, model: String, url: String, body: Vec<u8> },
    /// Nothing to send for this selection; ask again.
    Skip,
    /// No candidate is left: answer with this error.
    Exhausted(ErrorResponse),
}

pub open spec fn current_view(c: Option<(String, bool, String)>) -> CurrentView {
    match c {
        Some((n, p, m)) => Some((n@, p, m@)),
        None => None,
    }
}

impl View for RouteSession {
    type V = SessionView;

    closed spec fn view(&self) -> SessionView {
        SessionView {
            operation: self.operation,
            body: self.body@,
            request_id: self.request_id@,
            candidates: candidates_view(self.candidates@),
            is_streaming: self.is_streaming,
            trace_id: opt_view(self.trace_id),
            parent_span_id: opt_view(self.parent_span_id),
            attempts: self.attempts,
            last_upstream_error: self.last_upstream_error@,
            last_failed_provider: self.last_failed_provider@,
            last_failed_status: self.last_failed_status,
            current: current_view(self.current),
            remaining: self.remaining@,
        }
    }
}

/// The request carried a string `model`, and the indices routed over are
/// those of the candidates.
pub open spec fn session_body_ok(body: Seq<u8>) -> bool {
    request_json(body) matches Ok((Some(_), _))
}

/// The error answer once every candidate has been passed over.
pub open spec fn exhausted_message(v: SessionView) -> Seq<char> {
    let head = "All upstream "@ + operation_label(v.operation)
        + " providers failed or are rate-limited"@;
    if v.last_upstream_error.len() > 0 {
        head + ". Last error from "@ + v.last_failed_provider + " ("@ + decimal(
            v.last_failed_status as nat,
        ) + "): "@ + v.last_upstream_error
    } else {
        head
    }
}

/// The upstream model of the first candidate whose provider is named `name`.
pub open spec fn target_model(pool: Seq<ProviderState>, cands: Seq<(int, Seq<char>)>, name: Seq<char>) -> Option<
    Seq<char>,
>
    decreases cands.len(),
{
    if cands.len() == 0 {
        None
    } else if 0 <= cands[0].0 < pool.len() && pool[cands[0].0].name@ == name {
        Some(cands[0].1)
    } else {
        target_model(pool, cands.drop_first(), name)
    }
}

/// Adds `n` to a counter, wrapping on overflow like an atomic `fetch_add`.
pub open spec fn bump(counter: u64, n: u64) -> u64 {
    counter.wrapping_add(n)
}

/// The pool after applying `f` to the first provider named `name`, if any.
pub open spec fn on_named(pool: Seq<ProviderState>, name: Seq<char>, f: spec_fn(ProviderState) -> ProviderState) -> Seq<ProviderState> {
    match provider_index(pool, name) {
        Some(j) => pool.update(j, f(pool[j])),
        None => pool,
    }
}

/// The status event for the first provider named `name` after an update,
/// when there is one.
pub open spec fn status_events(pool: Seq<ProviderState>, name: Seq<char>, now: u64) -> Seq<(Seq<char>, u64)> {
    match provider_index(pool, name) {
        Some(j) => seq![(name, circuit_status_spec(pool[j], now))],
        None => seq![],
    }
}

/// `UpdateStatus` events as plain values.
pub open spec fn status_event_view(e: TelemetryEvent) -> Option<(Seq<char>, u64)> {
    match e {
        TelemetryEvent::UpdateStatus { provider, status } => Some((provider@, status)),
        _ => None,
    }
}

/// Whether feedback on the attempt in progress stays within machine limits
/// (always, for a success).
pub open spec fn current_feedback_fits(
    pool: Seq<ProviderState>,
    current: CurrentView,
    success: bool,
    status: Option<u16>,
    retry_after_secs: Option<u64>,
    now: u64,
) -> bool {
    match current {
        Some((name, probe, _)) => match provider_index(pool, name) {
            Some(j) => feedback_fits(pool[j], success, probe, status, retry_after_secs, now),
            None => true,
        },
        None => true,
    }
}

/// The pool after feedback on the attempt in progress.
pub open spec fn after_feedback(
    pool: Seq<ProviderState>,
    current: CurrentView,
    success: bool,
    status: Option<u16>,
    retry_after_secs: Option<u64>,
    now: u64,
) -> Seq<ProviderState> {
    match current {
        Some((name, probe, _)) => on_named(
            pool,
            name,
            |p: ProviderState| feedback_spec(p, success, probe, status, retry_after_secs, now),
        ),
        None => pool,
    }
}

/// The status events after feedback on the attempt in progress.
pub open spec fn feedback_events(pool: Seq<ProviderState>, current: CurrentView, now: u64) -> Seq<
    (Seq<char>, u64),
> {
    match current {
        Some((name, _, _)) => status_events(pool, name, now),
        None => seq![],
    }
}

/// A transaction record as plain values: operation, provider, model, input
/// and output tokens, duration, attempts, failure reason, trace id, parent
/// span id, request id.
pub open spec fn transaction_matches(
    e: TelemetryEvent,
    v: SessionView,
    provider: Seq<char>,
    model: Seq<char>,
    input: u64,
    output: u64,
    duration_nanos: u64,
    failure_reason: Option<Seq<char>>,
) -> bool {
    e matches TelemetryEvent::RecordTransaction {
        operation: o,
        provider: p,
        model: m,
        input_tokens,
        output_tokens,
        duration_nanos: d,
        attempts,
        failure_reason: f,
        trace_id,
        parent_span_id,
        request_id,
    } && o@ == operation_name(v.operation) && p@ == provider && m@ == model && input_tokens
        == input && output_tokens == output && d == duration_nanos && attempts == v.attempts
        && opt_view(f) == failure_reason && opt_view(trace_id) == v.trace_id && opt_view(
        parent_span_id,
    ) == v.parent_span_id && request_id@ == v.request_id
}

fn text_of(s: &str) -> (r: String)
    ensures
        r@ == s@,
{
    String::from_str(s)
}

fn error_response(message: String, error_type: &str, status: u16) -> (r: ErrorResponse)
    ensures
        error_is(r, message@, error_type@, status),
{
    ErrorResponse { message, error_type: text_of(error_type), status }
}

/// The candidate indices of a candidate list.
fn indices_of(c: &Vec<(usize, String)>) -> (r: Vec<usize>)
    ensures
        r@ == c@.map_values(|e: (usize, String)| e.0),
{
    let mut r: Vec<usize> = Vec::new();
    let mut i: usize = 0;
    while i < c.len()
        invariant
            0 <= i <= c.len(),
            r@ == c@.subrange(0, i as int).map_values(|e: (usize, String)| e.0),
        decreases c.len() - i,
    {
        r.push(c[i].0);
        i = i + 1;
        assert(r@ =~= c@.subrange(0, i as int).map_values(|e: (usize, String)| e.0));
    }
    assert(c@.subrange(0, c@.len() as int) =~= c@);
    r
}

fn endpoint_text(op: Operation) -> (r: &'static str)
    ensures
        r@ == endpoint_path(op),
{
    match op {
        Operation::Chat => "chat/completions",
        Operation::Embeddings => "embeddings",
    }
}

fn operation_text(op: Operation) -> (r: &'static str)
    ensures
        r@ == operation_name(op),
{
    match op {
        Operation::Chat => "chat",
        Operation::Embeddings => "embeddings",
    }
}

fn label_text(op: Operation) -> (r: &'static str)
    ensures
        r@ == operation_label(op),
{
    match op {
        Operation::Chat => "chat completions",
        Operation::Embeddings => "embeddings",
    }
}

fn clone_opt(o: &Option<String>) -> (r: Option<String>)
    ensures
        r == *o,
{
    match o {
        Some(s) => Some(s.clone()),
        None => None,
    }
}

/// How a request is answered before any upstream attempt, given what its
/// body parsed to: `Err` with the parse error's text when it is not JSON;
/// otherwise it needs a string `model` naming a configured virtual model with
/// at least one candidate, and then yields the model, its candidates and
/// whether `stream` is `true`.
pub fn classify_request(
    state: &AppState,
    fields: Result<(Option<String>, Option<bool>), String>,
) -> (r: Result<(String, Vec<(usize, String)>, bool), ErrorResponse>)
    ensures
        match fields {
            Err(e) => r matches Err(er) && error_is(
                er,
                "Invalid JSON payload: "@ + e@,
                "invalid_request_error"@,
                400,
            ),
            Ok((None, _)) => r matches Err(er) && error_is(
                er,
                "Missing required 'model' field"@,
                "invalid_request_error"@,
                400,
            ),
            Ok((Some(m), stream)) => if candidates_spec(*state, m@).len() == 0 {
                r matches Err(er) && error_is(
                    er,
                    "Invalid or unmapped virtual model: "@ + m@,
                    "invalid_request_error"@,
                    400,
                )
            } else {
                r matches Ok((model, c, streaming)) && model@ == m@ && candidates_view(c@)
                    == candidates_spec(*state, m@) && streaming == (stream == Some(true))
            },
        },
{
    let (model, stream) = match fields {
        Ok(f) => f,
        Err(e) => {
            let mut msg = text_of("Invalid JSON payload: ");
            msg.append(e.as_str());
            return Err(error_response(msg, "invalid_request_error", 400));
        },
    };
    let model = match model {
        Some(m) => m,
        None => {
            return Err(
                error_response(
                    text_of("Missing required 'model' field"),
                    "invalid_request_error",
                    400,
                ),
            );
        },
    };
    let candidates = state.resolve_candidates(model.as_str());
    if candidates.len() == 0 {
        let mut msg = text_of("Invalid or unmapped virtual model: ");
        msg.append(model.as_str());
        return Err(error_response(msg, "invalid_request_error", 400));
    }
    let is_streaming = match stream {
        Some(b) => b,
        None => false,
    };
    Ok((model, candidates, is_streaming))
}

/// Starts routing a request: the body is parsed, then answered as
/// `classify_request` states, or opened as a session with no attempt yet.
pub fn start_route(
    state: &AppState,
    operation: Operation,
    body: Vec<u8>,
    request_id: String,
    traceparent: Option<&str>,
) -> (r: Result<RouteSession, ErrorResponse>)
    ensures
        match request_json(body@) {
            Err(e) => r matches Err(er) && error_is(
                er,
                "Invalid JSON payload: "@ + e,
                "invalid_request_error"@,
                400,
            ),
            Ok((None, _)) => r matches Err(er) && error_is(
                er,
                "Missing required 'model' field"@,
                "invalid_request_error"@,
                400,
            ),
            Ok((Some(m), stream)) => if candidates_spec(*state, m).len() == 0 {
                r matches Err(er) && error_is(
                    er,
                    "Invalid or unmapped virtual model: "@ + m,
                    "invalid_request_error"@,
                    400,
                )
            } else {
                r matches Ok(s) && s@ == SessionView {
                    operation,
                    body: body@,
                    request_id: request_id@,
                    candidates: candidates_spec(*state, m),
                    is_streaming: stream == Some(true),
                    trace_id: header_trace(header_view(traceparent)).0,
                    parent_span_id: header_trace(header_view(traceparent)).1,
                    attempts: 0,
                    last_upstream_error: Seq::empty(),
                    last_failed_provider: Seq::empty(),
                    last_failed_status: 0,
                    current: None,
                    remaining: candidates_spec(*state, m).map_values(
                        |e: (int, Seq<char>)| e.0 as usize,
                    ),
                }
            },
        },
{
    let fields = inspect_request(body.as_slice());
    let (_, candidates, is_streaming) = match classify_request(state, fields) {
        Ok(c) => c,
        Err(e) => return Err(e),
    };
    let (trace_id, parent_span_id) = extract_traceparent(traceparent);
    let remaining = indices_of(&candidates);
    let s = RouteSession {
        operation,
        body,
        request_id,
        candidates,
        remaining,
        is_streaming,
        trace_id,
        parent_span_id,
        attempts: 0,
        last_upstream_error: String::new(),
        last_failed_provider: String::new(),
        last_failed_status: 0,
        current: None,
    };
    assert(s@.last_upstream_error =~= Seq::<char>::empty());
    assert(s@.remaining =~= s@.candidates.map_values(|e: (int, Seq<char>)| e.0 as usize));
    Ok(s)
}

impl RouteSession {
    /// The invariant every session keeps: the request names a model, and
    /// every attempt so far has taken one candidate out of the remaining ones.
    #[verifier::type_invariant]
    spec fn wf(&self) -> bool {
        &&& session_body_ok(self.body@)
        &&& self.attempts + self.remaining@.len() <= self.candidates@.len()
    }

    pub fn operation(&self) -> (r: Operation)
        ensures
            r == self@.operation,
    {
        self.operation
    }

    pub fn is_streaming(&self) -> (r: bool)
        ensures
            r == self@.is_streaming,
    {
        self.is_streaming
    }

    pub fn attempts(&self) -> (r: u32)
        ensures
            r == self@.attempts,
    {
        self.attempts
    }

    pub fn request_id(&self) -> (r: &String)
        ensures
            r@ == self@.request_id,
    {
        &self.request_id
    }

    /// The final error answer, built from the last upstream failure.
    pub fn exhausted_error(&self) -> (r: ErrorResponse)
        ensures
            error_is(r, exhausted_message(self@), "server_error"@, 502),
    {
        let mut msg = text_of("All upstream ");
        msg.append(label_text(self.operation));
        msg.append(" providers failed or are rate-limited");
        if !self.last_upstream_error.as_str().is_empty() {
            msg.append(". Last error from ");
            msg.append(self.last_failed_provider.as_str());
            msg.append(" (");
            push_decimal(&mut msg, self.last_failed_status as u64);
            msg.append("): ");
            msg.append(self.last_upstream_error.as_str());
        }
        error_response(msg, "server_error", 502)
    }
}

/// The upstream model of the first candidate whose provider is named `name`.
fn find_target_model(pool: &Vec<ProviderState>, cands: &Vec<(usize, String)>, name: &String) -> (r:
    Option<String>)
    ensures
        opt_view(r) == target_model(pool@, candidates_view(cands@), name@),
{
    let ghost all = candidates_view(cands@);
    let mut k: usize = 0;
    proof {
        assert(all.skip(0) =~= all);
    }
    while k < cands.len()
        invariant
            0 <= k <= cands.len(),
            all == candidates_view(cands@),
            target_model(pool@, all.skip(k as int), name@) == target_model(pool@, all, name@),
        decreases cands.len() - k,
    {
        let ghost rest = all.skip(k as int);
        assert(rest.drop_first() =~= all.skip(k + 1));
        assert(rest[0] == all[k as int]);
        let i = cands[k].0;
        if i < pool.len() {
            if pool[i].name == *name {
                return Some(cands[k].1.clone());
            }
        }
        k = k + 1;
    }
    assert(all.skip(k as int) =~= Seq::<(int, Seq<char>)>::empty());
    None
}

/// `s` without any occurrence of `x`.
pub open spec fn remove_all(s: Seq<usize>, x: usize) -> Seq<usize>
    decreases s.len(),
{
    if s.len() == 0 {
        s
    } else if s.last() == x {
        remove_all(s.drop_last(), x)
    } else {
        remove_all(s.drop_last(), x).push(s.last())
    }
}

/// Removing an element never lengthens a sequence, and removing one it holds
/// shortens it.
pub proof fn lemma_remove_all_shrinks(s: Seq<usize>, x: usize)
    ensures
        remove_all(s, x).len() <= s.len(),
        s.contains(x) ==> remove_all(s, x).len() < s.len(),
    decreases s.len(),
{
    if s.len() > 0 {
        lemma_remove_all_shrinks(s.drop_last(), x);
        if s.contains(x) && s.last() != x {
            let j = choose|j: int| 0 <= j < s.len() && s[j] == x;
            assert(s.drop_last()[j] == x);
        }
    }
}

fn without(v: &Vec<usize>, x: usize) -> (r: Vec<usize>)
    ensures
        r@ == remove_all(v@, x),
{
    let mut r: Vec<usize> = Vec::new();
    let mut k: usize = 0;
    while k < v.len()
        invariant
            0 <= k <= v.len(),
            r@ == remove_all(v@.subrange(0, k as int), x),
        decreases v.len() - k,
    {
        let ghost next = v@.subrange(0, k + 1);
        assert(next.drop_last() =~= v@.subrange(0, k as int));
        if v[k] != x {
            r.push(v[k]);
        }
        k = k + 1;
    }
    assert(v@.subrange(0, v@.len() as int) =~= v@);
    r
}

fn bump_requests(p: &mut ProviderState)
    ensures
        *final(p) == (ProviderState { requests: bump(old(p).requests, 1), ..*old(p) }),
{
    p.requests = p.requests.wrapping_add(1);
}

impl RouteSession {
    /// Chooses the next upstream attempt at `now`.
    ///
    /// Routing runs over the candidates not yet tried (see `select_rec`).
    /// When nothing is chosen the request is exhausted. Otherwise the chosen
    /// provider is taken out of the remaining candidates, so a provider that
    /// failed is not tried again within the request and every request ends
    /// after at most one attempt per candidate. The attempt is counted; the
    /// upstream model is that of the first candidate with the chosen
    /// provider's name, the URL is the operation's path joined to the
    /// provider's base URL, and the body is the request with its model
    /// rewritten. Without a model or a URL there is nothing to send; otherwise
    /// the first provider of that name has its request counter bumped.
    pub fn next_attempt(&mut self, state: &mut AppState, now: u64) -> (r: Attempt)
        requires
            old(self)@.attempts < u32::MAX,
        ensures
            final(state).virtual_models == old(state).virtual_models,
            final(state).upstream_timeout_secs == old(state).upstream_timeout_secs,
            ({
                let v = old(self)@;
                let (pool1, chosen) = select_rec(old(state).providers@, v.remaining, now);
                match chosen {
                    None => {
                        &&& final(state).providers@ == pool1
                        &&& final(self)@ == v
                        &&& r matches Attempt::Exhausted(e) && error_is(
                            e,
                            exhausted_message(v),
                            "server_error"@,
                            502,
                        )
                    },
                    Some((i, probe)) => {
                        let sel = selected_from(pool1[i as int], probe);
                        let counted = SessionView {
                            attempts: (v.attempts + 1) as u32,
                            remaining: remove_all(v.remaining, i),
                            ..v
                        };
                        match target_model(pool1, v.candidates, sel.name@) {
                            None => {
                                &&& final(state).providers@ == pool1
                                &&& final(self)@ == counted
                                &&& r is Skip
                            },
                            Some(m) => match joined_url(sel.base_url@, endpoint_path(v.operation)) {
                                None => {
                                    &&& final(state).providers@ == pool1
                                    &&& final(self)@ == counted
                                    &&& r is Skip
                                },
                                Some(u) => {
                                    &&& final(state).providers@ == on_named(
                                        pool1,
                                        sel.name@,
                                        |p: ProviderState|
                                            ProviderState { requests: bump(p.requests, 1), ..p },
                                    )
                                    &&& final(self)@ == SessionView {
                                        current: Some((sel.name@, probe, m)),
                                        ..counted
                                    }
                                    &&& r matches Attempt::Forward { selected, model, url, body }
                                        && selected == sel && model@ == m && url@ == u && body@
                                        == json_with_model(v.body, m)
                                },
                            },
                        }
                    },
                }
            }),
            !(r is Exhausted) ==> final(self)@.remaining.len() < old(self)@.remaining.len(),
            old(self)@.remaining.len() == 0 ==> r is Exhausted,
            final(self)@.attempts + final(self)@.remaining.len() <= final(self)@.candidates.len(),
    {
        proof {
            use_type_invariant(&*self);
        }
        let chosen = select_index(&mut state.providers, &self.remaining, now);
        let (i, probe) = match chosen {
            None => {
                return Attempt::Exhausted(self.exhausted_error());
            },
            Some(c) => c,
        };
        proof {
            crate::router::lemma_select_rec_chooses_candidate(old(state).providers@, self.remaining@, now);
            lemma_remove_all_shrinks(self.remaining@, i);
        }
        let rest = without(&self.remaining, i);
        self.remaining = rest;
        self.attempts = self.attempts + 1;
        let name = state.providers[i].name.clone();
        let model = match find_target_model(&state.providers, &self.candidates, &name) {
            Some(m) => m,
            None => {
                return Attempt::Skip;
            },
        };
        let url = match join_url(
            state.providers[i].base_url.as_str(),
            endpoint_text(self.operation),
        ) {
            Some(u) => u,
            None => {
                return Attempt::Skip;
            },
        };
        let body = rewrite_model(self.body.as_slice(), model.as_str());
        let selected = SelectedProvider {
            name: state.providers[i].name.clone(),
            base_url: state.providers[i].base_url.clone(),
            api_key: state.providers[i].api_key.clone(),
            is_probe: probe,
        };
        match find_provider(&state.providers, &name) {
            Some(j) => bump_requests(&mut state.providers[j]),
            None => {},
        }
        self.current = Some((name, probe, model.clone()));
        Attempt::Forward { selected, model, url, body }
    }
}


/// Text of an upstream error body: empty when none was read, otherwise its
/// `error.message` when it has one, else the whole (lossily decoded) body.
pub open spec fn failure_text(body: Option<Seq<u8>>) -> Seq<char> {
    match body {
        None => Seq::empty(),
        Some(b) => {
            let t = lossy_utf8(b);
            if t.len() == 0 {
                t
            } else {
                match json_error_message(t) {
                    Some(m) => m,
                    None => t,
                }
            }
        },
    }
}

/// Token counts of a response: each read that is missing counts 0, and a
/// body that is not JSON counts 0 for both.
pub open spec fn usage_counts_spec(reads: Option<(Option<u64>, Option<u64>)>) -> (u64, u64) {
    match reads {
        Some((i, o)) => (
            match i {
                Some(n) => n,
                None => 0,
            },
            match o {
                Some(n) => n,
                None => 0,
            },
        ),
        None => (0, 0),
    }
}

/// Token counts of a response from what was read of its usage, as
/// `usage_counts_spec` states.
pub fn usage_counts(reads: Option<(Option<u64>, Option<u64>)>) -> (r: (u64, u64))
    ensures
        r == usage_counts_spec(reads),
{
    match reads {
        Some((i, o)) => (
            match i {
                Some(n) => n,
                None => 0,
            },
            match o {
                Some(n) => n,
                None => 0,
            },
        ),
        None => (0, 0),
    }
}

/// A provider after a successful exchange is counted with its tokens.
pub open spec fn count_success(p: ProviderState, input: u64, output: u64) -> ProviderState {
    ProviderState {
        successes: bump(p.successes, 1),
        tokens_input: bump(p.tokens_input, input),
        tokens_output: bump(p.tokens_output, output),
        ..p
    }
}

/// Events as plain values: each `UpdateStatus` one of `statuses`, in order,
/// followed by `rest` further events.
pub open spec fn events_start_with(r: Seq<TelemetryEvent>, statuses: Seq<(Seq<char>, u64)>, rest: nat) -> bool {
    &&& r.len() == statuses.len() + rest
    &&& forall|k: int| 0 <= k < statuses.len() ==> status_event_view(#[trigger] r[k]) == Some(statuses[k])
}

/// The error text kept from an upstream error body read as `text`, whose
/// `error.message` (looked up only for a non-empty text) is `message`:
/// empty for an empty body, else the message when there is one, else the
/// whole text.
pub fn pick_error_text(text: String, message: Option<String>) -> (r: String)
    ensures
        r@ == if text@.len() == 0 {
            text@
        } else {
            match message {
                Some(m) => m@,
                None => text@,
            }
        },
{
    if text.as_str().is_empty() {
        text
    } else {
        match message {
            Some(m) => m,
            None => text,
        }
    }
}

fn status_event(name: &String, status: u64) -> (r: TelemetryEvent)
    ensures
        status_event_view(r) == Some((name@, status)),
{
    TelemetryEvent::UpdateStatus { provider: name.clone(), status }
}

fn count_success_at(p: &mut ProviderState, input: u64, output: u64)
    ensures
        *final(p) == count_success(*old(p), input, output),
{
    p.successes = p.successes.wrapping_add(1);
    p.tokens_input = p.tokens_input.wrapping_add(input);
    p.tokens_output = p.tokens_output.wrapping_add(output);
}

impl RouteSession {
    /// Whether feedback on the attempt in progress stays within machine limits.
    pub fn feedback_would_fit(
        &self,
        state: &AppState,
        success: bool,
        status: Option<u16>,
        retry_after_secs: Option<u64>,
        now: u64,
    ) -> (r: bool)
        ensures
            r == current_feedback_fits(
                state.providers@,
                self@.current,
                success,
                status,
                retry_after_secs,
                now,
            ),
    {
        match &self.current {
            Some((name, probe, _)) => match find_provider(&state.providers, name) {
                Some(j) => feedback_in_range(
                    &state.providers[j],
                    success,
                    *probe,
                    status,
                    retry_after_secs,
                    now,
                ),
                None => true,
            },
            None => true,
        }
    }

    /// Feedback on the attempt in progress, and the provider's new status.
    fn feedback_current(
        &self,
        state: &mut AppState,
        success: bool,
        status: Option<u16>,
        retry_after_secs: Option<u64>,
        now: u64,
    ) -> (r: Vec<TelemetryEvent>)
        requires
            current_feedback_fits(
                old(state).providers@,
                self@.current,
                success,
                status,
                retry_after_secs,
                now,
            ),
        ensures
            final(state).virtual_models == old(state).virtual_models,
            final(state).upstream_timeout_secs == old(state).upstream_timeout_secs,
            final(state).providers@ == after_feedback(
                old(state).providers@,
                self@.current,
                success,
                status,
                retry_after_secs,
                now,
            ),
            events_start_with(
                r@,
                feedback_events(final(state).providers@, self@.current, now),
                0,
            ),
    {
        let mut events: Vec<TelemetryEvent> = Vec::new();
        match &self.current {
            Some((name, probe, _)) => {
                match find_provider(&state.providers, name) {
                    Some(j) => {
                        apply_feedback(
                            &mut state.providers[j],
                            success,
                            *probe,
                            status,
                            retry_after_secs,
                            now,
                        );
                        proof {
                            crate::state::lemma_first_match_spec(
                                crate::state::provider_names(old(state).providers@),
                                name@,
                                old(state).providers@.len() as int,
                            );
                            assert(crate::state::provider_names(state.providers@)
                                =~= crate::state::provider_names(old(state).providers@));
                        }
                        let code = circuit_status(&state.providers[j], now);
                        events.push(status_event(name, code));
                    },
                    None => {},
                }
            },
            None => {},
        }
        events
    }

    /// The upstream answered with a failure `status` and its error body
    /// reads as `error_text`: remember it for the final error and record the
    /// failure, with the `Retry-After` seconds when the header had them.
    pub fn record_upstream_error(
        &mut self,
        state: &mut AppState,
        status: u16,
        retry_after_secs: Option<u64>,
        error_text: String,
        now: u64,
    ) -> (r: Vec<TelemetryEvent>)
        requires
            current_feedback_fits(
                old(state).providers@,
                old(self)@.current,
                false,
                Some(status),
                retry_after_secs,
                now,
            ),
        ensures
            final(state).virtual_models == old(state).virtual_models,
            final(state).upstream_timeout_secs == old(state).upstream_timeout_secs,
            final(state).providers@ == after_feedback(
                old(state).providers@,
                old(self)@.current,
                false,
                Some(status),
                retry_after_secs,
                now,
            ),
            events_start_with(
                r@,
                feedback_events(final(state).providers@, old(self)@.current, now),
                0,
            ),
            final(self)@ == (SessionView {
                last_upstream_error: error_text@,
                last_failed_provider: match old(self)@.current {
                    Some((n, _, _)) => n,
                    None => Seq::empty(),
                },
                last_failed_status: status,
                ..old(self)@
            }),
    {
        proof {
            use_type_invariant(&*self);
        }
        let provider = match &self.current {
            Some((n, _, _)) => n.clone(),
            None => String::new(),
        };
        self.last_upstream_error = error_text;
        self.last_failed_provider = provider;
        self.last_failed_status = status;
        self.feedback_current(state, false, Some(status), retry_after_secs, now)
    }

    /// `record_upstream_error` with the text of the error body as
    /// `failure_text` states.
    pub fn record_upstream_failure(
        &mut self,
        state: &mut AppState,
        status: u16,
        retry_after_secs: Option<u64>,
        error_body: Option<Vec<u8>>,
        now: u64,
    ) -> (r: Vec<TelemetryEvent>)
        requires
            current_feedback_fits(
                old(state).providers@,
                old(self)@.current,
                false,
                Some(status),
                retry_after_secs,
                now,
            ),
        ensures
            final(state).virtual_models == old(state).virtual_models,
            final(state).upstream_timeout_secs == old(state).upstream_timeout_secs,
            final(state).providers@ == after_feedback(
                old(state).providers@,
                old(self)@.current,
                false,
                Some(status),
                retry_after_secs,
                now,
            ),
            events_start_with(
                r@,
                feedback_events(final(state).providers@, old(self)@.current, now),
                0,
            ),
            final(self)@ == (SessionView {
                last_upstream_error: failure_text(
                    match error_body {
                        Some(b) => Some(b@),
                        None => None,
                    },
                ),
                last_failed_provider: match old(self)@.current {
                    Some((n, _, _)) => n,
                    None => Seq::empty(),
                },
                last_failed_status: status,
                ..old(self)@
            }),
    {
        let text = match &error_body {
            Some(b) => utf8_lossy(b.as_slice()),
            None => String::new(),
        };
        let message = if text.as_str().is_empty() {
            None
        } else {
            error_message(text.as_str())
        };
        let error_text = pick_error_text(text, message);
        self.record_upstream_error(state, status, retry_after_secs, error_text, now)
    }

    /// The upstream could not be reached: record the failure.
    pub fn record_connect_failure(&self, state: &mut AppState, now: u64) -> (r: Vec<
        TelemetryEvent,
    >)
        requires
            current_feedback_fits(old(state).providers@, self@.current, false, None, None, now),
        ensures
            final(state).virtual_models == old(state).virtual_models,
            final(state).upstream_timeout_secs == old(state).upstream_timeout_secs,
            final(state).providers@ == after_feedback(
                old(state).providers@,
                self@.current,
                false,
                None,
                None,
                now,
            ),
            events_start_with(r@, feedback_events(final(state).providers@, self@.current, now), 0),
    {
        self.feedback_current(state, false, None, None, now)
    }

    /// The upstream answered `status` but its body could not be read: record
    /// the failure.
    pub fn record_body_failure(&self, state: &mut AppState, status: u16, now: u64) -> (r: Vec<
        TelemetryEvent,
    >)
        requires
            current_feedback_fits(
                old(state).providers@,
                self@.current,
                false,
                Some(status),
                None,
                now,
            ),
        ensures
            final(state).virtual_models == old(state).virtual_models,
            final(state).upstream_timeout_secs == old(state).upstream_timeout_secs,
            final(state).providers@ == after_feedback(
                old(state).providers@,
                self@.current,
                false,
                Some(status),
                None,
                now,
            ),
            events_start_with(r@, feedback_events(final(state).providers@, self@.current, now), 0),
    {
        self.feedback_current(state, false, Some(status), None, now)
    }

    /// The transaction record of the attempt in progress.
    fn transaction(
        &self,
        input: u64,
        output: u64,
        duration_nanos: u64,
        failure_reason: Option<String>,
    ) -> (r: TelemetryEvent)
        requires
            self@.current is Some,
        ensures
            transaction_matches(
                r,
                self@,
                (self@.current->0).0,
                (self@.current->0).2,
                input,
                output,
                duration_nanos,
                opt_view(failure_reason),
            ),
    {
        let (name, model) = match &self.current {
            Some((n, _, m)) => (n.clone(), m.clone()),
            None => (String::new(), String::new()),
        };
        TelemetryEvent::RecordTransaction {
            operation: text_of(operation_text(self.operation)),
            provider: name,
            model,
            input_tokens: input,
            output_tokens: output,
            duration_nanos,
            attempts: self.attempts,
            failure_reason,
            trace_id: clone_opt(&self.trace_id),
            parent_span_id: clone_opt(&self.parent_span_id),
            request_id: self.request_id.clone(),
        }
    }

    /// Counts a success (and its tokens) on the first provider named as the
    /// attempt in progress.
    fn count_current(&self, state: &mut AppState, input: u64, output: u64)
        ensures
            final(state).virtual_models == old(state).virtual_models,
            final(state).upstream_timeout_secs == old(state).upstream_timeout_secs,
            final(state).providers@ == match self@.current {
                Some((name, _, _)) => on_named(
                    old(state).providers@,
                    name,
                    |p: ProviderState| count_success(p, input, output),
                ),
                None => old(state).providers@,
            },
    {
        match &self.current {
            Some((name, _, _)) => match find_provider(&state.providers, name) {
                Some(j) => count_success_at(&mut state.providers[j], input, output),
                None => {},
            },
            None => {},
        }
    }

    /// An embeddings attempt succeeded with `status`, its usage being `input`
    /// and `output` tokens: record the success, count it with its tokens,
    /// and report the transaction.
    pub fn complete_embeddings_usage(
        &self,
        state: &mut AppState,
        status: u16,
        input: u64,
        output: u64,
        duration_nanos: u64,
        now: u64,
    ) -> (r: Vec<TelemetryEvent>)
        ensures
            final(state).virtual_models == old(state).virtual_models,
            final(state).upstream_timeout_secs == old(state).upstream_timeout_secs,
            ({
                let healed = after_feedback(
                    old(state).providers@,
                    self@.current,
                    true,
                    Some(status),
                    None,
                    now,
                );
                match self@.current {
                    Some((name, _, model)) => {
                        &&& final(state).providers@ == on_named(
                            healed,
                            name,
                            |p: ProviderState| count_success(p, input, output),
                        )
                        &&& events_start_with(r@, feedback_events(healed, self@.current, now), 1)
                        &&& transaction_matches(
                            r@.last(),
                            self@,
                            name,
                            model,
                            input,
                            output,
                            duration_nanos,
                            None,
                        )
                    },
                    None => final(state).providers@ == old(state).providers@ && r@.len() == 0,
                }
            }),
    {
        if self.current.is_none() {
            return Vec::new();
        }
        let mut events = self.feedback_current(state, true, Some(status), None, now);
        self.count_current(state, input, output);
        events.push(self.transaction(input, output, duration_nanos, None));
        events
    }

    /// `complete_embeddings_usage` with the usage read from the response
    /// `body` (`usage_counts_spec` of `json_usage_reads`).
    pub fn complete_embeddings(
        &self,
        state: &mut AppState,
        status: u16,
        body: &[u8],
        duration_nanos: u64,
        now: u64,
    ) -> (r: Vec<TelemetryEvent>)
        ensures
            final(state).virtual_models == old(state).virtual_models,
            final(state).upstream_timeout_secs == old(state).upstream_timeout_secs,
            ({
                let (input, output) = usage_counts_spec(json_usage_reads(body@));
                let healed = after_feedback(
                    old(state).providers@,
                    self@.current,
                    true,
                    Some(status),
                    None,
                    now,
                );
                match self@.current {
                    Some((name, _, model)) => {
                        &&& final(state).providers@ == on_named(
                            healed,
                            name,
                            |p: ProviderState| count_success(p, input, output),
                        )
                        &&& events_start_with(r@, feedback_events(healed, self@.current, now), 1)
                        &&& transaction_matches(
                            r@.last(),
                            self@,
                            name,
                            model,
                            input,
                            output,
                            duration_nanos,
                            None,
                        )
                    },
                    None => final(state).providers@ == old(state).providers@ && r@.len() == 0,
                }
            }),
    {
        let (input, output) = usage_counts(usage_reads(body));
        self.complete_embeddings_usage(state, status, input, output, duration_nanos, now)
    }

    /// A non-streaming chat attempt answered `status`: record the success on
    /// the provider's health; the success is counted once its body is read.
    pub fn accept_chat(&self, state: &mut AppState, status: u16, now: u64) -> (r: Vec<
        TelemetryEvent,
    >)
        ensures
            final(state).virtual_models == old(state).virtual_models,
            final(state).upstream_timeout_secs == old(state).upstream_timeout_secs,
            final(state).providers@ == after_feedback(
                old(state).providers@,
                self@.current,
                true,
                Some(status),
                None,
                now,
            ),
            events_start_with(r@, feedback_events(final(state).providers@, self@.current, now), 0),
    {
        self.feedback_current(state, true, Some(status), None, now)
    }

    /// The body of an accepted chat attempt was read, its usage being `input`
    /// and `output` tokens: count the success with its tokens, and report the
    /// transaction.
    pub fn complete_chat_usage(
        &self,
        state: &mut AppState,
        input: u64,
        output: u64,
        duration_nanos: u64,
    ) -> (r: Vec<TelemetryEvent>)
        ensures
            final(state).virtual_models == old(state).virtual_models,
            final(state).upstream_timeout_secs == old(state).upstream_timeout_secs,
            match self@.current {
                Some((name, _, model)) => {
                    &&& final(state).providers@ == on_named(
                        old(state).providers@,
                        name,
                        |p: ProviderState| count_success(p, input, output),
                    )
                    &&& r@.len() == 1
                    &&& transaction_matches(
                        r@[0],
                        self@,
                        name,
                        model,
                        input,
                        output,
                        duration_nanos,
                        None,
                    )
                },
                None => final(state).providers@ == old(state).providers@ && r@.len() == 0,
            },
    {
        if self.current.is_none() {
            return Vec::new();
        }
        self.count_current(state, input, output);
        let mut events: Vec<TelemetryEvent> = Vec::new();
        events.push(self.transaction(input, output, duration_nanos, None));
        events
    }

    /// `complete_chat_usage` with the usage read from the response `body`
    /// (`usage_counts_spec` of `json_usage_reads`).
    pub fn complete_chat(
        &self,
        state: &mut AppState,
        body: &[u8],
        duration_nanos: u64,
    ) -> (r: Vec<TelemetryEvent>)
        ensures
            final(state).virtual_models == old(state).virtual_models,
            final(state).upstream_timeout_secs == old(state).upstream_timeout_secs,
            ({
                let (input, output) = usage_counts_spec(json_usage_reads(body@));
                match self@.current {
                    Some((name, _, model)) => {
                        &&& final(state).providers@ == on_named(
                            old(state).providers@,
                            name,
                            |p: ProviderState| count_success(p, input, output),
                        )
                        &&& r@.len() == 1
                        &&& transaction_matches(
                            r@[0],
                            self@,
                            name,
                            model,
                            input,
                            output,
                            duration_nanos,
                            None,
                        )
                    },
                    None => final(state).providers@ == old(state).providers@ && r@.len() == 0,
                }
            }),
    {
        let (input, output) = usage_counts(usage_reads(body));
        self.complete_chat_usage(state, input, output, duration_nanos)
    }

    /// A streamed chat answer with `status` ended, completely or not: record
    /// the outcome, count a complete stream, and report the transaction
    /// (without token counts; a broken stream as `stream_failed`).
    pub fn finish_stream(
        &self,
        state: &mut AppState,
        status: u16,
        stream_success: bool,
        duration_nanos: u64,
        now: u64,
    ) -> (r: Vec<TelemetryEvent>)
        requires
            current_feedback_fits(
                old(state).providers@,
                self@.current,
                stream_success,
                Some(status),
                None,
                now,
            ),
        ensures
            final(state).virtual_models == old(state).virtual_models,
            final(state).upstream_timeout_secs == old(state).upstream_timeout_secs,
            ({
                let after = after_feedback(
                    old(state).providers@,
                    self@.current,
                    stream_success,
                    Some(status),
                    None,
                    now,
                );
                match self@.current {
                    Some((name, _, model)) => {
                        &&& final(state).providers@ == if stream_success {
                            on_named(after, name, |p: ProviderState| count_success(p, 0, 0))
                        } else {
                            after
                        }
                        &&& events_start_with(r@, feedback_events(after, self@.current, now), 1)
                        &&& transaction_matches(
                            r@.last(),
                            self@,
                            name,
                            model,
                            0,
                            0,
                            duration_nanos,
                            if stream_success {
                                None
                            } else {
                                Some("stream_failed"@)
                            },
                        )
                    },
                    None => final(state).providers@ == old(state).providers@ && r@.len() == 0,
                }
            }),
    {
        if self.current.is_none() {
            return Vec::new();
        }
        let mut events = self.feedback_current(state, stream_success, Some(status), None, now);
        if stream_success {
            self.count_current(state, 0, 0);
        }
        let reason = if stream_success {
            None
        } else {
            Some(text_of("stream_failed"))
        };
        events.push(self.transaction(0, 0, duration_nanos, reason));
        events
    }
}


/// Upstream response headers passed on to the client: `x-*`, `content-type`,
/// `cache-control` and `openai-version` (names as the header map holds them,
/// lower case); compression and transfer headers are dropped.
pub open spec fn copied_header(name: Seq<char>) -> bool {
    ||| name.len() >= 2 && name[0] == 'x' && name[1] == '-'
    ||| name == "content-type"@
    ||| name == "cache-control"@
    ||| name == "openai-version"@
}

/// Whether a response header named `name` is passed on, as `copied_header`
/// states.
pub fn should_copy_header(name: &str) -> (r: bool)
    ensures
        r == copied_header(name@),
{
    if name.unicode_len() >= 2 && name.get_char(0) == 'x' && name.get_char(1) == '-' {
        return true;
    }
    let n = text_of(name);
    n == text_of("content-type") || n == text_of("cache-control") || n == text_of("openai-version")
}

} // verus!
