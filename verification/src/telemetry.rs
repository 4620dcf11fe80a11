//! Telemetry events and what the exporter records for each of them.
use vstd::prelude::*;

use crate::codec::{hex_decode, hex_decoded, opt_view};

verus! {

/// The structured telemetry events the gateway emits.
#[derive(Debug)]
pub enum TelemetryEvent {
    RecordTransaction {
        operation: String,
        provider: String,
        model: String,
        input_tokens: u64,
        output_tokens: u64,
        duration_nanos: u64,
        attempts: u32,
        failure_reason: Option<String>,
        trace_id: Option<String>,
        parent_span_id: Option<String>,
        request_id: String,
    },
    UpdateStatus {
        provider: String,
        /// 0 = Healthy, 1 = Cooldown, 2 = Tripped
        status: u64,
    },
}

/// Value of an exported attribute.
#[derive(Debug)]
pub enum AttributeValue {
    Text(String),
    Int(i64),
}

/// One exported key/value attribute.
#[derive(Debug)]
pub struct Attribute {
    pub key: String,
    pub value: AttributeValue,
}

/// What the exporter records for one event.
#[derive(Debug)]
pub enum ExportPlan {
    /// Record `status` on the provider status gauge with `attributes`.
    ProviderStatus { status: u64, attributes: Vec<Attribute> },
    /// Record the duration on the histogram, each token count on the counter,
    /// and one span, linked to a remote parent when one is given
    /// (16-byte trace id, 8-byte span id).
    Transaction {
        duration_nanos: u64,
        duration_attributes: Vec<Attribute>,
        token_counts: Vec<(u64, Vec<Attribute>)>,
        span_attributes: Vec<Attribute>,
        parent: Option<(Vec<u8>, Vec<u8>)>,
    },
}

/// An attribute as plain values.
pub enum AttrView {
    Text(Seq<char>),
    Int(i64),
}

pub open spec fn attr_view(a: Attribute) -> (Seq<char>, AttrView) {
    (
        a.key@,
        match a.value {
            AttributeValue::Text(s) => AttrView::Text(s@),
            AttributeValue::Int(i) => AttrView::Int(i),
        },
    )
}

pub open spec fn attrs_view(v: Seq<Attribute>) -> Seq<(Seq<char>, AttrView)> {
    v.map_values(|a: Attribute| attr_view(a))
}

pub open spec fn text(key: Seq<char>, value: Seq<char>) -> (Seq<char>, AttrView) {
    (key, AttrView::Text(value))
}

/// The attributes every transaction metric carries.
pub open spec fn common_attrs(operation: Seq<char>, provider: Seq<char>, model: Seq<char>) -> Seq<
    (Seq<char>, AttrView),
> {
    seq![
        text("gen_ai.operation.name"@, operation),
        text("gen_ai.provider.name"@, provider),
        text("gen_ai.request.model"@, model),
    ]
}

/// Token counts recorded: input then output, each only when non-zero, tagged
/// with its `type`.
pub open spec fn token_records(
    common: Seq<(Seq<char>, AttrView)>,
    input: u64,
    output: u64,
) -> Seq<(u64, Seq<(Seq<char>, AttrView)>)> {
    let i = if input > 0 {
        seq![(input, common.push(text("type"@, "input"@)))]
    } else {
        seq![]
    };
    let o = if output > 0 {
        seq![(output, common.push(text("type"@, "output"@)))]
    } else {
        seq![]
    };
    i + o
}

/// Token records carry each count under its own `type` tag: the input count
/// first (when non-zero) tagged "input", the output count last (when
/// non-zero) tagged "output", nothing else; a record tagged "input" holds the
/// input count and one tagged "output" the output count.
pub proof fn lemma_token_records_tagged(common: Seq<(Seq<char>, AttrView)>, input: u64, output: u64)
    ensures
        ({
            let r = token_records(common, input, output);
            let tagged_in = common.push(("type"@, AttrView::Text("input"@)));
            let tagged_out = common.push(("type"@, AttrView::Text("output"@)));
            &&& r.len() == (if input > 0 { 1int } else { 0 }) + (if output > 0 { 1int } else { 0 })
            &&& input > 0 ==> r[0] == (input, tagged_in)
            &&& output > 0 ==> r.last() == (output, tagged_out)
            &&& forall|k: int| 0 <= k < r.len() && (#[trigger] r[k]).1 == tagged_in ==> r[k].0 == input
            &&& forall|k: int| 0 <= k < r.len() && (#[trigger] r[k]).1 == tagged_out ==> r[k].0 == output
        }),
{
    reveal_strlit("input");
    reveal_strlit("output");
    let tagged_in = common.push(("type"@, AttrView::Text("input"@)));
    let tagged_out = common.push(("type"@, AttrView::Text("output"@)));
    assert("input"@.len() != "output"@.len());
    assert(AttrView::Text("input"@) != AttrView::Text("output"@));
    assert(tagged_in.last() != tagged_out.last());
    assert(tagged_in != tagged_out);
}

/// Span attributes: the common ones, token usage and attempts (as `i64`),
/// the initial failure reason when there is one, and the request id.
pub open spec fn span_attrs(
    common: Seq<(Seq<char>, AttrView)>,
    input: u64,
    output: u64,
    attempts: u32,
    failure_reason: Option<Seq<char>>,
    request_id: Seq<char>,
) -> Seq<(Seq<char>, AttrView)> {
    let base = common + seq![
        ("gen_ai.usage.input_tokens"@, AttrView::Int(input as i64)),
        ("gen_ai.usage.output_tokens"@, AttrView::Int(output as i64)),
        ("proxy.attempts_required"@, AttrView::Int(attempts as i64)),
    ];
    let with_reason = match failure_reason {
        Some(r) => base.push(text("proxy.initial_failure_reason"@, r)),
        None => base,
    };
    with_reason.push(text("proxy.request_id"@, request_id))
}

/// Span attributes keep each value under its own key: after the common
/// attributes come the input token count, the output token count and the
/// attempts (as `i64`), then the failure reason when there is one, and the
/// request id last.
pub proof fn lemma_span_attrs_keyed(
    common: Seq<(Seq<char>, AttrView)>,
    input: u64,
    output: u64,
    attempts: u32,
    failure_reason: Option<Seq<char>>,
    request_id: Seq<char>,
)
    ensures
        ({
            let a = span_attrs(common, input, output, attempts, failure_reason, request_id);
            let n = common.len() as int;
            &&& a.len() == n + 4 + (if failure_reason is Some { 1int } else { 0 })
            &&& a.subrange(0, n) == common
            &&& a[n] == ("gen_ai.usage.input_tokens"@, AttrView::Int(input as i64))
            &&& a[n + 1] == ("gen_ai.usage.output_tokens"@, AttrView::Int(output as i64))
            &&& a[n + 2] == ("proxy.attempts_required"@, AttrView::Int(attempts as i64))
            &&& failure_reason matches Some(r) ==> a[n + 3] == (
                "proxy.initial_failure_reason"@,
                AttrView::Text(r),
            )
            &&& a.last() == ("proxy.request_id"@, AttrView::Text(request_id))
        }),
{
    let a = span_attrs(common, input, output, attempts, failure_reason, request_id);
    assert(a.subrange(0, common.len() as int) =~= common);
}

/// The remote parent of a span: both ids present, both hex, of 16 and 8 bytes.
pub open spec fn parent_spec(trace_id: Option<Seq<char>>, parent_span_id: Option<Seq<char>>) -> Option<
    (Seq<u8>, Seq<u8>),
> {
    match (trace_id, parent_span_id) {
        (Some(t), Some(p)) => match (hex_decoded(t), hex_decoded(p)) {
            (Some(tb), Some(sb)) => if tb.len() == 16 && sb.len() == 8 {
                Some((tb, sb))
            } else {
                None
            },
            _ => None,
        },
        _ => None,
    }
}

fn text_attr(key: &str, value: &str) -> (r: Attribute)
    ensures
        attr_view(r) == text(key@, value@),
{
    Attribute { key: String::from_str(key), value: AttributeValue::Text(String::from_str(value)) }
}

fn int_attr(key: &str, value: i64) -> (r: Attribute)
    ensures
        attr_view(r) == (key@, AttrView::Int(value)),
{
    Attribute { key: String::from_str(key), value: AttributeValue::Int(value) }
}

fn common_attributes(operation: &str, provider: &str, model: &str) -> (r: Vec<Attribute>)
    ensures
        attrs_view(r@) == common_attrs(operation@, provider@, model@),
{
    let mut v: Vec<Attribute> = Vec::new();
    v.push(text_attr("gen_ai.operation.name", operation));
    v.push(text_attr("gen_ai.provider.name", provider));
    v.push(text_attr("gen_ai.request.model", model));
    assert(attrs_view(v@) =~= common_attrs(operation@, provider@, model@));
    v
}

fn parent_context(trace_id: &Option<String>, parent_span_id: &Option<String>) -> (r: Option<
    (Vec<u8>, Vec<u8>),
>)
    ensures
        match r {
            Some((t, s)) => parent_spec(opt_view(*trace_id), opt_view(*parent_span_id)) == Some(
                (t@, s@),
            ),
            None => parent_spec(opt_view(*trace_id), opt_view(*parent_span_id)) is None,
        },
{
    match (trace_id, parent_span_id) {
        (Some(tid), Some(pid)) => {
            let t = hex_decode(tid.as_str());
            let s = hex_decode(pid.as_str());
            match (t, s) {
                (Some(tb), Some(sb)) => {
                    if tb.len() == 16 && sb.len() == 8 {
                        Some((tb, sb))
                    } else {
                        None
                    }
                },
                _ => None,
            }
        },
        _ => None,
    }
}

/// What the exporter records for `event`.
pub fn plan_export(event: TelemetryEvent) -> (r: ExportPlan)
    ensures
        match event {
            TelemetryEvent::UpdateStatus { provider, status } => r matches ExportPlan::ProviderStatus {
                status: s,
                attributes,
            } && s == status && attrs_view(attributes@) == seq![
                text("provider.name"@, provider@),
            ],
            TelemetryEvent::RecordTransaction {
                operation,
                provider,
                model,
                input_tokens,
                output_tokens,
                duration_nanos,
                attempts,
                failure_reason,
                trace_id,
                parent_span_id,
                request_id,
            } => {
                let common = common_attrs(operation@, provider@, model@);
                r matches ExportPlan::Transaction {
                    duration_nanos: d,
                    duration_attributes,
                    token_counts,
                    span_attributes,
                    parent,
                } && d == duration_nanos && attrs_view(duration_attributes@) == common
                    && token_counts@.map_values(
                    |e: (u64, Vec<Attribute>)| (e.0, attrs_view(e.1@)),
                ) == token_records(common, input_tokens, output_tokens) && attrs_view(
                    span_attributes@,
                ) == span_attrs(
                    common,
                    input_tokens,
                    output_tokens,
                    attempts,
                    opt_view(failure_reason),
                    request_id@,
                ) && match parent {
                    Some((t, s)) => parent_spec(opt_view(trace_id), opt_view(parent_span_id))
                        == Some((t@, s@)),
                    None => parent_spec(opt_view(trace_id), opt_view(parent_span_id)) is None,
                }
            },
        },
{
    match event {
        TelemetryEvent::UpdateStatus { provider, status } => {
            let mut attributes: Vec<Attribute> = Vec::new();
            attributes.push(text_attr("provider.name", provider.as_str()));
            assert(attrs_view(attributes@) =~= seq![text("provider.name"@, provider@)]);
            ExportPlan::ProviderStatus { status, attributes }
        },
        TelemetryEvent::RecordTransaction {
            operation,
            provider,
            model,
            input_tokens,
            output_tokens,
            duration_nanos,
            attempts,
            failure_reason,
            trace_id,
            parent_span_id,
            request_id,
        } => {
            let ghost common = common_attrs(operation@, provider@, model@);
            let duration_attributes = common_attributes(
                operation.as_str(),
                provider.as_str(),
                model.as_str(),
            );
            let mut token_counts: Vec<(u64, Vec<Attribute>)> = Vec::new();
            if input_tokens > 0 {
                let mut attrs = common_attributes(
                    operation.as_str(),
                    provider.as_str(),
                    model.as_str(),
                );
                attrs.push(text_attr("type", "input"));
                assert(attrs_view(attrs@) =~= common.push(text("type"@, "input"@)));
                token_counts.push((input_tokens, attrs));
            }
            if output_tokens > 0 {
                let mut attrs = common_attributes(
                    operation.as_str(),
                    provider.as_str(),
                    model.as_str(),
                );
                attrs.push(text_attr("type", "output"));
                assert(attrs_view(attrs@) =~= common.push(text("type"@, "output"@)));
                token_counts.push((output_tokens, attrs));
            }
            assert(token_counts@.map_values(|e: (u64, Vec<Attribute>)| (e.0, attrs_view(e.1@)))
                =~= token_records(common, input_tokens, output_tokens));
            let parent = parent_context(&trace_id, &parent_span_id);
            let mut span_attributes = common_attributes(
                operation.as_str(),
                provider.as_str(),
                model.as_str(),
            );
            span_attributes.push(int_attr("gen_ai.usage.input_tokens", input_tokens as i64));
            span_attributes.push(int_attr("gen_ai.usage.output_tokens", output_tokens as i64));
            span_attributes.push(int_attr("proxy.attempts_required", attempts as i64));
            let ghost base = attrs_view(span_attributes@);
            match &failure_reason {
                Some(reason) => {
                    span_attributes.push(
                        text_attr("proxy.initial_failure_reason", reason.as_str()),
                    );
                },
                None => {},
            }
            span_attributes.push(text_attr("proxy.request_id", request_id.as_str()));
            assert(attrs_view(span_attributes@) =~= span_attrs(
                common,
                input_tokens,
                output_tokens,
                attempts,
                opt_view(failure_reason),
                request_id@,
            ));
            ExportPlan::Transaction {
                duration_nanos,
                duration_attributes,
                token_counts,
                span_attributes,
                parent,
            }
        },
    }
}

} // verus!
