//! Flattening pushed OTLP requests into signals. A request arrives as resources, each
//! with scopes of metrics, spans or log records. Every data point, span or record becomes
//! one signal that carries its resource's attributes (the origin identity:
//! `service.name`, the provider, the model) ahead of its own, so an ingested signal never
//! loses where it came from. Receiving and decoding the request is the edge's job.

use crate::signal::{
    attrs_view, pair_view, signals_view, AttrValue, AttrView, HistogramPoint, HistogramView, LogRecord, LogView,
    Metric, MetricKind, MetricView, Quantity, Severity, Signal, SignalView, Span, SpanKind, SpanStatus,
    SpanView,
};
use crate::text::owned;
use vstd::prelude::*;

verus! {

// ------------------------------------------------------------------------------------
// Attributes
// ------------------------------------------------------------------------------------

/// An attribute value as OTLP carries it; `Other` is any kind the signal model does not
/// hold (arrays, key/value lists, bytes). A double is carried as its bit pattern.
#[derive(Debug, Clone)]
pub enum OtlpValue {
    Str(String),
    Int(i64),
    Double(u64),
    Bool(bool),
    Other,
}

/// A key/value pair of a request; `value` is `None` when the pair carried no value.
#[derive(Debug, Clone)]
pub struct OtlpAttr {
    pub key: String,
    pub value: Option<OtlpValue>,
}

/// The attribute a pair becomes, if the model holds its value.
pub open spec fn attr_of(kv: OtlpAttr) -> Option<(Seq<char>, AttrView)> {
    match kv.value {
        Some(OtlpValue::Str(s)) => Some((kv.key@, AttrView::Str(s@))),
        Some(OtlpValue::Int(i)) => Some((kv.key@, AttrView::Int(i))),
        Some(OtlpValue::Double(b)) => Some((kv.key@, AttrView::Float(b))),
        Some(OtlpValue::Bool(b)) => Some((kv.key@, AttrView::Bool(b))),
        _ => None,
    }
}

/// The attributes a list of pairs becomes: the pairs the model holds, in order.
pub open spec fn attrs_of(kvs: Seq<OtlpAttr>) -> Seq<(Seq<char>, AttrView)>
    decreases kvs.len(),
{
    if kvs.len() == 0 {
        Seq::empty()
    } else {
        let init = attrs_of(kvs.drop_last());
        match attr_of(kvs.last()) {
            Some(p) => init.push(p),
            None => init,
        }
    }
}

fn to_attr(kv: &OtlpAttr) -> (r: Option<(String, AttrValue)>)
    ensures
        match r {
            Some(p) => attr_of(*kv) == Some(pair_view(p)),
            None => attr_of(*kv).is_none(),
        },
{
    match &kv.value {
        Some(OtlpValue::Str(s)) => Some((owned(kv.key.as_str()), AttrValue::text(s.as_str()))),
        Some(OtlpValue::Int(i)) => Some((owned(kv.key.as_str()), AttrValue::Int(*i))),
        Some(OtlpValue::Double(b)) => Some((owned(kv.key.as_str()), AttrValue::Float(*b))),
        Some(OtlpValue::Bool(b)) => Some((owned(kv.key.as_str()), AttrValue::Bool(*b))),
        _ => None,
    }
}

/// Appends the attributes of `kvs` to `out`.
fn push_attrs(out: &mut Vec<(String, AttrValue)>, kvs: &Vec<OtlpAttr>)
    ensures
        attrs_view(final(out)@) == attrs_view(old(out)@) + attrs_of(kvs@),
{
    let ghost base = attrs_view(out@);
    let mut i: usize = 0;
    assert(kvs@.take(0) =~= Seq::<OtlpAttr>::empty());
    assert(base + attrs_of(kvs@.take(0)) =~= base);
    while i < kvs.len()
        invariant
            i <= kvs.len(),
            attrs_view(out@) == base + attrs_of(kvs@.take(i as int)),
        decreases kvs.len() - i,
    {
        proof {
            assert(kvs@.take(i + 1).drop_last() =~= kvs@.take(i as int));
            assert(kvs@.take(i + 1).last() == kvs@[i as int]);
        }
        let ghost before = attrs_view(out@);
        match to_attr(&kvs[i]) {
            Some(p) => {
                out.push(p);
                assert(attrs_view(out@) =~= before.push(pair_view(p)));
            },
            None => {},
        }
        i += 1;
    }
    assert(kvs@.take(kvs.len() as int) =~= kvs@);
}

/// The attributes of `kvs`.
fn attrs_from(kvs: &Vec<OtlpAttr>) -> (r: Vec<(String, AttrValue)>)
    ensures
        attrs_view(r@) == attrs_of(kvs@),
{
    let mut r: Vec<(String, AttrValue)> = Vec::new();
    push_attrs(&mut r, kvs);
    assert(attrs_view(Seq::<(String, AttrValue)>::empty()) + attrs_of(kvs@) =~= attrs_of(kvs@));
    r
}

/// A copy of `a`.
fn copy_attrs(a: &Vec<(String, AttrValue)>) -> (r: Vec<(String, AttrValue)>)
    ensures
        attrs_view(r@) == attrs_view(a@),
{
    let mut r: Vec<(String, AttrValue)> = Vec::new();
    let mut i: usize = 0;
    while i < a.len()
        invariant
            i <= a.len(),
            attrs_view(r@) == attrs_view(a@).take(i as int),
        decreases a.len() - i,
    {
        let ghost before = attrs_view(r@);
        let k = owned(a[i].0.as_str());
        let v = a[i].1.clone_value();
        r.push((k, v));
        assert(attrs_view(a@)[i as int] == pair_view(a@[i as int]));
        assert(attrs_view(r@) =~= before.push(pair_view(a@[i as int])));
        assert(attrs_view(r@) =~= attrs_view(a@).take(i + 1));
        i += 1;
    }
    assert(attrs_view(a@).take(a.len() as int) =~= attrs_view(a@));
    r
}

/// A copy of `v`.
fn copy_bytes(v: &Vec<u8>) -> (r: Vec<u8>)
    ensures
        r@ == v@,
{
    let mut r: Vec<u8> = Vec::new();
    let mut i: usize = 0;
    while i < v.len()
        invariant
            i <= v.len(),
            r@ == v@.take(i as int),
        decreases v.len() - i,
    {
        r.push(v[i]);
        assert(r@ =~= v@.take(i + 1));
        i += 1;
    }
    assert(v@.take(v.len() as int) =~= v@);
    r
}

/// A copy of `v`.
fn copy_u64s(v: &Vec<u64>) -> (r: Vec<u64>)
    ensures
        r@ == v@,
{
    let mut r: Vec<u64> = Vec::new();
    let mut i: usize = 0;
    while i < v.len()
        invariant
            i <= v.len(),
            r@ == v@.take(i as int),
        decreases v.len() - i,
    {
        r.push(v[i]);
        assert(r@ =~= v@.take(i + 1));
        i += 1;
    }
    assert(v@.take(v.len() as int) =~= v@);
    r
}

// ------------------------------------------------------------------------------------
// Metrics
// ------------------------------------------------------------------------------------

/// A number data point's value.
#[derive(Debug, Clone, Copy)]
pub enum NumberValue {
    /// A double, as its bit pattern.
    Double(u64),
    Int(i64),
}

/// A gauge or sum data point; a point without a value is dropped.
#[derive(Debug, Clone)]
pub struct NumberPoint {
    pub attributes: Vec<OtlpAttr>,
    pub value: Option<NumberValue>,
}

/// An explicit-bucket histogram data point; doubles are carried as bit patterns and
/// times as nanoseconds since the Unix epoch.
#[derive(Debug, Clone)]
pub struct HistogramIn {
    pub attributes: Vec<OtlpAttr>,
    pub count: u64,
    pub sum_bits: Option<u64>,
    pub bucket_counts: Vec<u64>,
    pub explicit_bounds_bits: Vec<u64>,
    pub min_bits: Option<u64>,
    pub max_bits: Option<u64>,
    pub start_nanos: u64,
    pub time_nanos: u64,
}

/// What a metric holds. Exponential histograms, summaries and a metric without data are
/// `Unmapped`, and produce no signal.
#[derive(Debug, Clone)]
pub enum MetricData {
    Gauge(Vec<NumberPoint>),
    Sum { monotonic: bool, points: Vec<NumberPoint> },
    Histogram(Vec<HistogramIn>),
    Unmapped,
}

#[derive(Debug, Clone)]
pub struct MetricIn {
    pub name: String,
    /// Empty when the metric has no unit.
    pub unit: String,
    pub data: MetricData,
}

/// One resource of a metrics request: its attributes, and its scopes' metrics.
#[derive(Debug, Clone)]
pub struct ResourceMetricsIn {
    pub resource: Vec<OtlpAttr>,
    pub scopes: Vec<Vec<MetricIn>>,
}

pub open spec fn unit_of(u: Seq<char>) -> Option<Seq<char>> {
    if u.len() == 0 {
        None
    } else {
        Some(u)
    }
}

pub open spec fn quantity_of(v: NumberValue) -> Quantity {
    match v {
        NumberValue::Double(b) => Quantity::FloatBits(b),
        NumberValue::Int(i) => Quantity::Int(i),
    }
}

/// A monotonic sum is a counter; any other sum goes up and down.
pub open spec fn sum_kind(monotonic: bool) -> MetricKind {
    if monotonic {
        MetricKind::Counter
    } else {
        MetricKind::UpDownCounter
    }
}

/// The metrics of a list of number points: one per point that has a value, carrying the
/// resource's attributes and then its own.
pub open spec fn number_signals(
    name: Seq<char>,
    unit: Option<Seq<char>>,
    kind: MetricKind,
    dps: Seq<NumberPoint>,
    res: Seq<(Seq<char>, AttrView)>,
) -> Seq<SignalView>
    decreases dps.len(),
{
    if dps.len() == 0 {
        Seq::empty()
    } else {
        let init = number_signals(name, unit, kind, dps.drop_last(), res);
        let dp = dps.last();
        match dp.value {
            Some(v) => init.push(
                SignalView::Metric(MetricView { name, kind, value: quantity_of(v), unit, attributes: res + attrs_of(dp.attributes@) }),
            ),
            None => init,
        }
    }
}

/// A histogram point as a signal: count, sum (zero when absent), buckets, bounds,
/// extremes and times kept, attributes after the resource's.
pub open spec fn histogram_signal(name: Seq<char>, unit: Option<Seq<char>>, dp: HistogramIn, res: Seq<(Seq<char>, AttrView)>) -> SignalView {
    SignalView::Histogram(
        HistogramView {
            name,
            unit,
            count: dp.count,
            sum_bits: match dp.sum_bits {
                Some(b) => b,
                None => 0,
            },
            bucket_counts: dp.bucket_counts@,
            explicit_bounds_bits: dp.explicit_bounds_bits@,
            min_bits: dp.min_bits,
            max_bits: dp.max_bits,
            start_nanos: dp.start_nanos,
            time_nanos: dp.time_nanos,
            attributes: res + attrs_of(dp.attributes@),
        },
    )
}

pub open spec fn histogram_signals(name: Seq<char>, unit: Option<Seq<char>>, dps: Seq<HistogramIn>, res: Seq<(Seq<char>, AttrView)>) -> Seq<SignalView> {
    dps.map_values(|dp: HistogramIn| histogram_signal(name, unit, dp, res))
}

/// The signals of one metric.
pub open spec fn metric_signals(m: MetricIn, res: Seq<(Seq<char>, AttrView)>) -> Seq<SignalView> {
    let unit = unit_of(m.unit@);
    match m.data {
        MetricData::Gauge(ps) => number_signals(m.name@, unit, MetricKind::Gauge, ps@, res),
        MetricData::Sum { monotonic, points } => number_signals(m.name@, unit, sum_kind(monotonic), points@, res),
        MetricData::Histogram(hs) => histogram_signals(m.name@, unit, hs@, res),
        MetricData::Unmapped => Seq::empty(),
    }
}

pub open spec fn metrics_signals(ms: Seq<MetricIn>, res: Seq<(Seq<char>, AttrView)>) -> Seq<SignalView>
    decreases ms.len(),
{
    if ms.len() == 0 {
        Seq::empty()
    } else {
        metrics_signals(ms.drop_last(), res) + metric_signals(ms.last(), res)
    }
}

pub open spec fn metric_scopes_signals(scopes: Seq<Vec<MetricIn>>, res: Seq<(Seq<char>, AttrView)>) -> Seq<SignalView>
    decreases scopes.len(),
{
    if scopes.len() == 0 {
        Seq::empty()
    } else {
        metric_scopes_signals(scopes.drop_last(), res) + metrics_signals(scopes.last()@, res)
    }
}

/// Everything a metrics request becomes, in request order.
pub open spec fn convert_spec(req: Seq<ResourceMetricsIn>) -> Seq<SignalView>
    decreases req.len(),
{
    if req.len() == 0 {
        Seq::empty()
    } else {
        let r = req.last();
        convert_spec(req.drop_last()) + metric_scopes_signals(r.scopes@, attrs_of(r.resource@))
    }
}

fn push_numbers(
    out: &mut Vec<Signal>,
    name: &str,
    unit: &Option<String>,
    kind: MetricKind,
    dps: &Vec<NumberPoint>,
    res: &Vec<(String, AttrValue)>,
)
    ensures
        signals_view(final(out)@) == signals_view(old(out)@) + number_signals(
            name@,
            crate::signal::opt_view(*unit),
            kind,
            dps@,
            attrs_view(res@),
        ),
{
    let ghost base = signals_view(out@);
    let ghost u = crate::signal::opt_view(*unit);
    let ghost rv = attrs_view(res@);
    let mut i: usize = 0;
    assert(dps@.take(0) =~= Seq::<NumberPoint>::empty());
    assert(base + number_signals(name@, u, kind, dps@.take(0), rv) =~= base);
    while i < dps.len()
        invariant
            i <= dps.len(),
            u == crate::signal::opt_view(*unit),
            rv == attrs_view(res@),
            signals_view(out@) == base + number_signals(name@, u, kind, dps@.take(i as int), rv),
        decreases dps.len() - i,
    {
        proof {
            assert(dps@.take(i + 1).drop_last() =~= dps@.take(i as int));
            assert(dps@.take(i + 1).last() == dps@[i as int]);
        }
        let dp = &dps[i];
        match dp.value {
            Some(v) => {
                let value = match v {
                    NumberValue::Double(b) => Quantity::FloatBits(b),
                    NumberValue::Int(n) => Quantity::Int(n),
                };
                let mut attributes = copy_attrs(res);
                push_attrs(&mut attributes, &dp.attributes);
                let unit_copy = match unit {
                    Some(x) => Some(owned(x.as_str())),
                    None => None,
                };
                let m = Metric { name: owned(name), kind, value, unit: unit_copy, attributes };
                let ghost before = out@;
                out.push(Signal::Metric(m));
                assert(signals_view(out@) =~= signals_view(before).push(Signal::Metric(m)@));
            },
            None => {},
        }
        i += 1;
    }
    assert(dps@.take(dps.len() as int) =~= dps@);
}

fn push_histograms(out: &mut Vec<Signal>, name: &str, unit: &Option<String>, dps: &Vec<HistogramIn>, res: &Vec<(String, AttrValue)>)
    ensures
        signals_view(final(out)@) == signals_view(old(out)@) + histogram_signals(
            name@,
            crate::signal::opt_view(*unit),
            dps@,
            attrs_view(res@),
        ),
{
    let ghost base = signals_view(out@);
    let ghost u = crate::signal::opt_view(*unit);
    let ghost rv = attrs_view(res@);
    let mut i: usize = 0;
    assert(base + histogram_signals(name@, u, dps@.take(0), rv) =~= base);
    while i < dps.len()
        invariant
            i <= dps.len(),
            u == crate::signal::opt_view(*unit),
            rv == attrs_view(res@),
            signals_view(out@) == base + histogram_signals(name@, u, dps@.take(i as int), rv),
        decreases dps.len() - i,
    {
        let dp = &dps[i];
        let mut attributes = copy_attrs(res);
        push_attrs(&mut attributes, &dp.attributes);
        let unit_copy = match unit {
            Some(x) => Some(owned(x.as_str())),
            None => None,
        };
        let h = HistogramPoint {
            name: owned(name),
            unit: unit_copy,
            count: dp.count,
            sum_bits: match dp.sum_bits {
                Some(b) => b,
                None => 0,
            },
            bucket_counts: copy_u64s(&dp.bucket_counts),
            explicit_bounds_bits: copy_u64s(&dp.explicit_bounds_bits),
            min_bits: dp.min_bits,
            max_bits: dp.max_bits,
            start_nanos: dp.start_nanos,
            time_nanos: dp.time_nanos,
            attributes,
        };
        let ghost before = out@;
        out.push(Signal::Histogram(h));
        assert(signals_view(out@) =~= signals_view(before).push(Signal::Histogram(h)@));
        assert(histogram_signals(name@, u, dps@.take(i + 1), rv) =~= histogram_signals(name@, u, dps@.take(i as int), rv).push(
            histogram_signal(name@, u, dps@[i as int], rv),
        ));
        i += 1;
    }
    assert(dps@.take(dps.len() as int) =~= dps@);
}

fn push_metric(out: &mut Vec<Signal>, m: &MetricIn, res: &Vec<(String, AttrValue)>)
    ensures
        signals_view(final(out)@) == signals_view(old(out)@) + metric_signals(*m, attrs_view(res@)),
{
    let unit: Option<String> = if m.unit.as_str().is_empty() {
        None
    } else {
        Some(owned(m.unit.as_str()))
    };
    proof {
        assert(crate::signal::opt_view(unit) == unit_of(m.unit@));
    }
    match &m.data {
        MetricData::Gauge(ps) => push_numbers(out, m.name.as_str(), &unit, MetricKind::Gauge, ps, res),
        MetricData::Sum { monotonic, points } => {
            let kind = if *monotonic {
                MetricKind::Counter
            } else {
                MetricKind::UpDownCounter
            };
            push_numbers(out, m.name.as_str(), &unit, kind, points, res)
        },
        MetricData::Histogram(hs) => push_histograms(out, m.name.as_str(), &unit, hs, res),
        MetricData::Unmapped => {
            assert(signals_view(out@) + Seq::<SignalView>::empty() =~= signals_view(out@));
        },
    }
}

/// Flattens a metrics request: every gauge and sum point with a value becomes a metric
/// (a monotonic sum a counter, any other sum an up-down counter), every histogram point
/// a histogram; each carries its resource's attributes ahead of its own.
pub fn convert(req: &Vec<ResourceMetricsIn>) -> (out: Vec<Signal>)
    ensures
        signals_view(out@) == convert_spec(req@),
{
    let mut out: Vec<Signal> = Vec::new();
    let mut r: usize = 0;
    assert(req@.take(0) =~= Seq::<ResourceMetricsIn>::empty());
    assert(signals_view(out@) =~= Seq::<SignalView>::empty());
    while r < req.len()
        invariant
            r <= req.len(),
            signals_view(out@) == convert_spec(req@.take(r as int)),
        decreases req.len() - r,
    {
        proof {
            assert(req@.take(r + 1).drop_last() =~= req@.take(r as int));
            assert(req@.take(r + 1).last() == req@[r as int]);
        }
        let rm = &req[r];
        let res = attrs_from(&rm.resource);
        let ghost rv = attrs_view(res@);
        let ghost base = signals_view(out@);
        let mut s: usize = 0;
        assert(rm.scopes@.take(0) =~= Seq::<Vec<MetricIn>>::empty());
        assert(base + metric_scopes_signals(rm.scopes@.take(0), rv) =~= base);
        while s < rm.scopes.len()
            invariant
                s <= rm.scopes.len(),
                rv == attrs_view(res@),
                signals_view(out@) == base + metric_scopes_signals(rm.scopes@.take(s as int), rv),
            decreases rm.scopes.len() - s,
        {
            proof {
                assert(rm.scopes@.take(s + 1).drop_last() =~= rm.scopes@.take(s as int));
                assert(rm.scopes@.take(s + 1).last() == rm.scopes@[s as int]);
            }
            let ms = &rm.scopes[s];
            let ghost mid = signals_view(out@);
            let mut k: usize = 0;
            assert(ms@.take(0) =~= Seq::<MetricIn>::empty());
            assert(mid + metrics_signals(ms@.take(0), rv) =~= mid);
            while k < ms.len()
                invariant
                    k <= ms.len(),
                    rv == attrs_view(res@),
                    signals_view(out@) == mid + metrics_signals(ms@.take(k as int), rv),
                decreases ms.len() - k,
            {
                proof {
                    assert(ms@.take(k + 1).drop_last() =~= ms@.take(k as int));
                    assert(ms@.take(k + 1).last() == ms@[k as int]);
                }
                push_metric(&mut out, &ms[k], &res);
                assert(signals_view(out@) =~= mid + metrics_signals(ms@.take(k + 1), rv));
                k += 1;
            }
            assert(ms@.take(ms.len() as int) =~= ms@);
            assert(signals_view(out@) =~= base + metric_scopes_signals(rm.scopes@.take(s + 1), rv));
            s += 1;
        }
        assert(rm.scopes@.take(rm.scopes.len() as int) =~= rm.scopes@);
        assert(signals_view(out@) =~= convert_spec(req@.take(r + 1)));
        r += 1;
    }
    assert(req@.take(req.len() as int) =~= req@);
    out
}

// ------------------------------------------------------------------------------------
// Traces
// ------------------------------------------------------------------------------------

/// A span as pushed. `kind` and `status_code` are OTLP's wire numbers; `status_code` is
/// `None` when the span carries no status.
#[derive(Debug, Clone)]
pub struct SpanIn {
    pub trace_id: Vec<u8>,
    pub span_id: Vec<u8>,
    pub parent_span_id: Vec<u8>,
    pub name: String,
    pub kind: i32,
    pub start_nanos: u64,
    pub end_nanos: u64,
    pub status_code: Option<i32>,
    pub attributes: Vec<OtlpAttr>,
}

/// One resource of a trace request: its attributes, and its scopes' spans.
#[derive(Debug, Clone)]
pub struct ResourceSpansIn {
    pub resource: Vec<OtlpAttr>,
    pub scopes: Vec<Vec<SpanIn>>,
}

/// OTLP's `SPAN_KIND_SERVER` (2) and `SPAN_KIND_CLIENT` (3) are kept; internal, producer,
/// consumer, unspecified and unknown kinds collapse to internal.
pub open spec fn span_kind_of(k: i32) -> SpanKind {
    if k == 3 {
        SpanKind::Client
    } else if k == 2 {
        SpanKind::Server
    } else {
        SpanKind::Internal
    }
}

/// OTLP's `STATUS_CODE_OK` (1) and `STATUS_CODE_ERROR` (2); anything else, or no status,
/// is unset.
pub open spec fn span_status_of(c: Option<i32>) -> SpanStatus {
    match c {
        Some(1) => SpanStatus::Okay,
        Some(2) => SpanStatus::Error,
        _ => SpanStatus::Unset,
    }
}

pub open spec fn span_signal(sp: SpanIn, res: Seq<(Seq<char>, AttrView)>) -> SignalView {
    SignalView::Span(
        SpanView {
            trace_id: sp.trace_id@,
            span_id: sp.span_id@,
            parent_span_id: sp.parent_span_id@,
            name: sp.name@,
            kind: span_kind_of(sp.kind),
            start_nanos: sp.start_nanos,
            end_nanos: sp.end_nanos,
            status: span_status_of(sp.status_code),
            attributes: res + attrs_of(sp.attributes@),
        },
    )
}

pub open spec fn span_scopes_signals(scopes: Seq<Vec<SpanIn>>, res: Seq<(Seq<char>, AttrView)>) -> Seq<SignalView>
    decreases scopes.len(),
{
    if scopes.len() == 0 {
        Seq::empty()
    } else {
        span_scopes_signals(scopes.drop_last(), res) + scopes.last()@.map_values(|sp: SpanIn| span_signal(sp, res))
    }
}

/// Everything a trace request becomes, in request order.
pub open spec fn convert_traces_spec(req: Seq<ResourceSpansIn>) -> Seq<SignalView>
    decreases req.len(),
{
    if req.len() == 0 {
        Seq::empty()
    } else {
        let r = req.last();
        convert_traces_spec(req.drop_last()) + span_scopes_signals(r.scopes@, attrs_of(r.resource@))
    }
}

fn span_kind(k: i32) -> (r: SpanKind)
    ensures
        r == span_kind_of(k),
{
    if k == 3 {
        SpanKind::Client
    } else if k == 2 {
        SpanKind::Server
    } else {
        SpanKind::Internal
    }
}

fn span_status(c: Option<i32>) -> (r: SpanStatus)
    ensures
        r == span_status_of(c),
{
    match c {
        Some(1) => SpanStatus::Okay,
        Some(2) => SpanStatus::Error,
        _ => SpanStatus::Unset,
    }
}

fn span_of(sp: &SpanIn, res: &Vec<(String, AttrValue)>) -> (s: Signal)
    ensures
        s@ == span_signal(*sp, attrs_view(res@)),
{
    let mut attributes = copy_attrs(res);
    push_attrs(&mut attributes, &sp.attributes);
    Signal::Span(
        Span {
            trace_id: copy_bytes(&sp.trace_id),
            span_id: copy_bytes(&sp.span_id),
            parent_span_id: copy_bytes(&sp.parent_span_id),
            name: owned(sp.name.as_str()),
            kind: span_kind(sp.kind),
            start_nanos: sp.start_nanos,
            end_nanos: sp.end_nanos,
            status: span_status(sp.status_code),
            attributes,
        },
    )
}

/// Flattens a trace request: every span keeps its ids, name and times, its kind and
/// status are mapped, and it carries its resource's attributes ahead of its own.
pub fn convert_traces(req: &Vec<ResourceSpansIn>) -> (out: Vec<Signal>)
    ensures
        signals_view(out@) == convert_traces_spec(req@),
{
    let mut out: Vec<Signal> = Vec::new();
    let mut r: usize = 0;
    assert(req@.take(0) =~= Seq::<ResourceSpansIn>::empty());
    assert(signals_view(out@) =~= Seq::<SignalView>::empty());
    while r < req.len()
        invariant
            r <= req.len(),
            signals_view(out@) == convert_traces_spec(req@.take(r as int)),
        decreases req.len() - r,
    {
        proof {
            assert(req@.take(r + 1).drop_last() =~= req@.take(r as int));
            assert(req@.take(r + 1).last() == req@[r as int]);
        }
        let rs = &req[r];
        let res = attrs_from(&rs.resource);
        let ghost rv = attrs_view(res@);
        let ghost base = signals_view(out@);
        let mut s: usize = 0;
        assert(rs.scopes@.take(0) =~= Seq::<Vec<SpanIn>>::empty());
        assert(base + span_scopes_signals(rs.scopes@.take(0), rv) =~= base);
        while s < rs.scopes.len()
            invariant
                s <= rs.scopes.len(),
                rv == attrs_view(res@),
                signals_view(out@) == base + span_scopes_signals(rs.scopes@.take(s as int), rv),
            decreases rs.scopes.len() - s,
        {
            proof {
                assert(rs.scopes@.take(s + 1).drop_last() =~= rs.scopes@.take(s as int));
                assert(rs.scopes@.take(s + 1).last() == rs.scopes@[s as int]);
            }
            let spans = &rs.scopes[s];
            let ghost mid = signals_view(out@);
            let mut k: usize = 0;
            while k < spans.len()
                invariant
                    k <= spans.len(),
                    rv == attrs_view(res@),
                    signals_view(out@) == mid + spans@.take(k as int).map_values(|sp: SpanIn| span_signal(sp, rv)),
                decreases spans.len() - k,
            {
                let sig = span_of(&spans[k], &res);
                let ghost before = out@;
                out.push(sig);
                assert(signals_view(out@) =~= signals_view(before).push(sig@));
                assert(spans@.take(k + 1).map_values(|sp: SpanIn| span_signal(sp, rv)) =~= spans@.take(k as int).map_values(
                    |sp: SpanIn| span_signal(sp, rv),
                ).push(span_signal(spans@[k as int], rv)));
                k += 1;
            }
            assert(spans@.take(spans.len() as int) =~= spans@);
            assert(signals_view(out@) =~= base + span_scopes_signals(rs.scopes@.take(s + 1), rv));
            s += 1;
        }
        assert(rs.scopes@.take(rs.scopes.len() as int) =~= rs.scopes@);
        assert(signals_view(out@) =~= convert_traces_spec(req@.take(r + 1)));
        r += 1;
    }
    assert(req@.take(req.len() as int) =~= req@);
    out
}

// ------------------------------------------------------------------------------------
// Logs
// ------------------------------------------------------------------------------------

/// A log record as pushed. `severity_number` is OTLP's wire number; `body` is the body
/// as text (a string body as it is, any other body rendered by the edge), `None` when
/// there is no body.
#[derive(Debug, Clone)]
pub struct LogIn {
    pub time_nanos: u64,
    pub observed_nanos: u64,
    pub severity_number: i32,
    pub body: Option<String>,
    pub attributes: Vec<OtlpAttr>,
    pub trace_id: Vec<u8>,
    pub span_id: Vec<u8>,
}

/// One resource of a logs request: its attributes, and its scopes' records.
#[derive(Debug, Clone)]
pub struct ResourceLogsIn {
    pub resource: Vec<OtlpAttr>,
    pub scopes: Vec<Vec<LogIn>>,
}

/// OTLP severity numbers 1–4 are trace, 5–8 debug, 13–16 warn, 17–24 (error and fatal)
/// error; 9–12, unspecified (0) and any unknown number are info.
pub open spec fn severity_of(n: i32) -> Severity {
    if 1 <= n <= 4 {
        Severity::Trace
    } else if 5 <= n <= 8 {
        Severity::Debug
    } else if 13 <= n <= 16 {
        Severity::Warn
    } else if 17 <= n <= 24 {
        Severity::Error
    } else {
        Severity::Info
    }
}

pub open spec fn log_signal(l: LogIn, res: Seq<(Seq<char>, AttrView)>) -> SignalView {
    SignalView::Log(
        LogView {
            severity: severity_of(l.severity_number),
            body: match l.body {
                Some(b) => b@,
                None => Seq::empty(),
            },
            attributes: res + attrs_of(l.attributes@),
            time_nanos: if l.time_nanos != 0 {
                l.time_nanos
            } else {
                l.observed_nanos
            },
            trace_id: l.trace_id@,
            span_id: l.span_id@,
        },
    )
}

pub open spec fn log_scopes_signals(scopes: Seq<Vec<LogIn>>, res: Seq<(Seq<char>, AttrView)>) -> Seq<SignalView>
    decreases scopes.len(),
{
    if scopes.len() == 0 {
        Seq::empty()
    } else {
        log_scopes_signals(scopes.drop_last(), res) + scopes.last()@.map_values(|l: LogIn| log_signal(l, res))
    }
}

/// Everything a logs request becomes, in request order.
pub open spec fn convert_logs_spec(req: Seq<ResourceLogsIn>) -> Seq<SignalView>
    decreases req.len(),
{
    if req.len() == 0 {
        Seq::empty()
    } else {
        let r = req.last();
        convert_logs_spec(req.drop_last()) + log_scopes_signals(r.scopes@, attrs_of(r.resource@))
    }
}

/// The severity of an OTLP severity number.
pub fn map_severity(n: i32) -> (s: Severity)
    ensures
        s == severity_of(n),
{
    if 1 <= n && n <= 4 {
        Severity::Trace
    } else if 5 <= n && n <= 8 {
        Severity::Debug
    } else if 13 <= n && n <= 16 {
        Severity::Warn
    } else if 17 <= n && n <= 24 {
        Severity::Error
    } else {
        Severity::Info
    }
}

fn log_of(l: &LogIn, res: &Vec<(String, AttrValue)>) -> (s: Signal)
    ensures
        s@ == log_signal(*l, attrs_view(res@)),
{
    let mut attributes = copy_attrs(res);
    push_attrs(&mut attributes, &l.attributes);
    let body = match &l.body {
        Some(b) => owned(b.as_str()),
        None => {
            let e = owned("");
            proof {
                reveal_strlit("");
                assert(e@ =~= Seq::<char>::empty());
            }
            e
        },
    };
    Signal::Log(
        LogRecord {
            severity: map_severity(l.severity_number),
            body,
            attributes,
            time_nanos: if l.time_nanos != 0 {
                l.time_nanos
            } else {
                l.observed_nanos
            },
            trace_id: copy_bytes(&l.trace_id),
            span_id: copy_bytes(&l.span_id),
        },
    )
}

/// Flattens a logs request: every record keeps its body, ids and time (its observed time
/// when it has none), its severity is mapped, and it carries its resource's attributes
/// ahead of its own.
pub fn convert_logs(req: &Vec<ResourceLogsIn>) -> (out: Vec<Signal>)
    ensures
        signals_view(out@) == convert_logs_spec(req@),
{
    let mut out: Vec<Signal> = Vec::new();
    let mut r: usize = 0;
    assert(req@.take(0) =~= Seq::<ResourceLogsIn>::empty());
    assert(signals_view(out@) =~= Seq::<SignalView>::empty());
    while r < req.len()
        invariant
            r <= req.len(),
            signals_view(out@) == convert_logs_spec(req@.take(r as int)),
        decreases req.len() - r,
    {
        proof {
            assert(req@.take(r + 1).drop_last() =~= req@.take(r as int));
            assert(req@.take(r + 1).last() == req@[r as int]);
        }
        let rl = &req[r];
        let res = attrs_from(&rl.resource);
        let ghost rv = attrs_view(res@);
        let ghost base = signals_view(out@);
        let mut s: usize = 0;
        assert(rl.scopes@.take(0) =~= Seq::<Vec<LogIn>>::empty());
        assert(base + log_scopes_signals(rl.scopes@.take(0), rv) =~= base);
        while s < rl.scopes.len()
            invariant
                s <= rl.scopes.len(),
                rv == attrs_view(res@),
                signals_view(out@) == base + log_scopes_signals(rl.scopes@.take(s as int), rv),
            decreases rl.scopes.len() - s,
        {
            proof {
                assert(rl.scopes@.take(s + 1).drop_last() =~= rl.scopes@.take(s as int));
                assert(rl.scopes@.take(s + 1).last() == rl.scopes@[s as int]);
            }
            let logs = &rl.scopes[s];
            let ghost mid = signals_view(out@);
            let mut k: usize = 0;
            while k < logs.len()
                invariant
                    k <= logs.len(),
                    rv == attrs_view(res@),
                    signals_view(out@) == mid + logs@.take(k as int).map_values(|l: LogIn| log_signal(l, rv)),
                decreases logs.len() - k,
            {
                let sig = log_of(&logs[k], &res);
                let ghost before = out@;
                out.push(sig);
                assert(signals_view(out@) =~= signals_view(before).push(sig@));
                assert(logs@.take(k + 1).map_values(|l: LogIn| log_signal(l, rv)) =~= logs@.take(k as int).map_values(
                    |l: LogIn| log_signal(l, rv),
                ).push(log_signal(logs@[k as int], rv)));
                k += 1;
            }
            assert(logs@.take(logs.len() as int) =~= logs@);
            assert(signals_view(out@) =~= base + log_scopes_signals(rl.scopes@.take(s + 1), rv));
            s += 1;
        }
        assert(rl.scopes@.take(rl.scopes.len() as int) =~= rl.scopes@);
        assert(signals_view(out@) =~= convert_logs_spec(req@.take(r + 1)));
        r += 1;
    }
    assert(req@.take(req.len() as int) =~= req@);
    out
}

// ------------------------------------------------------------------------------------
// What ingest keeps
// ------------------------------------------------------------------------------------

/// A signal's attributes, by view.
pub open spec fn view_attrs(s: SignalView) -> Seq<(Seq<char>, AttrView)> {
    match s {
        SignalView::Metric(m) => m.attributes,
        SignalView::Histogram(h) => h.attributes,
        SignalView::Log(l) => l.attributes,
        SignalView::Span(sp) => sp.attributes,
    }
}

/// Every signal of `ss` starts its attributes with `res`.
pub open spec fn all_carry(ss: Seq<SignalView>, res: Seq<(Seq<char>, AttrView)>) -> bool {
    forall|i: int| 0 <= i < ss.len() ==> res.is_prefix_of(view_attrs(#[trigger] ss[i]))
}

proof fn lemma_prefix_of_concat(res: Seq<(Seq<char>, AttrView)>, x: Seq<(Seq<char>, AttrView)>)
    ensures
        res.is_prefix_of(res + x),
{
    assert((res + x).subrange(0, res.len() as int) =~= res);
}

proof fn lemma_all_carry_concat(a: Seq<SignalView>, b: Seq<SignalView>, res: Seq<(Seq<char>, AttrView)>)
    requires
        all_carry(a, res),
        all_carry(b, res),
    ensures
        all_carry(a + b, res),
{
    assert forall|i: int| 0 <= i < (a + b).len() implies res.is_prefix_of(view_attrs(#[trigger] (a + b)[i])) by {
        if i < a.len() {
            assert((a + b)[i] == a[i]);
        } else {
            assert((a + b)[i] == b[i - a.len()]);
        }
    }
}

proof fn lemma_numbers_carry(name: Seq<char>, unit: Option<Seq<char>>, kind: MetricKind, dps: Seq<NumberPoint>, res: Seq<(Seq<char>, AttrView)>)
    ensures
        all_carry(number_signals(name, unit, kind, dps, res), res),
    decreases dps.len(),
{
    if dps.len() > 0 {
        lemma_numbers_carry(name, unit, kind, dps.drop_last(), res);
        lemma_prefix_of_concat(res, attrs_of(dps.last().attributes@));
        let init = number_signals(name, unit, kind, dps.drop_last(), res);
        let all = number_signals(name, unit, kind, dps, res);
        assert forall|i: int| 0 <= i < all.len() implies res.is_prefix_of(view_attrs(#[trigger] all[i])) by {
            if i < init.len() {
                assert(all[i] == init[i]);
            }
        }
    }
}

proof fn lemma_metric_carries(m: MetricIn, res: Seq<(Seq<char>, AttrView)>)
    ensures
        all_carry(metric_signals(m, res), res),
{
    let unit = unit_of(m.unit@);
    match m.data {
        MetricData::Gauge(ps) => lemma_numbers_carry(m.name@, unit, MetricKind::Gauge, ps@, res),
        MetricData::Sum { monotonic, points } => lemma_numbers_carry(m.name@, unit, sum_kind(monotonic), points@, res),
        MetricData::Histogram(hs) => {
            let all = histogram_signals(m.name@, unit, hs@, res);
            assert forall|i: int| 0 <= i < all.len() implies res.is_prefix_of(view_attrs(#[trigger] all[i])) by {
                lemma_prefix_of_concat(res, attrs_of(hs@[i].attributes@));
            }
        },
        MetricData::Unmapped => {},
    }
}

proof fn lemma_metric_scopes_carry(scopes: Seq<Vec<MetricIn>>, res: Seq<(Seq<char>, AttrView)>)
    ensures
        all_carry(metric_scopes_signals(scopes, res), res),
    decreases scopes.len(),
{
    if scopes.len() > 0 {
        lemma_metric_scopes_carry(scopes.drop_last(), res);
        lemma_metrics_carry(scopes.last()@, res);
        lemma_all_carry_concat(metric_scopes_signals(scopes.drop_last(), res), metrics_signals(scopes.last()@, res), res);
    }
}

proof fn lemma_metrics_carry(ms: Seq<MetricIn>, res: Seq<(Seq<char>, AttrView)>)
    ensures
        all_carry(metrics_signals(ms, res), res),
    decreases ms.len(),
{
    if ms.len() > 0 {
        lemma_metrics_carry(ms.drop_last(), res);
        lemma_metric_carries(ms.last(), res);
        lemma_all_carry_concat(metrics_signals(ms.drop_last(), res), metric_signals(ms.last(), res), res);
    }
}

/// Ingest never drops a resource's identity: every signal a resource's metrics become
/// carries all of that resource's attributes, ahead of its own; a request is its
/// resources' signals, one resource after another.
pub proof fn law_metrics_keep_resource_identity(rs: Seq<ResourceMetricsIn>, r: ResourceMetricsIn)
    ensures
        all_carry(metric_scopes_signals(r.scopes@, attrs_of(r.resource@)), attrs_of(r.resource@)),
        convert_spec(rs.push(r)) == convert_spec(rs) + metric_scopes_signals(r.scopes@, attrs_of(r.resource@)),
{
    lemma_metric_scopes_carry(r.scopes@, attrs_of(r.resource@));
    assert(rs.push(r).drop_last() =~= rs);
}

proof fn lemma_span_scopes_carry(scopes: Seq<Vec<SpanIn>>, res: Seq<(Seq<char>, AttrView)>)
    ensures
        all_carry(span_scopes_signals(scopes, res), res),
    decreases scopes.len(),
{
    if scopes.len() > 0 {
        lemma_span_scopes_carry(scopes.drop_last(), res);
        let last = scopes.last()@.map_values(|sp: SpanIn| span_signal(sp, res));
        assert forall|i: int| 0 <= i < last.len() implies res.is_prefix_of(view_attrs(#[trigger] last[i])) by {
            lemma_prefix_of_concat(res, attrs_of(scopes.last()@[i].attributes@));
        }
        lemma_all_carry_concat(span_scopes_signals(scopes.drop_last(), res), last, res);
    }
}

/// Every span of a resource carries all of that resource's attributes, ahead of its own.
pub proof fn law_spans_keep_resource_identity(rs: Seq<ResourceSpansIn>, r: ResourceSpansIn)
    ensures
        all_carry(span_scopes_signals(r.scopes@, attrs_of(r.resource@)), attrs_of(r.resource@)),
        convert_traces_spec(rs.push(r)) == convert_traces_spec(rs) + span_scopes_signals(r.scopes@, attrs_of(r.resource@)),
{
    lemma_span_scopes_carry(r.scopes@, attrs_of(r.resource@));
    assert(rs.push(r).drop_last() =~= rs);
}

proof fn lemma_log_scopes_carry(scopes: Seq<Vec<LogIn>>, res: Seq<(Seq<char>, AttrView)>)
    ensures
        all_carry(log_scopes_signals(scopes, res), res),
    decreases scopes.len(),
{
    if scopes.len() > 0 {
        lemma_log_scopes_carry(scopes.drop_last(), res);
        let last = scopes.last()@.map_values(|l: LogIn| log_signal(l, res));
        assert forall|i: int| 0 <= i < last.len() implies res.is_prefix_of(view_attrs(#[trigger] last[i])) by {
            lemma_prefix_of_concat(res, attrs_of(scopes.last()@[i].attributes@));
        }
        lemma_all_carry_concat(log_scopes_signals(scopes.drop_last(), res), last, res);
    }
}

/// Every log record of a resource carries all of that resource's attributes, ahead of
/// its own.
pub proof fn law_logs_keep_resource_identity(rs: Seq<ResourceLogsIn>, r: ResourceLogsIn)
    ensures
        all_carry(log_scopes_signals(r.scopes@, attrs_of(r.resource@)), attrs_of(r.resource@)),
        convert_logs_spec(rs.push(r)) == convert_logs_spec(rs) + log_scopes_signals(r.scopes@, attrs_of(r.resource@)),
{
    lemma_log_scopes_carry(r.scopes@, attrs_of(r.resource@));
    assert(rs.push(r).drop_last() =~= rs);
}

/// A pushed histogram metric becomes one histogram signal per data point, in order, and
/// each keeps its point's count, buckets, bounds, minimum, maximum and times, with the
/// sum kept when present and zero when absent.
pub proof fn law_histograms_keep_their_points(m: MetricIn, res: Seq<(Seq<char>, AttrView)>)
    requires
        m.data is Histogram,
    ensures
        ({
            let hs = m.data->Histogram_0@;
            let out = metric_signals(m, res);
            &&& out.len() == hs.len()
            &&& forall|i: int|
                0 <= i < hs.len() ==> (#[trigger] out[i] matches SignalView::Histogram(h) && h.name == m.name@
                    && h.count == hs[i].count && h.bucket_counts == hs[i].bucket_counts@
                    && h.explicit_bounds_bits == hs[i].explicit_bounds_bits@ && h.min_bits == hs[i].min_bits
                    && h.max_bits == hs[i].max_bits && h.start_nanos == hs[i].start_nanos
                    && h.time_nanos == hs[i].time_nanos && (hs[i].sum_bits matches Some(b) ==> h.sum_bits == b)
                    && (hs[i].sum_bits is None ==> h.sum_bits == 0))
        }),
{
}

} // verus!
