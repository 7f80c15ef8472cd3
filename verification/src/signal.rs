//! The canonical signal model, independent of any telemetry SDK.
//!
//! Values are exact: a metric carries a [`Quantity`] (an integer, an integer ratio, or an
//! IEEE-754 double passed through unchanged as its bit pattern), and the edge that talks
//! to a telemetry backend turns it into a floating-point number.

use crate::text::owned;
use vstd::prelude::*;

verus! {

/// The monitored layer a signal describes. The stack is exactly these six; there is no
/// catch-all variant.
#[derive(Debug, Clone, Copy, PartialEq, Eq, Structural)]
pub enum Layer {
    Host,
    Watcher,
    Gateway,
    Proxy,
    Webapp,
    Harness,
}

/// The attribute key that carries a signal's layer.
pub open spec fn layer_attr_spec() -> Seq<char> {
    "harnesssphere.layer"@
}

pub fn layer_attr() -> (s: String)
    ensures
        s@ == layer_attr_spec(),
{
    owned("harnesssphere.layer")
}

/// The lowercase name of each layer.
pub open spec fn layer_name(l: Layer) -> Seq<char> {
    match l {
        Layer::Host => "host"@,
        Layer::Watcher => "watcher"@,
        Layer::Gateway => "gateway"@,
        Layer::Proxy => "proxy"@,
        Layer::Webapp => "webapp"@,
        Layer::Harness => "harness"@,
    }
}

impl Layer {
    pub fn as_str(self) -> (s: &'static str)
        ensures
            s@ == layer_name(self),
    {
        match self {
            Layer::Host => "host",
            Layer::Watcher => "watcher",
            Layer::Gateway => "gateway",
            Layer::Proxy => "proxy",
            Layer::Webapp => "webapp",
            Layer::Harness => "harness",
        }
    }

    /// The layer whose name is exactly `s`; anything else is rejected rather than
    /// guessed.
    pub fn parse(s: &str) -> (r: Option<Layer>)
        ensures
            r matches Some(l) ==> layer_name(l) == s@,
            r is None ==> forall|l: Layer| layer_name(l) != s@,
    {
        let v = crate::text::chars_of(s);
        let n = v.len();
        let all = [Layer::Host, Layer::Watcher, Layer::Gateway, Layer::Proxy, Layer::Webapp, Layer::Harness];
        let mut i: usize = 0;
        while i < 6
            invariant
                v@ == s@,
                n == v.len(),
                all@ == seq![Layer::Host, Layer::Watcher, Layer::Gateway, Layer::Proxy, Layer::Webapp, Layer::Harness],
                forall|j: int| 0 <= j < i ==> layer_name(#[trigger] all@[j]) != s@,
            decreases 6 - i,
        {
            let name = crate::text::chars_of(all[i].as_str());
            if crate::text::window_eq(&v, 0, n, &name) {
                assert(v@.subrange(0, n as int) =~= v@);
                return Some(all[i]);
            }
            assert(v@.subrange(0, n as int) =~= v@);
            i += 1;
        }
        assert forall|l: Layer| layer_name(l) != s@ by {
            match l {
                Layer::Host => assert(all@[0] == l),
                Layer::Watcher => assert(all@[1] == l),
                Layer::Gateway => assert(all@[2] == l),
                Layer::Proxy => assert(all@[3] == l),
                Layer::Webapp => assert(all@[4] == l),
                Layer::Harness => assert(all@[5] == l),
            }
        }
        None
    }
}

/// Attribute value (the OTel-compatible subset). A floating-point value is carried as the
/// bit pattern of its `f64`.
#[derive(Debug, Clone)]
pub enum AttrValue {
    Str(String),
    Int(i64),
    Float(u64),
    Bool(bool),
}

/// What an attribute value is, with its string taken by view.
pub enum AttrView {
    Str(Seq<char>),
    Int(i64),
    Float(u64),
    Bool(bool),
}

impl View for AttrValue {
    type V = AttrView;

    open spec fn view(&self) -> AttrView {
        match self {
            AttrValue::Str(s) => AttrView::Str(s@),
            AttrValue::Int(i) => AttrView::Int(*i),
            AttrValue::Float(b) => AttrView::Float(*b),
            AttrValue::Bool(b) => AttrView::Bool(*b),
        }
    }
}

impl AttrValue {
    /// A copy of this value.
    pub fn clone_value(&self) -> (a: AttrValue)
        ensures
            a@ == self@,
    {
        match self {
            AttrValue::Str(s) => AttrValue::Str(owned(s.as_str())),
            AttrValue::Int(i) => AttrValue::Int(*i),
            AttrValue::Float(b) => AttrValue::Float(*b),
            AttrValue::Bool(b) => AttrValue::Bool(*b),
        }
    }

    /// A string attribute holding a copy of `s`.
    pub fn text(s: &str) -> (a: AttrValue)
        ensures
            a@ == AttrView::Str(s@),
    {
        AttrValue::Str(owned(s))
    }
}

/// A key/value attribute pair by view.
pub open spec fn pair_view(p: (String, AttrValue)) -> (Seq<char>, AttrView) {
    (p.0@, p.1@)
}

/// A list of attributes by view.
pub open spec fn attrs_view(a: Seq<(String, AttrValue)>) -> Seq<(Seq<char>, AttrView)> {
    a.map_values(|p: (String, AttrValue)| pair_view(p))
}

/// Metric instrument type.
#[derive(Debug, Clone, Copy, PartialEq, Eq, Structural)]
pub enum MetricKind {
    Gauge,
    Counter,
    UpDownCounter,
    Histogram,
}

#[derive(Debug, Clone, Copy, PartialEq, Eq, Structural)]
pub enum Severity {
    Trace,
    Debug,
    Info,
    Warn,
    Error,
}

#[derive(Debug, Clone, Copy, PartialEq, Eq, Structural)]
pub enum SpanKind {
    Internal,
    Client,
    Server,
}

#[derive(Debug, Clone, Copy, PartialEq, Eq, Structural)]
pub enum SpanStatus {
    Unset,
    Okay,
    Error,
}

/// An exact metric value.
#[derive(Debug, Clone, Copy, PartialEq, Eq, Structural)]
pub enum Quantity {
    /// A whole number.
    Count(u64),
    /// The fraction `numerator / denominator`; the denominator is never zero.
    Ratio(u64, u64),
    /// A double measured outside the library, as its bit pattern.
    FloatBits(u64),
    /// A percentage measured outside the library as an `f32` (its bit pattern); the
    /// value is that percentage divided by 100.
    PercentF32(u32),
    /// A signed whole number, as pushed over OTLP.
    Int(i64),
}

/// A metric sample as the collectors produce it.
#[derive(Debug, Clone)]
pub struct Metric {
    pub name: String,
    pub kind: MetricKind,
    pub value: Quantity,
    pub unit: Option<String>,
    pub attributes: Vec<(String, AttrValue)>,
}

/// A metric by view.
pub struct MetricView {
    pub name: Seq<char>,
    pub kind: MetricKind,
    pub value: Quantity,
    pub unit: Option<Seq<char>>,
    pub attributes: Seq<(Seq<char>, AttrView)>,
}

pub open spec fn opt_view(u: Option<String>) -> Option<Seq<char>> {
    match u {
        Some(s) => Some(s@),
        None => None,
    }
}

impl View for Metric {
    type V = MetricView;

    open spec fn view(&self) -> MetricView {
        MetricView {
            name: self.name@,
            kind: self.kind,
            value: self.value,
            unit: opt_view(self.unit),
            attributes: attrs_view(self.attributes@),
        }
    }
}

/// A list of metrics by view.
pub open spec fn metrics_view(ms: Seq<Metric>) -> Seq<MetricView> {
    ms.map_values(|m: Metric| m@)
}

/// Moves every metric of `more` onto the end of `out`.
pub fn append_metrics(out: &mut Vec<Metric>, more: Vec<Metric>)
    ensures
        metrics_view(final(out)@) == metrics_view(old(out)@) + metrics_view(more@),
{
    let mut more = more;
    let ghost a = out@;
    let ghost b = more@;
    out.append(&mut more);
    assert(metrics_view(a + b) =~= metrics_view(a) + metrics_view(b));
}

/// The metric named `name` with no unit and no attributes.
pub open spec fn bare(name: Seq<char>, kind: MetricKind, value: Quantity) -> MetricView {
    MetricView { name, kind, value, unit: None, attributes: Seq::empty() }
}

impl MetricView {
    pub open spec fn with_unit(self, unit: Seq<char>) -> MetricView {
        MetricView { unit: Some(unit), ..self }
    }

    pub open spec fn attr(self, key: Seq<char>, value: AttrView) -> MetricView {
        MetricView { attributes: self.attributes.push((key, value)), ..self }
    }
}

impl Metric {
    /// A metric with no unit and no attributes.
    pub fn new(name: &str, kind: MetricKind, value: Quantity) -> (m: Metric)
        ensures
            m@ == bare(name@, kind, value),
    {
        let m = Metric { name: owned(name), kind, value, unit: None, attributes: Vec::new() };
        assert(attrs_view(m.attributes@) =~= Seq::<(Seq<char>, AttrView)>::empty());
        m
    }

    pub fn with_unit(self, unit: &str) -> (m: Metric)
        ensures
            m@ == self@.with_unit(unit@),
    {
        Metric { unit: Some(owned(unit)), ..self }
    }

    /// Appends `(key, value)` to the attributes.
    pub fn attr(self, key: &str, value: AttrValue) -> (m: Metric)
        ensures
            m@ == self@.attr(key@, value@),
    {
        let mut m = self;
        let ghost before = m.attributes@;
        m.attributes.push((owned(key), value));
        assert(attrs_view(m.attributes@) =~= attrs_view(before).push((key@, value@)));
        m
    }

    /// Appends `(key, value)` with an owned key.
    pub fn attr_owned(self, key: String, value: AttrValue) -> (m: Metric)
        ensures
            m@ == self@.attr(key@, value@),
    {
        let mut m = self;
        let ghost before = m.attributes@;
        m.attributes.push((key, value));
        assert(attrs_view(m.attributes@) =~= attrs_view(before).push((key@, value@)));
        m
    }
}

/// A pre-aggregated explicit-bucket histogram point. Floating-point fields are carried
/// as the bit patterns of their `f64`s and times as nanoseconds since the Unix epoch.
#[derive(Debug, Clone)]
pub struct HistogramPoint {
    pub name: String,
    pub unit: Option<String>,
    pub count: u64,
    pub sum_bits: u64,
    pub bucket_counts: Vec<u64>,
    pub explicit_bounds_bits: Vec<u64>,
    pub min_bits: Option<u64>,
    pub max_bits: Option<u64>,
    pub start_nanos: u64,
    pub time_nanos: u64,
    pub attributes: Vec<(String, AttrValue)>,
}

#[derive(Debug, Clone)]
pub struct LogRecord {
    pub severity: Severity,
    pub body: String,
    pub attributes: Vec<(String, AttrValue)>,
    pub time_nanos: u64,
    /// Trace correlation, raw bytes; empty when there is none.
    pub trace_id: Vec<u8>,
    pub span_id: Vec<u8>,
}

#[derive(Debug, Clone)]
pub struct Span {
    /// 16-byte W3C trace id.
    pub trace_id: Vec<u8>,
    /// 8-byte span id.
    pub span_id: Vec<u8>,
    /// 8-byte parent span id; empty for a root span.
    pub parent_span_id: Vec<u8>,
    pub name: String,
    pub kind: SpanKind,
    pub start_nanos: u64,
    pub end_nanos: u64,
    pub status: SpanStatus,
    pub attributes: Vec<(String, AttrValue)>,
}

/// The unit that flows from the sources to the exporter.
#[derive(Debug, Clone)]
pub enum Signal {
    Metric(Metric),
    Histogram(HistogramPoint),
    Log(LogRecord),
    Span(Span),
}

/// A histogram point, with its strings and lists by view.
pub struct HistogramView {
    pub name: Seq<char>,
    pub unit: Option<Seq<char>>,
    pub count: u64,
    pub sum_bits: u64,
    pub bucket_counts: Seq<u64>,
    pub explicit_bounds_bits: Seq<u64>,
    pub min_bits: Option<u64>,
    pub max_bits: Option<u64>,
    pub start_nanos: u64,
    pub time_nanos: u64,
    pub attributes: Seq<(Seq<char>, AttrView)>,
}

impl View for HistogramPoint {
    type V = HistogramView;

    open spec fn view(&self) -> HistogramView {
        HistogramView {
            name: self.name@,
            unit: opt_view(self.unit),
            count: self.count,
            sum_bits: self.sum_bits,
            bucket_counts: self.bucket_counts@,
            explicit_bounds_bits: self.explicit_bounds_bits@,
            min_bits: self.min_bits,
            max_bits: self.max_bits,
            start_nanos: self.start_nanos,
            time_nanos: self.time_nanos,
            attributes: attrs_view(self.attributes@),
        }
    }
}

/// A log record, with its strings and lists by view.
pub struct LogView {
    pub severity: Severity,
    pub body: Seq<char>,
    pub attributes: Seq<(Seq<char>, AttrView)>,
    pub time_nanos: u64,
    pub trace_id: Seq<u8>,
    pub span_id: Seq<u8>,
}

impl View for LogRecord {
    type V = LogView;

    open spec fn view(&self) -> LogView {
        LogView {
            severity: self.severity,
            body: self.body@,
            attributes: attrs_view(self.attributes@),
            time_nanos: self.time_nanos,
            trace_id: self.trace_id@,
            span_id: self.span_id@,
        }
    }
}

/// A span, with its strings and lists by view.
pub struct SpanView {
    pub trace_id: Seq<u8>,
    pub span_id: Seq<u8>,
    pub parent_span_id: Seq<u8>,
    pub name: Seq<char>,
    pub kind: SpanKind,
    pub start_nanos: u64,
    pub end_nanos: u64,
    pub status: SpanStatus,
    pub attributes: Seq<(Seq<char>, AttrView)>,
}

impl View for Span {
    type V = SpanView;

    open spec fn view(&self) -> SpanView {
        SpanView {
            trace_id: self.trace_id@,
            span_id: self.span_id@,
            parent_span_id: self.parent_span_id@,
            name: self.name@,
            kind: self.kind,
            start_nanos: self.start_nanos,
            end_nanos: self.end_nanos,
            status: self.status,
            attributes: attrs_view(self.attributes@),
        }
    }
}

/// A signal by view.
pub enum SignalView {
    Metric(MetricView),
    Histogram(HistogramView),
    Log(LogView),
    Span(SpanView),
}

impl View for Signal {
    type V = SignalView;

    open spec fn view(&self) -> SignalView {
        match self {
            Signal::Metric(m) => SignalView::Metric(m@),
            Signal::Histogram(h) => SignalView::Histogram(h@),
            Signal::Log(l) => SignalView::Log(l@),
            Signal::Span(sp) => SignalView::Span(sp@),
        }
    }
}

/// A list of signals by view.
pub open spec fn signals_view(ss: Seq<Signal>) -> Seq<SignalView> {
    ss.map_values(|s: Signal| s@)
}

/// A signal's attributes, by view.
pub open spec fn signal_attrs(s: Signal) -> Seq<(Seq<char>, AttrView)> {
    match s {
        Signal::Metric(m) => attrs_view(m.attributes@),
        Signal::Histogram(h) => attrs_view(h.attributes@),
        Signal::Log(l) => attrs_view(l.attributes@),
        Signal::Span(sp) => attrs_view(sp.attributes@),
    }
}

/// The same kind of signal, with everything but the attributes unchanged.
pub open spec fn same_but_attrs(a: Signal, b: Signal) -> bool {
    match (a, b) {
        (Signal::Metric(x), Signal::Metric(y)) => x@.name == y@.name && x@.kind == y@.kind && x@.value == y@.value
            && x@.unit == y@.unit,
        (Signal::Histogram(x), Signal::Histogram(y)) => x.name@ == y.name@ && x.count == y.count && x.sum_bits == y.sum_bits
            && x.bucket_counts@ == y.bucket_counts@ && x.explicit_bounds_bits@ == y.explicit_bounds_bits@,
        (Signal::Log(x), Signal::Log(y)) => x.severity == y.severity && x.body@ == y.body@ && x.time_nanos == y.time_nanos,
        (Signal::Span(x), Signal::Span(y)) => x.name@ == y.name@ && x.kind == y.kind && x.status == y.status
            && x.trace_id@ == y.trace_id@ && x.span_id@ == y.span_id@,
        _ => false,
    }
}

impl Signal {
    /// Appends `(key, value)` to the signal's attributes.
    pub fn push_attr(&mut self, key: String, value: AttrValue)
        ensures
            signal_attrs(*final(self)) == signal_attrs(*old(self)).push((key@, value@)),
            same_but_attrs(*old(self), *final(self)),
    {
        let ghost k = key@;
        let ghost v = value@;
        match self {
            Signal::Metric(m) => {
                let ghost before = m.attributes@;
                m.attributes.push((key, value));
                assert(attrs_view(m.attributes@) =~= attrs_view(before).push((k, v)));
            },
            Signal::Histogram(h) => {
                let ghost before = h.attributes@;
                h.attributes.push((key, value));
                assert(attrs_view(h.attributes@) =~= attrs_view(before).push((k, v)));
            },
            Signal::Log(l) => {
                let ghost before = l.attributes@;
                l.attributes.push((key, value));
                assert(attrs_view(l.attributes@) =~= attrs_view(before).push((k, v)));
            },
            Signal::Span(sp) => {
                let ghost before = sp.attributes@;
                sp.attributes.push((key, value));
                assert(attrs_view(sp.attributes@) =~= attrs_view(before).push((k, v)));
            },
        }
    }

    /// The signal's attributes.
    pub fn attributes(&self) -> (a: &Vec<(String, AttrValue)>)
        ensures
            attrs_view(a@) == signal_attrs(*self),
    {
        match self {
            Signal::Metric(m) => &m.attributes,
            Signal::Histogram(h) => &h.attributes,
            Signal::Log(l) => &l.attributes,
            Signal::Span(sp) => &sp.attributes,
        }
    }
}

impl Metric {
    pub fn into_signal(self) -> (s: Signal)
        ensures
            s matches Signal::Metric(m) && m@ == self@,
    {
        Signal::Metric(self)
    }
}

} // verus!
