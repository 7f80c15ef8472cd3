use harnesssphere::ingest::{
    convert, convert_logs, convert_traces, map_severity, HistogramIn, LogIn, MetricData, MetricIn,
    NumberPoint, NumberValue, OtlpAttr, OtlpValue, ResourceLogsIn, ResourceMetricsIn, ResourceSpansIn,
    SpanIn,
};
use harnesssphere::signal::{AttrValue, MetricKind, Quantity, Severity, Signal, SpanKind, SpanStatus};

fn str_kv(key: &str, val: &str) -> OtlpAttr {
    OtlpAttr { key: key.to_owned(), value: Some(OtlpValue::Str(val.to_owned())) }
}

fn double_dp(value: f64, attrs: Vec<OtlpAttr>) -> NumberPoint {
    NumberPoint { attributes: attrs, value: Some(NumberValue::Double(value.to_bits())) }
}

fn request_with(metric: MetricIn, resource_attrs: Vec<OtlpAttr>) -> Vec<ResourceMetricsIn> {
    vec![ResourceMetricsIn { resource: resource_attrs, scopes: vec![vec![metric]] }]
}

fn has_str(attrs: &[(String, AttrValue)], key: &str, val: &str) -> bool {
    attrs.iter().any(|(k, v)| k == key && matches!(v, AttrValue::Str(s) if s == val))
}

#[test]
fn maps_gauge_keeps_unit_dp_attr_and_resource_identity() {
    let req = request_with(
        MetricIn {
            name: "system.memory.usage".into(),
            unit: "By".into(),
            data: MetricData::Gauge(vec![double_dp(123.0, vec![str_kv("system.memory.state", "used")])]),
        },
        vec![str_kv("service.name", "openclaw")],
    );
    let signals = convert(&req);
    assert_eq!(signals.len(), 1);
    let Signal::Metric(m) = &signals[0] else {
        panic!("expected a metric");
    };
    assert_eq!(m.name, "system.memory.usage");
    assert_eq!(m.kind, MetricKind::Gauge);
    assert_eq!(m.value, Quantity::FloatBits(123.0f64.to_bits()));
    assert_eq!(m.unit.as_deref(), Some("By"));
    assert!(m.attributes.iter().any(|(k, _)| k == "system.memory.state"));
    assert!(has_str(&m.attributes, "service.name", "openclaw"), "resource-level service.name must be merged onto the data point");
}

#[test]
fn monotonic_sum_maps_to_counter_nonmonotonic_to_updown() {
    let mono = request_with(
        MetricIn {
            name: "some.counter".into(),
            unit: String::new(),
            data: MetricData::Sum { monotonic: true, points: vec![double_dp(1.0, vec![])] },
        },
        vec![],
    );
    let nonmono = request_with(
        MetricIn {
            name: "some.level".into(),
            unit: String::new(),
            data: MetricData::Sum { monotonic: false, points: vec![double_dp(1.0, vec![])] },
        },
        vec![],
    );
    let Signal::Metric(c) = &convert(&mono)[0] else {
        panic!("metric");
    };
    assert_eq!(c.kind, MetricKind::Counter);
    let Signal::Metric(l) = &convert(&nonmono)[0] else {
        panic!("metric");
    };
    assert_eq!(l.kind, MetricKind::UpDownCounter);
}

#[test]
fn maps_histogram_preserving_count_sum_buckets_and_identity() {
    let dp = HistogramIn {
        attributes: vec![str_kv("gen_ai.token.type", "input")],
        count: 9,
        sum_bits: Some(420.0f64.to_bits()),
        bucket_counts: vec![1, 3, 5],
        explicit_bounds_bits: vec![10.0f64.to_bits(), 100.0f64.to_bits()],
        min_bits: None,
        max_bits: None,
        start_nanos: 0,
        time_nanos: 0,
    };
    let req = request_with(
        MetricIn { name: "gen_ai.client.token.usage".into(), unit: "{token}".into(), data: MetricData::Histogram(vec![dp]) },
        vec![str_kv("service.name", "openclaw")],
    );
    let signals = convert(&req);
    assert_eq!(signals.len(), 1);
    let Signal::Histogram(h) = &signals[0] else {
        panic!("expected a histogram");
    };
    assert_eq!(h.name, "gen_ai.client.token.usage");
    assert_eq!(h.count, 9);
    assert_eq!(f64::from_bits(h.sum_bits), 420.0);
    assert_eq!(h.bucket_counts, vec![1, 3, 5]);
    assert_eq!(h.unit.as_deref(), Some("{token}"));
    assert!(h.attributes.iter().any(|(k, _)| k == "gen_ai.token.type"));
    assert!(has_str(&h.attributes, "service.name", "openclaw"), "resource identity must be merged onto the histogram");
}

#[test]
fn points_without_a_value_and_unmapped_metrics_are_dropped() {
    let req = vec![ResourceMetricsIn {
        resource: vec![],
        scopes: vec![
            vec![MetricIn {
                name: "g".into(),
                unit: String::new(),
                data: MetricData::Gauge(vec![
                    NumberPoint { attributes: vec![], value: None },
                    NumberPoint { attributes: vec![], value: Some(NumberValue::Int(-4)) },
                ]),
            }],
            vec![MetricIn { name: "summary".into(), unit: String::new(), data: MetricData::Unmapped }],
        ],
    }];
    let signals = convert(&req);
    assert_eq!(signals.len(), 1);
    let Signal::Metric(m) = &signals[0] else {
        panic!("metric");
    };
    assert_eq!(m.value, Quantity::Int(-4));
    assert_eq!(m.unit, None);
}

#[test]
fn resource_attributes_come_first_and_unsupported_values_are_skipped() {
    let resource = vec![
        str_kv("service.name", "svc"),
        OtlpAttr { key: "blob".into(), value: Some(OtlpValue::Other) },
        OtlpAttr { key: "empty".into(), value: None },
        OtlpAttr { key: "n".into(), value: Some(OtlpValue::Int(7)) },
    ];
    let req = request_with(
        MetricIn {
            name: "m".into(),
            unit: String::new(),
            data: MetricData::Gauge(vec![double_dp(1.0, vec![OtlpAttr { key: "flag".into(), value: Some(OtlpValue::Bool(true)) }])]),
        },
        resource,
    );
    let Signal::Metric(m) = &convert(&req)[0] else {
        panic!("metric");
    };
    let keys: Vec<&str> = m.attributes.iter().map(|(k, _)| k.as_str()).collect();
    assert_eq!(keys, vec!["service.name", "n", "flag"]);
}

#[test]
fn spans_keep_ids_and_map_kind_and_status() {
    let span = |kind: i32, status: Option<i32>| SpanIn {
        trace_id: vec![7; 16],
        span_id: vec![8; 8],
        parent_span_id: Vec::new(),
        name: "chat".into(),
        kind,
        start_nanos: 10,
        end_nanos: 20,
        status_code: status,
        attributes: vec![str_kv("gen_ai.request.model", "m1")],
    };
    let req = vec![ResourceSpansIn {
        resource: vec![str_kv("service.name", "openclaw")],
        scopes: vec![vec![span(3, Some(1)), span(2, Some(2)), span(5, None), span(99, Some(0))]],
    }];
    let out = convert_traces(&req);
    let got: Vec<(SpanKind, SpanStatus)> = out
        .iter()
        .map(|s| match s {
            Signal::Span(sp) => (sp.kind, sp.status),
            other => panic!("expected a span, got {other:?}"),
        })
        .collect();
    assert_eq!(
        got,
        vec![
            (SpanKind::Client, SpanStatus::Okay),
            (SpanKind::Server, SpanStatus::Error),
            (SpanKind::Internal, SpanStatus::Unset),
            (SpanKind::Internal, SpanStatus::Unset),
        ]
    );
    let Signal::Span(sp) = &out[0] else { unreachable!() };
    assert_eq!(sp.trace_id, vec![7; 16]);
    assert_eq!((sp.start_nanos, sp.end_nanos), (10, 20));
    assert_eq!(sp.attributes[0].0, "service.name");
    assert_eq!(sp.attributes[1].0, "gen_ai.request.model");
}

#[test]
fn severity_numbers_collapse_to_five_levels() {
    let cases = [
        (0, Severity::Info),
        (1, Severity::Trace),
        (4, Severity::Trace),
        (5, Severity::Debug),
        (8, Severity::Debug),
        (9, Severity::Info),
        (12, Severity::Info),
        (13, Severity::Warn),
        (16, Severity::Warn),
        (17, Severity::Error),
        (21, Severity::Error),
        (24, Severity::Error),
        (25, Severity::Info),
        (-1, Severity::Info),
    ];
    for (n, want) in cases {
        assert_eq!(map_severity(n), want, "severity number {n}");
    }
}

#[test]
fn logs_fall_back_to_the_observed_time_and_keep_the_body() {
    let rec = |time: u64, body: Option<&str>| LogIn {
        time_nanos: time,
        observed_nanos: 99,
        severity_number: 13,
        body: body.map(str::to_owned),
        attributes: vec![],
        trace_id: vec![1; 16],
        span_id: vec![2; 8],
    };
    let req = vec![ResourceLogsIn { resource: vec![str_kv("service.name", "hermes")], scopes: vec![vec![rec(5, Some("hi")), rec(0, None)]] }];
    let out = convert_logs(&req);
    assert_eq!(out.len(), 2);
    let Signal::Log(a) = &out[0] else { panic!("log") };
    let Signal::Log(b) = &out[1] else { panic!("log") };
    assert_eq!((a.time_nanos, a.body.as_str(), a.severity), (5, "hi", Severity::Warn));
    assert_eq!((b.time_nanos, b.body.as_str()), (99, ""));
    assert!(has_str(&b.attributes, "service.name", "hermes"));
}
