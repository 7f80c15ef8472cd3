use harnesssphere::enrich::Enricher;
use harnesssphere::export::{attr_str, group_by_service, instrument_for, partition, Instrument, StdoutExporter};
use harnesssphere::signal::{
    AttrValue, Layer, LogRecord, Metric, MetricKind, Quantity, Severity, Signal, Span, SpanKind, SpanStatus,
};

#[test]
fn injects_host_name() {
    let enr = Enricher::new("host-42");
    let mut sig = Metric::new("gen_ai.client.token.usage", MetricKind::Histogram, Quantity::Count(1)).into_signal();
    enr.enrich(&mut sig);
    if let Signal::Metric(m) = sig {
        assert!(m.attributes.iter().any(|(k, _)| k == "host.name"));
    } else {
        panic!("expected metric");
    }
}

#[test]
fn an_existing_host_name_is_not_duplicated() {
    let enr = Enricher::new("host-42");
    let mut sig = Metric::new("m", MetricKind::Gauge, Quantity::Count(1))
        .attr("host.name", AttrValue::text("origin"))
        .into_signal();
    enr.enrich(&mut sig);
    enr.enrich(&mut sig);
    let attrs = sig.attributes();
    assert_eq!(attrs.len(), 1);
    assert!(matches!(&attrs[0].1, AttrValue::Str(s) if s == "origin"));
}

fn span(service: Option<&str>, host: Option<&str>, name: &str) -> Signal {
    let mut attributes = Vec::new();
    if let Some(s) = service {
        attributes.push(("service.name".to_owned(), AttrValue::Str(s.to_owned())));
    }
    if let Some(h) = host {
        attributes.push(("host.name".to_owned(), AttrValue::Str(h.to_owned())));
    }
    Signal::Span(Span {
        trace_id: vec![1; 16],
        span_id: vec![2; 8],
        parent_span_id: Vec::new(),
        name: name.to_owned(),
        kind: SpanKind::Client,
        start_nanos: 1,
        end_nanos: 2,
        status: SpanStatus::Okay,
        attributes,
    })
}

#[test]
fn spans_group_by_service_with_the_first_host() {
    let sigs = vec![span(Some("a"), None, "s0"), span(None, Some("h1"), "s1"), span(Some("a"), Some("h2"), "s2"), span(Some("a"), Some("h3"), "s3")];
    let attrs: Vec<Vec<(String, AttrValue)>> = sigs.iter().map(|s| s.attributes().clone()).collect();
    let groups = group_by_service(&attrs);
    assert_eq!(groups.len(), 2);
    assert_eq!(groups[0].service, "a");
    assert_eq!(groups[0].host.as_deref(), Some("h2"));
    assert_eq!(groups[0].members, vec![0, 2, 3]);
    assert_eq!(groups[1].service, "unknown");
    assert_eq!(groups[1].host.as_deref(), Some("h1"));
    assert_eq!(groups[1].members, vec![1]);
}

#[test]
fn every_signal_lands_in_exactly_one_group() {
    let sigs = vec![
        span(Some("b"), None, "s0"),
        span(Some("a"), None, "s1"),
        span(None, None, "s2"),
        span(Some("b"), None, "s3"),
        span(Some("a"), None, "s4"),
        span(Some("c"), None, "s5"),
    ];
    let attrs: Vec<Vec<(String, AttrValue)>> = sigs.iter().map(|s| s.attributes().clone()).collect();
    let groups = group_by_service(&attrs);
    let mut seen: Vec<usize> = groups.iter().flat_map(|g| g.members.clone()).collect();
    seen.sort();
    assert_eq!(seen, vec![0, 1, 2, 3, 4, 5]);
    let services: Vec<&str> = groups.iter().map(|g| g.service.as_str()).collect();
    assert_eq!(services, vec!["b", "a", "unknown", "c"]);
    assert_eq!(groups[0].members, vec![0, 3]);
    assert_eq!(groups[1].members, vec![1, 4]);
}

#[test]
fn attr_str_skips_non_string_values() {
    let attrs = vec![
        ("service.name".to_owned(), AttrValue::Int(3)),
        ("service.name".to_owned(), AttrValue::Str("svc".to_owned())),
    ];
    assert_eq!(attr_str(&attrs, "service.name").as_deref(), Some("svc"));
    assert_eq!(attr_str(&attrs, "host.name"), None);
}

#[test]
fn batches_split_by_kind_in_order() {
    let batch = vec![
        Metric::new("m1", MetricKind::Gauge, Quantity::Count(1)).into_signal(),
        span(Some("a"), None, "s"),
        Signal::Log(LogRecord {
            severity: Severity::Warn,
            body: "b".to_owned(),
            attributes: Vec::new(),
            time_nanos: 5,
            trace_id: Vec::new(),
            span_id: Vec::new(),
        }),
        Metric::new("m2", MetricKind::Counter, Quantity::Count(2)).into_signal(),
    ];
    let p = partition(batch);
    let names: Vec<&str> = p.metrics.iter().map(|m| m.name.as_str()).collect();
    assert_eq!(names, vec!["m1", "m2"]);
    assert_eq!(p.spans.len(), 1);
    assert_eq!(p.logs.len(), 1);
    assert!(p.histograms.is_empty());
}

#[test]
fn absolute_values_are_recorded_as_gauges() {
    assert_eq!(instrument_for(MetricKind::Gauge), Instrument::Gauge);
    assert_eq!(instrument_for(MetricKind::UpDownCounter), Instrument::Gauge);
    assert_eq!(instrument_for(MetricKind::Counter), Instrument::Counter);
    assert_eq!(instrument_for(MetricKind::Histogram), Instrument::Histogram);
    let _ = StdoutExporter::new();
}

#[test]
fn layers_are_exactly_six() {
    let all = [Layer::Host, Layer::Watcher, Layer::Gateway, Layer::Proxy, Layer::Webapp, Layer::Harness];
    let names: Vec<&str> = all.iter().map(|l| l.as_str()).collect();
    assert_eq!(names, vec!["host", "watcher", "gateway", "proxy", "webapp", "harness"]);
    for l in all {
        assert_eq!(Layer::parse(l.as_str()), Some(l));
    }
    assert_eq!(Layer::parse("container"), None);
    assert_eq!(Layer::parse("Host"), None);
}

#[test]
fn metric_builders_append_in_order() {
    let m = Metric::new("n", MetricKind::Gauge, Quantity::Ratio(1, 3)).with_unit("s").attr("a", AttrValue::Int(1)).attr_owned("b".to_owned(), AttrValue::Bool(true));
    assert_eq!(m.unit.as_deref(), Some("s"));
    assert_eq!(m.attributes.len(), 2);
    assert_eq!(m.attributes[1].0, "b");
}
