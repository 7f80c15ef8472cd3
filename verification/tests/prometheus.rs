use harnesssphere::prometheus::{
    build_request, decimal, find_label_end, hist_component, map_name, parse_exposition,
    parse_http_response, parse_http_url, parse_labels, rewrite_genai_labels, series_key,
    to_signals, PromSeries, PrometheusCollector, Role,
};
use harnesssphere::ports::ProbeResult;
use harnesssphere::signal::{AttrValue, MetricKind};
use std::time::Duration;

fn attr<'a>(attrs: &'a [(String, AttrValue)], key: &str) -> Option<&'a AttrValue> {
    attrs.iter().find(|(k, _)| k == key).map(|(_, v)| v)
}

fn value(tok: &str) -> f64 {
    tok.parse::<f64>().expect("a float")
}

/// The edge's reassembly of cumulative buckets into explicit-bucket form, applied to
/// what the library gathered.
fn reassemble(buckets: &[(String, String)], sum: &Option<String>, count: &Option<String>) -> (Vec<f64>, Vec<u64>, u64, f64) {
    let mut bs: Vec<(f64, f64)> = buckets.iter().map(|(le, c)| (value(le), value(c))).collect();
    bs.sort_by(|a, b| a.0.partial_cmp(&b.0).unwrap_or(std::cmp::Ordering::Equal));
    let mut bounds = Vec::new();
    let mut counts = Vec::new();
    let mut prev = 0.0_f64;
    for (le, cum) in &bs {
        counts.push((cum - prev).max(0.0).round() as u64);
        if le.is_finite() {
            bounds.push(*le);
        }
        prev = *cum;
    }
    if counts.len() == bounds.len() {
        counts.push(0);
    }
    let c = count.as_ref().map(|c| value(c).round() as u64).unwrap_or_else(|| bs.last().map(|(_, c)| c.round() as u64).unwrap_or(0));
    (bounds, counts, c, sum.as_ref().map(|s| value(s)).unwrap_or(0.0))
}

#[test]
fn parses_escapes_inf_nan_and_timestamp() {
    let text = "# TYPE g gauge\n\
         g{path=\"/a,b\",msg=\"he said \\\"hi\\\"\"} 1.5 1700000000000\n\
         g{path=\"inf\"} +Inf\n\
         g{path=\"nan\"} NaN\n";
    let p = parse_exposition(text);
    assert_eq!(p.samples.len(), 3);
    assert_eq!(p.samples[0].labels[0], ("path".to_owned(), "/a,b".to_owned()));
    assert_eq!(p.samples[0].labels[1], ("msg".to_owned(), "he said \"hi\"".to_owned()));
    assert_eq!(value(&p.samples[0].value), 1.5);
    assert!(value(&p.samples[1].value).is_infinite() && value(&p.samples[1].value) > 0.0);
    assert!(value(&p.samples[2].value).is_nan());
}

#[test]
fn reassembles_histogram_to_explicit_buckets() {
    let text = "# TYPE openclaw_run_duration_seconds histogram\n\
         openclaw_run_duration_seconds_bucket{outcome=\"ok\",le=\"0.1\"} 2\n\
         openclaw_run_duration_seconds_bucket{outcome=\"ok\",le=\"0.5\"} 5\n\
         openclaw_run_duration_seconds_bucket{outcome=\"ok\",le=\"+Inf\"} 6\n\
         openclaw_run_duration_seconds_sum{outcome=\"ok\"} 1.23\n\
         openclaw_run_duration_seconds_count{outcome=\"ok\"} 6\n";
    let sigs = to_signals(&parse_exposition(text), "h:1", "openclaw");
    assert_eq!(sigs.len(), 1);
    match &sigs[0] {
        PromSeries::Histogram { name, unit, attributes, buckets, sum, count } => {
            assert_eq!(name, "harnesssphere.openclaw.run_duration");
            assert_eq!(unit.as_deref(), Some("s"));
            let (bounds, counts, c, s) = reassemble(buckets, sum, count);
            assert_eq!(bounds, vec![0.1, 0.5]);
            assert_eq!(counts, vec![2, 3, 1]);
            assert_eq!(c, 6);
            assert_eq!(s, 1.23);
            assert!(matches!(attr(attributes, "outcome"), Some(AttrValue::Str(v)) if v == "ok"));
        },
        other => panic!("expected a histogram, got {other:?}"),
    }
}

#[test]
fn maps_genai_token_usage_to_semconv() {
    let text = "# TYPE openclaw_gen_ai_client_token_usage histogram\n\
         openclaw_gen_ai_client_token_usage_bucket{model=\"model-one\",provider=\"provider-one\",token_type=\"input\",le=\"+Inf\"} 3\n\
         openclaw_gen_ai_client_token_usage_sum{model=\"model-one\",provider=\"provider-one\",token_type=\"input\"} 120\n\
         openclaw_gen_ai_client_token_usage_count{model=\"model-one\",provider=\"provider-one\",token_type=\"input\"} 3\n";
    let sigs = to_signals(&parse_exposition(text), "h:1", "openclaw");
    let h = sigs
        .iter()
        .find(|s| matches!(s, PromSeries::Histogram { name, .. } if name == "gen_ai.client.token.usage"))
        .expect("genai histogram");
    if let PromSeries::Histogram { unit, attributes, .. } = h {
        assert_eq!(unit.as_deref(), Some("{token}"));
        assert!(matches!(attr(attributes, "gen_ai.request.model"), Some(AttrValue::Str(v)) if v == "model-one"));
        assert!(matches!(attr(attributes, "gen_ai.provider.name"), Some(AttrValue::Str(v)) if v == "provider-one"));
        assert!(matches!(attr(attributes, "gen_ai.token.type"), Some(AttrValue::Str(v)) if v == "input"));
    }
}

#[test]
fn long_tail_counter_namespaced_and_typed() {
    let text = "# TYPE openclaw_model_tokens_total counter\n\
         openclaw_model_tokens_total{token_type=\"output\"} 42\n";
    let sigs = to_signals(&parse_exposition(text), "h:1", "openclaw");
    match &sigs[0] {
        PromSeries::Scalar { name, kind, value: v, .. } => {
            assert_eq!(name, "harnesssphere.openclaw.model_tokens");
            assert_eq!(*kind, MetricKind::Counter);
            assert_eq!(value(v), 42.0);
        },
        other => panic!("expected a counter, got {other:?}"),
    }
}

#[test]
fn rejects_non_http_urls() {
    assert!(parse_http_url("https://x/m").is_err());
    assert!(parse_http_url("localhost:9090/m").is_err());
    let u = parse_http_url("http://127.0.0.1:18789/api/diagnostics/prometheus").unwrap();
    assert_eq!(u.host, "127.0.0.1");
    assert_eq!(u.port, 18789);
    assert_eq!(u.path, "/api/diagnostics/prometheus");
}

#[test]
fn url_errors_name_the_problem() {
    assert_eq!(
        parse_http_url("https://x/m").unwrap_err(),
        "https scrape is not supported (TLS out of scope): https://x/m"
    );
    assert_eq!(
        parse_http_url("localhost:9090/m").unwrap_err(),
        "prometheus_scrape_url must start with http:// : localhost:9090/m"
    );
    assert_eq!(parse_http_url("http://h:99999/").unwrap_err(), "invalid port in scrape url: h:99999");
    assert_eq!(parse_http_url("http://:80/").unwrap_err(), "empty host in scrape url: http://:80/");
    assert_eq!(parse_http_url("http:///m").unwrap_err(), "empty host in scrape url: http:///m");
    let u = parse_http_url("http://example").unwrap();
    assert_eq!((u.host.as_str(), u.port, u.path.as_str(), u.authority.as_str()), ("example", 80, "/", "example"));
}

#[test]
fn request_carries_close_and_the_bearer_token() {
    let u = parse_http_url("http://127.0.0.1:9/metrics").unwrap();
    let req = build_request(&u, Some("secret-tok"));
    assert!(req.starts_with("GET /metrics HTTP/1.1\r\nHost: 127.0.0.1:9\r\n"));
    assert!(req.contains("Connection: close"));
    assert!(req.contains("Authorization: Bearer secret-tok\r\n"));
    assert!(req.ends_with("\r\n\r\n"));
    assert!(!build_request(&u, None).contains("Authorization"));
}

#[test]
fn response_body_follows_the_headers() {
    let raw = b"HTTP/1.1 200 OK\r\nContent-Length: 4\r\n\r\nx 7\n";
    assert_eq!(parse_http_response(raw).unwrap(), "x 7\n");
}

#[test]
fn response_errors_on_non_2xx() {
    let err = parse_http_response(b"HTTP/1.1 500 Internal Server Error\r\nConnection: close\r\n\r\nboom").unwrap_err();
    assert_eq!(err, "scrape returned HTTP 500");
}

#[test]
fn response_errors_on_malformed_input() {
    let err = parse_http_response(b"garbage-without-header-terminator").unwrap_err();
    assert!(err.contains("malformed"), "unexpected error: {err}");
    let err = parse_http_response(b"HTTP/1.1\r\n\r\n").unwrap_err();
    assert_eq!(err, "malformed status line: HTTP/1.1");
}

#[test]
fn label_sets_close_outside_quotes() {
    let s: Vec<char> = "{a=\"}\",b=\"x\"} 1".chars().collect();
    assert_eq!(find_label_end(&s), Some(12));
    let open: Vec<char> = "{a=\"}".chars().collect();
    assert_eq!(find_label_end(&open), None);
    let inner: Vec<char> = " a =\"1\\n2\", =\"dropped\",c=\"\\x\"".chars().collect();
    assert_eq!(
        parse_labels(&inner),
        vec![("a".to_owned(), "1\n2".to_owned()), ("c".to_owned(), "\\x".to_owned())]
    );
    let broken: Vec<char> = "a=1,b=\"2\"".chars().collect();
    assert!(parse_labels(&broken).is_empty());
}

#[test]
fn series_key_ignores_le_and_label_order() {
    let a = vec![("z".to_owned(), "1".to_owned()), ("le".to_owned(), "0.5".to_owned()), ("a".to_owned(), "2".to_owned())];
    let b = vec![("a".to_owned(), "2".to_owned()), ("z".to_owned(), "1".to_owned())];
    assert_eq!(series_key(&a), series_key(&b));
    assert_eq!(series_key(&b), "a\u{1}2\u{2}z\u{1}1");
    assert_eq!(series_key(&vec![]), "");
}

#[test]
fn names_map_onto_the_curated_namespace() {
    let m = map_name("openclaw_model_call_duration_seconds");
    assert_eq!((m.name.as_str(), m.unit.as_deref()), ("gen_ai.client.operation.duration", Some("s")));
    let m = map_name("openclaw_queue_bytes");
    assert_eq!((m.name.as_str(), m.unit.as_deref()), ("harnesssphere.openclaw.queue", Some("By")));
    let m = map_name("openclaw_cache_hit_ratio");
    assert_eq!((m.name.as_str(), m.unit.as_deref()), ("harnesssphere.openclaw.cache_hit", Some("1")));
    let m = map_name("process_up");
    assert_eq!((m.name.as_str(), m.unit.as_deref()), ("harnesssphere.openclaw.process_up", None));
}

#[test]
fn genai_labels_are_rewritten_and_others_kept() {
    let mut l = vec![("model".to_owned(), "m".to_owned()), ("error_category".to_owned(), "e".to_owned()), ("x".to_owned(), "y".to_owned())];
    rewrite_genai_labels("openclaw_gen_ai_client_token_usage", &mut l);
    let keys: Vec<&str> = l.iter().map(|(k, _)| k.as_str()).collect();
    assert_eq!(keys, vec!["gen_ai.request.model", "error.type", "openclaw.x"]);
    let mut l2 = vec![("model".to_owned(), "m".to_owned())];
    rewrite_genai_labels("openclaw_other", &mut l2);
    assert_eq!(l2[0].0, "model");
}

#[test]
fn histogram_components_need_a_histogram_declaration() {
    let p = parse_exposition("# TYPE h histogram\n# TYPE c counter\n");
    assert!(matches!(hist_component("h_bucket", &p), Some((b, Role::Bucket)) if b == "h"));
    assert!(matches!(hist_component("h_count", &p), Some((b, Role::Count)) if b == "h"));
    assert!(hist_component("c_sum", &p).is_none());
    assert!(hist_component("h", &p).is_none());
}

#[test]
fn comments_blank_lines_and_broken_samples_are_skipped() {
    let p = parse_exposition("# HELP x something\n\n   \nx\nx{a=\"1\"\nok 3 17\n# TYPE ok gauge extra\n");
    assert_eq!(p.samples.len(), 1);
    assert_eq!(p.samples[0].name, "ok");
    assert_eq!(p.samples[0].value, "3");
    let sigs = to_signals(&p, "srv", "h");
    match &sigs[0] {
        PromSeries::Scalar { kind, attributes, .. } => {
            assert_eq!(*kind, MetricKind::Gauge);
            assert!(matches!(attr(attributes, "server.address"), Some(AttrValue::Str(v)) if v == "srv"));
            assert!(matches!(attr(attributes, "harness.name"), Some(AttrValue::Str(v)) if v == "h"));
        },
        other => panic!("expected a gauge, got {other:?}"),
    }
}

#[test]
fn decimal_renders_integers() {
    assert_eq!(decimal(0), "0");
    assert_eq!(decimal(404), "404");
    assert_eq!(decimal(u64::MAX), "18446744073709551615");
}

#[test]
fn collector_probe_reports_an_unusable_url() {
    let c = PrometheusCollector::new("https://x", None, "openclaw", Duration::from_secs(5));
    assert!(matches!(c.probe(), ProbeResult::Unavailable(m) if m.starts_with("https scrape")));
    let ok = PrometheusCollector::new("http://h:1/m", Some("t".to_owned()), "openclaw", Duration::from_secs(5));
    assert!(matches!(ok.probe(), ProbeResult::Ready));
    let u = ok.target().unwrap();
    assert!(ok.request(u).contains("Authorization: Bearer t"));
}
