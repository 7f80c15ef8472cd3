use harnesssphere::config::{exporter_choice, probe_targets, source_plan, Config, ExporterChoice, ProbeTargetCfg};
use harnesssphere::signal::Layer;
use std::time::Duration;

#[test]
fn defaults_match_the_documentation() {
    let c = Config::default();
    assert_eq!(c.host_interval_secs, 5);
    assert_eq!(c.self_interval_secs, 10);
    assert_eq!(c.critical_threshold, 3);
    assert_eq!(c.exporter, "stdout");
    assert_eq!(c.otlp_endpoint, "http://localhost:4317");
    assert_eq!(c.service_name, "harnesssphere");
    assert_eq!(c.metric_export_interval_secs, 15);
    assert_eq!(c.session_source, "picoclaw");
    assert_eq!(c.discovery_interval_secs, 30);
    assert_eq!(c.session_interval_secs, 60);
    assert!(c.watch_processes.is_empty() && c.probe_targets.is_empty());
    assert!(c.data_root.is_empty() && c.container_cgroup.is_empty() && c.container_id.is_empty());
}

#[test]
fn intervals_are_never_shorter_than_a_second() {
    let mut c = Config::default();
    c.host_interval_secs = 0;
    c.session_interval_secs = 7;
    assert_eq!(c.host_interval(), Duration::from_secs(1));
    assert_eq!(c.self_interval(), Duration::from_secs(10));
    assert_eq!(c.session_interval(), Duration::from_secs(7));
    assert_eq!(c.discovery_interval(), Duration::from_secs(30));
    assert_eq!(c.metric_export_interval(), Duration::from_secs(15));
}

#[test]
fn environment_overrides_apply_only_when_set() {
    let mut c = Config::default();
    c.apply_env(Some("otlp".to_owned()), None);
    assert_eq!(c.exporter, "otlp");
    assert_eq!(c.otlp_endpoint, "http://localhost:4317");
    c.apply_env(None, Some("http://collector:4317".to_owned()));
    assert_eq!(c.otlp_endpoint, "http://collector:4317");
}

#[test]
fn probe_target_layers_are_strict() {
    let ok = vec![
        ProbeTargetCfg { address: "gw:1".into(), layer: "gateway".into() },
        ProbeTargetCfg { address: "px:2".into(), layer: "proxy".into() },
    ];
    let ts = probe_targets(&ok).unwrap();
    assert_eq!(ts.len(), 2);
    assert_eq!(ts[1].layer, Layer::Proxy);
    assert_eq!(ts[1].address, "px:2");
    let bad = vec![ProbeTargetCfg { address: "x:1".into(), layer: "container".into() }];
    assert_eq!(
        probe_targets(&bad).unwrap_err(),
        "probe_targets: unknown layer 'container' for 'x:1' (expected one of: host, watcher, gateway, proxy, webapp, harness)"
    );
}

#[test]
fn exporter_names() {
    assert_eq!(exporter_choice("stdout"), Ok(ExporterChoice::Stdout));
    assert_eq!(exporter_choice("otlp"), Ok(ExporterChoice::Otlp));
    assert_eq!(exporter_choice("zipkin"), Err("unknown exporter 'zipkin' (use 'stdout' or 'otlp')".to_owned()));
}

#[test]
fn optional_collectors_are_off_until_configured() {
    let mut c = Config::default();
    let p = source_plan(&c);
    assert!(!p.processes && !p.probes && !p.container && !p.discovery);
    c.data_root = "/data".into();
    c.watch_processes = vec!["picoclaw".into()];
    let p = source_plan(&c);
    assert!(p.processes && p.discovery && !p.probes && !p.container);
}
