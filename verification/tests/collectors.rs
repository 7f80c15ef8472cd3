use harnesssphere::discovery::{Discovery, DiscoveryStats};
use harnesssphere::host::{HostCollector, HostReading};
use harnesssphere::ports::{CollectError, ProbeResult};
use harnesssphere::probe::{target_metrics, EndpointProbeCollector, ProbeTarget};
use harnesssphere::process::{OwnReading, ProcessCollector, ProcessReading, SelfCollector};
use harnesssphere::signal::{AttrValue, Layer, MetricKind, Quantity};
use harnesssphere::workspace::Workspace;
use std::time::Duration;

fn ws(user: &str) -> Workspace {
    Workspace {
        tenant: "t".into(),
        subscription: "s".into(),
        agent: "a".into(),
        user: user.into(),
        root: format!("/d/{user}"),
    }
}

#[test]
fn probe_metrics_carry_the_target_layer() {
    let t = ProbeTarget::new("proxy:8080", Layer::Proxy);
    let ms = target_metrics(&t, false, 1_500_000_000);
    assert_eq!(ms.len(), 2);
    assert_eq!(ms[0].name, "harnesssphere.endpoint.up");
    assert_eq!(ms[0].value, Quantity::Count(0));
    assert_eq!(ms[1].value, Quantity::Ratio(1_500_000_000, 1_000_000_000));
    assert_eq!(ms[1].unit.as_deref(), Some("s"));
    for m in &ms {
        assert!(m.attributes.iter().any(|(k, v)| k == "harnesssphere.layer" && matches!(v, AttrValue::Str(s) if s == "proxy")));
        assert!(m.attributes.iter().any(|(k, v)| k == "server.address" && matches!(v, AttrValue::Str(s) if s == "proxy:8080")));
    }
    assert_eq!(target_metrics(&t, true, 0)[0].value, Quantity::Count(1));
}

#[test]
fn an_empty_probe_list_does_not_apply() {
    assert!(matches!(EndpointProbeCollector::new(Vec::new(), Duration::from_secs(5)).probe(), ProbeResult::NotApplicable));
    let c = EndpointProbeCollector::new(vec![ProbeTarget::new("a:1", Layer::Gateway)], Duration::from_secs(5));
    assert!(matches!(c.probe(), ProbeResult::Ready));
    assert_eq!(c.connect_timeout(), Duration::from_secs(2));
    assert_eq!(c.descriptor().name, "endpoint-probe");
}

#[test]
fn host_reading_maps_to_system_metrics() {
    let h = HostCollector::new(Duration::from_secs(5));
    assert!(matches!(h.probe(0), ProbeResult::Fatal(m) if m == "could not read host memory"));
    assert!(matches!(h.probe(1), ProbeResult::Ready));
    let r = HostReading {
        cpu_percent_bits: 50.0f32.to_bits(),
        total_memory: 100,
        used_memory: 40,
        free_memory: 60,
        available_memory: 55,
        total_swap: 0,
        used_swap: 0,
    };
    let ms = h.metrics(&r);
    let names: Vec<&str> = ms.iter().map(|m| m.name.as_str()).collect();
    assert_eq!(
        names,
        vec!["system.cpu.utilization", "system.memory.usage", "system.memory.usage", "system.memory.usage", "system.memory.utilization", "system.paging.usage"]
    );
    assert_eq!(ms[4].value, Quantity::Ratio(40, 100));
    assert_eq!(ms[1].kind, MetricKind::UpDownCounter);
}

#[test]
fn watched_processes_are_matched_by_substring() {
    let c = ProcessCollector::new(vec!["picoclaw".into()], Duration::from_secs(5));
    assert!(matches!(c.probe(), ProbeResult::Ready));
    let procs = vec![
        ProcessReading { name: "picoclaw-gw".into(), pid: 7, cpu_percent_bits: 0, memory: 10, virtual_memory: 20 },
        ProcessReading { name: "bash".into(), pid: 8, cpu_percent_bits: 0, memory: 1, virtual_memory: 2 },
    ];
    let ms = c.metrics(&procs);
    assert_eq!(ms.len(), 3);
    assert!(ms.iter().all(|m| m.attributes.iter().any(|(k, v)| k == "process.pid" && matches!(v, AttrValue::Int(7)))));
    assert!(matches!(ProcessCollector::new(Vec::new(), Duration::from_secs(5)).probe(), ProbeResult::NotApplicable));
}

#[test]
fn the_watcher_reports_itself_or_fails() {
    let s = SelfCollector::new(Duration::from_secs(10));
    assert!(matches!(s.probe(false), ProbeResult::Fatal(_)));
    let ms = s.metrics(Some(OwnReading { cpu_percent_bits: 0, memory: 5, virtual_memory: 9 })).unwrap();
    assert_eq!(ms.len(), 3);
    assert!(ms.iter().all(|m| matches!(&m.attributes[0], (k, AttrValue::Str(v)) if k == "process.executable.name" && v == "harnesssphere")));
    assert!(matches!(s.metrics(None), Err(CollectError::Failed(m)) if m == "own process disappeared"));
}

#[test]
fn discovery_adds_new_and_retires_vanished_workspaces() {
    let mut d = Discovery::new("/d", Duration::from_secs(30), Duration::from_secs(60), "picoclaw");
    let r = d.reconcile(vec![ws("u1"), ws("u2")]);
    assert_eq!(r.workspaces, 2);
    let added: Vec<String> = r.add.iter().map(|c| c.descriptor().name.clone()).collect();
    assert_eq!(added, vec!["session:t/s/a/u1", "session:t/s/a/u2"]);
    assert!(r.remove.is_empty());
    let r = d.reconcile(vec![ws("u2"), ws("u3")]);
    let added: Vec<String> = r.add.iter().map(|c| c.descriptor().name.clone()).collect();
    assert_eq!(added, vec!["session:t/s/a/u3"]);
    assert_eq!(r.remove, vec!["session:t/s/a/u1".to_owned()]);
    let r = d.reconcile(vec![ws("u2"), ws("u3")]);
    assert!(r.add.is_empty() && r.remove.is_empty(), "an unchanged tree must not churn the registry");
}

#[test]
fn discovery_stats_are_two_gauges() {
    let s = DiscoveryStats::new(Duration::from_secs(10));
    assert!(matches!(s.probe(), ProbeResult::Ready));
    let ms = s.metrics(4, 17);
    assert_eq!(ms[0].name, "harnesssphere.discovery.workspaces");
    assert_eq!(ms[0].value, Quantity::Count(4));
    assert_eq!(ms[1].value, Quantity::Count(17));
    assert_eq!(s.descriptor().layer, Layer::Watcher);
}
