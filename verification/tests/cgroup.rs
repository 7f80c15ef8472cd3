use harnesssphere::cgroup::{
    last_path_component, parse_io_stat, parse_kv_lines, parse_mem_max, parse_u64, CgroupFiles,
    ContainerCollector,
};
use harnesssphere::ports::ProbeResult;
use harnesssphere::signal::{AttrValue, Layer, MetricKind, Quantity};
use std::time::Duration;

#[test]
fn parses_cgroup_files() {
    assert_eq!(parse_u64("  12345\n"), Some(12345));
    assert_eq!(parse_mem_max("max\n"), None);
    assert_eq!(parse_mem_max("9999\n"), Some(9999));

    let cpu = parse_kv_lines("usage_usec 1000000\nnr_throttled 3\nthrottled_usec 500000\n");
    assert_eq!(cpu.get("usage_usec"), Some(1_000_000));
    assert_eq!(cpu.get("throttled_usec"), Some(500_000));

    let (r, w) = parse_io_stat("8:0 rbytes=100 wbytes=200 rios=1 wios=2\n259:0 rbytes=50 wbytes=0\n");
    assert_eq!((r, w), (150, 200));
}

#[test]
fn malformed_values_are_rejected() {
    assert_eq!(parse_u64(""), None);
    assert_eq!(parse_u64("12a"), None);
    assert_eq!(parse_u64("-1"), None);
    assert_eq!(parse_u64("18446744073709551616"), None);
    assert_eq!(parse_u64("18446744073709551615"), Some(u64::MAX));
    assert_eq!(parse_mem_max("  max  "), None);
}

#[test]
fn kv_lines_skip_malformed_lines_and_keep_the_last_key() {
    let t = parse_kv_lines("a 1\nnot-a-pair\nb x\na 2\n");
    assert_eq!(t.get("a"), Some(2));
    assert_eq!(t.get("b"), None);
    assert_eq!(t.get("missing"), None);
}

#[test]
fn io_stat_ignores_other_fields() {
    assert_eq!(parse_io_stat(""), (0, 0));
    assert_eq!(parse_io_stat("8:0 rios=4 dbytes=9\n"), (0, 0));
}

#[test]
fn container_id_defaults_to_the_directory_name() {
    assert_eq!(last_path_component("/sys/fs/cgroup/system.slice/docker-abc.scope"), "docker-abc.scope");
    assert_eq!(last_path_component("/sys/fs/cgroup/x/"), "x");
    let c = ContainerCollector::new("/sys/fs/cgroup/system.slice/docker-abc.scope", "", Duration::from_secs(5));
    assert_eq!(c.container_id(), "docker-abc.scope");
    let c = ContainerCollector::new("/sys/fs/cgroup/a", "explicit", Duration::from_secs(5));
    assert_eq!(c.container_id(), "explicit");
    assert_eq!(c.descriptor().layer, Layer::Harness);
}

#[test]
fn probe_needs_memory_current() {
    let c = ContainerCollector::new("/cg", "id", Duration::from_secs(5));
    assert!(matches!(c.probe(true), ProbeResult::Ready));
    match c.probe(false) {
        ProbeResult::Unavailable(m) => assert_eq!(m, "no cgroup v2 at /cg (memory.current missing)"),
        other => panic!("unexpected {other:?}"),
    }
}

#[test]
fn collect_emits_every_part_it_could_read() {
    let c = ContainerCollector::new("/cg", "id-1", Duration::from_secs(5));
    let files = CgroupFiles {
        memory_current: Some("2048\n".to_string()),
        memory_max: Some("max\n".to_string()),
        memory_events: Some("low 0\noom_kill 2\n".to_string()),
        cpu_stat: Some("usage_usec 3000000\nthrottled_usec 250\n".to_string()),
        io_stat: None,
    };
    let ms = c.collect(&files);
    let names: Vec<&str> = ms.iter().map(|m| m.name.as_str()).collect();
    assert_eq!(
        names,
        vec![
            "container.memory.usage",
            "harnesssphere.container.memory.oom",
            "container.cpu.time",
            "harnesssphere.container.cpu.throttled"
        ]
    );
    assert_eq!(ms[0].value, Quantity::Count(2048));
    assert_eq!(ms[1].kind, MetricKind::Counter);
    assert_eq!(ms[2].value, Quantity::Ratio(3_000_000, 1_000_000));
    assert!(ms.iter().all(|m| matches!(&m.attributes[0], (k, AttrValue::Str(v)) if k == "container.id" && v == "id-1")));
}

#[test]
fn io_stat_emits_read_and_write() {
    let c = ContainerCollector::new("/cg", "id-1", Duration::from_secs(5));
    let files = CgroupFiles {
        memory_current: None,
        memory_max: Some("4096".to_string()),
        memory_events: None,
        cpu_stat: None,
        io_stat: Some("8:0 rbytes=10 wbytes=20\n".to_string()),
    };
    let ms = c.collect(&files);
    assert_eq!(ms.len(), 3);
    assert_eq!(ms[0].name, "harnesssphere.container.memory.limit");
    assert_eq!(ms[0].value, Quantity::Count(4096));
    assert_eq!(ms[1].value, Quantity::Count(10));
    assert_eq!(ms[2].value, Quantity::Count(20));
}
