use harnesssphere::ports::{CollectError, ProbeResult};
use harnesssphere::json::{JsonDoc, JsonField};
use harnesssphere::session::{cron_of_doc, cron_of_meta, is_transcript, meta_path, record_counts, SessionCollector};
use harnesssphere::signal::{AttrValue, Metric, Quantity};
use harnesssphere::workspace::Workspace;
use std::time::Duration;

/// An in-memory session directory: transcript paths with their content, and metadata
/// files.
struct Disk {
    files: Vec<(String, String)>,
    metas: Vec<(String, String)>,
}

impl Disk {
    fn new() -> Self {
        Disk { files: Vec::new(), metas: Vec::new() }
    }
    fn write(&mut self, path: &str, content: &str) {
        if path.ends_with(".meta.json") {
            self.metas.retain(|(p, _)| p != path);
            self.metas.push((path.to_owned(), content.to_owned()));
        } else {
            self.files.retain(|(p, _)| p != path);
            self.files.push((path.to_owned(), content.to_owned()));
        }
    }
    fn remove(&mut self, path: &str) {
        self.files.retain(|(p, _)| p != path);
    }
}

fn workspace() -> Workspace {
    Workspace {
        tenant: "acme".into(),
        subscription: "sub-1".into(),
        agent: "alpha".into(),
        user: "uuid-a".into(),
        root: "/data/tenants/acme/subscriptions/sub-1/agents/alpha/users/uuid-a".into(),
    }
}

fn collector() -> SessionCollector {
    SessionCollector::new(workspace(), "picoclaw", Duration::from_secs(1))
}

/// One collection cycle as the edge drives it.
fn collect(c: &mut SessionCollector, disk: &Disk) -> Vec<Metric> {
    let dirs = vec!["/sessions".to_owned()];
    c.check_dirs(&dirs).unwrap();
    let present: Vec<String> = disk
        .files
        .iter()
        .filter(|(p, _)| is_transcript(p.rsplit('/').next().unwrap(), false))
        .map(|(p, _)| p.clone())
        .collect();
    c.retain_present(&present);
    for path in &present {
        let content = &disk.files.iter().find(|(p, _)| p == path).unwrap().1;
        if !c.knows_file(path) {
            let meta_name = meta_path(path);
            let meta = disk.metas.iter().find(|(p, _)| *p == meta_name).map(|(_, m)| m.clone());
            c.add_file(path.clone(), cron_of_meta(&meta));
        }
        if let Some(off) = c.read_from(path, content.len() as u64) {
            c.absorb(path, &content[off as usize..]);
        }
    }
    c.metrics()
}

fn value(ms: &[Metric], name: &str) -> u64 {
    match ms.iter().find(|m| m.name == name).unwrap_or_else(|| panic!("metric {name} was not emitted")).value {
        Quantity::Count(n) => n,
        other => panic!("unexpected {other:?}"),
    }
}

fn role(ms: &[Metric], role: &str) -> u64 {
    ms.iter()
        .find(|m| {
            m.name == "harnesssphere.harness.messages"
                && m.attributes.iter().any(|(k, v)| k == "role" && matches!(v, AttrValue::Str(s) if s == role))
        })
        .map(|m| match m.value {
            Quantity::Count(n) => n,
            _ => panic!("not a count"),
        })
        .unwrap_or(0)
}

fn attr(ms: &[Metric], name: &str, key: &str) -> Option<String> {
    ms.iter().find(|m| m.name == name).and_then(|m| {
        m.attributes.iter().find(|(k, _)| k == key).map(|(_, v)| match v {
            AttrValue::Str(s) => s.clone(),
            other => format!("{other:?}"),
        })
    })
}

fn transcript() -> String {
    [
        r#"{"role":"user","content":"hi"}"#,
        r#"{"role":"assistant","content":"hello","tool_calls":[{"id":"1"},{"id":"2"}]}"#,
        r#"{"role":"user","content":"again"}"#,
    ]
    .join("\n")
        + "\n"
}

#[test]
fn counts_roles_and_tool_calls_and_tags_the_tuple() {
    let mut disk = Disk::new();
    disk.write("/sessions/a.jsonl", &transcript());
    let ms = collect(&mut collector(), &disk);
    assert_eq!(value(&ms, "harnesssphere.harness.sessions"), 1);
    assert_eq!(role(&ms, "user"), 2);
    assert_eq!(role(&ms, "assistant"), 1);
    assert_eq!(value(&ms, "harnesssphere.tool.calls"), 2);
    assert_eq!(attr(&ms, "harnesssphere.harness.sessions", "crab.tenant").as_deref(), Some("acme"));
    assert_eq!(attr(&ms, "harnesssphere.harness.sessions", "crab.user").as_deref(), Some("uuid-a"));
    assert_eq!(attr(&ms, "harnesssphere.harness.sessions", "harness.name").as_deref(), Some("picoclaw"));
}

#[test]
fn counts_project_workspaces_too() {
    let mut disk = Disk::new();
    disk.write("/ws/workspace/sessions/a.jsonl", &transcript());
    disk.write("/ws/workspace-chat-ux/sessions/p.chat-ux.b.jsonl", &transcript());
    let ms = collect(&mut collector(), &disk);
    assert_eq!(value(&ms, "harnesssphere.harness.sessions"), 2, "the project workspace was not counted");
    assert_eq!(role(&ms, "user"), 4);
}

#[test]
fn durable_mirror_is_excluded() {
    assert!(!is_transcript("durable", true));
    assert!(is_transcript("a.jsonl", false));
    assert!(!is_transcript(".jsonl", false));
    assert!(!is_transcript("a.json", false));
    let mut disk = Disk::new();
    disk.write("/sessions/a.jsonl", &transcript());
    let ms = collect(&mut collector(), &disk);
    assert_eq!(value(&ms, "harnesssphere.harness.sessions"), 1);
    assert_eq!(role(&ms, "user"), 2, "durable/ was counted — every number doubled");
}

#[test]
fn cron_sessions_are_excluded_but_reported() {
    let mut disk = Disk::new();
    disk.write("/sessions/chat.jsonl", &transcript());
    disk.write("/sessions/chat.meta.json", r#"{"key":"agent:alpha:user"}"#);
    disk.write("/sessions/nightly.jsonl", &transcript());
    disk.write("/sessions/nightly.meta.json", r#"{"key":"agent:cron-nightly"}"#);
    let ms = collect(&mut collector(), &disk);
    assert_eq!(value(&ms, "harnesssphere.harness.sessions"), 1);
    assert_eq!(value(&ms, "harnesssphere.harness.cron.sessions"), 1);
    assert_eq!(role(&ms, "user"), 2, "cron messages leaked into the chat counts");
}

#[test]
fn appended_lines_are_counted_once() {
    let mut disk = Disk::new();
    disk.write("/sessions/a.jsonl", &transcript());
    let mut c = collector();
    assert_eq!(role(&collect(&mut c, &disk), "user"), 2);
    assert_eq!(role(&collect(&mut c, &disk), "user"), 2, "the file was re-counted from the start");
    let mut content = transcript();
    content.push_str("{\"role\":\"user\",\"content\":\"third\"}\n");
    disk.write("/sessions/a.jsonl", &content);
    assert_eq!(role(&collect(&mut c, &disk), "user"), 3);
}

#[test]
fn a_shrunk_file_is_reread_from_zero() {
    let mut disk = Disk::new();
    disk.write("/sessions/a.jsonl", &transcript());
    let mut c = collector();
    collect(&mut c, &disk);
    disk.write("/sessions/a.jsonl", "{\"role\":\"user\",\"content\":\"only\"}\n");
    let ms = collect(&mut c, &disk);
    assert_eq!(role(&ms, "user"), 1, "shrink was treated as a delta");
    assert_eq!(role(&ms, "assistant"), 0);
    assert_eq!(value(&ms, "harnesssphere.tool.calls"), 0);
}

#[test]
fn a_partial_trailing_line_waits_for_its_newline() {
    let mut disk = Disk::new();
    disk.write("/sessions/a.jsonl", "{\"role\":\"user\",\"content\":\"one\"}\n{\"role\":\"user\",\"cont");
    let mut c = collector();
    assert_eq!(role(&collect(&mut c, &disk), "user"), 1, "a partial record was counted");
    disk.write("/sessions/a.jsonl", "{\"role\":\"user\",\"content\":\"one\"}\n{\"role\":\"user\",\"content\":\"two\"}\n");
    assert_eq!(role(&collect(&mut c, &disk), "user"), 2, "the completed record was never picked up");
}

#[test]
fn a_removed_transcript_stops_counting() {
    let mut disk = Disk::new();
    disk.write("/sessions/a.jsonl", &transcript());
    let mut c = collector();
    collect(&mut c, &disk);
    disk.remove("/sessions/a.jsonl");
    let ms = collect(&mut c, &disk);
    assert_eq!(value(&ms, "harnesssphere.harness.sessions"), 0);
    assert_eq!(role(&ms, "user"), 0);
}

#[test]
fn retire_emits_zeroes() {
    let mut disk = Disk::new();
    disk.write("/sessions/a.jsonl", &transcript());
    let mut c = collector();
    collect(&mut c, &disk);
    let ms = c.retire_metrics();
    assert_eq!(value(&ms, "harnesssphere.harness.sessions"), 0);
    assert_eq!(value(&ms, "harnesssphere.tool.calls"), 0);
    assert_eq!(value(&ms, "harnesssphere.harness.cron.sessions"), 0);
    assert_eq!(attr(&ms, "harnesssphere.harness.sessions", "crab.user").as_deref(), Some("uuid-a"));
}

#[test]
fn offsets_count_bytes_not_characters() {
    let mut disk = Disk::new();
    let first = "{\"role\":\"user\",\"content\":\"héllo — ✓\"}\n";
    disk.write("/sessions/a.jsonl", first);
    let mut c = collector();
    collect(&mut c, &disk);
    assert_eq!(c.read_from("/sessions/a.jsonl", first.len() as u64), None);
    let both = format!("{first}{{\"role\":\"assistant\"}}\n");
    assert_eq!(c.read_from("/sessions/a.jsonl", both.len() as u64), Some(first.len() as u64));
}

#[test]
fn blank_garbage_and_crlf_lines() {
    let mut disk = Disk::new();
    disk.write("/sessions/a.jsonl", "\n  \nnot json\n{\"role\":\"user\"}\r\n[1,2]\n{\"tool_calls\":[1,2,3]}\n");
    let ms = collect(&mut collector(), &disk);
    assert_eq!(role(&ms, "user"), 1);
    assert_eq!(value(&ms, "harnesssphere.tool.calls"), 3);
}

#[test]
fn meta_paths_and_cron_flags() {
    assert_eq!(meta_path("/s/chat.jsonl"), "/s/chat.meta.json");
    assert!(cron_of_meta(&Some(r#"{"key":"agent:cron-x"}"#.to_owned())));
    assert!(!cron_of_meta(&Some(r#"{"key":"agent:x"}"#.to_owned())));
    assert!(!cron_of_meta(&Some("not json".to_owned())));
    assert!(!cron_of_meta(&Some(r#"{"key":7}"#.to_owned())));
    assert!(!cron_of_meta(&None));
}

#[test]
fn probe_and_missing_dirs() {
    let c = collector();
    assert!(matches!(c.probe(true), ProbeResult::Ready));
    assert!(matches!(c.probe(false), ProbeResult::Unavailable(m) if m.starts_with("workspace gone: /data/tenants")));
    match c.check_dirs(&Vec::new()) {
        Err(CollectError::Unavailable(m)) => assert!(m.starts_with("no session directories under ")),
        other => panic!("unexpected {other:?}"),
    }
    assert_eq!(c.descriptor().name, "session:acme/sub-1/alpha/uuid-a");
}

fn doc(fields: Vec<(&str, JsonField)>) -> Option<JsonDoc> {
    Some(JsonDoc::Object(fields.into_iter().map(|(k, v)| (k.to_owned(), v)).collect()))
}

#[test]
fn a_parsed_record_gives_its_role_and_tool_calls() {
    let d = doc(vec![
        ("content", JsonField::Str("never read".into())),
        ("role", JsonField::Str("assistant".into())),
        ("tool_calls", JsonField::Array(vec![serde_json::Value::Null, serde_json::Value::Bool(true)])),
    ]);
    assert_eq!(record_counts(&d), (Some("assistant".to_owned()), Some(2)));
    let d = doc(vec![("role", JsonField::Number), ("tool_calls", JsonField::Object)]);
    assert_eq!(record_counts(&d), (None, None));
    assert_eq!(record_counts(&Some(JsonDoc::Other)), (None, None));
    assert_eq!(record_counts(&None), (None, None));
}

#[test]
fn a_parsed_metadata_key_decides_the_cron_flag() {
    assert!(cron_of_doc(&doc(vec![("key", JsonField::Str("agent:cron-nightly".into()))])));
    assert!(!cron_of_doc(&doc(vec![("key", JsonField::Str("agent:main".into()))])));
    assert!(!cron_of_doc(&doc(vec![("key", JsonField::Bool(true))])));
    assert!(!cron_of_doc(&None));
}
