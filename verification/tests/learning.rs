use harnesssphere::json::{JsonDoc, JsonField};
use harnesssphere::learning::{
    count_graph, count_graph_record, count_memory, count_skills, finish, Counts, LearningCollector, MemoryEntry, SkillEntry,
};
use harnesssphere::ports::ProbeResult;
use harnesssphere::signal::{AttrValue, Metric, Quantity};
use harnesssphere::workspace::Workspace;
use std::time::Duration;

fn workspace() -> Workspace {
    Workspace {
        tenant: "acme".into(),
        subscription: "s1".into(),
        agent: "alpha".into(),
        user: "u1".into(),
        root: "/data/tenants/acme/subscriptions/s1/agents/alpha/users/u1".into(),
    }
}

fn skill(name: &str, with_manifest: bool) -> SkillEntry {
    SkillEntry { name: Some(name.to_owned()), is_dir: true, has_manifest: with_manifest }
}

/// One gathering as the edge drives it: skill directories, memory directories and graph
/// files, each given by what listing or reading it found.
fn run(skills: Vec<Vec<SkillEntry>>, memory: Vec<Vec<MemoryEntry>>, graphs: Vec<&str>) -> Vec<Metric> {
    let mut c = Counts::new();
    for dir in &skills {
        count_skills(&mut c, dir);
    }
    for dir in &memory {
        count_memory(&mut c, dir);
    }
    for g in graphs {
        count_graph(&mut c, g);
    }
    finish(&mut c);
    LearningCollector::new(workspace(), "picoclaw", Duration::from_secs(1)).metrics(&c)
}

fn value(ms: &[Metric], name: &str) -> u64 {
    match ms.iter().find(|m| m.name == name).unwrap_or_else(|| panic!("{name} was not emitted")).value {
        Quantity::Count(n) => n,
        other => panic!("unexpected {other:?}"),
    }
}

fn skill_names(ms: &[Metric]) -> Vec<String> {
    let mut v: Vec<String> = ms
        .iter()
        .filter(|m| m.name == "harnesssphere.harness.skill")
        .filter_map(|m| {
            m.attributes.iter().find(|(k, _)| k == "skill.name").map(|(_, v)| match v {
                AttrValue::Str(s) => s.clone(),
                other => format!("{other:?}"),
            })
        })
        .collect();
    v.sort();
    v
}

#[test]
fn a_directory_without_skill_md_is_not_a_skill() {
    let ms = run(vec![vec![skill("github", true), skill("weather", true), skill("shared-content", false)]], vec![], vec![]);
    assert_eq!(value(&ms, "harnesssphere.harness.skills"), 2);
    assert_eq!(skill_names(&ms), vec!["github", "weather"]);
}

#[test]
fn skills_in_project_workspaces_are_counted() {
    let ms = run(vec![vec![skill("github", true)], vec![skill("summarize", true)]], vec![], vec![]);
    assert_eq!(value(&ms, "harnesssphere.harness.skills"), 2);
    assert_eq!(skill_names(&ms), vec!["github", "summarize"]);
}

#[test]
fn empty_memory_scaffolds_are_excluded() {
    let mem = vec![
        MemoryEntry { is_file: true, len: 0 },
        MemoryEntry { is_file: true, len: 0 },
        MemoryEntry { is_file: true, len: 0 },
        MemoryEntry { is_file: true, len: 317 },
    ];
    let ms = run(vec![], vec![mem], vec![]);
    assert_eq!(
        value(&ms, "harnesssphere.harness.memory.files"),
        1,
        "provisioning scaffolds were counted — a fresh instance reads as having memory"
    );
    assert_eq!(value(&ms, "harnesssphere.harness.memory.bytes"), 317);
}

#[test]
fn graph_counts_records_not_lines_and_sums_observations() {
    let mut lines: Vec<String> = Vec::new();
    for i in 0..10 {
        lines.push(format!(r#"{{"type":"entity","name":"e{i}","observations":["a","b","c"]}}"#));
    }
    for i in 0..10 {
        lines.push(format!(r#"{{"type":"relation","from":"e{i}","to":"e0"}}"#));
    }
    let graph = lines.join("\n");
    let ms = run(vec![], vec![], vec![&graph]);
    assert_eq!(value(&ms, "harnesssphere.graph.entities"), 10);
    assert_eq!(value(&ms, "harnesssphere.graph.relations"), 10, "the last record was lost — lines were counted instead of records");
    assert_eq!(value(&ms, "harnesssphere.graph.observations"), 30);
}

#[test]
fn every_project_graph_is_summed() {
    let g = "{\"type\":\"entity\",\"observations\":[\"a\"]}\n";
    let ms = run(vec![], vec![], vec![g, g]);
    assert_eq!(value(&ms, "harnesssphere.graph.entities"), 2);
    assert_eq!(value(&ms, "harnesssphere.graph.observations"), 2);
}

#[test]
fn malformed_records_are_skipped() {
    let ms = run(vec![], vec![], vec!["{\"type\":\"entity\",\"observations\":[\"a\"]}\nnot json at all\n{\"no_type\":1}\n"]);
    assert_eq!(value(&ms, "harnesssphere.graph.entities"), 1);
    assert_eq!(value(&ms, "harnesssphere.graph.relations"), 0);
}

#[test]
fn no_entity_name_or_observation_text_is_emitted() {
    let ms = run(vec![], vec![], vec![r#"{"type":"entity","name":"SECRET_ENTITY","observations":["SECRET_FACT"]}"#]);
    let all = format!("{ms:?}");
    assert!(!all.contains("SECRET_ENTITY"), "an entity name reached a signal");
    assert!(!all.contains("SECRET_FACT"), "observation text reached a signal");
}

#[test]
fn an_empty_workspace_reports_zeroes_not_an_error() {
    let ms = run(vec![], vec![], vec![]);
    assert_eq!(value(&ms, "harnesssphere.harness.skills"), 0);
    assert_eq!(value(&ms, "harnesssphere.graph.entities"), 0);
    assert_eq!(value(&ms, "harnesssphere.harness.memory.files"), 0);
    assert_eq!(value(&ms, "harnesssphere.harness.memory.bytes"), 0);
}

#[test]
fn duplicate_skill_names_are_emitted_once_and_sorted() {
    let ms = run(vec![vec![skill("b", true), skill("a", true)], vec![skill("b", true)]], vec![], vec![]);
    assert_eq!(value(&ms, "harnesssphere.harness.skills"), 3);
    assert_eq!(skill_names(&ms), vec!["a", "b"]);
    let unnamed = SkillEntry { name: None, is_dir: true, has_manifest: true };
    let mut c = Counts::new();
    count_skills(&mut c, &vec![unnamed, SkillEntry { name: Some("f".into()), is_dir: false, has_manifest: true }]);
    assert_eq!(c.skills, 0);
}

#[test]
fn collector_identity_probe_and_retirement() {
    let c = LearningCollector::new(workspace(), "picoclaw", Duration::from_secs(1));
    assert_eq!(c.descriptor().name, "learning:session:acme/s1/alpha/u1");
    assert!(matches!(c.probe(true), ProbeResult::Ready));
    assert!(matches!(c.probe(false), ProbeResult::Unavailable(_)));
    let ms = c.retire_metrics();
    assert_eq!(ms.len(), 6);
    assert!(ms.iter().all(|m| m.value == Quantity::Count(0)));
    let bytes = ms.iter().find(|m| m.name == "harnesssphere.harness.memory.bytes").unwrap();
    assert!(bytes.attributes.iter().any(|(k, v)| k == "crab.user" && matches!(v, AttrValue::Str(s) if s == "u1")));
}

#[test]
fn a_parsed_graph_record_counts_by_its_type() {
    let mut c = Counts::new();
    let entity = Some(JsonDoc::Object(vec![
        ("type".to_owned(), JsonField::Str("entity".into())),
        ("observations".to_owned(), JsonField::Array(vec![serde_json::Value::Null; 3])),
    ]));
    count_graph_record(&mut c, &entity);
    count_graph_record(&mut c, &Some(JsonDoc::Object(vec![("type".to_owned(), JsonField::Str("relation".into()))])));
    count_graph_record(&mut c, &Some(JsonDoc::Object(vec![("type".to_owned(), JsonField::Str("other".into()))])));
    count_graph_record(&mut c, &Some(JsonDoc::Other));
    count_graph_record(&mut c, &None);
    assert_eq!((c.entities, c.relations, c.observations), (1, 1, 3));
}
