//! Learning collector: what an agent has retained (skills, memory files, the knowledge
//! graph), as opposed to how much it has talked. One collector per workspace.
//!
//! No content reaches a signal. Skill names are emitted: they are agent-authored and
//! few. Entity names, relation names, observation text and memory file contents are not
//! even read: the graph is seen through its `type` field and the length of its
//! `observations` array, and memory files through their sizes.

use crate::json::{array_len_field, get_field, json_doc, opt_doc_view, parse, str_field, JsonDoc, JsonDocView, JsonField};
use crate::ports::{Criticality, ProbeResult, SourceDescriptor};
use crate::session::{gauge, tag_spec};
use crate::signal::{metrics_view, AttrValue, AttrView, Layer, Metric, MetricKind, MetricView, Quantity};
use crate::text::{
    concat, lines_seq, next_line, owned, sorted_unique, string_of_window, strictly_sorted, text_eq,
    trim_seq, trim_window, views, chars_of,
};
use crate::workspace::{ws_source_name, Workspace};
use std::time::Duration;
use vstd::prelude::*;

verus! {

/// What one gathering found. Counts wrap at `u64::MAX`.
pub struct Counts {
    pub skills: u64,
    pub skill_names: Vec<String>,
    pub memory_files: u64,
    pub memory_bytes: u64,
    pub entities: u64,
    pub relations: u64,
    pub observations: u64,
}

pub struct CountsView {
    pub skills: u64,
    pub skill_names: Seq<Seq<char>>,
    pub memory_files: u64,
    pub memory_bytes: u64,
    pub entities: u64,
    pub relations: u64,
    pub observations: u64,
}

impl View for Counts {
    type V = CountsView;

    open spec fn view(&self) -> CountsView {
        CountsView {
            skills: self.skills,
            skill_names: views(self.skill_names@),
            memory_files: self.memory_files,
            memory_bytes: self.memory_bytes,
            entities: self.entities,
            relations: self.relations,
            observations: self.observations,
        }
    }
}

pub open spec fn zero_counts() -> CountsView {
    CountsView {
        skills: 0,
        skill_names: Seq::empty(),
        memory_files: 0,
        memory_bytes: 0,
        entities: 0,
        relations: 0,
        observations: 0,
    }
}

impl Counts {
    pub fn new() -> (c: Counts)
        ensures
            c@ == zero_counts(),
    {
        let c = Counts {
            skills: 0,
            skill_names: Vec::new(),
            memory_files: 0,
            memory_bytes: 0,
            entities: 0,
            relations: 0,
            observations: 0,
        };
        assert(views(c.skill_names@) =~= Seq::<Seq<char>>::empty());
        c
    }
}

/// An entry of a `skills` directory as the edge saw it: its name when that is valid
/// UTF-8, whether it is a directory, and whether it holds a `SKILL.md` file.
pub struct SkillEntry {
    pub name: Option<String>,
    pub is_dir: bool,
    pub has_manifest: bool,
}

/// An entry of a `memory` directory whose metadata could be read.
pub struct MemoryEntry {
    pub is_file: bool,
    pub len: u64,
}

/// A skill is a directory holding `SKILL.md`, not merely a directory.
pub open spec fn skill_step(c: CountsView, e: SkillEntry) -> CountsView {
    if e.is_dir && e.has_manifest && e.name is Some {
        CountsView {
            skills: c.skills.wrapping_add(1),
            skill_names: c.skill_names.push(e.name->0@),
            ..c
        }
    } else {
        c
    }
}

pub open spec fn skills_spec(c: CountsView, es: Seq<SkillEntry>) -> CountsView
    decreases es.len(),
{
    if es.len() == 0 {
        c
    } else {
        skill_step(skills_spec(c, es.drop_last()), es.last())
    }
}

/// Only non-empty files count, and only their bytes are summed: zero-byte scaffolds
/// created at provisioning are not memory.
pub open spec fn memory_step(c: CountsView, e: MemoryEntry) -> CountsView {
    if e.is_file && e.len > 0 {
        CountsView {
            memory_files: c.memory_files.wrapping_add(1),
            memory_bytes: c.memory_bytes.wrapping_add(e.len),
            ..c
        }
    } else {
        c
    }
}

pub open spec fn memory_spec(c: CountsView, es: Seq<MemoryEntry>) -> CountsView
    decreases es.len(),
{
    if es.len() == 0 {
        c
    } else {
        memory_step(memory_spec(c, es.drop_last()), es.last())
    }
}

/// One record of the knowledge graph: blank and unparsable lines count as nothing; an
/// `entity` adds one entity and the length of its `observations` array; a `relation` adds
/// one relation; any other record is ignored.
pub open spec fn graph_line(c: CountsView, line: Seq<char>) -> CountsView {
    let text = trim_seq(line);
    if text.len() == 0 {
        c
    } else {
        graph_doc(c, json_doc(text))
    }
}

/// What one parsed graph record adds.
pub open spec fn graph_doc(c: CountsView, doc: Option<JsonDocView>) -> CountsView {
    match str_field(doc, "type"@) {
        Some(t) => if t == "entity"@ {
            CountsView {
                entities: c.entities.wrapping_add(1),
                observations: match array_len_field(doc, "observations"@) {
                    Some(n) => c.observations.wrapping_add(n as u64),
                    None => c.observations,
                },
                ..c
            }
        } else if t == "relation"@ {
            CountsView { relations: c.relations.wrapping_add(1), ..c }
        } else {
            c
        },
        None => c,
    }
}

/// The records of a graph file, one per line; a last line without a newline is a record
/// like any other.
pub open spec fn graph_spec(c: CountsView, ls: Seq<Seq<char>>) -> CountsView
    decreases ls.len(),
{
    if ls.len() == 0 {
        c
    } else {
        graph_line(graph_spec(c, ls.drop_last()), ls.last())
    }
}

/// Counts the skills among the entries of one `skills` directory.
pub fn count_skills(out: &mut Counts, entries: &Vec<SkillEntry>)
    ensures
        final(out)@ == skills_spec(old(out)@, entries@),
{
    let ghost c0 = out@;
    let mut i: usize = 0;
    assert(entries@.take(0) =~= Seq::<SkillEntry>::empty());
    while i < entries.len()
        invariant
            i <= entries.len(),
            out@ == skills_spec(c0, entries@.take(i as int)),
        decreases entries.len() - i,
    {
        proof {
            assert(entries@.take(i + 1).drop_last() =~= entries@.take(i as int));
            assert(entries@.take(i + 1).last() == entries@[i as int]);
        }
        let e = &entries[i];
        if e.is_dir && e.has_manifest {
            match &e.name {
                Some(n) => {
                    out.skills = out.skills.wrapping_add(1);
                    let ghost before = out.skill_names@;
                    out.skill_names.push(owned(n.as_str()));
                    assert(views(out.skill_names@) =~= views(before).push(n@));
                },
                None => {},
            }
        }
        i += 1;
    }
    assert(entries@.take(entries.len() as int) =~= entries@);
}

/// Counts the non-empty files among the entries of one `memory` directory.
pub fn count_memory(out: &mut Counts, entries: &Vec<MemoryEntry>)
    ensures
        final(out)@ == memory_spec(old(out)@, entries@),
{
    let ghost c0 = out@;
    let mut i: usize = 0;
    assert(entries@.take(0) =~= Seq::<MemoryEntry>::empty());
    while i < entries.len()
        invariant
            i <= entries.len(),
            out@ == memory_spec(c0, entries@.take(i as int)),
        decreases entries.len() - i,
    {
        proof {
            assert(entries@.take(i + 1).drop_last() =~= entries@.take(i as int));
            assert(entries@.take(i + 1).last() == entries@[i as int]);
        }
        let e = &entries[i];
        if e.is_file && e.len > 0 {
            out.memory_files = out.memory_files.wrapping_add(1);
            out.memory_bytes = out.memory_bytes.wrapping_add(e.len);
        }
        i += 1;
    }
    assert(entries@.take(entries.len() as int) =~= entries@);
}

fn count_graph_line(out: &mut Counts, v: &Vec<char>, a: usize, b: usize)
    requires
        a <= b <= v.len(),
    ensures
        final(out)@ == graph_line(old(out)@, v@.subrange(a as int, b as int)),
{
    let (ta, tb) = trim_window(v, a, b);
    if ta == tb {
        return;
    }
    let text = string_of_window(v, ta, tb);
    count_graph_record(out, &parse(text.as_str()));
}

/// Counts one parsed graph record: an `entity` adds one entity and the length of its
/// `observations` array (their text is never read); a `relation` adds one relation; any
/// other record, or a document that is not an object with a string `type`, adds nothing.
pub fn count_graph_record(out: &mut Counts, doc: &Option<JsonDoc>)
    ensures
        final(out)@ == graph_doc(old(out)@, opt_doc_view(*doc)),
{
    match get_field(doc, "type") {
        Some(JsonField::Str(t)) => {
            if text_eq(t.as_str(), "entity") {
                out.entities = out.entities.wrapping_add(1);
                match get_field(doc, "observations") {
                    Some(JsonField::Array(a)) => {
                        out.observations = out.observations.wrapping_add(a.len() as u64);
                    },
                    _ => {},
                }
            } else if text_eq(t.as_str(), "relation") {
                out.relations = out.relations.wrapping_add(1);
            }
        },
        _ => {},
    }
}

/// Counts the records of one knowledge-graph file. Records are counted, not lines: the
/// last record usually carries no trailing newline.
pub fn count_graph(out: &mut Counts, raw: &str)
    ensures
        final(out)@ == graph_spec(old(out)@, lines_seq(raw@)),
{
    let v = chars_of(raw);
    let ghost c0 = out@;
    let ghost all = lines_seq(v@);
    let mut pos: usize = 0;
    let ghost mut done: Seq<Seq<char>> = Seq::empty();
    assert(v@.subrange(0, v.len() as int) =~= v@);
    while pos < v.len()
        invariant
            pos <= v.len(),
            all == lines_seq(v@),
            all == done + lines_seq(v@.subrange(pos as int, v.len() as int)),
            out@ == graph_spec(c0, done),
        decreases v.len() - pos,
    {
        let (a, b, nxt) = next_line(&v, pos, v.len());
        let ghost line = v@.subrange(a as int, b as int);
        let ghost rest = lines_seq(v@.subrange(nxt as int, v.len() as int));
        count_graph_line(out, &v, a, b);
        proof {
            assert(done.push(line).drop_last() =~= done);
            assert(done + (seq![line] + rest) =~= done.push(line) + rest);
            done = done.push(line);
        }
        pos = nxt;
    }
    assert(lines_seq(v@.subrange(pos as int, v.len() as int)) =~= Seq::<Seq<char>>::empty());
    assert(done + Seq::<Seq<char>>::empty() =~= done);
}

/// Sorts the skill names and drops duplicates.
pub fn finish(out: &mut Counts)
    ensures
        strictly_sorted(final(out)@.skill_names),
        forall|y: Seq<char>| final(out)@.skill_names.contains(y) <==> old(out)@.skill_names.contains(y),
        final(out)@.skills == old(out)@.skills,
        final(out)@.memory_files == old(out)@.memory_files,
        final(out)@.memory_bytes == old(out)@.memory_bytes,
        final(out)@.entities == old(out)@.entities,
        final(out)@.relations == old(out)@.relations,
        final(out)@.observations == old(out)@.observations,
{
    let mut names: Vec<String> = Vec::new();
    std::mem::swap(&mut names, &mut out.skill_names);
    out.skill_names = sorted_unique(names);
}

/// The learning collector of one workspace.
pub struct LearningCollector {
    descriptor: SourceDescriptor,
    workspace: Workspace,
    source: String,
}

pub struct LearningModel {
    pub workspace: Workspace,
    pub source: Seq<char>,
    pub name: Seq<char>,
    pub interval: Duration,
}

impl View for LearningCollector {
    type V = LearningModel;

    closed spec fn view(&self) -> LearningModel {
        LearningModel {
            workspace: self.workspace,
            source: self.source@,
            name: self.descriptor.name@,
            interval: self.descriptor.default_interval,
        }
    }
}

/// Everything one cycle emits: skills, memory files, graph entities, relations and
/// observations, memory bytes (in bytes), then one series per skill name; all tagged.
pub open spec fn learning_metrics(m: LearningModel, c: CountsView) -> Seq<MetricView> {
    seq![
        tag_spec(gauge("harnesssphere.harness.skills"@, c.skills), m.workspace, m.source),
        tag_spec(gauge("harnesssphere.harness.memory.files"@, c.memory_files), m.workspace, m.source),
        tag_spec(gauge("harnesssphere.graph.entities"@, c.entities), m.workspace, m.source),
        tag_spec(gauge("harnesssphere.graph.relations"@, c.relations), m.workspace, m.source),
        tag_spec(gauge("harnesssphere.graph.observations"@, c.observations), m.workspace, m.source),
        tag_spec(gauge("harnesssphere.harness.memory.bytes"@, c.memory_bytes), m.workspace, m.source).with_unit("By"@),
    ] + Seq::new(
        c.skill_names.len(),
        |i: int|
            tag_spec(gauge("harnesssphere.harness.skill"@, 1), m.workspace, m.source).attr(
                "skill.name"@,
                AttrView::Str(c.skill_names[i]),
            ),
    )
}

/// The terminal signal of a retired workspace: zeroes, tagged.
pub open spec fn learning_retire_metrics(m: LearningModel) -> Seq<MetricView> {
    seq![
        tag_spec(gauge("harnesssphere.harness.skills"@, 0), m.workspace, m.source),
        tag_spec(gauge("harnesssphere.harness.memory.files"@, 0), m.workspace, m.source),
        tag_spec(gauge("harnesssphere.harness.memory.bytes"@, 0), m.workspace, m.source),
        tag_spec(gauge("harnesssphere.graph.entities"@, 0), m.workspace, m.source),
        tag_spec(gauge("harnesssphere.graph.relations"@, 0), m.workspace, m.source),
        tag_spec(gauge("harnesssphere.graph.observations"@, 0), m.workspace, m.source),
    ]
}

impl LearningCollector {
    #[verifier::type_invariant]
    spec fn inv(self) -> bool {
        &&& self.descriptor.layer == Layer::Harness
        &&& self.descriptor.criticality == Criticality::Optional
    }

    /// A collector for `workspace`, named `learning:` and the workspace's source name.
    pub fn new(workspace: Workspace, source: &str, interval: Duration) -> (c: Self)
        ensures
            c@.workspace == workspace,
            c@.source == source@,
            c@.name == "learning:"@ + ws_source_name(workspace),
            c@.interval == interval,
    {
        let base = workspace.source_name();
        let name = concat("learning:", base.as_str());
        LearningCollector {
            descriptor: SourceDescriptor::new(name, Layer::Harness, Criticality::Optional, interval),
            workspace,
            source: owned(source),
        }
    }

    /// This source's descriptor: its name, the Harness layer, Optional.
    pub fn descriptor(&self) -> (d: &SourceDescriptor)
        ensures
            d.name@ == self@.name,
            d.layer == Layer::Harness,
            d.criticality == Criticality::Optional,
            d.default_interval == self@.interval,
    {
        proof {
            use_type_invariant(self);
        }
        &self.descriptor
    }

    pub fn workspace(&self) -> (w: &Workspace)
        ensures
            *w == self@.workspace,
    {
        &self.workspace
    }

    /// Ready while the workspace root is a directory; never `NotApplicable`, since a
    /// workspace not yet populated is transient.
    pub fn probe(&self, root_is_dir: bool) -> (r: ProbeResult)
        ensures
            root_is_dir ==> r is Ready,
            !root_is_dir ==> (r matches ProbeResult::Unavailable(msg) && msg@ == "workspace gone: "@
                + self@.workspace.root@),
    {
        if root_is_dir {
            ProbeResult::Ready
        } else {
            ProbeResult::Unavailable(concat("workspace gone: ", self.workspace.root.as_str()))
        }
    }

    fn tag(&self, m: Metric) -> (r: Metric)
        ensures
            r@ == tag_spec(m@, self@.workspace, self@.source),
    {
        m.attr("crab.tenant", AttrValue::text(self.workspace.tenant.as_str())).attr(
            "crab.subscription",
            AttrValue::text(self.workspace.subscription.as_str()),
        ).attr("crab.agent", AttrValue::text(self.workspace.agent.as_str())).attr(
            "crab.user",
            AttrValue::text(self.workspace.user.as_str()),
        ).attr("harness.name", AttrValue::text(self.source.as_str()))
    }

    fn gauge_of(&self, name: &str, n: u64) -> (r: Metric)
        ensures
            r@ == tag_spec(gauge(name@, n), self@.workspace, self@.source),
    {
        self.tag(Metric::new(name, MetricKind::Gauge, Quantity::Count(n)))
    }

    /// What one cycle emits for the counts gathered.
    pub fn metrics(&self, c: &Counts) -> (ms: Vec<Metric>)
        ensures
            metrics_view(ms@) == learning_metrics(self@, c@),
    {
        let mut out: Vec<Metric> = Vec::new();
        out.push(self.gauge_of("harnesssphere.harness.skills", c.skills));
        out.push(self.gauge_of("harnesssphere.harness.memory.files", c.memory_files));
        out.push(self.gauge_of("harnesssphere.graph.entities", c.entities));
        out.push(self.gauge_of("harnesssphere.graph.relations", c.relations));
        out.push(self.gauge_of("harnesssphere.graph.observations", c.observations));
        out.push(self.gauge_of("harnesssphere.harness.memory.bytes", c.memory_bytes).with_unit("By"));
        let ghost head = metrics_view(out@);
        assert(head =~= learning_metrics(self@, c@).take(6));
        let mut i: usize = 0;
        while i < c.skill_names.len()
            invariant
                i <= c.skill_names.len(),
                out.len() == 6 + i,
                head.len() == 6,
                forall|k: int| 0 <= k < 6 ==> #[trigger] metrics_view(out@)[k] == head[k],
                forall|k: int| 0 <= k < i ==> #[trigger] metrics_view(out@)[6 + k] == tag_spec(
                    gauge("harnesssphere.harness.skill"@, 1),
                    self@.workspace,
                    self@.source,
                ).attr("skill.name"@, AttrView::Str(c@.skill_names[k])),
            decreases c.skill_names.len() - i,
        {
            let m = self.gauge_of("harnesssphere.harness.skill", 1).attr(
                "skill.name",
                AttrValue::text(c.skill_names[i].as_str()),
            );
            let ghost before = out@;
            out.push(m);
            proof {
                assert(c@.skill_names[i as int] == c.skill_names@[i as int]@);
                assert forall|k: int| 0 <= k < 6 implies #[trigger] metrics_view(out@)[k] == head[k] by {
                    assert(out@[k] == before[k]);
                    assert(metrics_view(before)[k] == before[k]@);
                }
                assert forall|k: int| 0 <= k < i + 1 implies #[trigger] metrics_view(out@)[6 + k] == tag_spec(
                    gauge("harnesssphere.harness.skill"@, 1),
                    self@.workspace,
                    self@.source,
                ).attr("skill.name"@, AttrView::Str(c@.skill_names[k])) by {
                    if k < i {
                        assert(out@[6 + k] == before[6 + k]);
                        assert(metrics_view(before)[6 + k] == before[6 + k]@);
                    } else {
                        assert(metrics_view(out@)[6 + k] == m@);
                    }
                }
            }
            i += 1;
        }
        let ghost lm = learning_metrics(self@, c@);
        assert(lm.len() == out.len());
        assert forall|k: int| 0 <= k < out.len() implies #[trigger] metrics_view(out@)[k] == lm[k] by {
            if k < 6 {
                assert(head[k] == lm.take(6)[k]);
            } else {
                let j = k - 6;
                assert(metrics_view(out@)[6 + j] == lm[6 + j]);
            }
        }
        assert(metrics_view(out@) =~= lm);
        out
    }

    /// The terminal signal of a retired workspace.
    pub fn retire_metrics(&self) -> (ms: Vec<Metric>)
        ensures
            metrics_view(ms@) == learning_retire_metrics(self@),
    {
        let mut out: Vec<Metric> = Vec::new();
        out.push(self.gauge_of("harnesssphere.harness.skills", 0));
        out.push(self.gauge_of("harnesssphere.harness.memory.files", 0));
        out.push(self.gauge_of("harnesssphere.harness.memory.bytes", 0));
        out.push(self.gauge_of("harnesssphere.graph.entities", 0));
        out.push(self.gauge_of("harnesssphere.graph.relations", 0));
        out.push(self.gauge_of("harnesssphere.graph.observations", 0));
        assert(metrics_view(out@) =~= learning_retire_metrics(self@));
        out
    }
}

/// One `harnesssphere.harness.skill` series is emitted per skill name, in order, each
/// with the value 1 (the skill is present) and the name as its `skill.name`; no other
/// series of the cycle carries that metric name.
pub proof fn law_each_skill_reads_present(m: LearningModel, c: CountsView)
    ensures
        learning_metrics(m, c).len() == 6 + c.skill_names.len(),
        forall|k: int|
            0 <= k < learning_metrics(m, c).len() ==> ((#[trigger] learning_metrics(m, c)[k]).name
                == "harnesssphere.harness.skill"@ <==> 6 <= k),
        forall|i: int|
            0 <= i < c.skill_names.len() ==> {
                let s = #[trigger] learning_metrics(m, c)[6 + i];
                &&& s.kind == MetricKind::Gauge
                &&& s.value == Quantity::Count(1)
                &&& s.attributes.last() == ("skill.name"@, AttrView::Str(c.skill_names[i]))
            },
{
    reveal_strlit("harnesssphere.harness.skill");
    reveal_strlit("harnesssphere.harness.skills");
    reveal_strlit("harnesssphere.harness.memory.files");
    reveal_strlit("harnesssphere.graph.entities");
    reveal_strlit("harnesssphere.graph.relations");
    reveal_strlit("harnesssphere.graph.observations");
    reveal_strlit("harnesssphere.harness.memory.bytes");
    let out = learning_metrics(m, c);
    assert forall|k: int| 0 <= k < out.len() implies ((#[trigger] out[k]).name == "harnesssphere.harness.skill"@
        <==> 6 <= k) by {
        if k < 6 {
            assert(out[k].name.len() != "harnesssphere.harness.skill"@.len());
        }
    }
}

} // verus!
