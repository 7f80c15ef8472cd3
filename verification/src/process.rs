//! Process collector (Optional): CPU and memory of co-located processes picked by
//! executable name, each sample tagged with the name and pid; and the watcher's own
//! process, which is a Critical source. Reading the process table is the edge's job.

use crate::ports::{CollectError, Criticality, ProbeResult, SourceDescriptor};
use crate::signal::{bare, metrics_view, AttrValue, AttrView, Layer, Metric, MetricKind, MetricView, Quantity};
use crate::text::{chars_of, contains, contains_seq, owned, views};
use std::time::Duration;
use vstd::prelude::*;

verus! {

/// One process as the OS reported it: executable name, pid, CPU as an `f32` percentage
/// of one core (its bit pattern), resident and virtual memory in bytes.
#[derive(Debug, Clone)]
pub struct ProcessReading {
    pub name: String,
    pub pid: u32,
    pub cpu_percent_bits: u32,
    pub memory: u64,
    pub virtual_memory: u64,
}

/// The three series of one process, each tagged with `extra` attributes.
pub open spec fn process_series(cpu_bits: u32, memory: u64, virtual_memory: u64, tag: spec_fn(MetricView) -> MetricView) -> Seq<MetricView> {
    seq![
        tag(bare("process.cpu.utilization"@, MetricKind::Gauge, Quantity::PercentF32(cpu_bits))),
        tag(bare("process.memory.usage"@, MetricKind::UpDownCounter, Quantity::Count(memory)).with_unit("By"@)),
        tag(bare("process.memory.virtual"@, MetricKind::UpDownCounter, Quantity::Count(virtual_memory)).with_unit("By"@)),
    ]
}

/// A watched process's tags: its executable name and pid.
pub open spec fn pid_tag(name: Seq<char>, pid: u32) -> spec_fn(MetricView) -> MetricView {
    |m: MetricView| m.attr("process.executable.name"@, AttrView::Str(name)).attr("process.pid"@, AttrView::Int(pid as i64))
}

/// A process is watched when any configured pattern occurs in its executable name.
pub open spec fn watched(patterns: Seq<Seq<char>>, name: Seq<char>) -> bool {
    exists|i: int| 0 <= i < patterns.len() && contains_seq(name, #[trigger] patterns[i])
}

/// What one sampling of the process table emits, in the order the table was given.
pub open spec fn process_metrics_spec(patterns: Seq<Seq<char>>, procs: Seq<ProcessReading>) -> Seq<MetricView>
    decreases procs.len(),
{
    if procs.len() == 0 {
        Seq::empty()
    } else {
        let p = procs.last();
        let init = process_metrics_spec(patterns, procs.drop_last());
        if watched(patterns, p.name@) {
            init + process_series(p.cpu_percent_bits, p.memory, p.virtual_memory, pid_tag(p.name@, p.pid))
        } else {
            init
        }
    }
}

pub struct ProcessCollector {
    descriptor: SourceDescriptor,
    names: Vec<String>,
}

impl ProcessCollector {
    /// Watches processes whose executable name contains one of `names`.
    pub fn new(names: Vec<String>, interval: Duration) -> (c: Self)
        ensures
            c.descriptor_spec().name@ == "process"@,
            c.descriptor_spec().layer == Layer::Host,
            c.descriptor_spec().criticality == Criticality::Optional,
            c.descriptor_spec().default_interval == interval,
            c.names_spec() == views(names@),
    {
        ProcessCollector {
            descriptor: SourceDescriptor::new(owned("process"), Layer::Host, Criticality::Optional, interval),
            names,
        }
    }

    pub closed spec fn descriptor_spec(&self) -> SourceDescriptor {
        self.descriptor
    }

    pub closed spec fn names_spec(&self) -> Seq<Seq<char>> {
        views(self.names@)
    }

    pub fn descriptor(&self) -> (d: &SourceDescriptor)
        ensures
            *d == self.descriptor_spec(),
    {
        &self.descriptor
    }

    /// Nothing to watch means the collector does not apply.
    pub fn probe(&self) -> (r: ProbeResult)
        ensures
            self.names_spec().len() == 0 ==> r is NotApplicable,
            self.names_spec().len() > 0 ==> r is Ready,
    {
        if self.names.len() == 0 {
            ProbeResult::NotApplicable
        } else {
            ProbeResult::Ready
        }
    }

    fn is_watched(&self, name: &str) -> (b: bool)
        ensures
            b == watched(self.names_spec(), name@),
    {
        let nv = chars_of(name);
        let ghost pats = views(self.names@);
        let mut i: usize = 0;
        while i < self.names.len()
            invariant
                i <= self.names.len(),
                pats == views(self.names@),
                nv@ == name@,
                forall|k: int| 0 <= k < i ==> !contains_seq(name@, #[trigger] pats[k]),
            decreases self.names.len() - i,
        {
            let pv = chars_of(self.names[i].as_str());
            if contains(&nv, &pv) {
                assert(contains_seq(name@, pats[i as int]));
                return true;
            }
            i += 1;
        }
        false
    }

    /// What one sampling of the process table emits: three series for every watched
    /// process, tagged with its executable name and pid.
    pub fn metrics(&self, procs: &Vec<ProcessReading>) -> (ms: Vec<Metric>)
        ensures
            metrics_view(ms@) == process_metrics_spec(self.names_spec(), procs@),
    {
        let mut out: Vec<Metric> = Vec::new();
        let mut i: usize = 0;
        assert(procs@.take(0) =~= Seq::<ProcessReading>::empty());
        while i < procs.len()
            invariant
                i <= procs.len(),
                metrics_view(out@) == process_metrics_spec(self.names_spec(), procs@.take(i as int)),
            decreases procs.len() - i,
        {
            proof {
                assert(procs@.take(i + 1).drop_last() =~= procs@.take(i as int));
                assert(procs@.take(i + 1).last() == procs@[i as int]);
            }
            let p = &procs[i];
            if self.is_watched(p.name.as_str()) {
                let pid = p.pid as i64;
                let ghost before = metrics_view(out@);
                out.push(Metric::new("process.cpu.utilization", MetricKind::Gauge, Quantity::PercentF32(p.cpu_percent_bits))
                    .attr("process.executable.name", AttrValue::text(p.name.as_str())).attr("process.pid", AttrValue::Int(pid)));
                out.push(Metric::new("process.memory.usage", MetricKind::UpDownCounter, Quantity::Count(p.memory)).with_unit("By")
                    .attr("process.executable.name", AttrValue::text(p.name.as_str())).attr("process.pid", AttrValue::Int(pid)));
                out.push(Metric::new("process.memory.virtual", MetricKind::UpDownCounter, Quantity::Count(p.virtual_memory)).with_unit("By")
                    .attr("process.executable.name", AttrValue::text(p.name.as_str())).attr("process.pid", AttrValue::Int(pid)));
                assert(metrics_view(out@) =~= before + process_series(p.cpu_percent_bits, p.memory, p.virtual_memory, pid_tag(p.name@, p.pid)));
            }
            i += 1;
        }
        assert(procs@.take(procs.len() as int) =~= procs@);
        out
    }
}

/// The watcher's own process (Critical): its series carry the executable name
/// `harnesssphere` so that they do not collapse into an unlabeled series.
pub struct SelfCollector {
    descriptor: SourceDescriptor,
}

/// What the watcher's own process reported.
#[derive(Debug, Clone, Copy)]
pub struct OwnReading {
    pub cpu_percent_bits: u32,
    pub memory: u64,
    pub virtual_memory: u64,
}

pub open spec fn own_tag() -> spec_fn(MetricView) -> MetricView {
    |m: MetricView| m.attr("process.executable.name"@, AttrView::Str("harnesssphere"@))
}

impl SelfCollector {
    pub fn new(interval: Duration) -> (c: Self)
        ensures
            c.descriptor_spec().name@ == "self"@,
            c.descriptor_spec().layer == Layer::Watcher,
            c.descriptor_spec().criticality == Criticality::Critical,
            c.descriptor_spec().default_interval == interval,
    {
        SelfCollector { descriptor: SourceDescriptor::new(owned("self"), Layer::Watcher, Criticality::Critical, interval) }
    }

    pub closed spec fn descriptor_spec(&self) -> SourceDescriptor {
        self.descriptor
    }

    pub fn descriptor(&self) -> (d: &SourceDescriptor)
        ensures
            *d == self.descriptor_spec(),
    {
        &self.descriptor
    }

    /// Ready when the watcher can see its own process; otherwise fatal.
    pub fn probe(&self, found: bool) -> (r: ProbeResult)
        ensures
            found ==> r is Ready,
            !found ==> (r matches ProbeResult::Fatal(m) && m@ == "could not inspect own process"@),
    {
        if found {
            ProbeResult::Ready
        } else {
            ProbeResult::Fatal(owned("could not inspect own process"))
        }
    }

    /// The three series of the watcher's own process; a process that disappeared is a
    /// failed cycle.
    pub fn metrics(&self, reading: Option<OwnReading>) -> (r: Result<Vec<Metric>, CollectError>)
        ensures
            match reading {
                Some(x) => r matches Ok(ms) && metrics_view(ms@) == process_series(x.cpu_percent_bits, x.memory, x.virtual_memory, own_tag()),
                None => r matches Err(CollectError::Failed(m)) && m@ == "own process disappeared"@,
            },
    {
        match reading {
            None => Err(CollectError::Failed(owned("own process disappeared"))),
            Some(x) => {
                let mut out: Vec<Metric> = Vec::new();
                out.push(Metric::new("process.cpu.utilization", MetricKind::Gauge, Quantity::PercentF32(x.cpu_percent_bits))
                    .attr("process.executable.name", AttrValue::text("harnesssphere")));
                out.push(Metric::new("process.memory.usage", MetricKind::UpDownCounter, Quantity::Count(x.memory)).with_unit("By")
                    .attr("process.executable.name", AttrValue::text("harnesssphere")));
                out.push(Metric::new("process.memory.virtual", MetricKind::UpDownCounter, Quantity::Count(x.virtual_memory)).with_unit("By")
                    .attr("process.executable.name", AttrValue::text("harnesssphere")));
                assert(metrics_view(out@) =~= process_series(x.cpu_percent_bits, x.memory, x.virtual_memory, own_tag()));
                Ok(out)
            },
        }
    }
}

} // verus!
