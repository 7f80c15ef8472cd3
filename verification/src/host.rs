//! Host collector (Critical): CPU, memory and swap of the machine, following the
//! `system.*` semantic conventions. Reading the OS is the edge's job; this module says
//! what a reading is reported as.

use crate::ports::{Criticality, ProbeResult, SourceDescriptor};
use crate::signal::{bare, metrics_view, AttrValue, AttrView, Layer, Metric, MetricKind, MetricView, Quantity};
use crate::text::owned;
use std::time::Duration;
use vstd::prelude::*;

verus! {

/// One reading of the host. CPU utilisation is the aggregate percentage the OS reports,
/// as the bit pattern of an `f32`; memory and swap are in bytes.
#[derive(Debug, Clone, Copy)]
pub struct HostReading {
    pub cpu_percent_bits: u32,
    pub total_memory: u64,
    pub used_memory: u64,
    pub free_memory: u64,
    pub available_memory: u64,
    pub total_swap: u64,
    pub used_swap: u64,
}

pub open spec fn memory_state(value: u64, state: Seq<char>) -> MetricView {
    bare("system.memory.usage"@, MetricKind::UpDownCounter, Quantity::Count(value)).with_unit("By"@).attr(
        "system.memory.state"@,
        AttrView::Str(state),
    )
}

/// Everything one reading emits: CPU utilisation (a fraction; no per-state breakdown is
/// invented), memory by state, memory utilisation when the total is known, swap in use,
/// and swap utilisation when there is swap.
pub open spec fn host_metrics_spec(r: HostReading) -> Seq<MetricView> {
    seq![
        bare("system.cpu.utilization"@, MetricKind::Gauge, Quantity::PercentF32(r.cpu_percent_bits)),
        memory_state(r.used_memory, "used"@),
        memory_state(r.free_memory, "free"@),
        memory_state(r.available_memory, "available"@),
    ] + (if r.total_memory > 0 {
        seq![
            bare("system.memory.utilization"@, MetricKind::Gauge, Quantity::Ratio(r.used_memory, r.total_memory)).attr(
                "system.memory.state"@,
                AttrView::Str("used"@),
            ),
        ]
    } else {
        Seq::empty()
    }) + seq![
        bare("system.paging.usage"@, MetricKind::UpDownCounter, Quantity::Count(r.used_swap)).with_unit("By"@).attr(
            "system.paging.state"@,
            AttrView::Str("used"@),
        ),
    ] + (if r.total_swap > 0 {
        seq![bare("system.paging.utilization"@, MetricKind::Gauge, Quantity::Ratio(r.used_swap, r.total_swap))]
    } else {
        Seq::empty()
    })
}

pub struct HostCollector {
    descriptor: SourceDescriptor,
}

impl HostCollector {
    /// The host source: Critical, on the Host layer.
    pub fn new(interval: Duration) -> (c: Self)
        ensures
            c.descriptor_spec().name@ == "host"@,
            c.descriptor_spec().layer == Layer::Host,
            c.descriptor_spec().criticality == Criticality::Critical,
            c.descriptor_spec().default_interval == interval,
    {
        HostCollector { descriptor: SourceDescriptor::new(owned("host"), Layer::Host, Criticality::Critical, interval) }
    }

    pub closed spec fn descriptor_spec(&self) -> SourceDescriptor {
        self.descriptor
    }

    pub fn descriptor(&self) -> (d: &SourceDescriptor)
        ensures
            *d == self.descriptor_spec(),
    {
        &self.descriptor
    }

    /// The host is always there; if even its memory cannot be read, that is fatal.
    pub fn probe(&self, total_memory: u64) -> (r: ProbeResult)
        ensures
            total_memory == 0 ==> (r matches ProbeResult::Fatal(m) && m@ == "could not read host memory"@),
            total_memory > 0 ==> r is Ready,
    {
        if total_memory == 0 {
            ProbeResult::Fatal(owned("could not read host memory"))
        } else {
            ProbeResult::Ready
        }
    }

    /// What one reading emits.
    pub fn metrics(&self, r: &HostReading) -> (ms: Vec<Metric>)
        ensures
            metrics_view(ms@) == host_metrics_spec(*r),
    {
        let mut out: Vec<Metric> = Vec::new();
        out.push(Metric::new("system.cpu.utilization", MetricKind::Gauge, Quantity::PercentF32(r.cpu_percent_bits)));
        out.push(Metric::new("system.memory.usage", MetricKind::UpDownCounter, Quantity::Count(r.used_memory)).with_unit("By").attr(
            "system.memory.state",
            AttrValue::text("used"),
        ));
        out.push(Metric::new("system.memory.usage", MetricKind::UpDownCounter, Quantity::Count(r.free_memory)).with_unit("By").attr(
            "system.memory.state",
            AttrValue::text("free"),
        ));
        out.push(Metric::new("system.memory.usage", MetricKind::UpDownCounter, Quantity::Count(r.available_memory)).with_unit("By").attr(
            "system.memory.state",
            AttrValue::text("available"),
        ));
        let ghost a = metrics_view(out@);
        if r.total_memory > 0 {
            out.push(Metric::new("system.memory.utilization", MetricKind::Gauge, Quantity::Ratio(r.used_memory, r.total_memory)).attr(
                "system.memory.state",
                AttrValue::text("used"),
            ));
        }
        let ghost b = metrics_view(out@);
        out.push(Metric::new("system.paging.usage", MetricKind::UpDownCounter, Quantity::Count(r.used_swap)).with_unit("By").attr(
            "system.paging.state",
            AttrValue::text("used"),
        ));
        let ghost c = metrics_view(out@);
        if r.total_swap > 0 {
            out.push(Metric::new("system.paging.utilization", MetricKind::Gauge, Quantity::Ratio(r.used_swap, r.total_swap)));
        }
        assert(metrics_view(out@) =~= host_metrics_spec(*r));
        out
    }
}

} // verus!
