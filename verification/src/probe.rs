//! Endpoint probe collector: TCP liveness and connect latency of co-located services
//! that expose no metrics of their own. Connecting is the edge's job; this module says
//! what each result is reported as.

use crate::clock::{duration_from_secs, duration_of_secs};
use crate::ports::{Criticality, ProbeResult, SourceDescriptor};
use crate::signal::{bare, layer_attr_spec, layer_name, metrics_view, AttrValue, AttrView, Layer, Metric, MetricKind, MetricView, Quantity};
use crate::text::owned;
use std::time::Duration;
use vstd::prelude::*;

verus! {

/// One probe target and the layer it belongs to. The layer is per target: one collector
/// probes the gateway, the proxy and the webapp, three different layers.
#[derive(Debug, Clone)]
pub struct ProbeTarget {
    /// `host:port`. A port is required; there is no default.
    pub address: String,
    pub layer: Layer,
}

pub struct ProbeTargetView {
    pub address: Seq<char>,
    pub layer: Layer,
}

impl View for ProbeTarget {
    type V = ProbeTargetView;

    open spec fn view(&self) -> ProbeTargetView {
        ProbeTargetView { address: self.address@, layer: self.layer }
    }
}

impl ProbeTarget {
    pub fn new(address: &str, layer: Layer) -> (t: Self)
        ensures
            t@ == (ProbeTargetView { address: address@, layer }),
    {
        ProbeTarget { address: owned(address), layer }
    }
}

/// The two series one probe of `t` emits: `up` (1 or 0, an honest zero rather than an
/// absent series when the target is down) and the connect latency in seconds, both
/// tagged with the address and the target's own layer.
pub open spec fn target_metrics_spec(t: ProbeTargetView, up: bool, elapsed_nanos: u64) -> Seq<MetricView> {
    seq![
        bare("harnesssphere.endpoint.up"@, MetricKind::Gauge, Quantity::Count(if up { 1 } else { 0 })).attr(
            "server.address"@,
            AttrView::Str(t.address),
        ).attr(layer_attr_spec(), AttrView::Str(layer_name(t.layer))),
        bare("harnesssphere.endpoint.probe.duration"@, MetricKind::Gauge, Quantity::Ratio(elapsed_nanos, 1_000_000_000)).with_unit(
            "s"@,
        ).attr("server.address"@, AttrView::Str(t.address)).attr(layer_attr_spec(), AttrView::Str(layer_name(t.layer))),
    ]
}

pub struct EndpointProbeCollector {
    descriptor: SourceDescriptor,
    targets: Vec<ProbeTarget>,
    connect_timeout: Duration,
}

pub struct EndpointProbeModel {
    pub name: Seq<char>,
    pub interval: Duration,
    pub targets: Seq<ProbeTargetView>,
    pub connect_timeout: Duration,
}

impl View for EndpointProbeCollector {
    type V = EndpointProbeModel;

    closed spec fn view(&self) -> EndpointProbeModel {
        EndpointProbeModel {
            name: self.descriptor.name@,
            interval: self.descriptor.default_interval,
            targets: self.targets@.map_values(|t: ProbeTarget| t@),
            connect_timeout: self.connect_timeout,
        }
    }
}

impl EndpointProbeCollector {
    #[verifier::type_invariant]
    spec fn inv(self) -> bool {
        &&& self.descriptor.layer == Layer::Watcher
        &&& self.descriptor.criticality == Criticality::Optional
    }

    /// Probes `targets` every `interval`, with a 2 s connect timeout. Its own layer is
    /// only a fallback for signals about itself; each probe carries its target's layer.
    pub fn new(targets: Vec<ProbeTarget>, interval: Duration) -> (c: Self)
        ensures
            c@.name == "endpoint-probe"@,
            c@.interval == interval,
            c@.targets == targets@.map_values(|t: ProbeTarget| t@),
            c@.connect_timeout == duration_of_secs(2),
    {
        EndpointProbeCollector {
            descriptor: SourceDescriptor::new(owned("endpoint-probe"), Layer::Watcher, Criticality::Optional, interval),
            targets,
            connect_timeout: duration_from_secs(2),
        }
    }

    pub fn descriptor(&self) -> (d: &SourceDescriptor)
        ensures
            d.name@ == self@.name,
            d.layer == Layer::Watcher,
            d.criticality == Criticality::Optional,
            d.default_interval == self@.interval,
    {
        proof {
            use_type_invariant(self);
        }
        &self.descriptor
    }

    pub fn targets(&self) -> (t: &Vec<ProbeTarget>)
        ensures
            t@.map_values(|x: ProbeTarget| x@) == self@.targets,
    {
        &self.targets
    }

    pub fn connect_timeout(&self) -> (d: Duration)
        ensures
            d == self@.connect_timeout,
    {
        self.connect_timeout
    }

    /// Nothing to probe means the collector does not apply.
    pub fn probe(&self) -> (r: ProbeResult)
        ensures
            self@.targets.len() == 0 ==> r is NotApplicable,
            self@.targets.len() > 0 ==> r is Ready,
    {
        if self.targets.len() == 0 {
            ProbeResult::NotApplicable
        } else {
            ProbeResult::Ready
        }
    }
}

/// What one probe of `target` emits, given whether the connection succeeded within the
/// timeout and how long the attempt took.
pub fn target_metrics(target: &ProbeTarget, up: bool, elapsed_nanos: u64) -> (ms: Vec<Metric>)
    ensures
        metrics_view(ms@) == target_metrics_spec(target@, up, elapsed_nanos),
{
    let layer = target.layer.as_str();
    let mut out: Vec<Metric> = Vec::new();
    out.push(
        Metric::new("harnesssphere.endpoint.up", MetricKind::Gauge, Quantity::Count(if up { 1 } else { 0 })).attr(
            "server.address",
            AttrValue::text(target.address.as_str()),
        ).attr("harnesssphere.layer", AttrValue::text(layer)),
    );
    out.push(
        Metric::new("harnesssphere.endpoint.probe.duration", MetricKind::Gauge, Quantity::Ratio(elapsed_nanos, 1_000_000_000))
            .with_unit("s").attr("server.address", AttrValue::text(target.address.as_str())).attr(
            "harnesssphere.layer",
            AttrValue::text(layer),
        ),
    );
    proof {
        reveal_strlit("harnesssphere.layer");
    }
    assert(metrics_view(out@) =~= target_metrics_spec(target@, up, elapsed_nanos));
    out
}

} // verus!
