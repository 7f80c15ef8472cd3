//! The watcher's configuration: its defaults, the environment overrides applied after
//! the file is read, the intervals derived from it, and the strict reading of probe
//! targets and exporter names. Reading the TOML file is the edge's job.

use crate::clock::{duration_from_secs, duration_of_secs};
use crate::probe::{ProbeTarget, ProbeTargetView};
use crate::signal::{layer_name, Layer};
use crate::text::{concat, owned, text_eq};
use std::time::Duration;
use vstd::prelude::*;

verus! {

/// One `[[probe_targets]]` entry: both fields are required, and the layer is never
/// guessed.
#[derive(Debug, Clone)]
pub struct ProbeTargetCfg {
    /// `host:port`; the port is not optional.
    pub address: String,
    /// One of: host, watcher, gateway, proxy, webapp, harness.
    pub layer: String,
}

#[derive(Debug, Clone)]
pub struct Config {
    /// Host collection interval, in seconds.
    pub host_interval_secs: u64,
    /// Watcher self-collection interval, in seconds.
    pub self_interval_secs: u64,
    /// Consecutive failures at which a Critical source becomes fatal.
    pub critical_threshold: u32,
    /// Active exporter: "stdout" or "otlp".
    pub exporter: String,
    /// OTLP/gRPC endpoint (used when the exporter is "otlp").
    pub otlp_endpoint: String,
    /// `service.name` on the OTel Resource.
    pub service_name: String,
    /// Cadence, in seconds, of the periodic OTLP metric reader.
    pub metric_export_interval_secs: u64,
    /// Executable-name substrings of processes to watch; empty disables the collector.
    pub watch_processes: Vec<String>,
    /// Endpoints to TCP-probe, each with its layer; empty disables the collector.
    pub probe_targets: Vec<ProbeTargetCfg>,
    /// Root of the proxy's data directory (the one holding `tenants/`); empty disables
    /// workspace discovery.
    pub data_root: String,
    /// How often the tenant tree is rescanned.
    pub discovery_interval_secs: u64,
    /// How often each workspace's transcripts are re-read.
    pub session_interval_secs: u64,
    /// `harness.name` for the sessions read.
    pub session_source: String,
    /// A container's cgroup v2 directory; empty disables the container collector.
    pub container_cgroup: String,
    /// `container.id` label; empty means the cgroup directory's name.
    pub container_id: String,
}

impl Default for Config {
    fn default() -> (c: Self)
        ensures
            c.host_interval_secs == 5,
            c.self_interval_secs == 10,
            c.critical_threshold == 3,
            c.exporter@ == "stdout"@,
            c.otlp_endpoint@ == "http://localhost:4317"@,
            c.service_name@ == "harnesssphere"@,
            c.metric_export_interval_secs == 15,
            c.watch_processes@.len() == 0,
            c.probe_targets@.len() == 0,
            c.data_root@.len() == 0,
            c.discovery_interval_secs == 30,
            c.session_interval_secs == 60,
            c.session_source@ == "picoclaw"@,
            c.container_cgroup@.len() == 0,
            c.container_id@.len() == 0,
    {
        let empty = owned("");
        proof {
            reveal_strlit("");
        }
        Config {
            host_interval_secs: 5,
            self_interval_secs: 10,
            critical_threshold: 3,
            exporter: owned("stdout"),
            otlp_endpoint: owned("http://localhost:4317"),
            service_name: owned("harnesssphere"),
            metric_export_interval_secs: 15,
            watch_processes: Vec::new(),
            probe_targets: Vec::new(),
            data_root: owned(""),
            discovery_interval_secs: 30,
            session_interval_secs: 60,
            session_source: owned("picoclaw"),
            container_cgroup: owned(""),
            container_id: empty,
        }
    }
}

/// An interval of `secs` seconds, never shorter than one second.
pub open spec fn at_least_one_sec(secs: u64) -> Duration {
    duration_of_secs(if secs >= 1 { secs } else { 1 })
}

fn secs_at_least_one(secs: u64) -> (d: Duration)
    ensures
        d == at_least_one_sec(secs),
{
    duration_from_secs(if secs >= 1 { secs } else { 1 })
}

impl Config {
    pub fn host_interval(&self) -> (d: Duration)
        ensures
            d == at_least_one_sec(self.host_interval_secs),
    {
        secs_at_least_one(self.host_interval_secs)
    }

    pub fn self_interval(&self) -> (d: Duration)
        ensures
            d == at_least_one_sec(self.self_interval_secs),
    {
        secs_at_least_one(self.self_interval_secs)
    }

    pub fn discovery_interval(&self) -> (d: Duration)
        ensures
            d == at_least_one_sec(self.discovery_interval_secs),
    {
        secs_at_least_one(self.discovery_interval_secs)
    }

    pub fn session_interval(&self) -> (d: Duration)
        ensures
            d == at_least_one_sec(self.session_interval_secs),
    {
        secs_at_least_one(self.session_interval_secs)
    }

    /// The metric reader's cadence, never shorter than one second.
    pub fn metric_export_interval(&self) -> (d: Duration)
        ensures
            d == at_least_one_sec(self.metric_export_interval_secs),
    {
        secs_at_least_one(self.metric_export_interval_secs)
    }

    /// The environment overrides: `HARNESSSPHERE_EXPORTER` replaces the exporter and
    /// `OTEL_EXPORTER_OTLP_ENDPOINT` the endpoint, each when it is set.
    pub fn apply_env(&mut self, exporter: Option<String>, otlp_endpoint: Option<String>)
        ensures
            final(self).exporter@ == match exporter {
                Some(v) => v@,
                None => old(self).exporter@,
            },
            final(self).otlp_endpoint@ == match otlp_endpoint {
                Some(v) => v@,
                None => old(self).otlp_endpoint@,
            },
            final(self).host_interval_secs == old(self).host_interval_secs,
            final(self).self_interval_secs == old(self).self_interval_secs,
            final(self).critical_threshold == old(self).critical_threshold,
            final(self).data_root == old(self).data_root,
    {
        if let Some(v) = exporter {
            self.exporter = v;
        }
        if let Some(v) = otlp_endpoint {
            self.otlp_endpoint = v;
        }
    }
}

/// `s` names one of the six layers.
pub open spec fn known_layer(s: Seq<char>) -> bool {
    exists|l: Layer| layer_name(l) == s
}

/// The probe targets of a configuration, each with its layer read strictly: the first
/// entry whose layer names none of the six is an error naming it, rather than a guess
/// that would file a service under the wrong layer.
pub fn probe_targets(cfgs: &Vec<ProbeTargetCfg>) -> (r: Result<Vec<ProbeTarget>, String>)
    ensures
        match r {
            Ok(ts) => ts@.len() == cfgs@.len() && forall|i: int| 0 <= i < ts@.len() ==> #[trigger] ts@[i]@
                == (ProbeTargetView { address: cfgs@[i].address@, layer: ts@[i]@.layer }) && layer_name(
                ts@[i]@.layer,
            ) == cfgs@[i].layer@,
            Err(msg) => exists|i: int| 0 <= i < cfgs@.len() && !known_layer(#[trigger] cfgs@[i].layer@)
                && (forall|j: int| 0 <= j < i ==> known_layer(#[trigger] cfgs@[j].layer@))
                && msg@ == "probe_targets: unknown layer '"@ + cfgs@[i].layer@ + "' for '"@ + cfgs@[i].address@
                + "' (expected one of: host, watcher, gateway, proxy, webapp, harness)"@,
        },
{
    let mut out: Vec<ProbeTarget> = Vec::new();
    let mut i: usize = 0;
    while i < cfgs.len()
        invariant
            i <= cfgs.len(),
            out@.len() == i,
            forall|k: int| 0 <= k < i ==> #[trigger] out@[k]@ == (ProbeTargetView { address: cfgs@[k].address@, layer: out@[k]@.layer })
                && layer_name(out@[k]@.layer) == cfgs@[k].layer@,
        decreases cfgs.len() - i,
    {
        let c = &cfgs[i];
        match Layer::parse(c.layer.as_str()) {
            Some(layer) => {
                let ghost before = out@;
                out.push(ProbeTarget::new(c.address.as_str(), layer));
                proof {
                    assert forall|k: int| 0 <= k < i + 1 implies #[trigger] out@[k]@ == (ProbeTargetView { address: cfgs@[k].address@, layer: out@[k]@.layer })
                        && layer_name(out@[k]@.layer) == cfgs@[k].layer@ by {
                        if k < i {
                            assert(out@[k] == before[k]);
                        }
                    }
                }
            },
            None => {
                let a = concat("probe_targets: unknown layer '", c.layer.as_str());
                let b = concat(a.as_str(), "' for '");
                let d = concat(b.as_str(), c.address.as_str());
                let msg = concat(d.as_str(), "' (expected one of: host, watcher, gateway, proxy, webapp, harness)");
                proof {
                    assert forall|j: int| 0 <= j < i implies known_layer(#[trigger] cfgs@[j].layer@) by {
                        assert(layer_name(out@[j]@.layer) == cfgs@[j].layer@);
                    }
                    assert(!known_layer(cfgs@[i as int].layer@));
                }
                return Err(msg);
            },
        }
        i += 1;
    }
    Ok(out)
}

/// Which exporter a configuration selects.
#[derive(Debug, Clone, Copy, PartialEq, Eq, Structural)]
pub enum ExporterChoice {
    Stdout,
    Otlp,
}

/// `"stdout"` or `"otlp"`; anything else is an error naming it.
pub fn exporter_choice(name: &str) -> (r: Result<ExporterChoice, String>)
    ensures
        name@ == "stdout"@ ==> r == Ok::<ExporterChoice, String>(ExporterChoice::Stdout),
        name@ == "otlp"@ ==> r == Ok::<ExporterChoice, String>(ExporterChoice::Otlp),
        name@ != "stdout"@ && name@ != "otlp"@ ==> (r matches Err(msg) && msg@ == "unknown exporter '"@ + name@
            + "' (use 'stdout' or 'otlp')"@),
{
    proof {
        reveal_strlit("stdout");
        reveal_strlit("otlp");
        assert("stdout"@.len() == 6 && "otlp"@.len() == 4);
        assert("stdout"@ != "otlp"@);
    }
    if text_eq(name, "stdout") {
        Ok(ExporterChoice::Stdout)
    } else if text_eq(name, "otlp") {
        Ok(ExporterChoice::Otlp)
    } else {
        let a = concat("unknown exporter '", name);
        Err(concat(a.as_str(), "' (use 'stdout' or 'otlp')"))
    }
}

/// Which Optional collectors a configuration turns on: each is off until configured.
pub struct SourcePlan {
    pub processes: bool,
    pub probes: bool,
    pub container: bool,
    pub discovery: bool,
}

pub fn source_plan(cfg: &Config) -> (p: SourcePlan)
    ensures
        p.processes == (cfg.watch_processes@.len() > 0),
        p.probes == (cfg.probe_targets@.len() > 0),
        p.container == (cfg.container_cgroup@.len() > 0),
        p.discovery == (cfg.data_root@.len() > 0),
{
    SourcePlan {
        processes: cfg.watch_processes.len() > 0,
        probes: cfg.probe_targets.len() > 0,
        container: !cfg.container_cgroup.as_str().is_empty(),
        discovery: !cfg.data_root.as_str().is_empty(),
    }
}

} // verus!
