//! Workspace discovery: the control plane that keeps the supervisor's sources in step
//! with a stack that creates and destroys workspaces at runtime. Each scan is reconciled
//! against what is already watched: new workspaces get a session collector, vanished
//! ones are retired. Scanning the disk and talking to the supervisor are the edge's job.

use crate::ports::{Criticality, ProbeResult, SourceDescriptor};
use crate::session::SessionCollector;
use crate::signal::{bare, metrics_view, Layer, Metric, MetricKind, MetricView, Quantity};
use crate::text::{owned, text_eq, views};
use crate::workspace::{same_workspace, ws_source_name, Workspace};
use std::time::Duration;
use vstd::prelude::*;

verus! {

/// Publishes what discovery last saw, as an ordinary source: how many workspaces are
/// watched, and how many scans have run (a count that stops advancing is how "no
/// workspaces" is told apart from "discovery died").
pub struct DiscoveryStats {
    descriptor: SourceDescriptor,
}

/// The two gauges `DiscoveryStats` emits.
pub open spec fn discovery_metrics(workspaces: u64, scans: u64) -> Seq<MetricView> {
    seq![
        bare("harnesssphere.discovery.workspaces"@, MetricKind::Gauge, Quantity::Count(workspaces)),
        bare("harnesssphere.discovery.scans"@, MetricKind::Gauge, Quantity::Count(scans)),
    ]
}

impl DiscoveryStats {
    pub fn new(interval: Duration) -> (s: Self)
        ensures
            s.descriptor_spec().name@ == "discovery"@,
            s.descriptor_spec().layer == Layer::Watcher,
            s.descriptor_spec().criticality == Criticality::Optional,
            s.descriptor_spec().default_interval == interval,
    {
        DiscoveryStats {
            descriptor: SourceDescriptor::new(owned("discovery"), Layer::Watcher, Criticality::Optional, interval),
        }
    }

    pub closed spec fn descriptor_spec(&self) -> SourceDescriptor {
        self.descriptor
    }

    pub fn descriptor(&self) -> (d: &SourceDescriptor)
        ensures
            *d == self.descriptor_spec(),
    {
        &self.descriptor
    }

    /// Always ready.
    pub fn probe(&self) -> (r: ProbeResult)
        ensures
            r is Ready,
    {
        ProbeResult::Ready
    }

    /// The workspace and scan counts, as gauges.
    pub fn metrics(&self, workspaces: u64, scans: u64) -> (ms: Vec<Metric>)
        ensures
            metrics_view(ms@) == discovery_metrics(workspaces, scans),
    {
        let mut out: Vec<Metric> = Vec::new();
        out.push(Metric::new("harnesssphere.discovery.workspaces", MetricKind::Gauge, Quantity::Count(workspaces)));
        out.push(Metric::new("harnesssphere.discovery.scans", MetricKind::Gauge, Quantity::Count(scans)));
        assert(metrics_view(out@) =~= discovery_metrics(workspaces, scans));
        out
    }
}

/// What one scan asks of the supervisor.
pub struct Reconcile {
    /// A session collector for each workspace seen for the first time, in scan order.
    pub add: Vec<SessionCollector>,
    /// The source names of watched workspaces that are gone, in the order they were
    /// watched.
    pub remove: Vec<String>,
    /// How many distinct workspaces the scan found.
    pub workspaces: u64,
}

/// Discovery's configuration and the source names it currently has registered.
pub struct Discovery {
    data_root: String,
    interval: Duration,
    session_interval: Duration,
    harness_name: String,
    known: Vec<String>,
}

/// Discovery's configuration, seen from outside.
pub struct DiscoveryModel {
    pub data_root: Seq<char>,
    pub interval: Duration,
    pub session_interval: Duration,
    pub harness_name: Seq<char>,
    /// The source names registered through this discoverer.
    pub known: Seq<Seq<char>>,
}

impl View for Discovery {
    type V = DiscoveryModel;

    closed spec fn view(&self) -> DiscoveryModel {
        DiscoveryModel {
            data_root: self.data_root@,
            interval: self.interval,
            session_interval: self.session_interval,
            harness_name: self.harness_name@,
            known: views(self.known@),
        }
    }
}

/// Every new collector watches one of the scanned workspaces, under that workspace's
/// source name, for the configured harness and interval, with nothing read yet.
pub open spec fn fresh_collectors(add: Seq<SessionCollector>, harness: Seq<char>, interval: Duration, found: Seq<Workspace>) -> bool {
    forall|m: int| 0 <= m < add.len() ==> #[trigger] add[m]@.source == harness
        && add[m]@.interval == interval && add[m]@.files.len() == 0
        && (exists|j: int| 0 <= j < found.len() && same_workspace(found[j], add[m]@.workspace))
        && add[m]@.name == ws_source_name(add[m]@.workspace)
}

/// The source names of a list of collectors.
pub open spec fn collector_names(cs: Seq<SessionCollector>) -> Seq<Seq<char>> {
    cs.map_values(|c: SessionCollector| c@.name)
}

/// The distinct source names of a scan, in scan order.
pub open spec fn distinct_names(ws: Seq<Workspace>) -> Seq<Seq<char>>
    decreases ws.len(),
{
    if ws.len() == 0 {
        Seq::empty()
    } else {
        let init = distinct_names(ws.drop_last());
        if init.contains(ws_source_name(ws.last())) {
            init
        } else {
            init.push(ws_source_name(ws.last()))
        }
    }
}

impl Discovery {
    #[verifier::type_invariant]
    spec fn inv(self) -> bool {
        views(self.known@).no_duplicates()
    }

    pub fn new(data_root: &str, interval: Duration, session_interval: Duration, harness_name: &str) -> (d: Self)
        ensures
            d@.data_root == data_root@,
            d@.interval == interval,
            d@.session_interval == session_interval,
            d@.harness_name == harness_name@,
            d@.known.len() == 0,
    {
        let d = Discovery {
            data_root: owned(data_root),
            interval,
            session_interval,
            harness_name: owned(harness_name),
            known: Vec::new(),
        };
        assert(views(d.known@) =~= Seq::<Seq<char>>::empty());
        d
    }

    /// The directory holding `tenants/`.
    pub fn data_root(&self) -> (s: &str)
        ensures
            s@ == self@.data_root,
    {
        self.data_root.as_str()
    }

    /// The scan interval.
    pub fn interval(&self) -> (d: Duration)
        ensures
            d == self@.interval,
    {
        self.interval
    }

    /// Reconciles one scan (the workspaces `discover` returned) against what is
    /// registered: every workspace whose source name is new gets a session collector,
    /// every registered name no longer found is retired, and what is registered becomes
    /// exactly the names found.
    #[verifier::spinoff_prover]
    #[verifier::rlimit(40)]
    pub fn reconcile(&mut self, found: Vec<Workspace>) -> (r: Reconcile)
        ensures
            final(self)@.known == distinct_names(found@),
            final(self)@.data_root == old(self)@.data_root,
            final(self)@.interval == old(self)@.interval,
            final(self)@.session_interval == old(self)@.session_interval,
            final(self)@.harness_name == old(self)@.harness_name,
            r.workspaces == distinct_names(found@).len(),
            forall|n: Seq<char>| collector_names(r.add@).contains(n) <==> (
            distinct_names(found@).contains(n) && !old(self)@.known.contains(n)),
            fresh_collectors(r.add@, old(self)@.harness_name, old(self)@.session_interval, found@),
            forall|n: Seq<char>| views(r.remove@).contains(n) <==> (old(self)@.known.contains(n)
                && !distinct_names(found@).contains(n)),
    {
        proof {
            use_type_invariant(&*self);
        }
        let ghost k0 = views(self.known@);
        let mut names: Vec<String> = Vec::new();
        let mut add: Vec<SessionCollector> = Vec::new();
        let mut i: usize = 0;
        assert(found@.take(0) =~= Seq::<Workspace>::empty());
        assert(views(names@) =~= Seq::<Seq<char>>::empty());
        while i < found.len()
            invariant
                i <= found.len(),
                k0 == views(self.known@),
                views(names@) == distinct_names(found@.take(i as int)),
                forall|n: Seq<char>| #[trigger] collector_names(add@).contains(n) <==> (views(names@).contains(n)
                    && !k0.contains(n)),
                fresh_collectors(add@, self.harness_name@, self.session_interval, found@),
            decreases found.len() - i,
        {
            proof {
                assert(found@.take(i + 1).drop_last() =~= found@.take(i as int));
                assert(found@.take(i + 1).last() == found@[i as int]);
            }
            let w = &found[i];
            let name = w.source_name();
            let mut seen = false;
            let mut j: usize = 0;
            while j < names.len()
                invariant
                    j <= names.len(),
                    seen == exists|m: int| 0 <= m < j && views(names@)[m] == name@,
                decreases names.len() - j,
            {
                if text_eq(names[j].as_str(), name.as_str()) {
                    assert(views(names@)[j as int] == name@);
                    seen = true;
                }
                j += 1;
            }
            proof {
                assert(seen == views(names@).contains(name@));
            }
            if !seen {
                let mut was_known = false;
                let mut k: usize = 0;
                while k < self.known.len()
                    invariant
                        k <= self.known.len(),
                        k0 == views(self.known@),
                        was_known == exists|m: int| 0 <= m < k && k0[m] == name@,
                    decreases self.known.len() - k,
                {
                    if text_eq(self.known[k].as_str(), name.as_str()) {
                        assert(k0[k as int] == name@);
                        was_known = true;
                    }
                    k += 1;
                }
                proof {
                    assert(was_known == k0.contains(name@));
                }
                let ghost before_names = views(names@);
                let ghost before_add = collector_names(add@);
                let ghost before_add_seq = add@;
                assert forall|n: Seq<char>| before_add.contains(n) <==> (before_names.contains(n) && !k0.contains(n)) by {
                    assert(collector_names(add@).contains(n) <==> (views(names@).contains(n) && !k0.contains(n)));
                }
                if !was_known {
                    let c = SessionCollector::new(w.copy(), self.harness_name.as_str(), self.session_interval);
                    proof {
                        assert(same_workspace(found@[i as int], c@.workspace));
                        assert(ws_source_name(c@.workspace) == ws_source_name(found@[i as int]));
                    }
                    let ghost cv = c@;
                    add.push(c);
                    proof {
                        let na = collector_names(add@);
                        assert(na =~= before_add.push(name@));
                        assert forall|m: int| 0 <= m < add@.len() implies #[trigger] add@[m]@.source == self.harness_name@
                            && add@[m]@.interval == self.session_interval && add@[m]@.files.len() == 0
                            && (exists|j: int| 0 <= j < found@.len() && same_workspace(found@[j], add@[m]@.workspace))
                            && add@[m]@.name == ws_source_name(add@[m]@.workspace) by {
                            if m < before_add_seq.len() {
                                assert(add@[m] == before_add_seq[m]);
                                assert(before_add_seq[m]@.source == self.harness_name@);
                            } else {
                                assert(add@[m]@ == cv);
                                assert(same_workspace(found@[i as int], add@[m]@.workspace));
                            }
                        }
                        assert(fresh_collectors(add@, self.harness_name@, self.session_interval, found@));
                    }
                }
                names.push(name);
                proof {
                    assert(views(names@) =~= before_names.push(ws_source_name(found@[i as int])));
                    if !was_known {
                        assert(collector_names(add@) =~= before_add.push(name@));
                    }
                    lemma_add_step(before_names, before_add, k0, name@, was_known, views(names@), collector_names(add@));
                }
            }
            i += 1;
        }
        assert(found@.take(found.len() as int) =~= found@);
        proof {
            lemma_distinct_names(found@);
        }
        // Registered names that the scan did not find.
        let mut remove: Vec<String> = Vec::new();
        let mut k: usize = 0;
        assert(views(remove@) =~= Seq::<Seq<char>>::empty());
        while k < self.known.len()
            invariant
                k <= self.known.len(),
                k0 == views(self.known@),
                views(names@) == distinct_names(found@),
                forall|n: Seq<char>| views(remove@).contains(n) <==> (exists|m: int| 0 <= m < k && k0[m] == n)
                    && !views(names@).contains(n),
            decreases self.known.len() - k,
        {
            let mut present = false;
            let mut j: usize = 0;
            while j < names.len()
                invariant
                    j <= names.len(),
                    present == exists|m: int| 0 <= m < j && views(names@)[m] == k0[k as int],
                    k < k0.len(),
                    k0 == views(self.known@),
                decreases names.len() - j,
            {
                if text_eq(names[j].as_str(), self.known[k].as_str()) {
                    assert(views(names@)[j as int] == k0[k as int]);
                    present = true;
                }
                j += 1;
            }
            proof {
                assert(present == views(names@).contains(k0[k as int]));
            }
            let ghost before = views(remove@);
            if !present {
                remove.push(owned(self.known[k].as_str()));
                assert(views(remove@) =~= before.push(k0[k as int]));
            }
            proof {
                assert forall|n: Seq<char>| views(remove@).contains(n) <==> (exists|m: int| 0 <= m < k + 1 && k0[m] == n)
                    && !views(names@).contains(n) by {
                    if views(remove@).contains(n) && !before.contains(n) {
                        let m = choose|m: int| 0 <= m < views(remove@).len() && views(remove@)[m] == n;
                        assert(m == before.len());
                    }
                    if before.contains(n) {
                        let m = choose|m: int| 0 <= m < before.len() && before[m] == n;
                        if !present {
                            assert(views(remove@)[m] == n);
                        }
                    }
                    if (exists|m: int| 0 <= m < k + 1 && k0[m] == n) && !views(names@).contains(n) {
                        let m = choose|m: int| 0 <= m < k + 1 && k0[m] == n;
                        if m == k {
                            assert(views(remove@)[before.len() as int] == n);
                        }
                    }
                }
            }
            k += 1;
        }
        proof {
            assert forall|n: Seq<char>| views(remove@).contains(n) <==> (k0.contains(n) && !distinct_names(found@).contains(n)) by {
                if k0.contains(n) {
                    let m = choose|m: int| 0 <= m < k0.len() && k0[m] == n;
                }
            }
        }
        let count = names.len() as u64;
        self.known = names;
        Reconcile { add, remove, workspaces: count }
    }
}

proof fn lemma_add_step(
    before_names: Seq<Seq<char>>,
    before_add: Seq<Seq<char>>,
    k0: Seq<Seq<char>>,
    name: Seq<char>,
    was_known: bool,
    names: Seq<Seq<char>>,
    na: Seq<Seq<char>>,
)
    requires
        forall|n: Seq<char>| before_add.contains(n) <==> (before_names.contains(n) && !k0.contains(n)),
        !before_names.contains(name),
        was_known == k0.contains(name),
        names == before_names.push(name),
        na == (if was_known { before_add } else { before_add.push(name) }),
    ensures
        forall|n: Seq<char>| na.contains(n) <==> (names.contains(n) && !k0.contains(n)),
{
    assert forall|n: Seq<char>| na.contains(n) <==> (names.contains(n) && !k0.contains(n)) by {
        if names.contains(n) {
            let m = choose|m: int| 0 <= m < names.len() && names[m] == n;
            if m < before_names.len() {
                assert(before_names[m] == n);
            }
        }
        if before_names.contains(n) {
            let m = choose|m: int| 0 <= m < before_names.len() && before_names[m] == n;
            assert(names[m] == n);
        }
        if n == name {
            assert(names[before_names.len() as int] == n);
        }
        if !was_known {
            if na.contains(n) {
                let m = choose|m: int| 0 <= m < na.len() && na[m] == n;
                if m < before_add.len() {
                    assert(before_add[m] == n);
                }
            }
            if before_add.contains(n) {
                let m = choose|m: int| 0 <= m < before_add.len() && before_add[m] == n;
                assert(na[m] == n);
            }
            if n == name {
                assert(na[before_add.len() as int] == n);
            }
        }
    }
}

proof fn lemma_distinct_names(ws: Seq<Workspace>)
    ensures
        distinct_names(ws).no_duplicates(),
        forall|n: Seq<char>| distinct_names(ws).contains(n) <==> exists|i: int| 0 <= i < ws.len() && ws_source_name(#[trigger] ws[i]) == n,
    decreases ws.len(),
{
    if ws.len() > 0 {
        let init = ws.drop_last();
        lemma_distinct_names(init);
        let d = distinct_names(init);
        let last = ws_source_name(ws.last());
        if !d.contains(last) {
            let dd = d.push(last);
            assert forall|a: int, b: int| 0 <= a < dd.len() && 0 <= b < dd.len() && a != b implies dd[a] != dd[b] by {
                if a == d.len() {
                    assert(d.contains(dd[b]));
                } else if b == d.len() {
                    assert(d.contains(dd[a]));
                }
            }
        }
        assert forall|n: Seq<char>| distinct_names(ws).contains(n) <==> exists|i: int| 0 <= i < ws.len() && ws_source_name(#[trigger] ws[i]) == n by {
            if distinct_names(ws).contains(n) {
                if d.contains(n) {
                    let i = choose|i: int| 0 <= i < init.len() && ws_source_name(#[trigger] init[i]) == n;
                    assert(ws[i] == init[i]);
                } else {
                    assert(n == last);
                    assert(ws_source_name(ws[ws.len() - 1]) == n);
                }
            }
            if exists|i: int| 0 <= i < ws.len() && ws_source_name(#[trigger] ws[i]) == n {
                let i = choose|i: int| 0 <= i < ws.len() && ws_source_name(#[trigger] ws[i]) == n;
                if i < init.len() {
                    assert(init[i] == ws[i]);
                    assert(d.contains(n));
                    if !d.contains(last) {
                        let m = choose|m: int| 0 <= m < d.len() && d[m] == n;
                        assert(d.push(last)[m] == n);
                    }
                } else {
                    if !d.contains(last) {
                        assert(d.push(last)[d.len() as int] == n);
                    }
                }
            }
        }
    }
}

/// Applying a scan's plan to what was registered yields exactly what the scan found:
/// the registered names, minus those retired, plus those added, are the names of the
/// workspaces found.
pub proof fn law_reconcile_converges(
    known: Seq<Seq<char>>,
    found: Seq<Workspace>,
    add: Seq<SessionCollector>,
    remove: Seq<Seq<char>>,
)
    requires
        forall|n: Seq<char>| #[trigger] collector_names(add).contains(n) <==> (distinct_names(found).contains(n) && !known.contains(n)),
        forall|n: Seq<char>| #[trigger] remove.contains(n) <==> (known.contains(n) && !distinct_names(found).contains(n)),
    ensures
        known.to_set().difference(remove.to_set()).union(collector_names(add).to_set()) == distinct_names(found).to_set(),
{
    let lhs = known.to_set().difference(remove.to_set()).union(collector_names(add).to_set());
    assert forall|n: Seq<char>| lhs.contains(n) <==> distinct_names(found).to_set().contains(n) by {
        assert(known.to_set().contains(n) == known.contains(n));
        assert(remove.to_set().contains(n) == remove.contains(n));
        assert(collector_names(add).to_set().contains(n) == collector_names(add).contains(n));
        assert(distinct_names(found).to_set().contains(n) == distinct_names(found).contains(n));
    }
    assert(lhs =~= distinct_names(found).to_set());
}

/// Rescanning is quiet: once what is registered is what a scan finds, a scan that finds
/// the same workspaces adds no collector and retires no name.
pub proof fn law_rescan_is_quiet(
    known: Seq<Seq<char>>,
    found: Seq<Workspace>,
    add: Seq<SessionCollector>,
    remove: Seq<Seq<char>>,
)
    requires
        known == distinct_names(found),
        forall|n: Seq<char>| #[trigger] collector_names(add).contains(n) <==> (distinct_names(found).contains(n) && !known.contains(n)),
        forall|n: Seq<char>| #[trigger] remove.contains(n) <==> (known.contains(n) && !distinct_names(found).contains(n)),
    ensures
        add.len() == 0,
        remove.len() == 0,
{
    if add.len() > 0 {
        assert(collector_names(add).contains(collector_names(add)[0]));
    }
    if remove.len() > 0 {
        assert(remove.contains(remove[0]));
    }
}

} // verus!
