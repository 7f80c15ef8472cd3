//! What the exporters decide before anything is encoded: how a batch splits by kind of
//! signal, which instrument a metric is recorded with, and how spans, logs and
//! histograms are grouped by service so that each group carries its service identity on
//! the OTLP Resource. Encoding and sending are the edge's job.

use crate::signal::{attrs_view, AttrValue, AttrView, HistogramPoint, LogRecord, Metric, MetricKind, Signal, Span};
use crate::text::{owned, text_eq};
use vstd::prelude::*;

verus! {

/// Prints signals as readable lines on standard output.
pub struct StdoutExporter;

impl StdoutExporter {
    pub fn new() -> (e: Self) {
        StdoutExporter
    }
}

/// The OTLP instrument a metric is recorded with. Sources emit sampled absolute values,
/// so an up-down counter is recorded as a gauge: adding absolute samples would sum them.
#[derive(Debug, Clone, Copy, PartialEq, Eq, Structural)]
pub enum Instrument {
    Gauge,
    Counter,
    Histogram,
}

pub open spec fn instrument_spec(k: MetricKind) -> Instrument {
    match k {
        MetricKind::Gauge | MetricKind::UpDownCounter => Instrument::Gauge,
        MetricKind::Counter => Instrument::Counter,
        MetricKind::Histogram => Instrument::Histogram,
    }
}

pub fn instrument_for(k: MetricKind) -> (i: Instrument)
    ensures
        i == instrument_spec(k),
{
    match k {
        MetricKind::Gauge | MetricKind::UpDownCounter => Instrument::Gauge,
        MetricKind::Counter => Instrument::Counter,
        MetricKind::Histogram => Instrument::Histogram,
    }
}

/// A batch split by kind of signal, each part in batch order.
pub struct Partitioned {
    pub metrics: Vec<Metric>,
    pub histograms: Vec<HistogramPoint>,
    pub spans: Vec<Span>,
    pub logs: Vec<LogRecord>,
}

pub open spec fn count_metrics(b: Seq<Signal>) -> nat
    decreases b.len(),
{
    if b.len() == 0 {
        0
    } else {
        count_metrics(b.drop_last()) + if b.last() is Metric { 1nat } else { 0nat }
    }
}

pub open spec fn metrics_of(b: Seq<Signal>) -> Seq<Metric>
    decreases b.len(),
{
    if b.len() == 0 {
        Seq::empty()
    } else {
        match b.last() {
            Signal::Metric(m) => metrics_of(b.drop_last()).push(m),
            _ => metrics_of(b.drop_last()),
        }
    }
}

pub open spec fn histograms_of(b: Seq<Signal>) -> Seq<HistogramPoint>
    decreases b.len(),
{
    if b.len() == 0 {
        Seq::empty()
    } else {
        match b.last() {
            Signal::Histogram(h) => histograms_of(b.drop_last()).push(h),
            _ => histograms_of(b.drop_last()),
        }
    }
}

pub open spec fn spans_of(b: Seq<Signal>) -> Seq<Span>
    decreases b.len(),
{
    if b.len() == 0 {
        Seq::empty()
    } else {
        match b.last() {
            Signal::Span(s) => spans_of(b.drop_last()).push(s),
            _ => spans_of(b.drop_last()),
        }
    }
}

pub open spec fn logs_of(b: Seq<Signal>) -> Seq<LogRecord>
    decreases b.len(),
{
    if b.len() == 0 {
        Seq::empty()
    } else {
        match b.last() {
            Signal::Log(l) => logs_of(b.drop_last()).push(l),
            _ => logs_of(b.drop_last()),
        }
    }
}

/// Splits a batch by kind of signal, keeping batch order within each kind.
pub fn partition(batch: Vec<Signal>) -> (p: Partitioned)
    ensures
        p.metrics@ == metrics_of(batch@),
        p.histograms@ == histograms_of(batch@),
        p.spans@ == spans_of(batch@),
        p.logs@ == logs_of(batch@),
{
    let ghost all = batch@;
    let mut rest = batch;
    let mut rev: Vec<Signal> = Vec::new();
    while rest.len() > 0
        invariant
            all == rest@ + rev@.reverse(),
        decreases rest.len(),
    {
        let ghost r0 = rest@;
        let ghost v0 = rev@;
        let s = rest.pop().unwrap();
        rev.push(s);
        proof {
            assert(r0 =~= rest@.push(s));
            assert(rev@.reverse() =~= seq![s] + v0.reverse());
            assert(rest@ + rev@.reverse() =~= r0 + v0.reverse());
        }
    }
    let mut p = Partitioned { metrics: Vec::new(), histograms: Vec::new(), spans: Vec::new(), logs: Vec::new() };
    assert(all.take(0) =~= Seq::<Signal>::empty());
    assert(rest@ =~= Seq::<Signal>::empty());
    while rev.len() > 0
        invariant
            all == all.take(all.len() - rev@.len()) + rev@.reverse(),
            rev@.len() <= all.len(),
            p.metrics@ == metrics_of(all.take(all.len() - rev@.len())),
            p.histograms@ == histograms_of(all.take(all.len() - rev@.len())),
            p.spans@ == spans_of(all.take(all.len() - rev@.len())),
            p.logs@ == logs_of(all.take(all.len() - rev@.len())),
        decreases rev.len(),
    {
        let ghost v0 = rev@;
        let ghost k = all.len() - v0.len();
        let s = rev.pop().unwrap();
        proof {
            assert(v0 =~= rev@.push(s));
            assert(v0.reverse() =~= seq![s] + rev@.reverse());
            assert(all[k] == s);
            assert(all.take(k + 1).drop_last() =~= all.take(k));
            assert(all.take(k + 1).last() == s);
            assert(all =~= all.take(k + 1) + rev@.reverse());
        }
        match s {
            Signal::Metric(m) => p.metrics.push(m),
            Signal::Histogram(h) => p.histograms.push(h),
            Signal::Span(x) => p.spans.push(x),
            Signal::Log(l) => p.logs.push(l),
        }
    }
    assert(all.take(all.len() as int) =~= all);
    p
}

/// The first string attribute under `key` (an attribute of another type is passed over).
pub open spec fn first_str(attrs: Seq<(Seq<char>, AttrView)>, key: Seq<char>) -> Option<Seq<char>>
    decreases attrs.len(),
{
    if attrs.len() == 0 {
        None
    } else {
        match attrs[0].1 {
            AttrView::Str(s) => if attrs[0].0 == key {
                Some(s)
            } else {
                first_str(attrs.drop_first(), key)
            },
            _ => first_str(attrs.drop_first(), key),
        }
    }
}

pub fn attr_str(attrs: &Vec<(String, AttrValue)>, key: &str) -> (r: Option<String>)
    ensures
        match r {
            Some(s) => first_str(attrs_view(attrs@), key@) == Some(s@),
            None => first_str(attrs_view(attrs@), key@).is_none(),
        },
{
    let ghost av = attrs_view(attrs@);
    let mut i: usize = 0;
    assert(av.skip(0) =~= av);
    while i < attrs.len()
        invariant
            i <= attrs.len(),
            av == attrs_view(attrs@),
            first_str(av, key@) == first_str(av.skip(i as int), key@),
        decreases attrs.len() - i,
    {
        assert(av.skip(i as int)[0] == (attrs@[i as int].0@, attrs@[i as int].1@));
        assert(av.skip(i as int).drop_first() =~= av.skip(i + 1));
        match &attrs[i].1 {
            AttrValue::Str(s) => {
                if text_eq(attrs[i].0.as_str(), key) {
                    return Some(owned(s.as_str()));
                }
            },
            _ => {},
        }
        i += 1;
    }
    None
}

/// The service a signal belongs to: its `service.name`, or `unknown`.
pub open spec fn service_of(attrs: Seq<(Seq<char>, AttrView)>) -> Seq<char> {
    match first_str(attrs, "service.name"@) {
        Some(s) => s,
        None => "unknown"@,
    }
}

/// One Resource's worth of signals: the service, the first `host.name` any of its
/// members carried, and the members' positions in the batch.
pub struct ServiceGroup {
    pub service: String,
    pub host: Option<String>,
    pub members: Vec<usize>,
}

pub struct GroupView {
    pub service: Seq<char>,
    pub host: Option<Seq<char>>,
    pub members: Seq<usize>,
}

pub open spec fn group_view(g: ServiceGroup) -> GroupView {
    GroupView {
        service: g.service@,
        host: match g.host {
            Some(h) => Some(h@),
            None => None,
        },
        members: g.members@,
    }
}

pub open spec fn groups_view(gs: Seq<ServiceGroup>) -> Seq<GroupView> {
    gs.map_values(|g: ServiceGroup| group_view(g))
}

/// Position of the group of `service`, or `gs.len()`.
pub open spec fn group_index(gs: Seq<GroupView>, service: Seq<char>) -> int
    decreases gs.len(),
{
    if gs.len() == 0 {
        0
    } else if gs[0].service == service {
        0
    } else {
        1 + group_index(gs.drop_first(), service)
    }
}

/// The groups of the first `n` signals, in the order their services first appear; each
/// member joins its service's group, and a group's host is the first one seen.
pub open spec fn groups_spec(items: Seq<Seq<(Seq<char>, AttrView)>>) -> Seq<GroupView>
    decreases items.len(),
{
    if items.len() == 0 {
        Seq::empty()
    } else {
        let gs = groups_spec(items.drop_last());
        let n = (items.len() - 1) as usize;
        let a = items.last();
        let svc = service_of(a);
        let h = first_str(a, "host.name"@);
        let i = group_index(gs, svc);
        if 0 <= i < gs.len() {
            let g = gs[i];
            gs.update(i, GroupView {
                service: g.service,
                host: if g.host is Some { g.host } else { h },
                members: g.members.push(n),
            })
        } else {
            gs.push(GroupView { service: svc, host: h, members: seq![n] })
        }
    }
}

proof fn lemma_group_index_at(gs: Seq<GroupView>, service: Seq<char>, i: int)
    requires
        0 <= i <= gs.len(),
        forall|k: int| 0 <= k < i ==> #[trigger] gs[k].service != service,
        i < gs.len() ==> gs[i].service == service,
    ensures
        group_index(gs, service) == i,
    decreases gs.len(),
{
    if gs.len() > 0 && gs[0].service != service {
        assert forall|k: int| 0 <= k < i - 1 implies #[trigger] gs.drop_first()[k].service != service by {
            assert(gs.drop_first()[k] == gs[k + 1]);
        }
        lemma_group_index_at(gs.drop_first(), service, i - 1);
    }
}

/// Signal `n` of the batch is a member of some group.
pub open spec fn grouped_somewhere(gs: Seq<GroupView>, n: int) -> bool {
    exists|g: int, k: int| 0 <= g < gs.len() && 0 <= k < gs[g].members.len() && #[trigger] gs[g].members[k] == n
}

/// `gs` splits the batch `items` by service: no two groups share a service; every member
/// is a position of the batch whose service is its group's; each group lists its members
/// in batch order; and every position of the batch is a member of some group.
pub open spec fn partitions_batch(gs: Seq<GroupView>, items: Seq<Seq<(Seq<char>, AttrView)>>) -> bool {
    &&& forall|a: int, b: int| #![trigger gs[a], gs[b]] 0 <= a < b < gs.len() ==> gs[a].service != gs[b].service
    &&& forall|g: int, k: int|
        0 <= g < gs.len() && 0 <= k < gs[g].members.len() ==> (#[trigger] gs[g].members[k]) < items.len()
            && gs[g].service == service_of(items[gs[g].members[k] as int])
    &&& forall|g: int, k1: int, k2: int|
        0 <= g < gs.len() && 0 <= k1 < k2 < gs[g].members.len() ==> #[trigger] gs[g].members[k1]
            < #[trigger] gs[g].members[k2]
    &&& forall|n: int| 0 <= n < items.len() ==> #[trigger] grouped_somewhere(gs, n)
}

proof fn lemma_group_index_props(gs: Seq<GroupView>, s: Seq<char>)
    ensures
        0 <= group_index(gs, s) <= gs.len(),
        forall|k: int| 0 <= k < group_index(gs, s) ==> #[trigger] gs[k].service != s,
        group_index(gs, s) < gs.len() ==> gs[group_index(gs, s)].service == s,
    decreases gs.len(),
{
    if gs.len() > 0 && gs[0].service != s {
        lemma_group_index_props(gs.drop_first(), s);
        assert forall|k: int| 0 <= k < group_index(gs, s) implies #[trigger] gs[k].service != s by {
            if k > 0 {
                assert(gs[k] == gs.drop_first()[k - 1]);
            }
        }
    }
}

/// No position of the batch is listed twice, in one group or across two.
pub open spec fn no_member_twice(gs: Seq<GroupView>) -> bool {
    forall|g1: int, k1: int, g2: int, k2: int|
        0 <= g1 < gs.len() && 0 <= k1 < gs[g1].members.len() && 0 <= g2 < gs.len() && 0 <= k2 < gs[g2].members.len()
            && #[trigger] gs[g1].members[k1] == #[trigger] gs[g2].members[k2] ==> g1 == g2 && k1 == k2
}

proof fn lemma_no_member_twice(gs: Seq<GroupView>, items: Seq<Seq<(Seq<char>, AttrView)>>)
    requires
        partitions_batch(gs, items),
    ensures
        no_member_twice(gs),
{
    assert forall|g1: int, k1: int, g2: int, k2: int|
        0 <= g1 < gs.len() && 0 <= k1 < gs[g1].members.len() && 0 <= g2 < gs.len() && 0 <= k2 < gs[g2].members.len()
            && #[trigger] gs[g1].members[k1] == #[trigger] gs[g2].members[k2] implies g1 == g2 && k1 == k2 by {
        if g1 < g2 {
            assert(gs[g1].service != gs[g2].service);
        } else if g2 < g1 {
            assert(gs[g2].service != gs[g1].service);
        } else if k1 < k2 {
            assert(gs[g1].members[k1] < gs[g1].members[k2]);
        } else if k2 < k1 {
            assert(gs[g1].members[k2] < gs[g1].members[k1]);
        }
    }
}

/// Grouping by service loses and duplicates nothing: every signal of a batch lands in
/// exactly one Resource, the one of its own `service.name` (or `unknown`), and within a
/// Resource the signals keep their batch order.
pub proof fn law_grouping_partitions_the_batch(items: Seq<Seq<(Seq<char>, AttrView)>>)
    requires
        items.len() <= usize::MAX,
    ensures
        partitions_batch(groups_spec(items), items),
        no_member_twice(groups_spec(items)),
    decreases items.len(),
{
    lemma_partitions(items);
    lemma_no_member_twice(groups_spec(items), items);
}

proof fn lemma_partitions(items: Seq<Seq<(Seq<char>, AttrView)>>)
    requires
        items.len() <= usize::MAX,
    ensures
        partitions_batch(groups_spec(items), items),
    decreases items.len(),
{
    if items.len() > 0 {
        let pre = items.drop_last();
        lemma_partitions(pre);
        let gs0 = groups_spec(pre);
        let n = (items.len() - 1) as usize;
        let svc = service_of(items.last());
        let h = first_str(items.last(), "host.name"@);
        let i = group_index(gs0, svc);
        lemma_group_index_props(gs0, svc);
        let gs = groups_spec(items);
        assert(n as int == pre.len());
        assert forall|m: int| 0 <= m < pre.len() implies #[trigger] pre[m] == items[m] by {}
        if 0 <= i < gs0.len() {
            let g0 = gs0[i];
            assert(gs == gs0.update(i, GroupView {
                service: g0.service,
                host: if g0.host is Some { g0.host } else { h },
                members: g0.members.push(n),
            }));
            assert forall|a: int, b: int| #![trigger gs[a], gs[b]] 0 <= a < b < gs.len() implies gs[a].service != gs[b].service by {
                assert(gs[a].service == gs0[a].service);
                assert(gs[b].service == gs0[b].service);
            }
            assert forall|g: int, k: int| 0 <= g < gs.len() && 0 <= k < gs[g].members.len() implies (#[trigger] gs[g].members[k]) < items.len()
                && gs[g].service == service_of(items[gs[g].members[k] as int]) by {
                if g == i && k == gs0[i].members.len() {
                } else {
                    assert(gs[g].members[k] == gs0[g].members[k]);
                }
            }
            assert forall|g: int, k1: int, k2: int| 0 <= g < gs.len() && 0 <= k1 < k2 < gs[g].members.len() implies #[trigger] gs[g].members[k1]
                < #[trigger] gs[g].members[k2] by {
                assert(gs[g].members[k1] == gs0[g].members[k1]);
                if g == i && k2 == gs0[i].members.len() {
                    assert(gs0[g].members[k1] < pre.len());
                } else {
                    assert(gs[g].members[k2] == gs0[g].members[k2]);
                }
            }
            assert forall|m: int| 0 <= m < items.len() implies #[trigger] grouped_somewhere(gs, m) by {
                if m < pre.len() {
                    assert(grouped_somewhere(gs0, m));
                    let (g, k) = choose|g: int, k: int| 0 <= g < gs0.len() && 0 <= k < gs0[g].members.len() && #[trigger] gs0[g].members[k] == m;
                    assert(gs[g].members[k] == gs0[g].members[k]);
                } else {
                    assert(gs[i].members[gs0[i].members.len() as int] == n);
                }
            }
        } else {
            assert(gs == gs0.push(GroupView { service: svc, host: h, members: seq![n] }));
            assert forall|a: int, b: int| #![trigger gs[a], gs[b]] 0 <= a < b < gs.len() implies gs[a].service != gs[b].service by {
                if b == gs0.len() {
                    assert(gs0[a].service != svc);
                }
            }
            assert forall|g: int, k: int| 0 <= g < gs.len() && 0 <= k < gs[g].members.len() implies (#[trigger] gs[g].members[k]) < items.len()
                && gs[g].service == service_of(items[gs[g].members[k] as int]) by {
                if g < gs0.len() {
                    assert(gs[g] == gs0[g]);
                }
            }
            assert forall|g: int, k1: int, k2: int| 0 <= g < gs.len() && 0 <= k1 < k2 < gs[g].members.len() implies #[trigger] gs[g].members[k1]
                < #[trigger] gs[g].members[k2] by {
                if g < gs0.len() {
                    assert(gs[g] == gs0[g]);
                }
            }
            assert forall|m: int| 0 <= m < items.len() implies #[trigger] grouped_somewhere(gs, m) by {
                if m < pre.len() {
                    assert(grouped_somewhere(gs0, m));
                    let (g, k) = choose|g: int, k: int| 0 <= g < gs0.len() && 0 <= k < gs0[g].members.len() && #[trigger] gs0[g].members[k] == m;
                    assert(gs[g] == gs0[g]);
                } else {
                    assert(gs[gs0.len() as int].members[0] == n);
                }
            }
        }
    }
}

fn find_group(gs: &Vec<ServiceGroup>, service: &str) -> (r: usize)
    ensures
        r as int == group_index(groups_view(gs@), service@),
        r <= gs.len(),
{
    let ghost gv = groups_view(gs@);
    let mut i: usize = 0;
    while i < gs.len()
        invariant
            i <= gs.len(),
            gv == groups_view(gs@),
            forall|k: int| 0 <= k < i ==> #[trigger] gv[k].service != service@,
        decreases gs.len() - i,
    {
        if text_eq(gs[i].service.as_str(), service) {
            proof {
                lemma_group_index_at(gv, service@, i as int);
            }
            return i;
        }
        i += 1;
    }
    proof {
        lemma_group_index_at(gv, service@, gv.len() as int);
    }
    gs.len()
}

/// Groups signals (given by their attributes, in batch order) by service.
pub fn group_by_service(items: &Vec<Vec<(String, AttrValue)>>) -> (gs: Vec<ServiceGroup>)
    ensures
        groups_view(gs@) == groups_spec(items@.map_values(|a: Vec<(String, AttrValue)>| attrs_view(a@))),
{
    let ghost iv = items@.map_values(|a: Vec<(String, AttrValue)>| attrs_view(a@));
    let mut gs: Vec<ServiceGroup> = Vec::new();
    let mut n: usize = 0;
    assert(iv.take(0) =~= Seq::<Seq<(Seq<char>, AttrView)>>::empty());
    assert(groups_view(gs@) =~= Seq::<GroupView>::empty());
    while n < items.len()
        invariant
            n <= items.len(),
            iv == items@.map_values(|a: Vec<(String, AttrValue)>| attrs_view(a@)),
            groups_view(gs@) == groups_spec(iv.take(n as int)),
        decreases items.len() - n,
    {
        proof {
            assert(iv.take(n + 1).drop_last() =~= iv.take(n as int));
            assert(iv.take(n + 1).last() == attrs_view(items@[n as int]@));
        }
        let a = &items[n];
        let svc = match attr_str(a, "service.name") {
            Some(s) => s,
            None => owned("unknown"),
        };
        let h = attr_str(a, "host.name");
        let i = find_group(&gs, svc.as_str());
        if i < gs.len() {
            let mut g = gs.remove(i);
            if g.host.is_none() {
                g.host = h;
            }
            g.members.push(n);
            gs.insert(i, g);
            assert(groups_view(gs@) =~= groups_spec(iv.take(n + 1)));
        } else {
            let mut members: Vec<usize> = Vec::new();
            members.push(n);
            gs.push(ServiceGroup { service: svc, host: h, members });
            assert(groups_view(gs@) =~= groups_spec(iv.take(n + 1)));
        }
        n += 1;
    }
    assert(iv.take(items.len() as int) =~= iv);
    gs
}

} // verus!
