//! Container collector: reads a container's cgroup v2 files (`memory.current`,
//! `memory.max`, `memory.events`, `cpu.stat`, `io.stat`) and turns them into `container.*`
//! metrics. The files are read at the edge; everything here works on their contents.

use crate::text::{
    chars_of, fields_seq, has_prefix, lines_seq, next_field, next_line, parse_u64_seq,
    parse_unsigned, string_of_window, trim_seq, trim_window, window_eq, window_starts_with,
};
use crate::ports::{Criticality, ProbeResult, SourceDescriptor};
use crate::signal::{
    append_metrics, bare, metrics_view, AttrValue, AttrView, Layer, Metric, MetricKind, MetricView,
    Quantity,
};
use crate::text::{concat, owned, string_from_chars};
use std::time::Duration;
use vstd::prelude::*;

verus! {

broadcast use vstd::seq_lib::group_seq_properties;

/// A single integer file such as `memory.current`: trimmed, then parsed.
pub open spec fn u64_file(content: Seq<char>) -> Option<u64> {
    parse_u64_seq(trim_seq(content))
}

/// `memory.max`: an integer, or the literal `max` (unlimited, so no value).
pub open spec fn mem_max_file(content: Seq<char>) -> Option<u64> {
    let t = trim_seq(content);
    if t == "max"@ {
        None
    } else {
        parse_u64_seq(t)
    }
}

/// One `key value` line: the first two whitespace-separated fields, the second parsed as
/// an integer. Lines that do not have that shape contribute nothing.
pub open spec fn kv_of_line(line: Seq<char>) -> Option<(Seq<char>, u64)> {
    let f = fields_seq(line);
    if f.len() >= 2 {
        match parse_u64_seq(f[1]) {
            Some(v) => Some((f[0], v)),
            None => None,
        }
    } else {
        None
    }
}

/// Every well-formed `key value` pair of `lines`, in order.
pub open spec fn kv_pairs(lines: Seq<Seq<char>>) -> Seq<(Seq<char>, u64)>
    decreases lines.len(),
{
    if lines.len() == 0 {
        Seq::empty()
    } else {
        match kv_of_line(lines[0]) {
            Some(p) => seq![p] + kv_pairs(lines.drop_first()),
            None => kv_pairs(lines.drop_first()),
        }
    }
}

/// The value stored under `key`: a later line overrides an earlier one.
pub open spec fn kv_lookup(pairs: Seq<(Seq<char>, u64)>, key: Seq<char>) -> Option<u64>
    decreases pairs.len(),
{
    if pairs.len() == 0 {
        None
    } else if pairs.last().0 == key {
        Some(pairs.last().1)
    } else {
        kv_lookup(pairs.drop_last(), key)
    }
}

/// The pairs of a `key value` file such as `cpu.stat` or `memory.events`.
pub struct KvTable {
    pairs: Vec<(String, u64)>,
}

/// Owned pairs by view.
pub open spec fn kv_view(ps: Seq<(String, u64)>) -> Seq<(Seq<char>, u64)> {
    ps.map_values(|p: (String, u64)| (p.0@, p.1))
}

proof fn lemma_kv_view_push(ps: Seq<(String, u64)>, p: (String, u64))
    ensures
        kv_view(ps.push(p)) == kv_view(ps).push((p.0@, p.1)),
{
    assert(kv_view(ps.push(p)) =~= kv_view(ps).push((p.0@, p.1)));
}

proof fn lemma_kv_pairs_step(ls: Seq<Seq<char>>, done: Seq<(Seq<char>, u64)>)
    requires
        ls.len() > 0,
    ensures
        match kv_of_line(ls[0]) {
            Some(p) => done.push(p) + kv_pairs(ls.drop_first()) == done + kv_pairs(ls),
            None => done + kv_pairs(ls.drop_first()) == done + kv_pairs(ls),
        },
{
    match kv_of_line(ls[0]) {
        Some(p) => {
            assert(done.push(p) + kv_pairs(ls.drop_first()) =~= done + (seq![p] + kv_pairs(
                ls.drop_first(),
            )));
        },
        None => {},
    }
}

impl View for KvTable {
    type V = Seq<(Seq<char>, u64)>;

    closed spec fn view(&self) -> Seq<(Seq<char>, u64)> {
        kv_view(self.pairs@)
    }
}

impl KvTable {
    /// The value of `key`, from the last line that set it.
    pub fn get(&self, key: &str) -> (r: Option<u64>)
        ensures
            r == kv_lookup(self@, key@),
    {
        let k = chars_of(key);
        let mut i = self.pairs.len();
        while i > 0
            invariant
                i <= self.pairs.len(),
                k@ == key@,
                kv_lookup(self@, key@) == kv_lookup(self@.take(i as int), key@),
            decreases i,
        {
            let name = chars_of(self.pairs[i - 1].0.as_str());
            let n = name.len();
            assert(self@.take(i as int).last() == (self.pairs@[i - 1].0@, self.pairs@[i - 1].1));
            if window_eq(&name, 0, n, &k) {
                assert(name@.subrange(0, n as int) =~= name@);
                return Some(self.pairs[i - 1].1);
            }
            assert(name@.subrange(0, n as int) =~= name@);
            assert(self@.take(i as int).drop_last() =~= self@.take(i - 1));
            i -= 1;
        }
        None
    }

    /// How many pairs were read.
    pub fn len(&self) -> (n: usize)
        ensures
            n == self@.len(),
    {
        self.pairs.len()
    }
}

/// `memory.current` and similar single-integer files.
pub fn parse_u64(content: &str) -> (r: Option<u64>)
    ensures
        r == u64_file(content@),
{
    let v = chars_of(content);
    let (a, b) = trim_window(&v, 0, v.len());
    assert(v@.subrange(0, v.len() as int) =~= v@);
    parse_unsigned(&v, a, b, u64::MAX)
}

/// `memory.max`: `None` for the literal `max`, otherwise the integer it holds.
pub fn parse_mem_max(content: &str) -> (r: Option<u64>)
    ensures
        r == mem_max_file(content@),
{
    let v = chars_of(content);
    let (a, b) = trim_window(&v, 0, v.len());
    assert(v@.subrange(0, v.len() as int) =~= v@);
    let max = chars_of("max");
    if window_eq(&v, a, b, &max) {
        None
    } else {
        parse_unsigned(&v, a, b, u64::MAX)
    }
}

/// The `key value` pair on the line `s[lo..hi]`, if it has one.
fn kv_line(s: &Vec<char>, lo: usize, hi: usize) -> (r: Option<(String, u64)>)
    requires
        lo <= hi <= s.len(),
    ensures
        match kv_of_line(s@.subrange(lo as int, hi as int)) {
            Some(p) => r matches Some(q) && q.0@ == p.0 && q.1 == p.1,
            None => r is None,
        },
{
    let ghost f = fields_seq(s@.subrange(lo as int, hi as int));
    match next_field(s, lo, hi) {
        None => None,
        Some((a, b)) => {
            match next_field(s, b, hi) {
                None => None,
                Some((c, d)) => {
                    assert(f[0] == s@.subrange(a as int, b as int));
                    assert(f[1] == s@.subrange(c as int, d as int));
                    match parse_unsigned(s, c, d, u64::MAX) {
                        Some(v) => Some((string_of_window(s, a, b), v)),
                        None => None,
                    }
                },
            }
        },
    }
}

/// Lines of `key value` (`cpu.stat`, `memory.events`).
pub fn parse_kv_lines(content: &str) -> (t: KvTable)
    ensures
        t@ == kv_pairs(lines_seq(content@)),
{
    let s = chars_of(content);
    let hi = s.len();
    let mut pairs: Vec<(String, u64)> = Vec::new();
    let mut pos: usize = 0;
    proof {
        assert(s@.subrange(0, hi as int) =~= s@);
    }
    while pos < hi
        invariant
            pos <= hi == s.len(),
            s@ == content@,
            kv_view(pairs@) + kv_pairs(lines_seq(s@.subrange(pos as int, hi as int))) == kv_pairs(
                lines_seq(content@),
            ),
        decreases hi - pos,
    {
        let (a, b, next) = next_line(&s, pos, hi);
        let ghost ls = lines_seq(s@.subrange(pos as int, hi as int));
        let ghost before = pairs@;
        assert(ls.drop_first() =~= lines_seq(s@.subrange(next as int, hi as int)));
        assert(ls[0] == s@.subrange(a as int, b as int));
        proof {
            lemma_kv_pairs_step(ls, kv_view(before));
        }
        match kv_line(&s, a, b) {
            Some(p) => {
                pairs.push(p);
                proof {
                    lemma_kv_view_push(before, p);
                }
            },
            None => {},
        }
        pos = next;
    }
    assert(lines_seq(s@.subrange(hi as int, hi as int)) == Seq::<Seq<char>>::empty());
    assert(kv_view(pairs@) + Seq::<(Seq<char>, u64)>::empty() =~= kv_view(pairs@));
    KvTable { pairs }
}

// ------------------------------------------------------------------------------------
// io.stat
// ------------------------------------------------------------------------------------

/// `2^64`.
pub open spec fn two_to_64() -> int {
    0x1_0000_0000_0000_0000
}

/// What one `io.stat` field adds to the read and write totals: `rbytes=N` and `wbytes=N`
/// count `N` (or nothing when `N` is not an integer); any other field counts nothing.
pub open spec fn io_field(f: Seq<char>) -> (int, int) {
    if has_prefix(f, "rbytes="@) {
        (match parse_u64_seq(f.skip(7)) {
            Some(v) => v as int,
            None => 0,
        }, 0)
    } else if has_prefix(f, "wbytes="@) {
        (0, match parse_u64_seq(f.skip(7)) {
            Some(v) => v as int,
            None => 0,
        })
    } else {
        (0, 0)
    }
}

pub open spec fn io_fields_total(fs: Seq<Seq<char>>) -> (int, int)
    decreases fs.len(),
{
    if fs.len() == 0 {
        (0, 0)
    } else {
        let a = io_field(fs[0]);
        let b = io_fields_total(fs.drop_first());
        (a.0 + b.0, a.1 + b.1)
    }
}

pub open spec fn io_lines_total(ls: Seq<Seq<char>>) -> (int, int)
    decreases ls.len(),
{
    if ls.len() == 0 {
        (0, 0)
    } else {
        let a = io_fields_total(fields_seq(ls[0]));
        let b = io_lines_total(ls.drop_first());
        (a.0 + b.0, a.1 + b.1)
    }
}

/// The byte totals of an `io.stat` file, each modulo `2^64`.
pub open spec fn io_stat_totals(content: Seq<char>) -> (u64, u64) {
    let t = io_lines_total(lines_seq(content));
    ((t.0 % two_to_64()) as u64, (t.1 % two_to_64()) as u64)
}

proof fn lemma_io_field_nonneg(f: Seq<char>)
    ensures
        io_field(f).0 >= 0,
        io_field(f).1 >= 0,
        io_field(f).0 < two_to_64(),
        io_field(f).1 < two_to_64(),
{
}

proof fn lemma_wrap_step(acc: u64, total: int, add: int)
    requires
        total >= 0,
        0 <= add < two_to_64(),
        acc as int == total % two_to_64(),
    ensures
        vstd::wrapping::u64_specs::wrapping_add(acc, add as u64) as int == (total + add) % two_to_64(),
{
    vstd::arithmetic::div_mod::lemma_add_mod_noop(total, add, two_to_64());
    vstd::arithmetic::div_mod::lemma_small_mod(add as nat, two_to_64() as nat);
    if acc + add < two_to_64() {
        vstd::arithmetic::div_mod::lemma_small_mod((acc + add) as nat, two_to_64() as nat);
    } else {
        vstd::arithmetic::div_mod::lemma_mod_sub_multiples_vanish((acc + add) as int, two_to_64());
        vstd::arithmetic::div_mod::lemma_small_mod((acc + add - two_to_64()) as nat, two_to_64() as nat);
    }
}

/// `io.stat`: the sums of `rbytes=` and `wbytes=` across all devices (wrapping, as the
/// release build's integer addition does).
pub fn parse_io_stat(content: &str) -> (r: (u64, u64))
    ensures
        r == io_stat_totals(content@),
{
    let s = chars_of(content);
    let hi = s.len();
    let rb = chars_of("rbytes=");
    let wb = chars_of("wbytes=");
    let mut r: u64 = 0;
    let mut w: u64 = 0;
    let ghost mut tr: int = 0;
    let ghost mut tw: int = 0;
    let mut pos: usize = 0;
    proof {
        assert(s@.subrange(0, hi as int) =~= s@);
        reveal_strlit("rbytes=");
        reveal_strlit("wbytes=");
    }
    while pos < hi
        invariant
            pos <= hi == s.len(),
            s@ == content@,
            rb@ == "rbytes="@,
            wb@ == "wbytes="@,
            rb@.len() == 7,
            wb@.len() == 7,
            tr >= 0,
            tw >= 0,
            r as int == tr % two_to_64(),
            w as int == tw % two_to_64(),
            tr + io_lines_total(lines_seq(s@.subrange(pos as int, hi as int))).0 == io_lines_total(
                lines_seq(content@),
            ).0,
            tw + io_lines_total(lines_seq(s@.subrange(pos as int, hi as int))).1 == io_lines_total(
                lines_seq(content@),
            ).1,
        decreases hi - pos,
    {
        let (a, b, next) = next_line(&s, pos, hi);
        let ghost ls = lines_seq(s@.subrange(pos as int, hi as int));
        assert(ls.drop_first() =~= lines_seq(s@.subrange(next as int, hi as int)));
        assert(ls[0] == s@.subrange(a as int, b as int));
        let mut fpos = a;
        let ghost tr0 = tr;
        let ghost tw0 = tw;
        while fpos < b
            invariant
                a <= fpos <= b <= hi == s.len(),
                rb@ == "rbytes="@,
                wb@ == "wbytes="@,
                rb@.len() == 7,
                wb@.len() == 7,
                tr >= tr0 >= 0,
                tw >= tw0 >= 0,
                r as int == tr % two_to_64(),
                w as int == tw % two_to_64(),
                tr + io_fields_total(fields_seq(s@.subrange(fpos as int, b as int))).0 == tr0
                    + io_fields_total(fields_seq(s@.subrange(a as int, b as int))).0,
                tw + io_fields_total(fields_seq(s@.subrange(fpos as int, b as int))).1 == tw0
                    + io_fields_total(fields_seq(s@.subrange(a as int, b as int))).1,
            decreases b - fpos,
        {
            match next_field(&s, fpos, b) {
                None => {
                    fpos = b;
                },
                Some((fa, fb)) => {
                    let ghost fs = fields_seq(s@.subrange(fpos as int, b as int));
                    let ghost f = s@.subrange(fa as int, fb as int);
                    assert(fs.drop_first() =~= fields_seq(s@.subrange(fb as int, b as int)));
                    assert(fs[0] == f);
                    proof {
                        lemma_io_field_nonneg(f);
                    }
                    if window_starts_with(&s, fa, fb, &rb) {
                        let v = parse_unsigned(&s, fa + 7, fb, u64::MAX);
                        assert(f.skip(7) =~= s@.subrange(fa + 7, fb as int));
                        let add: u64 = match v {
                            Some(x) => x,
                            None => 0,
                        };
                        proof {
                            lemma_wrap_step(r, tr, add as int);
                            tr = tr + add;
                        }
                        r = r.wrapping_add(add);
                    } else if window_starts_with(&s, fa, fb, &wb) {
                        let v = parse_unsigned(&s, fa + 7, fb, u64::MAX);
                        assert(f.skip(7) =~= s@.subrange(fa + 7, fb as int));
                        let add: u64 = match v {
                            Some(x) => x,
                            None => 0,
                        };
                        proof {
                            lemma_wrap_step(w, tw, add as int);
                            tw = tw + add;
                        }
                        w = w.wrapping_add(add);
                    }
                    fpos = fb;
                },
            }
        }
        assert(fields_seq(s@.subrange(b as int, b as int)) == Seq::<Seq<char>>::empty()) by {
            assert(s@.subrange(b as int, b as int) =~= Seq::<char>::empty());
        }
        pos = next;
    }
    assert(lines_seq(s@.subrange(hi as int, hi as int)) == Seq::<Seq<char>>::empty());
    (r, w)
}

// ------------------------------------------------------------------------------------
// The collector
// ------------------------------------------------------------------------------------

/// The last component of a path: what follows the final `/` once trailing `/` are gone.
pub open spec fn last_component(p: Seq<char>) -> Seq<char>
    decreases p.len(),
{
    if p.len() == 0 {
        p
    } else if p.last() == '/' {
        last_component(p.drop_last())
    } else {
        tail_after_slash(p)
    }
}

/// What follows the final `/` of `p` (all of `p` when it has none).
pub open spec fn tail_after_slash(p: Seq<char>) -> Seq<char>
    decreases p.len(),
{
    if p.len() == 0 || p.last() == '/' {
        Seq::empty()
    } else {
        tail_after_slash(p.drop_last()).push(p.last())
    }
}

/// The label a container's metrics carry: the configured id, or the cgroup directory's
/// name when none was configured.
pub open spec fn container_label(cgroup: Seq<char>, id: Seq<char>) -> Seq<char> {
    if id.len() == 0 {
        last_component(cgroup)
    } else {
        id
    }
}

/// The directory name a path ends in.
pub fn last_path_component(p: &str) -> (r: String)
    ensures
        r@ == last_component(p@),
{
    let v = chars_of(p);
    let mut end = v.len();
    while end > 0 && v[end - 1] == '/'
        invariant
            end <= v.len(),
            last_component(v@.take(end as int)) == last_component(v@),
        decreases end,
    {
        assert(v@.take(end as int).drop_last() =~= v@.take(end - 1));
        end -= 1;
    }
    assert(v@.take(v.len() as int) =~= v@);
    let mut start = end;
    while start > 0 && v[start - 1] != '/'
        invariant
            start <= end <= v.len(),
            tail_after_slash(v@.take(end as int)) == tail_after_slash(v@.take(start as int))
                + v@.subrange(start as int, end as int),
        decreases start,
    {
        assert(v@.take(start as int).drop_last() =~= v@.take(start - 1));
        assert(v@.subrange(start - 1, end as int) =~= seq![v@[start - 1]] + v@.subrange(
            start as int,
            end as int,
        ));
        start -= 1;
    }
    assert(tail_after_slash(v@.take(start as int)) =~= Seq::<char>::empty());
    assert(Seq::<char>::empty() + v@.subrange(start as int, end as int) =~= v@.subrange(
        start as int,
        end as int,
    ));
    proof {
        if end > 0 {
            assert(v@.take(end as int).last() != '/');
        } else {
            assert(v@.take(0) =~= Seq::<char>::empty());
        }
    }
    string_of_window(&v, start, end)
}

/// The contents of the cgroup files one collection cycle managed to read; a file that
/// could not be read is `None`.
pub struct CgroupFiles {
    pub memory_current: Option<String>,
    pub memory_max: Option<String>,
    pub memory_events: Option<String>,
    pub cpu_stat: Option<String>,
    pub io_stat: Option<String>,
}

/// `name` tagged with `container.id`.
pub open spec fn tagged(m: MetricView, id: Seq<char>) -> MetricView {
    m.attr("container.id"@, AttrView::Str(id))
}

pub open spec fn memory_usage_part(id: Seq<char>, content: Option<String>) -> Seq<MetricView> {
    match content {
        Some(c) => match u64_file(c@) {
            Some(used) => seq![tagged(bare("container.memory.usage"@, MetricKind::UpDownCounter, Quantity::Count(used)).with_unit("By"@), id)],
            None => Seq::empty(),
        },
        None => Seq::empty(),
    }
}

pub open spec fn memory_limit_part(id: Seq<char>, content: Option<String>) -> Seq<MetricView> {
    match content {
        Some(c) => match mem_max_file(c@) {
            Some(limit) => seq![tagged(bare("harnesssphere.container.memory.limit"@, MetricKind::Gauge, Quantity::Count(limit)).with_unit("By"@), id)],
            None => Seq::empty(),
        },
        None => Seq::empty(),
    }
}

pub open spec fn oom_part(id: Seq<char>, content: Option<String>) -> Seq<MetricView> {
    match content {
        Some(c) => match kv_lookup(kv_pairs(lines_seq(c@)), "oom_kill"@) {
            Some(n) => seq![tagged(bare("harnesssphere.container.memory.oom"@, MetricKind::Counter, Quantity::Count(n)), id)],
            None => Seq::empty(),
        },
        None => Seq::empty(),
    }
}

pub open spec fn cpu_part(id: Seq<char>, content: Option<String>) -> Seq<MetricView> {
    match content {
        Some(c) => {
            let kv = kv_pairs(lines_seq(c@));
            let usage = match kv_lookup(kv, "usage_usec"@) {
                Some(us) => seq![tagged(bare("container.cpu.time"@, MetricKind::Counter, Quantity::Ratio(us, 1_000_000)).with_unit("s"@), id)],
                None => Seq::empty(),
            };
            let throttled = match kv_lookup(kv, "throttled_usec"@) {
                Some(us) => seq![tagged(bare("harnesssphere.container.cpu.throttled"@, MetricKind::Counter, Quantity::Ratio(us, 1_000_000)).with_unit("s"@), id)],
                None => Seq::empty(),
            };
            usage + throttled
        },
        None => Seq::empty(),
    }
}

pub open spec fn io_part(id: Seq<char>, content: Option<String>) -> Seq<MetricView> {
    match content {
        Some(c) => {
            let (r, w) = io_stat_totals(c@);
            seq![
                tagged(bare("container.disk.io"@, MetricKind::Counter, Quantity::Count(r)).with_unit("By"@), id).attr("disk.io.direction"@, AttrView::Str("read"@)),
                tagged(bare("container.disk.io"@, MetricKind::Counter, Quantity::Count(w)).with_unit("By"@), id).attr("disk.io.direction"@, AttrView::Str("write"@)),
            ]
        },
        None => Seq::empty(),
    }
}

/// Everything one collection cycle emits, in order: memory usage, memory limit, OOM
/// kills, CPU time, CPU throttling, then disk read and write bytes; each only when its
/// file was read and holds the value.
pub open spec fn container_metrics(id: Seq<char>, f: CgroupFiles) -> Seq<MetricView> {
    memory_usage_part(id, f.memory_current) + memory_limit_part(id, f.memory_max) + oom_part(
        id,
        f.memory_events,
    ) + cpu_part(id, f.cpu_stat) + io_part(id, f.io_stat)
}

/// Reads a container's cgroup v2 directory. No Docker socket and no runtime API.
pub struct ContainerCollector {
    descriptor: SourceDescriptor,
    cgroup: String,
    container_id: String,
}

impl ContainerCollector {
    /// `cgroup` is the container's cgroup v2 directory; `container_id` labels the metrics
    /// and, when empty, is taken from the directory's name.
    pub fn new(cgroup: &str, container_id: &str, interval: Duration) -> (c: Self)
        ensures
            c.cgroup_spec()@ == cgroup@,
            c.container_id_spec()@ == container_label(cgroup@, container_id@),
            c.descriptor_spec().name@ == "container"@,
            c.descriptor_spec().layer == Layer::Harness,
            c.descriptor_spec().criticality == Criticality::Optional,
            c.descriptor_spec().default_interval == interval,
    {
        let id = if container_id.is_empty() {
            last_path_component(cgroup)
        } else {
            owned(container_id)
        };
        ContainerCollector {
            descriptor: SourceDescriptor::new(
                owned("container"),
                Layer::Harness,
                Criticality::Optional,
                interval,
            ),
            cgroup: owned(cgroup),
            container_id: id,
        }
    }

    pub closed spec fn cgroup_spec(&self) -> String {
        self.cgroup
    }

    pub fn descriptor(&self) -> (d: &SourceDescriptor)
        ensures
            *d == self.descriptor_spec(),
    {
        &self.descriptor
    }

    pub closed spec fn descriptor_spec(&self) -> SourceDescriptor {
        self.descriptor
    }

    /// The cgroup directory this collector reads.
    pub fn cgroup(&self) -> (s: &String)
        ensures
            *s == self.cgroup_spec(),
    {
        &self.cgroup
    }

    pub closed spec fn container_id_spec(&self) -> String {
        self.container_id
    }

    /// The `container.id` label.
    pub fn container_id(&self) -> (s: &String)
        ensures
            *s == self.container_id_spec(),
    {
        &self.container_id
    }

    /// Ready when `memory.current` exists as a file; otherwise the target is unavailable,
    /// which degrades this Optional source rather than failing it.
    pub fn probe(&self, memory_current_is_file: bool) -> (r: ProbeResult)
        ensures
            memory_current_is_file ==> r is Ready,
            !memory_current_is_file ==> (r matches ProbeResult::Unavailable(msg) && msg@
                == "no cgroup v2 at "@ + self.cgroup_spec()@ + " (memory.current missing)"@),
    {
        if memory_current_is_file {
            ProbeResult::Ready
        } else {
            let head = concat("no cgroup v2 at ", self.cgroup.as_str());
            ProbeResult::Unavailable(concat(head.as_str(), " (memory.current missing)"))
        }
    }

    /// One collection cycle over the files that were read.
    pub fn collect(&self, files: &CgroupFiles) -> (ms: Vec<Metric>)
        ensures
            metrics_view(ms@) == container_metrics(self.container_id_spec()@, *files),
    {
        let id = self.container_id.as_str();
        let mut out = memory_usage_metrics(id, &files.memory_current);
        append_metrics(&mut out, memory_limit_metrics(id, &files.memory_max));
        append_metrics(&mut out, oom_metrics(id, &files.memory_events));
        append_metrics(&mut out, cpu_metrics(id, &files.cpu_stat));
        append_metrics(&mut out, io_metrics(id, &files.io_stat));
        out
    }
}

fn memory_usage_metrics(id: &str, content: &Option<String>) -> (ms: Vec<Metric>)
    ensures
        metrics_view(ms@) == memory_usage_part(id@, *content),
{
    let mut out: Vec<Metric> = Vec::new();
    if let Some(c) = content {
        if let Some(used) = parse_u64(c.as_str()) {
            out.push(Metric::new("container.memory.usage", MetricKind::UpDownCounter, Quantity::Count(used))
                .with_unit("By").attr("container.id", AttrValue::text(id)));
        }
    }
    assert(metrics_view(out@) =~= memory_usage_part(id@, *content));
    out
}

fn memory_limit_metrics(id: &str, content: &Option<String>) -> (ms: Vec<Metric>)
    ensures
        metrics_view(ms@) == memory_limit_part(id@, *content),
{
    let mut out: Vec<Metric> = Vec::new();
    if let Some(c) = content {
        if let Some(limit) = parse_mem_max(c.as_str()) {
            out.push(Metric::new("harnesssphere.container.memory.limit", MetricKind::Gauge, Quantity::Count(limit))
                .with_unit("By").attr("container.id", AttrValue::text(id)));
        }
    }
    assert(metrics_view(out@) =~= memory_limit_part(id@, *content));
    out
}

fn oom_metrics(id: &str, content: &Option<String>) -> (ms: Vec<Metric>)
    ensures
        metrics_view(ms@) == oom_part(id@, *content),
{
    let mut out: Vec<Metric> = Vec::new();
    if let Some(c) = content {
        let ev = parse_kv_lines(c.as_str());
        if let Some(oom) = ev.get("oom_kill") {
            out.push(Metric::new("harnesssphere.container.memory.oom", MetricKind::Counter, Quantity::Count(oom))
                .attr("container.id", AttrValue::text(id)));
        }
    }
    assert(metrics_view(out@) =~= oom_part(id@, *content));
    out
}

fn cpu_metrics(id: &str, content: &Option<String>) -> (ms: Vec<Metric>)
    ensures
        metrics_view(ms@) == cpu_part(id@, *content),
{
    let mut out: Vec<Metric> = Vec::new();
    if let Some(c) = content {
        let cpu = parse_kv_lines(c.as_str());
        if let Some(usec) = cpu.get("usage_usec") {
            out.push(Metric::new("container.cpu.time", MetricKind::Counter, Quantity::Ratio(usec, 1_000_000))
                .with_unit("s").attr("container.id", AttrValue::text(id)));
        }
        let ghost first = out@;
        if let Some(thr) = cpu.get("throttled_usec") {
            out.push(Metric::new("harnesssphere.container.cpu.throttled", MetricKind::Counter, Quantity::Ratio(thr, 1_000_000))
                .with_unit("s").attr("container.id", AttrValue::text(id)));
        }
        assert(metrics_view(out@) =~= cpu_part(id@, *content));
    } else {
        assert(metrics_view(out@) =~= cpu_part(id@, *content));
    }
    out
}

fn io_metrics(id: &str, content: &Option<String>) -> (ms: Vec<Metric>)
    ensures
        metrics_view(ms@) == io_part(id@, *content),
{
    let mut out: Vec<Metric> = Vec::new();
    if let Some(c) = content {
        let (rbytes, wbytes) = parse_io_stat(c.as_str());
        out.push(Metric::new("container.disk.io", MetricKind::Counter, Quantity::Count(rbytes))
            .with_unit("By").attr("container.id", AttrValue::text(id))
            .attr("disk.io.direction", AttrValue::text("read")));
        out.push(Metric::new("container.disk.io", MetricKind::Counter, Quantity::Count(wbytes))
            .with_unit("By").attr("container.id", AttrValue::text(id))
            .attr("disk.io.direction", AttrValue::text("write")));
    }
    assert(metrics_view(out@) =~= io_part(id@, *content));
    out
}

/// No series of `s` has the length of either CPU time name.
spec fn avoids_cpu_names(s: Seq<MetricView>) -> bool {
    forall|i: int| 0 <= i < s.len() ==> (#[trigger] s[i]).name.len() != 18 && s[i].name.len() != 37
}

proof fn lemma_avoids_concat(a: Seq<MetricView>, b: Seq<MetricView>)
    requires
        avoids_cpu_names(a),
        avoids_cpu_names(b),
    ensures
        avoids_cpu_names(a + b),
{
    assert forall|i: int| 0 <= i < (a + b).len() implies (#[trigger] (a + b)[i]).name.len() != 18 && (a + b)[i].name.len()
        != 37 by {
        if i < a.len() {
            assert((a + b)[i] == a[i]);
        } else {
            assert((a + b)[i] == b[i - a.len()]);
        }
    }
}

/// Every CPU time the container collector reports is in seconds: `container.cpu.time`
/// and `harnesssphere.container.cpu.throttled` are the `usage_usec` and `throttled_usec`
/// values of `cpu.stat` divided by 1 000 000, both counters with unit `s`; and each is
/// reported whenever `cpu.stat` was read and holds its key.
pub proof fn law_cpu_times_are_seconds(id: Seq<char>, f: CgroupFiles)
    ensures
        forall|k: int|
            0 <= k < container_metrics(id, f).len() && (#[trigger] container_metrics(id, f)[k]).name
                == "container.cpu.time"@ ==> ({
                let m = container_metrics(id, f)[k];
                &&& f.cpu_stat is Some
                &&& kv_lookup(kv_pairs(lines_seq(f.cpu_stat->0@)), "usage_usec"@) is Some
                &&& m.value == Quantity::Ratio(
                    kv_lookup(kv_pairs(lines_seq(f.cpu_stat->0@)), "usage_usec"@)->0,
                    1_000_000,
                )
                &&& m.kind == MetricKind::Counter
                &&& m.unit == Some("s"@)
            }),
        forall|k: int|
            0 <= k < container_metrics(id, f).len() && (#[trigger] container_metrics(id, f)[k]).name
                == "harnesssphere.container.cpu.throttled"@ ==> ({
                let m = container_metrics(id, f)[k];
                &&& f.cpu_stat is Some
                &&& kv_lookup(kv_pairs(lines_seq(f.cpu_stat->0@)), "throttled_usec"@) is Some
                &&& m.value == Quantity::Ratio(
                    kv_lookup(kv_pairs(lines_seq(f.cpu_stat->0@)), "throttled_usec"@)->0,
                    1_000_000,
                )
                &&& m.kind == MetricKind::Counter
                &&& m.unit == Some("s"@)
            }),
        f.cpu_stat is Some && kv_lookup(kv_pairs(lines_seq(f.cpu_stat->0@)), "usage_usec"@) is Some ==> exists|k: int|
            0 <= k < container_metrics(id, f).len() && (#[trigger] container_metrics(id, f)[k]).name
                == "container.cpu.time"@,
        f.cpu_stat is Some && kv_lookup(kv_pairs(lines_seq(f.cpu_stat->0@)), "throttled_usec"@) is Some ==> exists|k: int|
            0 <= k < container_metrics(id, f).len() && (#[trigger] container_metrics(id, f)[k]).name
                == "harnesssphere.container.cpu.throttled"@,
{
    reveal_strlit("container.cpu.time");
    reveal_strlit("harnesssphere.container.cpu.throttled");
    reveal_strlit("container.memory.usage");
    reveal_strlit("harnesssphere.container.memory.limit");
    reveal_strlit("harnesssphere.container.memory.oom");
    reveal_strlit("container.disk.io");
    let p1 = memory_usage_part(id, f.memory_current);
    let p2 = memory_limit_part(id, f.memory_max);
    let p3 = oom_part(id, f.memory_events);
    let c = cpu_part(id, f.cpu_stat);
    let d = io_part(id, f.io_stat);
    assert(avoids_cpu_names(p1));
    assert(avoids_cpu_names(p2));
    assert(avoids_cpu_names(p3));
    assert(avoids_cpu_names(d));
    lemma_avoids_concat(p1, p2);
    lemma_avoids_concat(p1 + p2, p3);
    let a = p1 + p2 + p3;
    let ms = container_metrics(id, f);
    assert(ms == a + c + d);
    assert forall|k: int| 0 <= k < ms.len() && (#[trigger] ms[k]).name.len() == 18 || 0 <= k < ms.len() && ms[k].name.len() == 37
        implies a.len() <= k < a.len() + c.len() && ms[k] == c[k - a.len()] by {
        if k < a.len() {
            assert(ms[k] == a[k]);
        } else if k >= a.len() + c.len() {
            assert(ms[k] == d[k - a.len() - c.len()]);
        }
    }
    if f.cpu_stat is Some {
        let kv = kv_pairs(lines_seq(f.cpu_stat->0@));
        let u = match kv_lookup(kv, "usage_usec"@) {
            Some(us) => seq![tagged(bare("container.cpu.time"@, MetricKind::Counter, Quantity::Ratio(us, 1_000_000)).with_unit("s"@), id)],
            None => Seq::<MetricView>::empty(),
        };
        assert(c == u + (c.skip(u.len() as int)));
        let t = match kv_lookup(kv, "throttled_usec"@) {
            Some(us) => seq![tagged(bare("harnesssphere.container.cpu.throttled"@, MetricKind::Counter, Quantity::Ratio(us, 1_000_000)).with_unit("s"@), id)],
            None => Seq::<MetricView>::empty(),
        };
        assert(c =~= u + t);
        if kv_lookup(kv, "usage_usec"@) is Some {
            assert(ms[a.len() as int] == c[0]);
        }
        if kv_lookup(kv, "throttled_usec"@) is Some {
            assert(ms[(a.len() + u.len()) as int] == c[u.len() as int]);
        }
        assert forall|k: int| 0 <= k < ms.len() && (#[trigger] ms[k]).name == "container.cpu.time"@ implies ms[k] == u[0]
            && u.len() == 1 by {
            assert(ms[k].name.len() == 18);
            let j = k - a.len();
            assert(ms[k] == c[j]);
            if j >= u.len() {
                assert(c[j] == t[j - u.len()]);
            }
        }
        assert forall|k: int| 0 <= k < ms.len() && (#[trigger] ms[k]).name == "harnesssphere.container.cpu.throttled"@ implies ms[k]
            == t[0] && t.len() == 1 by {
            assert(ms[k].name.len() == 37);
            let j = k - a.len();
            assert(ms[k] == c[j]);
            if j < u.len() {
                assert(c[j] == u[j]);
            } else {
                assert(c[j] == t[j - u.len()]);
            }
        }
    } else {
        assert forall|k: int| 0 <= k < ms.len() implies (#[trigger] ms[k]).name != "container.cpu.time"@ && ms[k].name
            != "harnesssphere.container.cpu.throttled"@ by {
            if ms[k].name == "container.cpu.time"@ {
                assert(ms[k].name.len() == 18);
            }
            if ms[k].name == "harnesssphere.container.cpu.throttled"@ {
                assert(ms[k].name.len() == 37);
            }
        }
    }
}

} // verus!
