//! Session collector: picoclaw activity derived from its on-disk JSONL transcripts
//! (`{role, content, tool_calls?}`), one collector per workspace.
//!
//! No transcript content ever reaches a signal: only the `role` string and the length of
//! `tool_calls` are looked at. Files are read incrementally and only up to the last
//! complete line; a file that shrank is re-read from zero.
//!
//! The edge lists directories, stats files and reads bytes; this module owns the
//! per-file state and decides what is read next and what is emitted.

use crate::json::{array_len_field, get_field, json_doc, opt_doc_view, parse, str_field, JsonDoc, JsonDocView, JsonField};
use crate::ports::{CollectError, Criticality, ProbeResult, SourceDescriptor};
use crate::signal::{bare, metrics_view, AttrValue, AttrView, Layer, Metric, MetricKind, MetricView, Quantity};
use crate::text::{
    chars_of, concat, has_suffix, lemma_first_index, lemma_first_index_unique, first_index,
    lines_seq, next_line, owned, string_of_window, strip_cr, trim_seq, trim_window,
    text_eq, views, window_ends_with, window_eq,
};
use crate::workspace::{ws_source_name, Workspace};
use std::time::Duration;
use vstd::prelude::*;
use vstd::utf8::encode_utf8;

verus! {

// ------------------------------------------------------------------------------------
// What a transcript is worth
// ------------------------------------------------------------------------------------

/// Message counts by role, in the order the roles were first seen, and the number of tool
/// calls. Counts wrap at `u64::MAX`.
pub struct TallyView {
    pub roles: Seq<(Seq<char>, u64)>,
    pub tool_calls: u64,
}

pub open spec fn empty_tally() -> TallyView {
    TallyView { roles: Seq::empty(), tool_calls: 0 }
}

/// Position of role `r` in `roles`, or `roles.len()` when it is not there.
pub open spec fn role_index(roles: Seq<(Seq<char>, u64)>, r: Seq<char>) -> int
    decreases roles.len(),
{
    if roles.len() == 0 {
        0
    } else if roles[0].0 == r {
        0
    } else {
        1 + role_index(roles.drop_first(), r)
    }
}

/// `n` more of role `r`: added to its count, or appended when the role is new.
pub open spec fn bump(roles: Seq<(Seq<char>, u64)>, r: Seq<char>, n: u64) -> Seq<(Seq<char>, u64)> {
    let i = role_index(roles, r);
    if 0 <= i < roles.len() {
        roles.update(i, (r, roles[i].1.wrapping_add(n)))
    } else {
        roles.push((r, n))
    }
}

/// What one transcript line adds: nothing when it is blank or not JSON; otherwise one
/// message of its `role` (when that is a string) and the length of its `tool_calls`
/// (when that is an array).
pub open spec fn apply_line(t: TallyView, line: Seq<char>) -> TallyView {
    let text = trim_seq(line);
    if text.len() == 0 {
        t
    } else {
        apply_doc(t, json_doc(text))
    }
}

/// What one parsed transcript record adds.
pub open spec fn apply_doc(t: TallyView, doc: Option<JsonDocView>) -> TallyView {
    let roles = match str_field(doc, "role"@) {
        Some(r) => bump(t.roles, r, 1),
        None => t.roles,
    };
    let tool_calls = match array_len_field(doc, "tool_calls"@) {
        Some(n) => t.tool_calls.wrapping_add(n as u64),
        None => t.tool_calls,
    };
    TallyView { roles, tool_calls }
}

/// The lines, applied in order.
pub open spec fn apply_lines(t: TallyView, ls: Seq<Seq<char>>) -> TallyView
    decreases ls.len(),
{
    if ls.len() == 0 {
        t
    } else {
        apply_lines(apply_line(t, ls[0]), ls.drop_first())
    }
}

/// Length of the part of `c` that ends on its last `\n` (0 when there is none).
pub open spec fn complete_len(c: Seq<char>) -> int
    decreases c.len(),
{
    if c.len() == 0 {
        0
    } else if c.last() == '\n' {
        c.len() as int
    } else {
        complete_len(c.drop_last())
    }
}

/// Per-file state: bytes consumed (always ending on a line boundary), the tally of those
/// bytes, and whether the session was started by a scheduled task.
pub struct FileView {
    pub offset: int,
    pub tally: TallyView,
    pub cron: bool,
}

/// A file seen for the first time.
pub open spec fn fresh_file(cron: bool) -> FileView {
    FileView { offset: 0, tally: empty_tally(), cron }
}

/// The state after reading `chunk` from the file's offset: every complete line of it is
/// counted and consumed; a trailing partial line is left for the next read.
pub open spec fn absorb_spec(f: FileView, chunk: Seq<char>) -> FileView {
    let done = chunk.take(complete_len(chunk));
    FileView {
        offset: f.offset + encode_utf8(done).len(),
        tally: apply_lines(f.tally, lines_seq(done)),
        cron: f.cron,
    }
}

// ------------------------------------------------------------------------------------
// Lemmas
// ------------------------------------------------------------------------------------

proof fn lemma_apply_lines_concat(t: TallyView, a: Seq<Seq<char>>, b: Seq<Seq<char>>)
    ensures
        apply_lines(t, a + b) == apply_lines(apply_lines(t, a), b),
    decreases a.len(),
{
    if a.len() == 0 {
        assert(a + b =~= b);
    } else {
        assert((a + b)[0] == a[0]);
        assert((a + b).drop_first() =~= a.drop_first() + b);
        lemma_apply_lines_concat(apply_line(t, a[0]), a.drop_first(), b);
    }
}

proof fn lemma_complete_len(c: Seq<char>)
    ensures
        0 <= complete_len(c) <= c.len(),
        complete_len(c) > 0 ==> c[complete_len(c) - 1] == '\n',
        forall|j: int| complete_len(c) <= j < c.len() ==> c[j] != '\n',
    decreases c.len(),
{
    if c.len() > 0 && c.last() != '\n' {
        lemma_complete_len(c.drop_last());
        assert forall|j: int| complete_len(c) <= j < c.len() implies c[j] != '\n' by {
            if j < c.len() - 1 {
                assert(c.drop_last()[j] == c[j]);
            }
        }
    }
}

proof fn lemma_complete_len_none(c: Seq<char>)
    requires
        forall|j: int| 0 <= j < c.len() ==> c[j] != '\n',
    ensures
        complete_len(c) == 0,
    decreases c.len(),
{
    if c.len() > 0 {
        lemma_complete_len_none(c.drop_last());
    }
}

proof fn lemma_complete_len_concat(x: Seq<char>, y: Seq<char>)
    ensures
        complete_len(x + y) == if complete_len(y) > 0 {
            x.len() + complete_len(y)
        } else {
            complete_len(x)
        },
    decreases y.len(),
{
    if y.len() == 0 {
        assert(x + y =~= x);
    } else {
        assert((x + y).last() == y.last());
        if y.last() != '\n' {
            assert((x + y).drop_last() =~= x + y.drop_last());
            lemma_complete_len_concat(x, y.drop_last());
        }
    }
}

proof fn lemma_encode_concat(x: Seq<char>, y: Seq<char>)
    ensures
        encode_utf8(x + y) == encode_utf8(x) + encode_utf8(y),
    decreases x.len(),
{
    if x.len() == 0 {
        assert(x + y =~= y);
        assert(encode_utf8(x) =~= Seq::<u8>::empty());
        assert(encode_utf8(x) + encode_utf8(y) =~= encode_utf8(y));
    } else {
        assert((x + y)[0] == x[0]);
        assert((x + y).drop_first() =~= x.drop_first() + y);
        lemma_encode_concat(x.drop_first(), y);
    }
}

/// One step of `lines_seq`: a text holding a `\n` at `i`, and none before, yields the
/// line before it and then the lines after it.
proof fn lemma_lines_step(s: Seq<char>, i: int)
    requires
        0 <= i < s.len(),
        s[i] == '\n',
        forall|j: int| 0 <= j < i ==> s[j] != '\n',
    ensures
        lines_seq(s) == seq![strip_cr(s.take(i))] + lines_seq(s.skip(i + 1)),
{
    lemma_first_index_unique(s, '\n', i);
}

/// The first `\n` of a text that ends with one.
proof fn lemma_newline_index(p: Seq<char>) -> (i: int)
    requires
        p.len() > 0,
        p.last() == '\n',
    ensures
        0 <= i < p.len(),
        p[i] == '\n',
        forall|j: int| 0 <= j < i ==> p[j] != '\n',
{
    lemma_first_index(p, '\n');
    let i = first_index(p, '\n');
    if i >= p.len() {
        assert(p[p.len() - 1] == '\n');
    }
    i
}

proof fn lemma_lines_step_concat(p: Seq<char>, q: Seq<char>, i: int)
    requires
        0 <= i < p.len(),
        p[i] == '\n',
        forall|j: int| 0 <= j < i ==> p[j] != '\n',
    ensures
        lines_seq(p + q) == seq![strip_cr(p.take(i))] + lines_seq(p.skip(i + 1) + q),
{
    let pq = p + q;
    assert forall|j: int| 0 <= j < i implies pq[j] != '\n' by {
        assert(pq[j] == p[j]);
    }
    assert(pq[i] == p[i]);
    lemma_lines_step(pq, i);
    assert(pq.take(i) =~= p.take(i));
    assert(pq.skip(i + 1) =~= p.skip(i + 1) + q);
}

/// Splitting text right after a line ending splits its lines the same way.
proof fn lemma_lines_concat(p: Seq<char>, q: Seq<char>)
    requires
        p.len() == 0 || p.last() == '\n',
    ensures
        lines_seq(p + q) == lines_seq(p) + lines_seq(q),
    decreases p.len(),
{
    if p.len() == 0 {
        assert(p + q =~= q);
        assert(lines_seq(p) =~= Seq::<Seq<char>>::empty());
        assert(lines_seq(p) + lines_seq(q) =~= lines_seq(q));
    } else {
        let i = lemma_newline_index(p);
        lemma_lines_step(p, i);
        lemma_lines_step_concat(p, q, i);
        let rest = p.skip(i + 1);
        if rest.len() > 0 {
            assert(rest.last() == p.last());
        }
        lemma_lines_concat(rest, q);
        let head = seq![strip_cr(p.take(i))];
        assert(head + (lines_seq(rest) + lines_seq(q)) =~= (head + lines_seq(rest)) + lines_seq(q));
    }
}

/// Reading a file in pieces counts every complete line exactly once: reading `a`, then
/// reading again from where that left off (the unconsumed tail of `a` followed by what
/// was appended, `b`), ends in the state a single read of `a + b` gives.
pub proof fn law_pieces_count_once(f: FileView, a: Seq<char>, b: Seq<char>)
    ensures
        absorb_spec(absorb_spec(f, a), a.skip(complete_len(a)) + b) == absorb_spec(f, a + b),
{
    let n = complete_len(a);
    lemma_complete_len(a);
    let rest = a.skip(n) + b;
    let tail = a.skip(n);
    assert forall|j: int| 0 <= j < tail.len() implies tail[j] != '\n' by {
        assert(tail[j] == a[n + j]);
    }
    lemma_complete_len_none(tail);
    lemma_complete_len_concat(tail, b);
    lemma_complete_len_concat(a, b);
    let m = complete_len(rest);
    assert(complete_len(a + b) == n + m);
    lemma_complete_len(rest);
    let p = a.take(n);
    let q = rest.take(m);
    assert((a + b).take(n + m) =~= p + q);
    if n > 0 {
        assert(p.last() == a[n - 1]);
    }
    lemma_lines_concat(p, q);
    lemma_apply_lines_concat(f.tally, lines_seq(p), lines_seq(q));
    lemma_encode_concat(p, q);
}

// ------------------------------------------------------------------------------------
// The collector's state
// ------------------------------------------------------------------------------------

/// Message counts by role (first-seen order) and the tool-call total of one file.
struct Tally {
    roles: Vec<(String, u64)>,
    tool_calls: u64,
}

spec fn roles_view(v: Seq<(String, u64)>) -> Seq<(Seq<char>, u64)> {
    v.map_values(|e: (String, u64)| (e.0@, e.1))
}

impl View for Tally {
    type V = TallyView;

    closed spec fn view(&self) -> TallyView {
        TallyView { roles: roles_view(self.roles@), tool_calls: self.tool_calls }
    }
}

/// What is known of one transcript file.
struct FileState {
    offset: u64,
    tally: Tally,
    cron: bool,
}

impl View for FileState {
    type V = FileView;

    closed spec fn view(&self) -> FileView {
        FileView { offset: self.offset as int, tally: self.tally@, cron: self.cron }
    }
}

spec fn files_view(v: Seq<(String, FileState)>) -> Seq<(Seq<char>, FileView)> {
    v.map_values(|e: (String, FileState)| (e.0@, e.1@))
}

/// No path is known twice.
pub open spec fn unique_paths(fs: Seq<(Seq<char>, FileView)>) -> bool {
    forall|i: int, j: int| 0 <= i < j < fs.len() ==> #[trigger] fs[i].0 != #[trigger] fs[j].0
}

/// Whether `path` is known.
pub open spec fn known_path(fs: Seq<(Seq<char>, FileView)>, path: Seq<char>) -> bool {
    exists|i: int| 0 <= i < fs.len() && #[trigger] fs[i].0 == path
}

/// The files whose paths are in `present`, in their order.
pub open spec fn keep_present(fs: Seq<(Seq<char>, FileView)>, present: Seq<Seq<char>>) -> Seq<
    (Seq<char>, FileView),
>
    decreases fs.len(),
{
    if fs.len() == 0 {
        Seq::empty()
    } else if present.contains(fs.last().0) {
        keep_present(fs.drop_last(), present).push(fs.last())
    } else {
        keep_present(fs.drop_last(), present)
    }
}

/// What a collection cycle adds up over the known files.
pub struct TotalsView {
    pub roles: Seq<(Seq<char>, u64)>,
    pub tool_calls: u64,
    /// Conversations: files not started by a scheduled task.
    pub sessions: nat,
    /// Scheduled-task runs, counted apart so that excluding them stays visible.
    pub cron_sessions: nat,
}

/// `acc` with every `(role, n)` of `add` added, in order.
pub open spec fn merge_roles(acc: Seq<(Seq<char>, u64)>, add: Seq<(Seq<char>, u64)>) -> Seq<
    (Seq<char>, u64),
>
    decreases add.len(),
{
    if add.len() == 0 {
        acc
    } else {
        bump(merge_roles(acc, add.drop_last()), add.last().0, add.last().1)
    }
}

/// The totals over `files`, in order: a cron file counts only as a cron session; any
/// other file counts as a session and contributes its messages and tool calls.
pub open spec fn totals_of(files: Seq<(Seq<char>, FileView)>) -> TotalsView
    decreases files.len(),
{
    if files.len() == 0 {
        TotalsView { roles: Seq::empty(), tool_calls: 0, sessions: 0, cron_sessions: 0 }
    } else {
        let t = totals_of(files.drop_last());
        let f = files.last().1;
        if f.cron {
            TotalsView { cron_sessions: t.cron_sessions + 1, ..t }
        } else {
            TotalsView {
                roles: merge_roles(t.roles, f.tally.roles),
                tool_calls: t.tool_calls.wrapping_add(f.tally.tool_calls),
                sessions: t.sessions + 1,
                cron_sessions: t.cron_sessions,
            }
        }
    }
}

proof fn lemma_cron_file_adds_only_a_cron_session(
    a: Seq<(Seq<char>, FileView)>,
    x: (Seq<char>, FileView),
    b: Seq<(Seq<char>, FileView)>,
)
    requires
        x.1.cron,
    ensures
        totals_of(a + seq![x] + b).roles == totals_of(a + b).roles,
        totals_of(a + seq![x] + b).tool_calls == totals_of(a + b).tool_calls,
        totals_of(a + seq![x] + b).sessions == totals_of(a + b).sessions,
        totals_of(a + seq![x] + b).cron_sessions == totals_of(a + b).cron_sessions + 1,
    decreases b.len(),
{
    if b.len() == 0 {
        assert(a + seq![x] + b =~= a.push(x));
        assert((a + seq![x] + b).drop_last() =~= a);
        assert(a + b =~= a);
    } else {
        lemma_cron_file_adds_only_a_cron_session(a, x, b.drop_last());
        assert((a + seq![x] + b).drop_last() =~= a + seq![x] + b.drop_last());
        assert((a + b).drop_last() =~= a + b.drop_last());
        assert((a + seq![x] + b).last() == b.last());
        assert((a + b).last() == b.last());
    }
}

/// A scheduled-task file adds nothing to what a cycle reports but the cron-session
/// count: wherever it stands among the known files, the message counts by role, the
/// tool calls and the sessions come out exactly as without it, and the cron sessions
/// one higher.
pub proof fn law_cron_files_add_only_a_cron_session(
    m: SessionModel,
    a: Seq<(Seq<char>, FileView)>,
    x: (Seq<char>, FileView),
    b: Seq<(Seq<char>, FileView)>,
)
    requires
        x.1.cron,
    ensures
        ({
            let with = session_metrics(SessionModel { files: a + seq![x] + b, ..m });
            let without = session_metrics(SessionModel { files: a + b, ..m });
            let n = without.len();
            &&& with.len() == n
            &&& forall|i: int| 0 <= i < n - 1 ==> #[trigger] with[i] == without[i]
            &&& with[n - 1] == tag_spec(
                gauge("harnesssphere.harness.cron.sessions"@, (totals_of(a + b).cron_sessions + 1) as u64),
                m.workspace,
                m.source,
            )
        }),
{
    lemma_cron_file_adds_only_a_cron_session(a, x, b);
    let with = session_metrics(SessionModel { files: a + seq![x] + b, ..m });
    let without = session_metrics(SessionModel { files: a + b, ..m });
    assert forall|i: int| 0 <= i < without.len() - 1 implies #[trigger] with[i] == without[i] by {}
}

/// The tenant tuple and the harness name, stamped on every metric a workspace emits.
pub open spec fn tag_spec(m: MetricView, w: Workspace, source: Seq<char>) -> MetricView {
    m.attr("crab.tenant"@, AttrView::Str(w.tenant@)).attr(
        "crab.subscription"@,
        AttrView::Str(w.subscription@),
    ).attr("crab.agent"@, AttrView::Str(w.agent@)).attr("crab.user"@, AttrView::Str(w.user@)).attr(
        "harness.name"@,
        AttrView::Str(source),
    )
}

pub open spec fn gauge(name: Seq<char>, n: u64) -> MetricView {
    bare(name, MetricKind::Gauge, Quantity::Count(n))
}

/// A collector seen from outside: the workspace it watches, the harness name it stamps,
/// and the known files (unique paths, in the order they were first seen).
pub struct SessionModel {
    pub workspace: Workspace,
    pub source: Seq<char>,
    pub name: Seq<char>,
    pub interval: Duration,
    pub files: Seq<(Seq<char>, FileView)>,
}

/// Everything one collection cycle emits: messages by role (first-seen order), then tool
/// calls, sessions and cron sessions; all gauges of absolute totals, all tagged.
pub open spec fn session_metrics(m: SessionModel) -> Seq<MetricView> {
    let t = totals_of(m.files);
    Seq::new(
        t.roles.len(),
        |i: int|
            tag_spec(gauge("harnesssphere.harness.messages"@, t.roles[i].1), m.workspace, m.source).attr(
                "role"@,
                AttrView::Str(t.roles[i].0),
            ),
    ) + seq![
        tag_spec(gauge("harnesssphere.tool.calls"@, t.tool_calls), m.workspace, m.source),
        tag_spec(gauge("harnesssphere.harness.sessions"@, t.sessions as u64), m.workspace, m.source),
        tag_spec(gauge("harnesssphere.harness.cron.sessions"@, t.cron_sessions as u64), m.workspace, m.source),
    ]
}

/// The terminal signal of a retired workspace: explicit zeroes, still tagged, so its
/// series go absent rather than silent.
pub open spec fn retire_metrics_spec(m: SessionModel) -> Seq<MetricView> {
    seq![
        tag_spec(gauge("harnesssphere.harness.sessions"@, 0), m.workspace, m.source),
        tag_spec(gauge("harnesssphere.tool.calls"@, 0), m.workspace, m.source),
        tag_spec(gauge("harnesssphere.harness.cron.sessions"@, 0), m.workspace, m.source),
    ]
}

/// A directory entry is a transcript when it is not a directory and its extension is
/// `jsonl` (a name that is only `.jsonl` has no extension).
pub open spec fn is_transcript_spec(name: Seq<char>, is_dir: bool) -> bool {
    !is_dir && has_suffix(name, ".jsonl"@) && name.len() > 6
}

/// A session was started by a scheduled task when its `.meta.json` is a JSON object whose
/// `key` is a string starting with `agent:cron-`. A missing or unreadable file means no.
pub open spec fn cron_meta(raw: Option<Seq<char>>) -> bool {
    match raw {
        Some(text) => cron_key(json_doc(text)),
        None => false,
    }
}

/// A parsed metadata document marks a scheduled-task session when its `key` is a string
/// starting with `agent:cron-`, the proxy's own prefix for cron runs.
pub open spec fn cron_key(doc: Option<JsonDocView>) -> bool {
    match str_field(doc, "key"@) {
        Some(k) => crate::text::has_prefix(k, "agent:cron-"@),
        None => false,
    }
}

proof fn lemma_role_index_at(roles: Seq<(Seq<char>, u64)>, r: Seq<char>, i: int)
    requires
        0 <= i <= roles.len(),
        forall|k: int| 0 <= k < i ==> roles[k].0 != r,
        i < roles.len() ==> roles[i].0 == r,
    ensures
        role_index(roles, r) == i,
    decreases roles.len(),
{
    if roles.len() > 0 && roles[0].0 != r {
        assert forall|k: int| 0 <= k < i - 1 implies roles.drop_first()[k].0 != r by {
            assert(roles.drop_first()[k] == roles[k + 1]);
        }
        lemma_role_index_at(roles.drop_first(), r, i - 1);
    }
}

fn bump_role(roles: &mut Vec<(String, u64)>, r: &str, n: u64)
    ensures
        roles_view(final(roles)@) == bump(roles_view(old(roles)@), r@, n),
{
    let ghost r0 = roles_view(roles@);
    let mut i: usize = 0;
    let mut at: Option<usize> = None;
    while i < roles.len()
        invariant
            i <= roles.len(),
            roles_view(roles@) == r0,
            at is None ==> forall|k: int| 0 <= k < i ==> r0[k].0 != r@,
            at matches Some(x) ==> x < roles.len() && r0[x as int].0 == r@ && forall|k: int| 0 <= k < x ==> r0[k].0 != r@,
        decreases roles.len() - i,
    {
        if at.is_none() && text_eq(roles[i].0.as_str(), r) {
            at = Some(i);
        }
        i += 1;
    }
    match at {
        Some(x) => {
            proof {
                lemma_role_index_at(r0, r@, x as int);
            }
            let cnt = roles[x].1;
            let name = roles[x].0.clone();
            roles.set(x, (name, cnt.wrapping_add(n)));
            assert(roles_view(roles@) =~= bump(r0, r@, n));
        },
        None => {
            proof {
                lemma_role_index_at(r0, r@, r0.len() as int);
            }
            roles.push((owned(r), n));
            assert(roles_view(roles@) =~= bump(r0, r@, n));
        },
    }
}

/// Counts the line `v[a..b]`.
fn count_line(t: &mut Tally, v: &Vec<char>, a: usize, b: usize)
    requires
        a <= b <= v.len(),
    ensures
        final(t)@ == apply_line(old(t)@, v@.subrange(a as int, b as int)),
{
    let (ta, tb) = trim_window(v, a, b);
    if ta == tb {
        return;
    }
    let text = string_of_window(v, ta, tb);
    let (role, calls) = record_counts(&parse(text.as_str()));
    match role {
        Some(r) => bump_role(&mut t.roles, r.as_str(), 1),
        None => {},
    }
    match calls {
        Some(n) => {
            t.tool_calls = t.tool_calls.wrapping_add(n as u64);
        },
        None => {},
    }
}

/// What one parsed transcript record contributes: the `role` it was written by, when
/// that is a string, and its number of tool calls, when `tool_calls` is an array.
pub fn record_counts(doc: &Option<JsonDoc>) -> (r: (Option<String>, Option<usize>))
    ensures
        match r.0 {
            Some(role) => str_field(opt_doc_view(*doc), "role"@) == Some(role@),
            None => str_field(opt_doc_view(*doc), "role"@).is_none(),
        },
        match r.1 {
            Some(n) => array_len_field(opt_doc_view(*doc), "tool_calls"@) == Some(n as nat),
            None => array_len_field(opt_doc_view(*doc), "tool_calls"@).is_none(),
        },
{
    let role = match get_field(doc, "role") {
        Some(JsonField::Str(r)) => Some(owned(r.as_str())),
        _ => None,
    };
    let calls = match get_field(doc, "tool_calls") {
        Some(JsonField::Array(a)) => Some(a.len()),
        _ => None,
    };
    (role, calls)
}

/// Counts every line of `v[0..j]`, in order.
fn count_lines(t: &mut Tally, v: &Vec<char>, j: usize)
    requires
        j <= v.len(),
    ensures
        final(t)@ == apply_lines(old(t)@, lines_seq(v@.subrange(0, j as int))),
{
    let ghost t0 = t@;
    let mut pos: usize = 0;
    while pos < j
        invariant
            pos <= j <= v.len(),
            apply_lines(t@, lines_seq(v@.subrange(pos as int, j as int))) == apply_lines(
                t0,
                lines_seq(v@.subrange(0, j as int)),
            ),
        decreases j - pos,
    {
        let (a, b, nxt) = next_line(v, pos, j);
        let ghost rest = lines_seq(v@.subrange(nxt as int, j as int));
        let ghost line = v@.subrange(a as int, b as int);
        count_line(t, v, a, b);
        proof {
            let ls = seq![line] + rest;
            assert(ls[0] == line);
            assert(ls.drop_first() =~= rest);
        }
        pos = nxt;
    }
    assert(lines_seq(v@.subrange(pos as int, j as int)) =~= Seq::<Seq<char>>::empty());
}

/// Length of the part of `v` that ends on its last `\n`.
fn complete_prefix(v: &Vec<char>) -> (j: usize)
    ensures
        j as int == complete_len(v@),
{
    let mut j = v.len();
    assert(v@.take(j as int) =~= v@);
    while j > 0 && v[j - 1] != '\n'
        invariant
            j <= v.len(),
            complete_len(v@.take(j as int)) == complete_len(v@),
        decreases j,
    {
        assert(v@.take(j as int).drop_last() =~= v@.take(j - 1));
        j -= 1;
    }
    proof {
        if j > 0 {
            assert(v@.take(j as int).last() == '\n');
        }
    }
    j
}

/// Reads `chunk` into `st`: every complete line is counted and its bytes consumed.
fn absorb_chunk(st: &mut FileState, chunk: &str)
    requires
        old(st)@.offset + encode_utf8(chunk@).len() <= u64::MAX,
        encode_utf8(chunk@).len() <= usize::MAX,
    ensures
        final(st)@ == absorb_spec(old(st)@, chunk@),
{
    let v = chars_of(chunk);
    let j = complete_prefix(&v);
    proof {
        lemma_complete_len(v@);
    }
    let ghost done = v@.take(j as int);
    assert(v@.subrange(0, j as int) =~= done);
    count_lines(&mut st.tally, &v, j);
    let done_s = string_of_window(&v, 0, j);
    let nbytes = done_s.as_str().len();
    proof {
        assert(done + v@.skip(j as int) =~= v@);
        lemma_encode_concat(done, v@.skip(j as int));
    }
    st.offset = st.offset + nbytes as u64;
}

/// Position of `path` in `files`, if known.
fn find_file(files: &Vec<(String, FileState)>, path: &str) -> (r: Option<usize>)
    ensures
        match r {
            Some(i) => i < files.len() && files_view(files@)[i as int].0 == path@,
            None => !known_path(files_view(files@), path@),
        },
{
    let mut i: usize = 0;
    while i < files.len()
        invariant
            i <= files.len(),
            forall|k: int| 0 <= k < i ==> files_view(files@)[k].0 != path@,
        decreases files.len() - i,
    {
        if text_eq(files[i].0.as_str(), path) {
            return Some(i);
        }
        i += 1;
    }
    None
}

/// The session collector of one workspace.
pub struct SessionCollector {
    descriptor: SourceDescriptor,
    workspace: Workspace,
    source: String,
    files: Vec<(String, FileState)>,
}

impl View for SessionCollector {
    type V = SessionModel;

    closed spec fn view(&self) -> SessionModel {
        SessionModel {
            workspace: self.workspace,
            source: self.source@,
            name: self.descriptor.name@,
            interval: self.descriptor.default_interval,
            files: files_view(self.files@),
        }
    }
}

impl SessionCollector {
    #[verifier::type_invariant]
    spec fn inv(self) -> bool {
        &&& unique_paths(files_view(self.files@))
        &&& self.descriptor.layer == Layer::Harness
        &&& self.descriptor.criticality == Criticality::Optional
    }

    /// A collector for `workspace`, stamping `source` as `harness.name`; it tracks no file
    /// yet. Its name is the workspace's source name.
    pub fn new(workspace: Workspace, source: &str, interval: Duration) -> (c: Self)
        ensures
            c@.workspace == workspace,
            c@.source == source@,
            c@.name == ws_source_name(workspace),
            c@.interval == interval,
            c@.files.len() == 0,
    {
        let name = workspace.source_name();
        let c = SessionCollector {
            descriptor: SourceDescriptor::new(name, Layer::Harness, Criticality::Optional, interval),
            workspace,
            source: owned(source),
            files: Vec::new(),
        };
        assert(files_view(c.files@) =~= Seq::<(Seq<char>, FileView)>::empty());
        c
    }

    /// This source's descriptor: the workspace's source name, the Harness layer, Optional.
    pub fn descriptor(&self) -> (d: &SourceDescriptor)
        ensures
            d.name@ == self@.name,
            d.layer == Layer::Harness,
            d.criticality == Criticality::Optional,
            d.default_interval == self@.interval,
    {
        proof {
            use_type_invariant(self);
        }
        &self.descriptor
    }

    /// The workspace watched.
    pub fn workspace(&self) -> (w: &Workspace)
        ensures
            *w == self@.workspace,
    {
        &self.workspace
    }

    /// Ready while the workspace root is a directory. Never `NotApplicable`: a workspace
    /// discovered at runtime that is not there yet is transient, not permanent.
    pub fn probe(&self, root_is_dir: bool) -> (r: ProbeResult)
        ensures
            root_is_dir ==> r is Ready,
            !root_is_dir ==> (r matches ProbeResult::Unavailable(msg) && msg@ == "workspace gone: "@
                + self@.workspace.root@),
    {
        if root_is_dir {
            ProbeResult::Ready
        } else {
            ProbeResult::Unavailable(concat("workspace gone: ", self.workspace.root.as_str()))
        }
    }

    /// A cycle needs at least one session directory; without one the target is
    /// unavailable.
    pub fn check_dirs(&self, dirs: &Vec<String>) -> (r: Result<(), CollectError>)
        ensures
            dirs.len() > 0 ==> r is Ok,
            dirs.len() == 0 ==> (r matches Err(CollectError::Unavailable(msg)) && msg@
                == "no session directories under "@ + self@.workspace.root@),
    {
        if dirs.len() > 0 {
            Ok(())
        } else {
            Err(CollectError::Unavailable(concat("no session directories under ", self.workspace.root.as_str())))
        }
    }

    /// Whether `path` is known (its metadata was resolved on an earlier cycle).
    pub fn knows_file(&self, path: &str) -> (b: bool)
        ensures
            b == known_path(self@.files, path@),
    {
        find_file(&self.files, path).is_some()
    }

    /// Transcripts that vanished stop contributing: only the files listed in `present`
    /// stay known, in their order.
    pub fn retain_present(&mut self, present: &Vec<String>)
        ensures
            final(self)@.files == keep_present(old(self)@.files, views(present@)),
            final(self)@.workspace == old(self)@.workspace,
            final(self)@.source == old(self)@.source,
            final(self)@.name == old(self)@.name,
            final(self)@.interval == old(self)@.interval,
    {
        proof {
            use_type_invariant(&*self);
        }
        let mut files: Vec<(String, FileState)> = Vec::new();
        std::mem::swap(&mut files, &mut self.files);
        let ghost all = files_view(files@);
        let mut kept: Vec<(String, FileState)> = Vec::new();
        let mut old_files = files;
        let mut rev: Vec<(String, FileState)> = Vec::new();
        // Take the entries out back to front, then put the kept ones back in order.
        while old_files.len() > 0
            invariant
                all == files_view(old_files@) + files_view(rev@).reverse(),
            decreases old_files.len(),
        {
            let ghost before_old = old_files@;
            let ghost before_rev = rev@;
            let e = old_files.pop().unwrap();
            rev.push(e);
            proof {
                assert(files_view(before_old) =~= files_view(old_files@).push((e.0@, e.1@)));
                assert(files_view(rev@) =~= files_view(before_rev).push((e.0@, e.1@)));
                assert(files_view(rev@).reverse() =~= seq![(e.0@, e.1@)] + files_view(before_rev).reverse());
                assert(files_view(old_files@) + files_view(rev@).reverse() =~= files_view(before_old)
                    + files_view(before_rev).reverse());
            }
        }
        assert(files_view(old_files@) =~= Seq::<(Seq<char>, FileView)>::empty());
        assert(files_view(rev@).reverse() =~= all);
        let ghost pv = views(present@);
        while rev.len() > 0
            invariant
                files_view(kept@) == keep_present(all.take(all.len() - files_view(rev@).len()), pv),
                all == all.take(all.len() - files_view(rev@).len()) + files_view(rev@).reverse(),
                unique_paths(all),
                pv == views(present@),
                rev.len() <= all.len(),
            decreases rev.len(),
        {
            let ghost before_rev = rev@;
            let e = rev.pop().unwrap();
            let ghost k = all.len() - before_rev.len();
            proof {
                assert(files_view(before_rev) =~= files_view(rev@).push((e.0@, e.1@)));
                assert(files_view(before_rev).reverse() =~= seq![(e.0@, e.1@)] + files_view(rev@).reverse());
                assert(all[k] == (e.0@, e.1@));
                assert(all.take(k + 1).drop_last() =~= all.take(k));
                assert(all.take(k + 1).last() == all[k]);
                assert(all =~= all.take(k + 1) + files_view(rev@).reverse());
            }
            let mut found = false;
            let mut j: usize = 0;
            while j < present.len()
                invariant
                    j <= present.len(),
                    pv == views(present@),
                    found == (exists|m: int| 0 <= m < j && pv[m] == e.0@),
                decreases present.len() - j,
            {
                if text_eq(present[j].as_str(), e.0.as_str()) {
                    assert(pv[j as int] == present@[j as int]@);
                    found = true;
                }
                j += 1;
            }
            proof {
                assert(found == pv.contains(e.0@));
            }
            if found {
                let ghost kv = files_view(kept@);
                kept.push(e);
                assert(files_view(kept@) =~= kv.push((e.0@, e.1@)));
            }
        }
        assert(all.take(all.len() as int) =~= all);
        proof {
            lemma_keep_present_unique(all, pv);
        }
        self.files = kept;
    }

    /// Starts tracking `path` when it is new, with the scheduled-task flag its metadata
    /// gave; a known path is left as it is.
    pub fn add_file(&mut self, path: String, cron: bool)
        ensures
            known_path(old(self)@.files, path@) ==> final(self)@.files == old(self)@.files,
            !known_path(old(self)@.files, path@) ==> final(self)@.files == old(self)@.files.push(
                (path@, fresh_file(cron)),
            ),
            final(self)@.workspace == old(self)@.workspace,
            final(self)@.source == old(self)@.source,
            final(self)@.name == old(self)@.name,
            final(self)@.interval == old(self)@.interval,
    {
        proof {
            use_type_invariant(&*self);
        }
        if find_file(&self.files, path.as_str()).is_some() {
            return;
        }
        let mut files: Vec<(String, FileState)> = Vec::new();
        std::mem::swap(&mut files, &mut self.files);
        let ghost fv = files_view(files@);
        let st = FileState { offset: 0, tally: Tally { roles: Vec::new(), tool_calls: 0 }, cron };
        assert(roles_view(st.tally.roles@) =~= Seq::<(Seq<char>, u64)>::empty());
        let ghost pv = path@;
        files.push((path, st));
        proof {
            assert(files_view(files@) =~= fv.push((pv, fresh_file(cron))));
            assert forall|i: int, j: int| 0 <= i < j < files_view(files@).len() implies #[trigger] files_view(files@)[i].0
                != #[trigger] files_view(files@)[j].0 by {
                if j == fv.len() {
                    assert(fv[i].0 != pv);
                } else {
                    assert(fv[i].0 != fv[j].0);
                }
            }
        }
        self.files = files;
    }

    /// Prepares reading `path`, whose length is now `len`: a file shorter than what was
    /// consumed was rewritten, so its state starts over (keeping the cron flag). Returns
    /// the offset to read from when there is something new.
    pub fn read_from(&mut self, path: &str, len: u64) -> (r: Option<u64>)
        ensures
            final(self)@.workspace == old(self)@.workspace,
            final(self)@.source == old(self)@.source,
            final(self)@.name == old(self)@.name,
            final(self)@.interval == old(self)@.interval,
            !known_path(old(self)@.files, path@) ==> final(self)@.files == old(self)@.files && r is None,
            forall|i: int| 0 <= i < old(self)@.files.len() && #[trigger] old(self)@.files[i].0 == path@ ==> {
                let f = old(self)@.files[i].1;
                let g = if len < f.offset { fresh_file(f.cron) } else { f };
                &&& final(self)@.files == old(self)@.files.update(i, (path@, g))
                &&& r == if len <= g.offset { None } else { Some(g.offset as u64) }
            },
    {
        proof {
            use_type_invariant(&*self);
        }
        let ghost old_fv = files_view(self.files@);
        match find_file(&self.files, path) {
            None => None,
            Some(i) => {
                let mut files: Vec<(String, FileState)> = Vec::new();
                std::mem::swap(&mut files, &mut self.files);
                proof {
                    assert forall|k: int| 0 <= k < old_fv.len() && #[trigger] old_fv[k].0 == path@ implies k == i by {
                        if k < i {
                            assert(old_fv[k].0 != old_fv[i as int].0);
                        } else if k > i {
                            assert(old_fv[i as int].0 != old_fv[k].0);
                        }
                    }
                }
                if len < files[i].1.offset {
                    let cron = files[i].1.cron;
                    let name = files[i].0.clone();
                    let st = FileState { offset: 0, tally: Tally { roles: Vec::new(), tool_calls: 0 }, cron };
                    assert(roles_view(st.tally.roles@) =~= Seq::<(Seq<char>, u64)>::empty());
                    files.set(i, (name, st));
                }
                let off = files[i].1.offset;
                proof {
                    assert(files_view(files@) =~= old_fv.update(i as int, (path@, files_view(files@)[i as int].1)));
                    assert forall|a: int, b: int| 0 <= a < b < files_view(files@).len() implies #[trigger] files_view(files@)[a].0
                        != #[trigger] files_view(files@)[b].0 by {
                        assert(old_fv[a].0 != old_fv[b].0);
                    }
                }
                self.files = files;
                if len <= off {
                    None
                } else {
                    Some(off)
                }
            },
        }
    }

    /// Counts what was read from `path`'s offset: every complete line of `chunk` is
    /// counted once and consumed; a trailing partial line waits for the next read.
    pub fn absorb(&mut self, path: &str, chunk: &str)
        requires
            encode_utf8(chunk@).len() <= usize::MAX,
            forall|i: int| 0 <= i < old(self)@.files.len() && #[trigger] old(self)@.files[i].0 == path@
                ==> old(self)@.files[i].1.offset + encode_utf8(chunk@).len() <= u64::MAX,
        ensures
            final(self)@.workspace == old(self)@.workspace,
            final(self)@.source == old(self)@.source,
            final(self)@.name == old(self)@.name,
            final(self)@.interval == old(self)@.interval,
            !known_path(old(self)@.files, path@) ==> final(self)@.files == old(self)@.files,
            forall|i: int| 0 <= i < old(self)@.files.len() && #[trigger] old(self)@.files[i].0 == path@
                ==> final(self)@.files == old(self)@.files.update(
                i,
                (path@, absorb_spec(old(self)@.files[i].1, chunk@)),
            ),
    {
        proof {
            use_type_invariant(&*self);
        }
        let ghost old_fv = files_view(self.files@);
        match find_file(&self.files, path) {
            None => {},
            Some(i) => {
                let mut files: Vec<(String, FileState)> = Vec::new();
                std::mem::swap(&mut files, &mut self.files);
                proof {
                    assert forall|k: int| 0 <= k < old_fv.len() && #[trigger] old_fv[k].0 == path@ implies k == i by {
                        if k < i {
                            assert(old_fv[k].0 != old_fv[i as int].0);
                        } else if k > i {
                            assert(old_fv[i as int].0 != old_fv[k].0);
                        }
                    }
                }
                let (name, mut st) = files.remove(i);
                absorb_chunk(&mut st, chunk);
                files.insert(i, (name, st));
                proof {
                    assert(files_view(files@) =~= old_fv.update(i as int, (path@, absorb_spec(old_fv[i as int].1, chunk@))));
                    assert forall|a: int, b: int| 0 <= a < b < files_view(files@).len() implies #[trigger] files_view(files@)[a].0
                        != #[trigger] files_view(files@)[b].0 by {
                        assert(old_fv[a].0 != old_fv[b].0);
                    }
                }
                self.files = files;
            },
        }
    }
}

proof fn lemma_keep_present_unique(fs: Seq<(Seq<char>, FileView)>, present: Seq<Seq<char>>)
    requires
        unique_paths(fs),
    ensures
        unique_paths(keep_present(fs, present)),
        forall|x: (Seq<char>, FileView)| keep_present(fs, present).contains(x) ==> fs.contains(x),
    decreases fs.len(),
{
    if fs.len() > 0 {
        let init = fs.drop_last();
        assert(unique_paths(init)) by {
            assert forall|i: int, j: int| 0 <= i < j < init.len() implies #[trigger] init[i].0 != #[trigger] init[j].0 by {
                assert(init[i] == fs[i]);
                assert(init[j] == fs[j]);
            }
        }
        lemma_keep_present_unique(init, present);
        let k = keep_present(init, present);
        if present.contains(fs.last().0) {
            let kk = k.push(fs.last());
            assert forall|x: (Seq<char>, FileView)| kk.contains(x) implies fs.contains(x) by {
                if x != fs.last() {
                    let m = choose|m: int| 0 <= m < kk.len() && kk[m] == x;
                    assert(m < k.len());
                    assert(k[m] == x);
                    assert(k.contains(x));
                    assert(init.contains(x));
                    let m2 = choose|m2: int| 0 <= m2 < init.len() && init[m2] == x;
                    assert(fs[m2] == x);
                } else {
                    assert(fs[fs.len() - 1] == x);
                }
            }
            assert forall|i: int, j: int| 0 <= i < j < kk.len() implies #[trigger] kk[i].0 != #[trigger] kk[j].0 by {
                if j == k.len() {
                    assert(kk[i] == k[i]);
                    assert(k.contains(kk[i]));
                    assert(init.contains(kk[i]));
                    let m2 = choose|m2: int| 0 <= m2 < init.len() && init[m2] == kk[i];
                    assert(fs[m2] == kk[i]);
                    assert(fs[m2].0 != fs[fs.len() - 1].0);
                } else {
                    assert(kk[i] == k[i]);
                    assert(kk[j] == k[j]);
                }
            }
        } else {
            assert forall|x: (Seq<char>, FileView)| k.contains(x) implies fs.contains(x) by {
                assert(init.contains(x));
                let m2 = choose|m2: int| 0 <= m2 < init.len() && init[m2] == x;
                assert(fs[m2] == x);
            }
        }
    }
}

/// `acc` with every role count of `add` added.
fn merge_into(acc: &mut Vec<(String, u64)>, add: &Vec<(String, u64)>)
    ensures
        roles_view(final(acc)@) == merge_roles(roles_view(old(acc)@), roles_view(add@)),
{
    let ghost a0 = roles_view(acc@);
    let ghost av = roles_view(add@);
    let mut k: usize = 0;
    assert(av.take(0) =~= Seq::<(Seq<char>, u64)>::empty());
    while k < add.len()
        invariant
            k <= add.len(),
            av == roles_view(add@),
            roles_view(acc@) == merge_roles(a0, av.take(k as int)),
        decreases add.len() - k,
    {
        proof {
            assert(av.take(k + 1).drop_last() =~= av.take(k as int));
            assert(av.take(k + 1).last() == av[k as int]);
        }
        bump_role(acc, add[k].0.as_str(), add[k].1);
        k += 1;
    }
    assert(av.take(add.len() as int) =~= av);
}

struct Totals {
    roles: Vec<(String, u64)>,
    tool_calls: u64,
    sessions: u64,
    cron_sessions: u64,
}

proof fn lemma_totals_bounded(files: Seq<(Seq<char>, FileView)>)
    ensures
        totals_of(files).sessions + totals_of(files).cron_sessions == files.len(),
    decreases files.len(),
{
    if files.len() > 0 {
        lemma_totals_bounded(files.drop_last());
    }
}

impl SessionCollector {
    fn totals(&self) -> (t: Totals)
        ensures
            roles_view(t.roles@) == totals_of(self@.files).roles,
            t.tool_calls == totals_of(self@.files).tool_calls,
            t.sessions as nat == totals_of(self@.files).sessions,
            t.cron_sessions as nat == totals_of(self@.files).cron_sessions,
    {
        let ghost fv = files_view(self.files@);
        let mut t = Totals { roles: Vec::new(), tool_calls: 0, sessions: 0, cron_sessions: 0 };
        assert(roles_view(t.roles@) =~= Seq::<(Seq<char>, u64)>::empty());
        assert(fv.take(0) =~= Seq::<(Seq<char>, FileView)>::empty());
        let mut i: usize = 0;
        while i < self.files.len()
            invariant
                i <= self.files.len(),
                fv == files_view(self.files@),
                roles_view(t.roles@) == totals_of(fv.take(i as int)).roles,
                t.tool_calls == totals_of(fv.take(i as int)).tool_calls,
                t.sessions as nat == totals_of(fv.take(i as int)).sessions,
                t.cron_sessions as nat == totals_of(fv.take(i as int)).cron_sessions,
            decreases self.files.len() - i,
        {
            proof {
                assert(fv.take(i + 1).drop_last() =~= fv.take(i as int));
                assert(fv.take(i + 1).last() == fv[i as int]);
                lemma_totals_bounded(fv.take(i + 1));
            }
            let f = &self.files[i].1;
            if f.cron {
                t.cron_sessions = t.cron_sessions + 1;
            } else {
                t.sessions = t.sessions + 1;
                merge_into(&mut t.roles, &f.tally.roles);
                t.tool_calls = t.tool_calls.wrapping_add(f.tally.tool_calls);
            }
            i += 1;
        }
        assert(fv.take(self.files.len() as int) =~= fv);
        t
    }

    /// `m` stamped with the workspace's tenant tuple and the harness name.
    fn tag(&self, m: Metric) -> (r: Metric)
        ensures
            r@ == tag_spec(m@, self@.workspace, self@.source),
    {
        m.attr("crab.tenant", AttrValue::text(self.workspace.tenant.as_str())).attr(
            "crab.subscription",
            AttrValue::text(self.workspace.subscription.as_str()),
        ).attr("crab.agent", AttrValue::text(self.workspace.agent.as_str())).attr(
            "crab.user",
            AttrValue::text(self.workspace.user.as_str()),
        ).attr("harness.name", AttrValue::text(self.source.as_str()))
    }

    /// What this cycle emits, from the totals over every tracked file.
    pub fn metrics(&self) -> (ms: Vec<Metric>)
        ensures
            metrics_view(ms@) == session_metrics(self@),
    {
        let t = self.totals();
        let ghost tv = totals_of(self@.files);
        let mut out: Vec<Metric> = Vec::new();
        let mut i: usize = 0;
        while i < t.roles.len()
            invariant
                i <= t.roles.len(),
                tv == totals_of(self@.files),
                roles_view(t.roles@) == tv.roles,
                out.len() == i,
                forall|k: int| 0 <= k < i ==> #[trigger] metrics_view(out@)[k] == tag_spec(
                    gauge("harnesssphere.harness.messages"@, tv.roles[k].1),
                    self@.workspace,
                    self@.source,
                ).attr("role"@, AttrView::Str(tv.roles[k].0)),
            decreases t.roles.len() - i,
        {
            let m0 = Metric::new("harnesssphere.harness.messages", MetricKind::Gauge, Quantity::Count(t.roles[i].1));
            assert(m0@ == gauge("harnesssphere.harness.messages"@, t.roles@[i as int].1));
            let m1 = self.tag(m0);
            let role = AttrValue::text(t.roles[i].0.as_str());
            assert(role@ == AttrView::Str(t.roles@[i as int].0@));
            let m = m1.attr("role", role);
            let ghost before = out@;
            proof {
                assert(roles_view(t.roles@)[i as int] == (t.roles@[i as int].0@, t.roles@[i as int].1));
                assert(tv.roles[i as int] == (t.roles@[i as int].0@, t.roles@[i as int].1));
                assert(m@ == tag_spec(
                    gauge("harnesssphere.harness.messages"@, tv.roles[i as int].1),
                    self@.workspace,
                    self@.source,
                ).attr("role"@, AttrView::Str(tv.roles[i as int].0)));
            }
            out.push(m);
            proof {
                assert(metrics_view(out@)[i as int] == m@);
                assert forall|k: int| 0 <= k < i + 1 implies #[trigger] metrics_view(out@)[k] == tag_spec(
                    gauge("harnesssphere.harness.messages"@, tv.roles[k].1),
                    self@.workspace,
                    self@.source,
                ).attr("role"@, AttrView::Str(tv.roles[k].0)) by {
                    if k < i {
                        assert(out@[k] == before[k]);
                        assert(metrics_view(before)[k] == before[k]@);
                        assert(metrics_view(out@)[k] == out@[k]@);
                    } else {
                        assert(metrics_view(out@)[k] == m@);
                    }
                }
            }
            i += 1;
        }
        let ghost part = metrics_view(out@);
        assert(part =~= Seq::new(
            tv.roles.len(),
            |k: int|
                tag_spec(gauge("harnesssphere.harness.messages"@, tv.roles[k].1), self@.workspace, self@.source).attr(
                    "role"@,
                    AttrView::Str(tv.roles[k].0),
                ),
        ));
        let ghost o0 = out@;
        let a = self.tag(Metric::new("harnesssphere.tool.calls", MetricKind::Gauge, Quantity::Count(t.tool_calls)));
        let b = self.tag(Metric::new("harnesssphere.harness.sessions", MetricKind::Gauge, Quantity::Count(t.sessions)));
        let c = self.tag(Metric::new("harnesssphere.harness.cron.sessions", MetricKind::Gauge, Quantity::Count(t.cron_sessions)));
        out.push(a);
        out.push(b);
        out.push(c);
        assert(metrics_view(out@) =~= metrics_view(o0) + seq![a@, b@, c@]);
        assert(metrics_view(out@) =~= session_metrics(self@));
        out
    }

    /// The terminal signal of a retired workspace: zeroes for sessions, tool calls and
    /// cron sessions, tagged like every other signal so that the series match.
    pub fn retire_metrics(&self) -> (ms: Vec<Metric>)
        ensures
            metrics_view(ms@) == retire_metrics_spec(self@),
    {
        let mut out: Vec<Metric> = Vec::new();
        out.push(self.tag(Metric::new("harnesssphere.harness.sessions", MetricKind::Gauge, Quantity::Count(0))));
        out.push(self.tag(Metric::new("harnesssphere.tool.calls", MetricKind::Gauge, Quantity::Count(0))));
        out.push(self.tag(Metric::new("harnesssphere.harness.cron.sessions", MetricKind::Gauge, Quantity::Count(0))));
        assert(metrics_view(out@) =~= retire_metrics_spec(self@));
        out
    }
}

/// Whether a directory entry is a transcript. `sessions/durable/` mirrors the live files
/// one for one, and directories are never descended into, so it is never counted.
pub fn is_transcript(name: &str, is_dir: bool) -> (b: bool)
    ensures
        b == is_transcript_spec(name@, is_dir),
{
    if is_dir {
        return false;
    }
    let v = chars_of(name);
    let ext = chars_of(".jsonl");
    let n = v.len();
    assert(v@.subrange(0, n as int) =~= v@);
    n > 6 && window_ends_with(&v, 0, n, &ext)
}

/// Whether a session's metadata (`<name>.meta.json`, when it could be read) marks it as
/// started by a scheduled task.
pub fn cron_of_meta(raw: &Option<String>) -> (b: bool)
    ensures
        b == cron_meta(match raw {
            Some(s) => Some(s@),
            None => None,
        }),
{
    match raw {
        None => false,
        Some(text) => cron_of_doc(&parse(text.as_str())),
    }
}

/// Whether a parsed metadata document marks a scheduled-task session.
pub fn cron_of_doc(doc: &Option<JsonDoc>) -> (b: bool)
    ensures
        b == cron_key(opt_doc_view(*doc)),
{
    match get_field(doc, "key") {
        Some(JsonField::Str(k)) => {
            let kv = chars_of(k.as_str());
            let p = chars_of("agent:cron-");
            let n = kv.len();
            assert(kv@.subrange(0, n as int) =~= kv@);
            crate::text::window_starts_with(&kv, 0, n, &p)
        },
        _ => false,
    }
}

/// The metadata file paired with a transcript: its `jsonl` extension replaced by
/// `meta.json`.
pub fn meta_path(path: &str) -> (r: String)
    requires
        has_suffix(path@, ".jsonl"@),
    ensures
        r@ == path@.take(path@.len() - 5) + "meta.json"@,
{
    let v = chars_of(path);
    proof {
        reveal_strlit(".jsonl");
    }
    let stem = string_of_window(&v, 0, v.len() - 5);
    concat(stem.as_str(), "meta.json")
}

} // verus!
