//! Workspace discovery: turns the proxy's on-disk tenant tree
//! (`<data_root>/tenants/*/subscriptions/*/agents/*/users/*`) into the set of per-user
//! workspaces to watch, and reconciles that set against what is already being watched.
//!
//! Directories are listed at the edge; this module decides what the listings mean.

use crate::text::{
    chars_of, concat, has_prefix, lemma_lex_irreflexive, lemma_lex_total, lemma_lex_transitive,
    lex_less, lex_lt, owned, sorted_unique, strictly_sorted, text_eq, views, window_eq,
    window_starts_with,
};
use vstd::prelude::*;

verus! {

/// One `(tenant, subscription, agent, user)` workspace. The tuple is carried in full: the
/// directory path is the only place it survives in readable form.
#[derive(Debug, Clone)]
pub struct Workspace {
    pub tenant: String,
    pub subscription: String,
    pub agent: String,
    /// The account UUID, never the e-mail address.
    pub user: String,
    /// `<data_root>/tenants/<tenant>/subscriptions/<subs>/agents/<agent>/users/<user>`
    pub root: String,
}

/// `session:<tenant>/<subscription>/<agent>/<user>`: a workspace's stable identity and
/// the supervisor's registry key.
pub open spec fn source_name_of(t: Seq<char>, s: Seq<char>, a: Seq<char>, u: Seq<char>) -> Seq<
    char,
> {
    "session:"@ + t + "/"@ + s + "/"@ + a + "/"@ + u
}

pub open spec fn ws_source_name(w: Workspace) -> Seq<char> {
    source_name_of(w.tenant@, w.subscription@, w.agent@, w.user@)
}

/// `a` joined with the relative component `b`, as `Path::join` does: a `/` is inserted
/// unless `a` is empty or already ends with one.
pub open spec fn join_spec(a: Seq<char>, b: Seq<char>) -> Seq<char> {
    if a.len() == 0 {
        b
    } else if a.last() == '/' {
        a + b
    } else {
        a + "/"@ + b
    }
}

/// `Path::join` for a relative component.
pub fn join(a: &str, b: &str) -> (r: String)
    ensures
        r@ == join_spec(a@, b@),
{
    let av = chars_of(a);
    if av.len() == 0 {
        crate::text::owned(b)
    } else if av[av.len() - 1] == '/' {
        concat(a, b)
    } else {
        let head = concat(a, "/");
        concat(head.as_str(), b)
    }
}

/// Two workspaces with the same tuple and root.
pub open spec fn same_workspace(a: Workspace, b: Workspace) -> bool {
    a.tenant@ == b.tenant@ && a.subscription@ == b.subscription@ && a.agent@ == b.agent@ && a.user@ == b.user@
        && a.root@ == b.root@
}

impl Workspace {
    /// A copy of this workspace.
    pub fn copy(&self) -> (w: Workspace)
        ensures
            same_workspace(w, *self),
    {
        Workspace {
            tenant: owned(self.tenant.as_str()),
            subscription: owned(self.subscription.as_str()),
            agent: owned(self.agent.as_str()),
            user: owned(self.user.as_str()),
            root: owned(self.root.as_str()),
        }
    }

    pub fn source_name(&self) -> (r: String)
        ensures
            r@ == ws_source_name(*self),
    {
        let a = concat("session:", self.tenant.as_str());
        let b = concat(a.as_str(), "/");
        let c = concat(b.as_str(), self.subscription.as_str());
        let d = concat(c.as_str(), "/");
        let e = concat(d.as_str(), self.agent.as_str());
        let f = concat(e.as_str(), "/");
        concat(f.as_str(), self.user.as_str())
    }
}

/// A directory under a user root holds sessions when it is `workspace` or a project
/// workspace `workspace-<project>`.
pub open spec fn is_workspace_dir_name(name: Seq<char>) -> bool {
    name == "workspace"@ || has_prefix(name, "workspace-"@)
}

pub fn is_workspace_dir(name: &str) -> (b: bool)
    ensures
        b == is_workspace_dir_name(name@),
{
    let v = chars_of(name);
    let n = v.len();
    assert(v@.subrange(0, n as int) =~= v@);
    let ws = chars_of("workspace");
    let wsp = chars_of("workspace-");
    window_eq(&v, 0, n, &ws) || window_starts_with(&v, 0, n, &wsp)
}

/// One entry of a user root as the edge saw it: its name, and whether it has a
/// `sessions` subdirectory.
pub struct RootEntry {
    pub name: String,
    pub has_sessions_dir: bool,
}

/// A name that a workspace root lists as a workspace-shaped directory with a
/// `sessions` subdirectory.
pub open spec fn qualifying_name(entries: Seq<RootEntry>, y: Seq<char>) -> bool {
    exists|j: int|
        #![trigger entries[j]]
        0 <= j < entries.len() && entries[j].name@ == y && is_workspace_dir_name(y)
            && entries[j].has_sessions_dir
}

/// `<root>/<name>/sessions`.
pub open spec fn session_dir_of(root: Seq<char>, name: Seq<char>) -> Seq<char> {
    join_spec(join_spec(root, name), "sessions"@)
}

/// The session directories of a workspace, given its root's entries: `<entry>/sessions`
/// for every workspace-shaped entry that has one, in code-point order of the entry names.
/// Both shapes count: project conversations live under `workspace-<project>/sessions`.
pub fn session_dirs(root: &str, entries: Vec<RootEntry>) -> (r: Vec<String>)
    ensures
        exists|ns: Seq<Seq<char>>|
            {
                &&& strictly_sorted(ns)
                &&& forall|y: Seq<char>| #[trigger] ns.contains(y) <==> qualifying_name(entries@, y)
                &&& r@.len() == ns.len()
                &&& forall|m: int| 0 <= m < r@.len() ==> #[trigger] r@[m]@ == session_dir_of(root@, ns[m])
            },
{
    let mut names: Vec<String> = Vec::new();
    let mut k: usize = 0;
    while k < entries.len()
        invariant
            k <= entries.len(),
            forall|y: Seq<char>| views(names@).contains(y) <==> qualifying_name(entries@.take(k as int), y),
        decreases entries.len() - k,
    {
        let ghost before = names@;
        assert(entries@.take(k + 1) =~= entries@.take(k as int).push(entries@[k as int]));
        if entries[k].has_sessions_dir && is_workspace_dir(entries[k].name.as_str()) {
            names.push(entries[k].name.clone());
            assert(views(names@) =~= views(before).push(entries@[k as int].name@));
        }
        assert forall|y: Seq<char>| views(names@).contains(y) <==> qualifying_name(entries@.take(k + 1), y) by {
            let t0 = entries@.take(k as int);
            let t1 = entries@.take(k + 1);
            if qualifying_name(t1, y) {
                let j = choose|j: int| #![trigger t1[j]] 0 <= j < t1.len() && t1[j].name@ == y
                    && is_workspace_dir_name(y) && t1[j].has_sessions_dir;
                if j < k {
                    assert(t0[j] == t1[j]);
                    assert(qualifying_name(t0, y));
                    assert(views(before).contains(y));
                    let i = choose|i: int| 0 <= i < views(before).len() && views(before)[i] == y;
                    assert(views(names@)[i] == y);
                } else {
                    assert(views(names@)[views(names@).len() - 1] == y);
                }
            }
            if views(names@).contains(y) {
                if views(before).contains(y) {
                    let j = choose|j: int| #![trigger t0[j]] 0 <= j < t0.len() && t0[j].name@ == y
                        && is_workspace_dir_name(y) && t0[j].has_sessions_dir;
                    assert(t1[j] == t0[j]);
                } else {
                    let i = choose|i: int| 0 <= i < views(names@).len() && views(names@)[i] == y;
                    assert(i == before.len());
                    assert(t1[k as int] == entries@[k as int]);
                }
            }
        }
        k += 1;
    }
    assert(entries@.take(entries.len() as int) =~= entries@);
    let ghost names_v = views(names@);
    let sorted = sorted_unique(names);
    let mut out: Vec<String> = Vec::new();
    let mut i: usize = 0;
    while i < sorted.len()
        invariant
            i <= sorted.len(),
            out@.len() == i,
            forall|m: int| 0 <= m < i ==> #[trigger] out@[m]@ == session_dir_of(root@, sorted@[m]@),
        decreases sorted.len() - i,
    {
        let dir = join(root, sorted[i].as_str());
        out.push(join(dir.as_str(), "sessions"));
        i += 1;
    }
    let ghost ns = views(sorted@);
    assert forall|m: int| 0 <= m < out@.len() implies #[trigger] out@[m]@ == session_dir_of(root@, ns[m]) by {
        assert(ns[m] == sorted@[m]@);
    }
    assert forall|y: Seq<char>| #[trigger] ns.contains(y) <==> qualifying_name(entries@, y) by {
        assert(names_v.contains(y) <==> qualifying_name(entries@, y));
    }
    out
}

// ------------------------------------------------------------------------------------
// The tenant tree
// ------------------------------------------------------------------------------------

/// A `(tenant, subscription, agent, user)` tuple by its characters.
pub type Tuple = (Seq<char>, Seq<char>, Seq<char>, Seq<char>);

pub open spec fn tuple_of(w: Workspace) -> Tuple {
    (w.tenant@, w.subscription@, w.agent@, w.user@)
}

/// The order a sorted walk of the tree visits users in: by tenant, then subscription,
/// then agent, then user, each by code point.
pub open spec fn tuple_lt(a: Tuple, b: Tuple) -> bool {
    lex_lt(a.0, b.0) || (a.0 == b.0 && (lex_lt(a.1, b.1) || (a.1 == b.1 && (lex_lt(a.2, b.2) || (
    a.2 == b.2 && lex_lt(a.3, b.3))))))
}

proof fn lemma_tuple_irreflexive(a: Tuple)
    ensures
        !tuple_lt(a, a),
{
    lemma_lex_irreflexive(a.0);
    lemma_lex_irreflexive(a.1);
    lemma_lex_irreflexive(a.2);
    lemma_lex_irreflexive(a.3);
}

proof fn lemma_tuple_transitive(a: Tuple, b: Tuple, c: Tuple)
    requires
        tuple_lt(a, b),
        tuple_lt(b, c),
    ensures
        tuple_lt(a, c),
{
    if lex_lt(a.0, b.0) && lex_lt(b.0, c.0) {
        lemma_lex_transitive(a.0, b.0, c.0);
    } else if a.0 == b.0 && b.0 == c.0 {
        if lex_lt(a.1, b.1) && lex_lt(b.1, c.1) {
            lemma_lex_transitive(a.1, b.1, c.1);
        } else if a.1 == b.1 && b.1 == c.1 {
            if lex_lt(a.2, b.2) && lex_lt(b.2, c.2) {
                lemma_lex_transitive(a.2, b.2, c.2);
            } else if a.2 == b.2 && b.2 == c.2 {
                lemma_lex_transitive(a.3, b.3, c.3);
            }
        }
    }
}

proof fn lemma_tuple_total(a: Tuple, b: Tuple)
    requires
        a != b,
    ensures
        tuple_lt(a, b) || tuple_lt(b, a),
{
    if a.0 != b.0 {
        lemma_lex_total(a.0, b.0);
    } else if a.1 != b.1 {
        lemma_lex_total(a.1, b.1);
    } else if a.2 != b.2 {
        lemma_lex_total(a.2, b.2);
    } else {
        if a.3 == b.3 {
            assert(a == b);
        }
        lemma_lex_total(a.3, b.3);
    }
}

fn text_less(a: &str, b: &str) -> (r: bool)
    ensures
        r == lex_lt(a@, b@),
{
    lex_less(&chars_of(a), &chars_of(b))
}

/// One user directory found under the tree, by the names of its four levels.
pub struct FoundUser {
    pub tenant: String,
    pub subscription: String,
    pub agent: String,
    pub user: String,
}

pub open spec fn found_tuple(f: FoundUser) -> Tuple {
    (f.tenant@, f.subscription@, f.agent@, f.user@)
}

/// `<data_root>/tenants/<t>/subscriptions/<s>/agents/<a>/users/<u>`.
#[verifier::opaque]
pub open spec fn workspace_root(data_root: Seq<char>, k: Tuple) -> Seq<char> {
    join_spec(
        join_spec(
            join_spec(
                join_spec(
                    join_spec(join_spec(join_spec(join_spec(data_root, "tenants"@), k.0), "subscriptions"@), k.1),
                    "agents"@,
                ),
                k.2,
            ),
            "users"@,
        ),
        k.3,
    )
}

/// Tuples strictly increasing in walk order.
pub open spec fn tuples_sorted(ws: Seq<Workspace>) -> bool {
    forall|i: int, j: int| 0 <= i < j < ws.len() ==> tuple_lt(tuple_of(#[trigger] ws[i]), tuple_of(#[trigger] ws[j]))
}

/// The user directory of a found tuple.
fn user_root(data_root: &str, f: &FoundUser) -> (r: String)
    ensures
        r@ == workspace_root(data_root@, found_tuple(*f)),
{
    let r0 = join(data_root, "tenants");
    let r1 = join(r0.as_str(), f.tenant.as_str());
    let r2 = join(r1.as_str(), "subscriptions");
    let r3 = join(r2.as_str(), f.subscription.as_str());
    let r4 = join(r3.as_str(), "agents");
    let r5 = join(r4.as_str(), f.agent.as_str());
    let r6 = join(r5.as_str(), "users");
    let r = join(r6.as_str(), f.user.as_str());
    proof {
        reveal(workspace_root);
    }
    r
}

fn tuple_less(a: &Workspace, b: &Workspace) -> (r: bool)
    ensures
        r == tuple_lt(tuple_of(*a), tuple_of(*b)),
{
    if text_less(a.tenant.as_str(), b.tenant.as_str()) {
        return true;
    }
    if !text_eq(a.tenant.as_str(), b.tenant.as_str()) {
        return false;
    }
    if text_less(a.subscription.as_str(), b.subscription.as_str()) {
        return true;
    }
    if !text_eq(a.subscription.as_str(), b.subscription.as_str()) {
        return false;
    }
    if text_less(a.agent.as_str(), b.agent.as_str()) {
        return true;
    }
    if !text_eq(a.agent.as_str(), b.agent.as_str()) {
        return false;
    }
    text_less(a.user.as_str(), b.user.as_str())
}

fn same_tuple(a: &Workspace, b: &Workspace) -> (r: bool)
    ensures
        r == (tuple_of(*a) == tuple_of(*b)),
{
    text_eq(a.tenant.as_str(), b.tenant.as_str()) && text_eq(a.subscription.as_str(), b.subscription.as_str())
        && text_eq(a.agent.as_str(), b.agent.as_str()) && text_eq(a.user.as_str(), b.user.as_str())
}

pub open spec fn tuples_of(ws: Seq<Workspace>) -> Seq<Tuple> {
    ws.map_values(|w: Workspace| tuple_of(w))
}

fn insert_workspace(v: &mut Vec<Workspace>, x: Workspace)
    requires
        tuples_sorted(old(v)@),
    ensures
        tuples_sorted(final(v)@),
        forall|m: int| 0 <= m < final(v)@.len() ==> #[trigger] final(v)@[m] == x || old(v)@.contains(final(v)@[m]),
        forall|k: Tuple| tuples_of(final(v)@).contains(k) <==> (tuples_of(old(v)@).contains(k) || k == tuple_of(x)),
{
    let ghost old_v = v@;
    let mut i: usize = 0;
    while i < v.len() && tuple_less(&v[i], &x)
        invariant
            i <= v.len(),
            v@ == old_v,
            tuples_sorted(old_v),
            forall|k: int| 0 <= k < i ==> tuple_lt(tuple_of(#[trigger] old_v[k]), tuple_of(x)),
        decreases v.len() - i,
    {
        i += 1;
    }
    if i < v.len() {
        if same_tuple(&v[i], &x) {
            proof {
                assert forall|m: int| 0 <= m < old_v.len() implies #[trigger] old_v[m] == x || old_v.contains(old_v[m]) by {
                    assert(old_v.contains(old_v[m]));
                }
                assert forall|k: Tuple| tuples_of(old_v).contains(k) <==> (tuples_of(old_v).contains(k) || k == tuple_of(x)) by {
                    if k == tuple_of(x) {
                        assert(tuples_of(old_v)[i as int] == k);
                    }
                }
            }
            return;
        }
        proof {
            lemma_tuple_total(tuple_of(old_v[i as int]), tuple_of(x));
        }
    }
    v.insert(i, x);
    proof {
        let nv = v@;
        assert(nv =~= old_v.insert(i as int, x));
        assert forall|a: int, b: int| 0 <= a < b < nv.len() implies tuple_lt(tuple_of(#[trigger] nv[a]), tuple_of(#[trigger] nv[b])) by {
            if b < i {
                assert(nv[a] == old_v[a] && nv[b] == old_v[b]);
            } else if a < i && b == i {
                assert(nv[a] == old_v[a]);
            } else if a < i && b > i {
                assert(nv[a] == old_v[a] && nv[b] == old_v[b - 1]);
                if b > i + 1 {
                    lemma_tuple_transitive(tuple_of(x), tuple_of(old_v[i as int]), tuple_of(old_v[b - 1]));
                }
                lemma_tuple_transitive(tuple_of(nv[a]), tuple_of(x), tuple_of(nv[b]));
            } else if a == i {
                assert(nv[b] == old_v[b - 1]);
                if b > i + 1 {
                    lemma_tuple_transitive(tuple_of(x), tuple_of(old_v[i as int]), tuple_of(old_v[b - 1]));
                }
            } else {
                assert(nv[a] == old_v[a - 1] && nv[b] == old_v[b - 1]);
            }
        }
        assert forall|m: int| 0 <= m < nv.len() implies #[trigger] nv[m] == x || old_v.contains(nv[m]) by {
            if m < i {
                assert(old_v[m] == nv[m]);
            } else if m > i {
                assert(old_v[m - 1] == nv[m]);
            }
        }
        let tn = tuples_of(nv);
        let to = tuples_of(old_v);
        assert forall|k: Tuple| tn.contains(k) <==> (to.contains(k) || k == tuple_of(x)) by {
            if tn.contains(k) {
                let m = choose|m: int| 0 <= m < tn.len() && tn[m] == k;
                if m < i {
                    assert(to[m] == k);
                } else if m > i {
                    assert(to[m - 1] == k);
                }
            }
            if to.contains(k) {
                let m = choose|m: int| 0 <= m < to.len() && to[m] == k;
                if m < i {
                    assert(tn[m] == k);
                } else {
                    assert(tn[m + 1] == k);
                }
            }
            if k == tuple_of(x) {
                assert(tn[i as int] == k);
            }
        }
    }
}

/// The workspaces of a tenant tree, given the user directories a walk of
/// `<data_root>/tenants/*/subscriptions/*/agents/*/users/*` found: one per distinct
/// tuple, in walk order (so an unchanged tree always yields the same list), each rooted
/// at its user directory.
pub fn discover(data_root: &str, found: Vec<FoundUser>) -> (ws: Vec<Workspace>)
    ensures
        tuples_sorted(ws@),
        forall|k: Tuple| tuples_of(ws@).contains(k) <==> found_tuples(found@).contains(k),
        forall|i: int| 0 <= i < ws@.len() ==> #[trigger] ws@[i].root@ == workspace_root(data_root@, tuple_of(ws@[i])),
{
    let ghost ft = found_tuples(found@);
    let mut out: Vec<Workspace> = Vec::new();
    let mut i: usize = 0;
    while i < found.len()
        invariant
            i <= found.len(),
            ft == found_tuples(found@),
            tuples_sorted(out@),
            forall|m: int| 0 <= m < out@.len() ==> #[trigger] out@[m].root@ == workspace_root(data_root@, tuple_of(out@[m])),
            forall|k: Tuple| tuples_of(out@).contains(k) <==> ft.take(i as int).contains(k),
        decreases found.len() - i,
    {
        let f = &found[i];
        let root = user_root(data_root, f);
        let w = Workspace {
            tenant: owned(f.tenant.as_str()),
            subscription: owned(f.subscription.as_str()),
            agent: owned(f.agent.as_str()),
            user: owned(f.user.as_str()),
            root,
        };
        let ghost before = out@;
        let ghost wv = w;
        insert_workspace(&mut out, w);
        proof {
            assert(tuple_of(wv) == ft[i as int]);
            assert(ft.take(i + 1) =~= ft.take(i as int).push(ft[i as int]));
            assert forall|k: Tuple| tuples_of(out@).contains(k) <==> ft.take(i + 1).contains(k) by {
                let t0 = ft.take(i as int);
                let t1 = ft.take(i + 1);
                if t1.contains(k) {
                    let m = choose|m: int| 0 <= m < t1.len() && t1[m] == k;
                    if m < i {
                        assert(t0[m] == k);
                        assert(t0.contains(k));
                    }
                }
                if t0.contains(k) {
                    let m = choose|m: int| 0 <= m < t0.len() && t0[m] == k;
                    assert(t1[m] == k);
                }
                if k == ft[i as int] {
                    assert(t1[i as int] == k);
                }
            }
            assert forall|m: int| 0 <= m < out@.len() implies #[trigger] out@[m].root@ == workspace_root(data_root@, tuple_of(out@[m])) by {
                if out@[m] != wv {
                    let k = choose|k: int| 0 <= k < before.len() && before[k] == out@[m];
                }
            }
        }
        i += 1;
    }
    assert(ft.take(found.len() as int) =~= ft);
    out
}

/// The tuples found, in the order found.
pub open spec fn found_tuples(f: Seq<FoundUser>) -> Seq<Tuple> {
    f.map_values(|u: FoundUser| found_tuple(u))
}

/// Directories named `leaf` under every workspace-shaped entry of a user root (`skills`
/// or `memory`), given the root's directory names, in that order.
pub open spec fn workspace_subdirs_spec(root: Seq<char>, names: Seq<Seq<char>>, leaf: Seq<char>) -> Seq<Seq<char>>
    decreases names.len(),
{
    if names.len() == 0 {
        Seq::empty()
    } else {
        let init = workspace_subdirs_spec(root, names.drop_last(), leaf);
        if is_workspace_dir_name(names.last()) {
            init.push(join_spec(join_spec(root, names.last()), leaf))
        } else {
            init
        }
    }
}

pub fn workspace_subdirs(root: &str, names: &Vec<String>, leaf: &str) -> (r: Vec<String>)
    ensures
        views(r@) == workspace_subdirs_spec(root@, views(names@), leaf@),
{
    let ghost nv = views(names@);
    let mut out: Vec<String> = Vec::new();
    let mut i: usize = 0;
    assert(nv.take(0) =~= Seq::<Seq<char>>::empty());
    assert(views(out@) =~= Seq::<Seq<char>>::empty());
    while i < names.len()
        invariant
            i <= names.len(),
            nv == views(names@),
            views(out@) == workspace_subdirs_spec(root@, nv.take(i as int), leaf@),
        decreases names.len() - i,
    {
        proof {
            assert(nv.take(i + 1).drop_last() =~= nv.take(i as int));
            assert(nv.take(i + 1).last() == names@[i as int]@);
        }
        if is_workspace_dir(names[i].as_str()) {
            let d = join(root, names[i].as_str());
            let ghost before = views(out@);
            out.push(join(d.as_str(), leaf));
            assert(views(out@) =~= before.push(join_spec(join_spec(root@, names@[i as int]@), leaf@)));
        }
        i += 1;
    }
    assert(nv.take(names.len() as int) =~= nv);
    out
}

/// The knowledge-graph files of a user root: `<root>/<name>/memory.jsonl` for every
/// entry named `memory-graph-<project>`; the graph is per project, at the user root.
pub open spec fn graph_files_spec(root: Seq<char>, names: Seq<Seq<char>>) -> Seq<Seq<char>>
    decreases names.len(),
{
    if names.len() == 0 {
        Seq::empty()
    } else {
        let init = graph_files_spec(root, names.drop_last());
        if has_prefix(names.last(), "memory-graph-"@) {
            init.push(join_spec(join_spec(root, names.last()), "memory.jsonl"@))
        } else {
            init
        }
    }
}

pub fn graph_files(root: &str, names: &Vec<String>) -> (r: Vec<String>)
    ensures
        views(r@) == graph_files_spec(root@, views(names@)),
{
    let ghost nv = views(names@);
    let prefix = chars_of("memory-graph-");
    let mut out: Vec<String> = Vec::new();
    let mut i: usize = 0;
    assert(nv.take(0) =~= Seq::<Seq<char>>::empty());
    assert(views(out@) =~= Seq::<Seq<char>>::empty());
    while i < names.len()
        invariant
            i <= names.len(),
            nv == views(names@),
            prefix@ == "memory-graph-"@,
            views(out@) == graph_files_spec(root@, nv.take(i as int)),
        decreases names.len() - i,
    {
        proof {
            assert(nv.take(i + 1).drop_last() =~= nv.take(i as int));
            assert(nv.take(i + 1).last() == names@[i as int]@);
        }
        let cv = chars_of(names[i].as_str());
        let n = cv.len();
        assert(cv@.subrange(0, n as int) =~= cv@);
        if window_starts_with(&cv, 0, n, &prefix) {
            let d = join(root, names[i].as_str());
            let ghost before = views(out@);
            out.push(join(d.as_str(), "memory.jsonl"));
            assert(views(out@) =~= before.push(join_spec(join_spec(root@, names@[i as int]@), "memory.jsonl"@)));
        }
        i += 1;
    }
    assert(nv.take(names.len() as int) =~= nv);
    out
}

proof fn lemma_sorted_tuples_unique(s1: Seq<Tuple>, s2: Seq<Tuple>)
    requires
        forall|i: int, j: int| 0 <= i < j < s1.len() ==> tuple_lt(#[trigger] s1[i], #[trigger] s1[j]),
        forall|i: int, j: int| 0 <= i < j < s2.len() ==> tuple_lt(#[trigger] s2[i], #[trigger] s2[j]),
        forall|k: Tuple| s1.contains(k) <==> s2.contains(k),
    ensures
        s1 == s2,
    decreases s1.len() + s2.len(),
{
    if s1.len() == 0 {
        if s2.len() > 0 {
            assert(s2.contains(s2[0]));
        }
        assert(s1 =~= s2);
    } else if s2.len() == 0 {
        assert(s1.contains(s1[0]));
    } else {
        let x = s1.last();
        let y = s2.last();
        assert(s1.contains(x));
        assert(s2.contains(y));
        if x != y {
            let j = choose|j: int| 0 <= j < s2.len() && s2[j] == x;
            let i = choose|i: int| 0 <= i < s1.len() && s1[i] == y;
            assert(j < s2.len() - 1);
            assert(i < s1.len() - 1);
            assert(tuple_lt(s2[j], s2[s2.len() - 1]));
            assert(tuple_lt(s1[i], s1[s1.len() - 1]));
            lemma_tuple_transitive(x, y, x);
            lemma_tuple_irreflexive(x);
        }
        let p1 = s1.drop_last();
        let p2 = s2.drop_last();
        assert forall|k: Tuple| p1.contains(k) <==> p2.contains(k) by {
            if p1.contains(k) {
                let i = choose|i: int| 0 <= i < p1.len() && p1[i] == k;
                assert(tuple_lt(s1[i], s1[s1.len() - 1]));
                lemma_tuple_irreflexive(x);
                assert(s1.contains(k));
                let j = choose|j: int| 0 <= j < s2.len() && s2[j] == k;
                assert(j != s2.len() - 1);
                assert(p2[j] == k);
            }
            if p2.contains(k) {
                let j = choose|j: int| 0 <= j < p2.len() && p2[j] == k;
                assert(tuple_lt(s2[j], s2[s2.len() - 1]));
                lemma_tuple_irreflexive(y);
                assert(s2.contains(k));
                let i = choose|i: int| 0 <= i < s1.len() && s1[i] == k;
                assert(i != s1.len() - 1);
                assert(p1[i] == k);
            }
        }
        assert forall|i: int, j: int| 0 <= i < j < p1.len() implies tuple_lt(#[trigger] p1[i], #[trigger] p1[j]) by {
            assert(tuple_lt(s1[i], s1[j]));
        }
        assert forall|i: int, j: int| 0 <= i < j < p2.len() implies tuple_lt(#[trigger] p2[i], #[trigger] p2[j]) by {
            assert(tuple_lt(s2[i], s2[j]));
        }
        lemma_sorted_tuples_unique(p1, p2);
        assert(s1 =~= p1.push(x));
        assert(s2 =~= p2.push(y));
    }
}

/// Two scans of the same tree give the same workspaces, in the same order and with the
/// same roots, whatever order the walk met the user directories in: so rescanning an
/// unchanged tree never churns the registry.
pub proof fn law_discover_deterministic(data_root: Seq<char>, a: Seq<Workspace>, b: Seq<Workspace>)
    requires
        tuples_sorted(a),
        tuples_sorted(b),
        forall|k: Tuple| tuples_of(a).contains(k) <==> tuples_of(b).contains(k),
        forall|i: int| 0 <= i < a.len() ==> #[trigger] a[i].root@ == workspace_root(data_root, tuple_of(a[i])),
        forall|i: int| 0 <= i < b.len() ==> #[trigger] b[i].root@ == workspace_root(data_root, tuple_of(b[i])),
    ensures
        a.len() == b.len(),
        forall|i: int| 0 <= i < a.len() ==> tuple_of(#[trigger] a[i]) == tuple_of(b[i]) && a[i].root@ == b[i].root@,
{
    let ta = tuples_of(a);
    let tb = tuples_of(b);
    assert forall|i: int, j: int| 0 <= i < j < ta.len() implies tuple_lt(#[trigger] ta[i], #[trigger] ta[j]) by {
        assert(tuple_lt(tuple_of(a[i]), tuple_of(a[j])));
    }
    assert forall|i: int, j: int| 0 <= i < j < tb.len() implies tuple_lt(#[trigger] tb[i], #[trigger] tb[j]) by {
        assert(tuple_lt(tuple_of(b[i]), tuple_of(b[j])));
    }
    lemma_sorted_tuples_unique(ta, tb);
    assert forall|i: int| 0 <= i < a.len() implies tuple_of(#[trigger] a[i]) == tuple_of(b[i]) && a[i].root@ == b[i].root@ by {
        assert(ta[i] == tb[i]);
    }
}

} // verus!
