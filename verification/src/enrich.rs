//! The enricher: stamps signals with host context, so that an AI span can be correlated
//! with the pressure of the host it ran on, without duplicating a key the signal already
//! carries.

use crate::signal::{same_but_attrs, signal_attrs, AttrValue, AttrView, Signal, attrs_view, pair_view};
use crate::text::{owned, text_eq};
use vstd::prelude::*;

verus! {

/// Whether some attribute has key `k`.
pub open spec fn has_key(attrs: Seq<(Seq<char>, AttrView)>, k: Seq<char>) -> bool {
    exists|i: int| 0 <= i < attrs.len() && #[trigger] attrs[i].0 == k
}

/// `attrs` with each of `extra` appended, in order, unless its key is already there.
pub open spec fn enrich_spec(attrs: Seq<(Seq<char>, AttrView)>, extra: Seq<(Seq<char>, AttrView)>) -> Seq<(Seq<char>, AttrView)>
    decreases extra.len(),
{
    if extra.len() == 0 {
        attrs
    } else {
        let a = enrich_spec(attrs, extra.drop_last());
        if has_key(a, extra.last().0) {
            a
        } else {
            a.push(extra.last())
        }
    }
}

pub struct Enricher {
    attrs: Vec<(String, AttrValue)>,
}

impl Enricher {
    /// Injects `host.name` into every signal that does not carry one.
    pub fn new(host_name: &str) -> (e: Self)
        ensures
            e.extra() == seq![("host.name"@, AttrView::Str(host_name@))],
    {
        let mut attrs: Vec<(String, AttrValue)> = Vec::new();
        attrs.push((owned("host.name"), AttrValue::text(host_name)));
        let e = Enricher { attrs };
        assert(attrs_view(e.attrs@) =~= seq![("host.name"@, AttrView::Str(host_name@))]);
        e
    }

    /// The attributes this enricher injects.
    pub closed spec fn extra(&self) -> Seq<(Seq<char>, AttrView)> {
        attrs_view(self.attrs@)
    }

    /// Adds each injected attribute whose key the signal does not already carry.
    pub fn enrich(&self, signal: &mut Signal)
        ensures
            signal_attrs(*final(signal)) == enrich_spec(signal_attrs(*old(signal)), self.extra()),
            same_but_attrs(*old(signal), *final(signal)),
    {
        let ghost a0 = signal_attrs(*signal);
        let ghost ex = attrs_view(self.attrs@);
        let ghost s0 = *signal;
        let mut i: usize = 0;
        assert(ex.take(0) =~= Seq::<(Seq<char>, AttrView)>::empty());
        proof {
            lemma_same_refl(s0);
        }
        while i < self.attrs.len()
            invariant
                i <= self.attrs.len(),
                ex == attrs_view(self.attrs@),
                signal_attrs(*signal) == enrich_spec(a0, ex.take(i as int)),
                same_but_attrs(s0, *signal),
            decreases self.attrs.len() - i,
        {
            proof {
                assert(ex.take(i + 1).drop_last() =~= ex.take(i as int));
                assert(ex.take(i + 1).last() == ex[i as int]);
                assert(ex[i as int] == pair_view(self.attrs@[i as int]));
            }
            let key = self.attrs[i].0.as_str();
            let present = {
                let cur = signal.attributes();
                let mut found = false;
                let mut j: usize = 0;
                while j < cur.len()
                    invariant
                        j <= cur.len(),
                        found == exists|m: int| 0 <= m < j && attrs_view(cur@)[m].0 == key@,
                    decreases cur.len() - j,
                {
                    if text_eq(cur[j].0.as_str(), key) {
                        assert(attrs_view(cur@)[j as int].0 == key@);
                        found = true;
                    }
                    j += 1;
                }
                proof {
                    if found {
                        let m = choose|m: int| 0 <= m < j && attrs_view(cur@)[m].0 == key@;
                        assert(has_key(attrs_view(cur@), key@));
                    }
                    if has_key(attrs_view(cur@), key@) {
                        let m = choose|m: int| 0 <= m < attrs_view(cur@).len() && #[trigger] attrs_view(cur@)[m].0 == key@;
                    }
                }
                found
            };
            if !present {
                let ghost before = *signal;
                signal.push_attr(owned(key), self.attrs[i].1.clone_value());
                proof {
                    lemma_same_trans(s0, before, *signal);
                }
            }
            i += 1;
        }
        assert(ex.take(self.attrs.len() as int) =~= ex);
    }
}

proof fn lemma_same_refl(s: Signal)
    ensures
        same_but_attrs(s, s),
{
}

proof fn lemma_same_trans(a: Signal, b: Signal, c: Signal)
    requires
        same_but_attrs(a, b),
        same_but_attrs(b, c),
    ensures
        same_but_attrs(a, c),
{
}

/// Enriching twice adds nothing the first pass did not: once a key is present it is
/// never injected again.
pub proof fn law_enrich_idempotent(attrs: Seq<(Seq<char>, AttrView)>, extra: Seq<(Seq<char>, AttrView)>)
    ensures
        enrich_spec(enrich_spec(attrs, extra), extra) == enrich_spec(attrs, extra),
{
    lemma_enrich_keys(attrs, extra);
    lemma_enrich_noop(enrich_spec(attrs, extra), extra);
}

/// After enriching, every injected key is present, and everything that was there stays.
proof fn lemma_enrich_keys(attrs: Seq<(Seq<char>, AttrView)>, extra: Seq<(Seq<char>, AttrView)>)
    ensures
        forall|i: int| 0 <= i < extra.len() ==> has_key(enrich_spec(attrs, extra), #[trigger] extra[i].0),
        forall|k: Seq<char>| has_key(attrs, k) ==> has_key(enrich_spec(attrs, extra), k),
    decreases extra.len(),
{
    if extra.len() > 0 {
        let init = extra.drop_last();
        lemma_enrich_keys(attrs, init);
        let a = enrich_spec(attrs, init);
        let r = enrich_spec(attrs, extra);
        assert forall|k: Seq<char>| has_key(a, k) implies has_key(r, k) by {
            if !has_key(a, extra.last().0) {
                let m = choose|m: int| 0 <= m < a.len() && #[trigger] a[m].0 == k;
                assert(r[m] == a[m]);
            }
        }
        assert forall|i: int| 0 <= i < extra.len() implies has_key(r, #[trigger] extra[i].0) by {
            if i < init.len() {
                assert(init[i] == extra[i]);
                assert(has_key(a, init[i].0));
            } else if !has_key(a, extra.last().0) {
                assert(r[a.len() as int] == extra.last());
            }
        }
    }
}

/// Enriching attributes that already carry every injected key changes nothing.
proof fn lemma_enrich_noop(attrs: Seq<(Seq<char>, AttrView)>, extra: Seq<(Seq<char>, AttrView)>)
    requires
        forall|i: int| 0 <= i < extra.len() ==> has_key(attrs, #[trigger] extra[i].0),
    ensures
        enrich_spec(attrs, extra) == attrs,
    decreases extra.len(),
{
    if extra.len() > 0 {
        let init = extra.drop_last();
        assert forall|i: int| 0 <= i < init.len() implies has_key(attrs, #[trigger] init[i].0) by {
            assert(init[i] == extra[i]);
        }
        lemma_enrich_noop(attrs, init);
        assert(has_key(attrs, extra[extra.len() - 1].0));
    }
}

} // verus!
