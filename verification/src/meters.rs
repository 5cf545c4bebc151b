//! Which live-meter captures to stop and which to start when the set of
//! metered sources changes.

use std::collections::BTreeSet;
use vstd::prelude::*;
use vstd::laws_cmp::obeys_cmp;
use vstd::std_specs::btree::{increasing_seq, spec_btree_keys_iter};
use vstd::std_specs::cmp::OrdSpec;
use vstd::std_specs::iter::IteratorSpec;

verus! {

/// The captures to stop and the captures to start.
#[derive(Clone, Debug)]
pub struct MeterSyncPlan {
    pub stop: Vec<u32>,
    pub start: Vec<u32>,
}

/// A capture runs for `id` and is no longer wanted.
pub open spec fn should_stop(running: Seq<u32>, desired: Seq<u32>, id: u32) -> bool {
    running.contains(id) && !desired.contains(id)
}

/// `id` is wanted, is a known node and has no capture yet.
pub open spec fn should_start(running: Seq<u32>, desired: Seq<u32>, available: Seq<u32>, id: u32) -> bool {
    desired.contains(id) && available.contains(id) && !running.contains(id)
}

fn holds_id(ids: &Vec<u32>, id: u32) -> (found: bool)
    ensures
        found == ids@.contains(id),
{
    let mut i: usize = 0;
    while i < ids.len()
        invariant
            i <= ids.len(),
            forall|k: int| 0 <= k < i ==> ids@[k] != id,
        decreases ids.len() - i,
    {
        if ids[i] == id {
            return true;
        }
        i = i + 1;
    }
    false
}

/// The keys a `BTreeSet` hands out come in ascending order.
proof fn lemma_keys_ascending(r: Seq<&u32>)
    requires
        increasing_seq(r),
    ensures
        forall|a: int, b: int| 0 <= a < b < r.len() ==> *r[a] < *r[b],
{
    broadcast use {vstd::laws_cmp::group_laws_cmp, vstd::std_specs::btree::group_btree_axioms};

    assert(obeys_cmp::<&u32>());
    vstd::std_specs::btree::axiom_increasing_seq_meaning(r);
    assert forall|a: int, b: int| 0 <= a < b < r.len() implies *r[a] < *r[b] by {
        assert((&r[a]).cmp_spec(&&r[b]) is Less);
    }
}

/// The wanted sources as a set (`BTreeSet`), from a list that may repeat.
fn wanted_set(desired: &Vec<u32>) -> (wanted: BTreeSet<u32>)
    ensures
        wanted@ == desired@.to_set(),
{
    let mut wanted: BTreeSet<u32> = BTreeSet::new();
    let mut i: usize = 0;
    while i < desired.len()
        invariant
            i <= desired.len(),
            wanted@ == desired@.take(i as int).to_set(),
        decreases desired.len() - i,
    {
        wanted.insert(desired[i]);
        assert(desired@.take(i + 1) =~= desired@.take(i as int).push(desired@[i as int]));
        assert(desired@.take(i + 1).to_set() =~= desired@.take(i as int).to_set().insert(
            desired@[i as int],
        )) by {
            desired@.take(i as int).lemma_push_to_set_commute(desired@[i as int]);
        }
        i = i + 1;
    }
    assert(desired@.take(i as int) =~= desired@);
    wanted
}

/// The plan that brings the running captures (`running`) to the wanted
/// sources (`desired`, which may repeat) among the known nodes
/// (`available`): stop, in running order, every capture no longer wanted;
/// start, in ascending order and once each, every wanted known node that
/// has no capture.
pub fn plan_meter_sync(running: &Vec<u32>, desired: &Vec<u32>, available: &Vec<u32>) -> (plan:
    MeterSyncPlan)
    ensures
        plan.stop@ == running@.filter(|id: u32| !desired@.contains(id)),
        forall|a: int, b: int| 0 <= a < b < plan.start@.len() ==> plan.start@[a] < plan.start@[b],
        forall|id: u32| plan.start@.contains(id) <==> should_start(running@, desired@, available@, id),
{
    let wanted = wanted_set(desired);
    let mut stop: Vec<u32> = Vec::new();
    let mut i: usize = 0;
    while i < running.len()
        invariant
            i <= running.len(),
            wanted@ == desired@.to_set(),
            stop@ == running@.take(i as int).filter(|id: u32| !desired@.contains(id)),
        decreases running.len() - i,
    {
        let id = running[i];
        let is_wanted = wanted.contains(&id);
        proof {
            reveal_with_fuel(Seq::<_>::filter, 1);
            let t = running@.take(i + 1);
            assert(t.drop_last() =~= running@.take(i as int));
            assert(t.last() == id);
            assert(desired@.to_set().contains(id) == desired@.contains(id));
        }
        if !is_wanted {
            stop.push(id);
        }
        i = i + 1;
    }
    assert(running@.take(i as int) =~= running@);
    let ghost all = spec_btree_keys_iter(&wanted).remaining().unref();
    proof {
        let r = spec_btree_keys_iter(&wanted).remaining();
        assert(r.unref().to_set() == wanted@);
        lemma_keys_ascending(r);
    }
    let mut start: Vec<u32> = Vec::new();
    for id in it: wanted.iter()
        invariant
            it.seq().unref() == all,
            forall|a: int, b: int| 0 <= a < b < all.len() ==> all[a] < all[b],
            forall|a: int, b: int| 0 <= a < b < start@.len() ==> start@[a] < start@[b],
            forall|k: int|
                0 <= k < start@.len() && it.index() < all.len() ==> #[trigger] start@[k] < all[it.index()
                    as int],
            forall|x: u32|
                start@.contains(x) <==> (exists|p: int| 0 <= p < it.index() && all[p] == x)
                    && available@.contains(x) && !running@.contains(x),
    {
        let ghost index = it.index();
        let value = *id;
        assert(value == all[index]);
        let known = holds_id(available, value);
        let capturing = holds_id(running, value);
        let ghost before = start@;
        if known && !capturing {
            start.push(value);
            assert forall|a: int, b: int| 0 <= a < b < start@.len() implies start@[a] < start@[b] by {
                if b == start@.len() - 1 {
                    assert(before[a] < all[index]);
                }
            }
        }
        proof {
            if index + 1 < all.len() {
                assert(all[index] < all[index + 1]);
                assert forall|k: int| 0 <= k < start@.len() implies #[trigger] start@[k] < all[index
                    + 1] by {
                    if k < before.len() {
                        assert(before[k] < all[index]);
                    }
                }
            }
            assert forall|x: u32|
                start@.contains(x) <==> (exists|p: int| 0 <= p < index + 1 && all[p] == x)
                    && available@.contains(x) && !running@.contains(x) by {
                if x == value {
                    assert(all[index] == x);
                    if known && !capturing {
                        assert(start@[start@.len() - 1] == x);
                    }
                } else {
                    if start@.contains(x) {
                        let k = choose|k: int| 0 <= k < start@.len() && start@[k] == x;
                        assert(k < before.len());
                        assert(before[k] == x);
                    }
                    if before.contains(x) {
                        let k = choose|k: int| 0 <= k < before.len() && before[k] == x;
                        assert(start@[k] == x);
                    }
                    if exists|p: int| 0 <= p < index + 1 && all[p] == x {
                        let p = choose|p: int| 0 <= p < index + 1 && all[p] == x;
                        assert(p < index);
                    }
                }
            }
        }
    }
    proof {
        assert forall|id: u32|
            start@.contains(id) <==> should_start(running@, desired@, available@, id) by {
            assert(all.to_set().contains(id) == all.contains(id));
            assert(desired@.to_set().contains(id) == desired@.contains(id));
            if all.contains(id) {
                let p = choose|p: int| 0 <= p < all.len() && all[p] == id;
                assert(0 <= p < all.len() && all[p] == id);
            }
        }
    }
    MeterSyncPlan { stop, start }
}

/// An item survives a filter exactly when it is in the sequence and passes.
pub proof fn lemma_filter_contains_iff<A>(s: Seq<A>, pred: spec_fn(A) -> bool, x: A)
    ensures
        s.filter(pred).contains(x) <==> (s.contains(x) && pred(x)),
    decreases s.len(),
{
    reveal_with_fuel(Seq::<_>::filter, 1);
    if s.len() > 0 {
        let rest = s.drop_last();
        lemma_filter_contains_iff(rest, pred, x);
        let sub = rest.filter(pred);
        if sub.contains(x) {
            let k = choose|k: int| 0 <= k < sub.len() && sub[k] == x;
            if pred(s.last()) {
                assert(s.filter(pred)[k] == x);
            }
        }
        if rest.contains(x) {
            let k = choose|k: int| 0 <= k < rest.len() && rest[k] == x;
            assert(s[k] == x);
        }
        if s.contains(x) {
            let k = choose|k: int| 0 <= k < s.len() && s[k] == x;
            if k < s.len() - 1 {
                assert(rest[k] == x);
            }
        }
        if s.filter(pred).contains(x) {
            let k = choose|k: int| 0 <= k < s.filter(pred).len() && s.filter(pred)[k] == x;
            if pred(s.last()) && k == s.filter(pred).len() - 1 {
                assert(s[s.len() - 1] == x);
            } else {
                assert(sub[k] == x);
            }
        }
        if pred(s.last()) {
            assert(s.filter(pred)[s.filter(pred).len() - 1] == s.last());
        }
    }
}

/// After the plan is carried out, a capture runs for exactly the wanted
/// sources that were running already or are known nodes.
pub proof fn lemma_meter_sync_reaches_desired(
    running: Seq<u32>,
    desired: Seq<u32>,
    available: Seq<u32>,
    stop: Seq<u32>,
    start: Seq<u32>,
    id: u32,
)
    requires
        stop == running.filter(|x: u32| !desired.contains(x)),
        forall|x: u32| start.contains(x) <==> should_start(running, desired, available, x),
    ensures
        ((running.contains(id) && !stop.contains(id)) || start.contains(id)) <==> (desired.contains(
            id,
        ) && (running.contains(id) || available.contains(id))),
        stop.contains(id) <==> should_stop(running, desired, id),
{
    lemma_filter_contains_iff(running, |x: u32| !desired.contains(x), id);
}

} // verus!
