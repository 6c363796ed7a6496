use vstd::prelude::*;
use crate::lookup::{distinct, lemma_pos_of, lemma_pos_at, lemma_distinct_remove};
use crate::model::{entries_unique, instance_of_param, param_of_instance, key_of, InstanceKeyView, InstanceView, ServiceKeyView};
use crate::raft::{apply_log, apply_spec, RaftReqView, apply_changes};
use crate::registry::{
    visible_of, query_result, has_instances, healthy_of,
    bump_each, removal_events, EventView, ChangeKind,
    metadata_sound,
    bump, ephemeral_of, load_all, load_one, lemma_bump, perpetual_of, revision_of,
    svc_keys, ServiceView, expired_count, index_of, inst_keys, is_expired, sniff_all, sniff_one, snapshot_of, sweep,
};

verus! {

/// The keys of the ephemeral instances.
pub open spec fn ephemeral_keys(s: Seq<InstanceView>) -> Set<InstanceKeyView> {
    Set::new(|k: InstanceKeyView| exists|i: int| 0 <= i < s.len() && s[i].ephemeral && s[i].key() == k)
}

/// The keys of the perpetual instances.
pub open spec fn perpetual_keys(s: Seq<InstanceView>) -> Set<InstanceKeyView> {
    Set::new(|k: InstanceKeyView| exists|i: int| 0 <= i < s.len() && !s[i].ephemeral && s[i].key() == k)
}

/// In a well-formed registry no key is both ephemeral and perpetual; every
/// registry operation keeps the registry well-formed.
pub proof fn lemma_partitions_disjoint(s: Seq<InstanceView>)
    requires
        distinct(inst_keys(s)),
    ensures
        ephemeral_keys(s).disjoint(perpetual_keys(s)),
{
    assert forall|k: InstanceKeyView| ephemeral_keys(s).contains(k) implies !perpetual_keys(s).contains(k) by {
        let i = choose|i: int| 0 <= i < s.len() && s[i].ephemeral && s[i].key() == k;
        if perpetual_keys(s).contains(k) {
            let j = choose|j: int| 0 <= j < s.len() && !s[j].ephemeral && s[j].key() == k;
            assert(inst_keys(s)[i] == inst_keys(s)[j]);
            if i < j {
                assert(inst_keys(s)[i] != inst_keys(s)[j]);
            } else {
                assert(inst_keys(s)[j] != inst_keys(s)[i]);
            }
        }
    }
}

proof fn lemma_sweep_subset(s: Seq<InstanceView>, now: i64, threshold: i64, budget: nat)
    ensures
        forall|x: InstanceView| sweep(s, now, threshold, budget).contains(x) ==> s.contains(x),
    decreases s.len(),
{
    if s.len() > 0 {
        let d = s.drop_last();
        if is_expired(s.last(), now, threshold) && budget > 0 {
            lemma_sweep_subset(d, now, threshold, (budget - 1) as nat);
            assert forall|x: InstanceView| sweep(s, now, threshold, budget).contains(x) implies s.contains(x) by {
                assert(sweep(d, now, threshold, (budget - 1) as nat).contains(x));
                assert(d.contains(x));
                let i = choose|i: int| 0 <= i < d.len() && d[i] == x;
                assert(s[i] == x);
            }
        } else {
            lemma_sweep_subset(d, now, threshold, budget);
            let r = sweep(d, now, threshold, budget);
            assert(sweep(s, now, threshold, budget) == r.push(s.last()));
            assert forall|x: InstanceView| sweep(s, now, threshold, budget).contains(x) implies s.contains(x) by {
                let i = choose|i: int| 0 <= i < r.push(s.last()).len() && r.push(s.last())[i] == x;
                if i < r.len() {
                    assert(r[i] == x);
                    assert(r.contains(x));
                    assert(d.contains(x));
                    let j = choose|j: int| 0 <= j < d.len() && d[j] == x;
                    assert(s[j] == x);
                } else {
                    assert(s[s.len() - 1] == x);
                }
            }
        }
    }
}

proof fn lemma_sweep_clean(s: Seq<InstanceView>, now: i64, threshold: i64, budget: nat)
    requires
        expired_count(s, now, threshold) <= budget,
    ensures
        forall|x: InstanceView| sweep(s, now, threshold, budget).contains(x) ==> !is_expired(x, now, threshold),
    decreases s.len(),
{
    if s.len() > 0 {
        let d = s.drop_last();
        if is_expired(s.last(), now, threshold) {
            lemma_sweep_clean(d, now, threshold, (budget - 1) as nat);
        } else {
            lemma_sweep_clean(d, now, threshold, budget);
            let r = sweep(d, now, threshold, budget);
            assert forall|x: InstanceView| r.push(s.last()).contains(x) implies !is_expired(x, now, threshold) by {
                let i = choose|i: int| 0 <= i < r.push(s.last()).len() && r.push(s.last())[i] == x;
                if i < r.len() {
                    assert(r.contains(x));
                }
            }
        }
    }
}

/// When one pass may remove every expired instance, an instance that had
/// expired at that pass is absent after it and after the pass that follows.
pub proof fn lemma_expired_absent(
    s: Seq<InstanceView>,
    now: i64,
    threshold: i64,
    budget: nat,
    next_now: i64,
    next_budget: nat,
    i: int,
)
    requires
        distinct(inst_keys(s)),
        expired_count(s, now, threshold) <= budget,
        0 <= i < s.len(),
        is_expired(s[i], now, threshold),
    ensures
        !inst_keys(sweep(s, now, threshold, budget)).contains(s[i].key()),
        !inst_keys(sweep(sweep(s, now, threshold, budget), next_now, threshold, next_budget)).contains(
            s[i].key(),
        ),
{
    let a = sweep(s, now, threshold, budget);
    let b = sweep(a, next_now, threshold, next_budget);
    lemma_sweep_subset(s, now, threshold, budget);
    lemma_sweep_clean(s, now, threshold, budget);
    lemma_sweep_subset(a, next_now, threshold, next_budget);
    if inst_keys(a).contains(s[i].key()) {
        let x = choose|x: int| 0 <= x < inst_keys(a).len() && inst_keys(a)[x] == s[i].key();
        assert(inst_keys(a).len() == a.len());
        assert(a.contains(a[x]));
        assert(s.contains(a[x]));
        let j = choose|j: int| 0 <= j < s.len() && s[j] == a[x];
        assert(inst_keys(s)[j] == inst_keys(s)[i]);
        assert(j == i);
    }
    if inst_keys(b).contains(s[i].key()) {
        let x = choose|x: int| 0 <= x < inst_keys(b).len() && inst_keys(b)[x] == s[i].key();
        assert(inst_keys(b).len() == b.len());
        assert(b.contains(b[x]));
        assert(a.contains(b[x]));
        let y = choose|y: int| 0 <= y < a.len() && a[y] == b[x];
        assert(inst_keys(a)[y] == s[i].key());
    }
}

proof fn lemma_sniff_one_keys(s: Seq<InstanceView>, k: InstanceKeyView, healthy: bool)
    ensures
        inst_keys(sniff_one(s, k, healthy)) == inst_keys(s),
        forall|j: int| 0 <= j < s.len() && j != index_of(s, k) ==> sniff_one(s, k, healthy)[j] == s[j],
{
    let p = index_of(s, k);
    lemma_pos_of(inst_keys(s), k);
    if p >= 0 && !s[p].ephemeral && s[p].healthy != healthy {
        assert(inst_keys(sniff_one(s, k, healthy)) =~= inst_keys(s));
    }
}

/// After a probe outcome for `host` is applied to a set of services, each of
/// their perpetual instances at `host` is healthy exactly when the probe succeeded.
pub proof fn lemma_sniff_converges(
    s: Seq<InstanceView>,
    keys: Seq<ServiceKeyView>,
    host: (Seq<char>, u32),
    healthy: bool,
    n: int,
)
    requires
        0 <= n < keys.len(),
    ensures
        ({
            let t = sniff_all(s, keys, host, healthy);
            let p = index_of(t, key_of(keys[n], host.0, host.1));
            p >= 0 && !t[p].ephemeral ==> t[p].healthy == healthy
        }),
    decreases keys.len(),
{
    let d = keys.drop_last();
    let r = sniff_all(s, d, host, healthy);
    let kl = key_of(keys.last(), host.0, host.1);
    let kn = key_of(keys[n], host.0, host.1);
    let t = sniff_one(r, kl, healthy);
    lemma_sniff_one_keys(r, kl, healthy);
    lemma_pos_of(inst_keys(r), kl);
    lemma_pos_of(inst_keys(r), kn);
    assert(inst_keys(t) == inst_keys(r));
    if n < keys.len() - 1 && kn != kl {
        assert(d[n] == keys[n]);
        lemma_sniff_converges(s, d, host, healthy, n);
        assert(index_of(t, kn) == index_of(r, kn));
        if index_of(r, kn) >= 0 {
            assert(index_of(r, kn) != index_of(r, kl));
        }
    }
}

proof fn lemma_apply_keys(s: Seq<InstanceView>, req: RaftReqView)
    requires
        distinct(inst_keys(s)),
    ensures
        distinct(inst_keys(apply_spec(s, req))),
{
    if apply_changes(s, req) {
        match req {
            RaftReqView::Register(p) => {
                crate::registry::NamingRegistry::lemma_upsert_keys(s, crate::model::instance_of_param(p));
            },
            RaftReqView::Update(p) => {
                crate::registry::NamingRegistry::lemma_upsert_keys(s, crate::model::instance_of_param(p));
            },
            RaftReqView::Remove(k) => {
                lemma_pos_of(inst_keys(s), k);
                lemma_distinct_remove(inst_keys(s), index_of(s, k));
                assert(inst_keys(s.remove(index_of(s, k))) =~= inst_keys(s).remove(index_of(s, k)));
            },
        }
    }
}

/// Applying a request a second time, as a replay of the log does, changes nothing.
pub proof fn lemma_replay_idempotent(s: Seq<InstanceView>, req: RaftReqView)
    requires
        distinct(inst_keys(s)),
    ensures
        apply_spec(apply_spec(s, req), req) == apply_spec(s, req),
{
    let t = apply_spec(s, req);
    if apply_changes(s, req) {
        match req {
            RaftReqView::Register(p) => {
                let v = crate::model::instance_of_param(p);
                crate::registry::NamingRegistry::lemma_upsert_keys(s, v);
                lemma_pos_of(inst_keys(s), v.key());
                if index_of(s, v.key()) < 0 {
                    lemma_pos_at(inst_keys(t), v.key(), s.len() as int);
                } else {
                    assert(index_of(t, v.key()) == index_of(s, v.key()));
                }
                assert(!apply_changes(t, req));
            },
            RaftReqView::Update(p) => {
                let v = crate::model::instance_of_param(p);
                crate::registry::NamingRegistry::lemma_upsert_keys(s, v);
                lemma_pos_of(inst_keys(s), v.key());
                assert(index_of(t, v.key()) == index_of(s, v.key()));
                assert(!apply_changes(t, req));
            },
            RaftReqView::Remove(k) => {
                let i = index_of(s, k);
                lemma_pos_of(inst_keys(s), k);
                lemma_distinct_remove(inst_keys(s), i);
                assert(inst_keys(t) =~= inst_keys(s).remove(i));
                lemma_pos_of(inst_keys(t), k);
                assert(!apply_changes(t, req));
            },
        }
    }
}

/// Replaying a whole log once more, request by request right after each was
/// applied, gives the same instances as applying it once.
pub open spec fn apply_log_twice(s: Seq<InstanceView>, log: Seq<RaftReqView>) -> Seq<InstanceView>
    decreases log.len(),
{
    if log.len() == 0 {
        s
    } else {
        let t = apply_log_twice(s, log.drop_last());
        apply_spec(apply_spec(t, log.last()), log.last())
    }
}

/// A log whose every request is delivered twice leaves the same instances,
/// and so the same snapshot, as the log delivered once.
pub proof fn lemma_log_replay(s: Seq<InstanceView>, log: Seq<RaftReqView>)
    requires
        distinct(inst_keys(s)),
    ensures
        apply_log_twice(s, log) == apply_log(s, log),
        snapshot_of(apply_log_twice(s, log)) == snapshot_of(apply_log(s, log)),
        distinct(inst_keys(apply_log(s, log))),
    decreases log.len(),
{
    if log.len() > 0 {
        lemma_log_replay(s, log.drop_last());
        let t = apply_log(s, log.drop_last());
        lemma_replay_idempotent(t, log.last());
        lemma_apply_keys(t, log.last());
    }
}

/// Each change of a service gives it a revision above the one it had, so the
/// revisions that its subscribers see rise strictly (until the counter is full).
pub proof fn lemma_revision_rises(ss: Seq<ServiceView>, k: ServiceKeyView, other: ServiceKeyView)
    requires
        distinct(svc_keys(ss)),
        revision_of(ss, k) < u64::MAX,
    ensures
        revision_of(bump(ss, k), k) > revision_of(ss, k),
        other != k ==> revision_of(bump(ss, k), other) == revision_of(ss, other),
{
    lemma_bump(ss, k, other);
}

/// An instance as it comes back from its snapshot record.
pub open spec fn reloaded(q: Seq<InstanceView>) -> Seq<InstanceView> {
    q.map_values(|v: InstanceView| instance_of_param(param_of_instance(v)))
}

proof fn lemma_ephemeral_members(s: Seq<InstanceView>)
    ensures
        forall|x: InstanceView| #[trigger] ephemeral_of(s).contains(x) ==> x.ephemeral && s.contains(x),
    decreases s.len(),
{
    if s.len() > 0 {
        let d = s.drop_last();
        lemma_ephemeral_members(d);
        let e = ephemeral_of(s);
        let r = ephemeral_of(d);
        if s.last().ephemeral {
            assert(e == r.push(s.last()));
        } else {
            assert(e == r);
        }
        assert forall|x: InstanceView| e.contains(x) implies x.ephemeral && s.contains(x) by {
            let i = choose|i: int| 0 <= i < e.len() && e[i] == x;
            if i < r.len() {
                assert(r[i] == x);
                assert(r.contains(x));
                assert(d.contains(x));
                let j = choose|j: int| 0 <= j < d.len() && d[j] == x;
                assert(s[j] == x);
            } else {
                assert(s[s.len() - 1] == x);
            }
        }
    }
}

proof fn lemma_perpetual_members(s: Seq<InstanceView>)
    ensures
        forall|x: InstanceView| #[trigger] perpetual_of(s).contains(x) ==> s.contains(x),
    decreases s.len(),
{
    if s.len() > 0 {
        let d = s.drop_last();
        lemma_perpetual_members(d);
        let e = perpetual_of(s);
        let r = perpetual_of(d);
        if !s.last().ephemeral {
            assert(e == r.push(s.last()));
        } else {
            assert(e == r);
        }
        assert forall|x: InstanceView| e.contains(x) implies s.contains(x) by {
            let i = choose|i: int| 0 <= i < e.len() && e[i] == x;
            if i < r.len() {
                assert(r[i] == x);
                assert(r.contains(x));
                assert(d.contains(x));
                let j = choose|j: int| 0 <= j < d.len() && d[j] == x;
                assert(s[j] == x);
            } else {
                assert(s[s.len() - 1] == x);
            }
        }
    }
}

proof fn lemma_snapshot_concat(a: Seq<InstanceView>, b: Seq<InstanceView>)
    ensures
        snapshot_of(a + b) == snapshot_of(a) + snapshot_of(b),
    decreases b.len(),
{
    if b.len() == 0 {
        assert(a + b =~= a);
        assert(snapshot_of(a) + snapshot_of(b) =~= snapshot_of(a));
    } else {
        lemma_snapshot_concat(a, b.drop_last());
        assert((a + b).drop_last() =~= a + b.drop_last());
        assert((a + b).last() == b.last());
        if !b.last().ephemeral {
            assert(snapshot_of(a) + snapshot_of(b) =~= (snapshot_of(a) + snapshot_of(b.drop_last())).push(param_of_instance(b.last())));
        }
    }
}

proof fn lemma_snapshot_all_ephemeral(e: Seq<InstanceView>)
    requires
        forall|i: int| 0 <= i < e.len() ==> e[i].ephemeral,
    ensures
        snapshot_of(e) == Seq::<crate::model::RegisterParamView>::empty(),
    decreases e.len(),
{
    if e.len() > 0 {
        lemma_snapshot_all_ephemeral(e.drop_last());
    }
}

proof fn lemma_snapshot_reloaded(q: Seq<InstanceView>)
    ensures
        snapshot_of(reloaded(q)) == snapshot_of(q),
    decreases q.len(),
{
    if q.len() > 0 {
        lemma_snapshot_reloaded(q.drop_last());
        assert(reloaded(q).drop_last() =~= reloaded(q.drop_last()));
    }
}

proof fn lemma_snapshot_perpetual(s: Seq<InstanceView>)
    ensures
        snapshot_of(perpetual_of(s)) == snapshot_of(s),
    decreases s.len(),
{
    if s.len() > 0 {
        lemma_snapshot_perpetual(s.drop_last());
        if !s.last().ephemeral {
            let p = perpetual_of(s.drop_last()).push(s.last());
            assert(p.drop_last() =~= perpetual_of(s.drop_last()));
        }
    }
}

proof fn lemma_load_prefix(s: Seq<InstanceView>, n: int)
    requires
        distinct(inst_keys(s)),
        metadata_sound(s),
        0 <= n <= s.len(),
    ensures
        load_all(ephemeral_of(s), snapshot_of(s.take(n))) == Some(
            ephemeral_of(s) + reloaded(perpetual_of(s.take(n))),
        ),
    decreases n,
{
    let e = ephemeral_of(s);
    if n == 0 {
        assert(s.take(0) =~= Seq::<InstanceView>::empty());
        assert(e + reloaded(perpetual_of(s.take(0))) =~= e);
    } else {
        lemma_load_prefix(s, n - 1);
        let t1 = s.take(n);
        let t0 = s.take(n - 1);
        assert(t1.drop_last() =~= t0);
        assert(t1.last() == s[n - 1]);
        if !s[n - 1].ephemeral {
            let recs = snapshot_of(t1);
            assert(recs.drop_last() =~= snapshot_of(t0));
            let p0 = perpetual_of(t0);
            let c = e + reloaded(p0);
            let v = instance_of_param(param_of_instance(s[n - 1]));
            let key = s[n - 1].key();
            assert(v.key() == key);
            lemma_ephemeral_members(s);
            lemma_perpetual_members(t0);
            assert(inst_keys(s)[n - 1] == key);
            if inst_keys(c).contains(key) {
                let a = choose|a: int| 0 <= a < inst_keys(c).len() && inst_keys(c)[a] == key;
                if a < e.len() {
                    assert(c[a] == e[a]);
                    assert(e.contains(e[a]));
                    assert(s.contains(e[a]));
                    let j = choose|j: int| 0 <= j < s.len() && s[j] == e[a];
                    assert(inst_keys(s)[j] == key);
                    assert(j != n - 1);
                } else {
                    let b = a - e.len();
                    assert(c[a] == reloaded(p0)[b]);
                    assert(p0.contains(p0[b]));
                    assert(t0.contains(p0[b]));
                    let j = choose|j: int| 0 <= j < t0.len() && t0[j] == p0[b];
                    assert(inst_keys(s)[j] == key);
                }
            }
            lemma_pos_of(inst_keys(c), key);
            assert(entries_unique(s[n - 1].metadata));
            assert(load_one(c, param_of_instance(s[n - 1])) == Some(c.push(v)));
            assert(perpetual_of(t1) == p0.push(s[n - 1]));
            assert(c.push(v) =~= e + reloaded(p0.push(s[n - 1])));
        }
    }
}

/// Loading the snapshot of a registry (onto its ephemeral instances) succeeds,
/// and building a snapshot again gives the same records in the same order.
pub proof fn lemma_snapshot_round_trip(s: Seq<InstanceView>)
    requires
        distinct(inst_keys(s)),
        metadata_sound(s),
    ensures
        load_all(ephemeral_of(s), snapshot_of(s)) is Some,
        snapshot_of(load_all(ephemeral_of(s), snapshot_of(s))->Some_0) == snapshot_of(s),
{
    lemma_load_prefix(s, s.len() as int);
    assert(s.take(s.len() as int) =~= s);
    let e = ephemeral_of(s);
    let p = perpetual_of(s);
    lemma_snapshot_concat(e, reloaded(p));
    lemma_ephemeral_members(s);
    assert forall|i: int| 0 <= i < e.len() implies e[i].ephemeral by {
        assert(e.contains(e[i]));
    }
    lemma_snapshot_all_ephemeral(e);
    lemma_snapshot_reloaded(p);
    lemma_snapshot_perpetual(s);
    assert(Seq::<crate::model::RegisterParamView>::empty() + snapshot_of(s) =~= snapshot_of(s));
}

proof fn lemma_bump_each_prefix(ss: Seq<ServiceView>, g: Seq<InstanceView>, a: int, b: int, k: ServiceKeyView)
    requires
        distinct(svc_keys(ss)),
        0 <= a <= b <= g.len(),
    ensures
        distinct(svc_keys(bump_each(ss, g.take(b)))),
        revision_of(bump_each(ss, g.take(b)), k) >= revision_of(bump_each(ss, g.take(a)), k),
    decreases b,
{
    if b == 0 {
        assert(g.take(0) =~= Seq::<InstanceView>::empty());
    } else {
        assert(g.take(b).drop_last() =~= g.take(b - 1));
        if a == b {
            lemma_bump_each_prefix(ss, g, a - 1, b - 1, k);
            lemma_bump(bump_each(ss, g.take(b - 1)), g[b - 1].service_key(), k);
        } else {
            lemma_bump_each_prefix(ss, g, a, b - 1, k);
            lemma_bump(bump_each(ss, g.take(b - 1)), g[b - 1].service_key(), k);
        }
    }
}

proof fn lemma_removal_event_at(ss: Seq<ServiceView>, g: Seq<InstanceView>, x: int)
    requires
        0 <= x < g.len(),
    ensures
        removal_events(ss, g).len() == g.len(),
        removal_events(ss, g)[x] == (EventView {
            service: g[x].service_key(),
            revision: revision_of(bump_each(ss, g.take(x + 1)), g[x].service_key()),
            kind: ChangeKind::Removed,
            host: (g[x].ip, g[x].port),
        }),
    decreases g.len(),
{
    if x == g.len() - 1 {
        assert(g.take(x + 1) =~= g);
        if g.len() > 1 {
            lemma_removal_event_at(ss, g.drop_last(), 0);
        }
    } else {
        lemma_removal_event_at(ss, g.drop_last(), x);
        assert(g.drop_last().take(x + 1) =~= g.take(x + 1));
    }
}

/// Two removal events of one expiry pass for the same service carry strictly
/// rising revisions, in the order the events are returned (until the
/// service's revision counter is full).
pub proof fn lemma_removal_revisions_rise(ss: Seq<ServiceView>, gone: Seq<InstanceView>, x: int, y: int)
    requires
        distinct(svc_keys(ss)),
        0 <= x < y < gone.len(),
        gone[x].service_key() == gone[y].service_key(),
        revision_of(bump_each(ss, gone), gone[y].service_key()) < u64::MAX,
    ensures
        removal_events(ss, gone)[x].revision < removal_events(ss, gone)[y].revision,
{
    let k = gone[y].service_key();
    lemma_removal_event_at(ss, gone, x);
    lemma_removal_event_at(ss, gone, y);
    lemma_bump_each_prefix(ss, gone, x + 1, y, k);
    lemma_bump_each_prefix(ss, gone, y + 1, gone.len() as int, k);
    lemma_bump_each_prefix(ss, gone, y, y + 1, k);
    assert(gone.take(gone.len() as int) =~= gone);
    assert(gone.take(y + 1).drop_last() =~= gone.take(y));
    lemma_bump(bump_each(ss, gone.take(y)), k, k);
}

proof fn lemma_visible_members(s: Seq<InstanceView>, k: ServiceKeyView, clusters: Seq<Seq<char>>)
    ensures
        forall|i: int| 0 <= i < visible_of(s, k, clusters).len() ==> #[trigger] visible_of(s, k, clusters)[i].enabled
            && visible_of(s, k, clusters)[i].service_key() == k,
        !has_instances(s, k) ==> visible_of(s, k, clusters).len() == 0,
    decreases s.len(),
{
    if s.len() > 0 {
        lemma_visible_members(s.drop_last(), k, clusters);
        let r = visible_of(s.drop_last(), k, clusters);
        let v = visible_of(s, k, clusters);
        assert forall|i: int| 0 <= i < v.len() implies #[trigger] v[i].enabled && v[i].service_key() == k by {
            if i < r.len() {
                assert(v[i] == r[i]);
            }
        }
        if !has_instances(s, k) {
            assert forall|i: int| 0 <= i < s.drop_last().len() implies s.drop_last()[i].service_key() != k by {
                assert(s[i] == s.drop_last()[i]);
            }
            assert(!has_instances(s.drop_last(), k));
            assert(s[s.len() - 1].service_key() != k);
        }
    }
}

proof fn lemma_healthy_subset(m: Seq<InstanceView>)
    ensures
        forall|i: int| 0 <= i < healthy_of(m).len() ==> m.contains(#[trigger] healthy_of(m)[i]),
        healthy_of(m).len() <= m.len(),
    decreases m.len(),
{
    if m.len() > 0 {
        lemma_healthy_subset(m.drop_last());
        let r = healthy_of(m.drop_last());
        assert forall|i: int| 0 <= i < healthy_of(m).len() implies m.contains(#[trigger] healthy_of(m)[i]) by {
            if i < r.len() {
                assert(healthy_of(m)[i] == r[i]);
                assert(m.drop_last().contains(r[i]));
                let j = choose|j: int| 0 <= j < m.drop_last().len() && m.drop_last()[j] == r[i];
                assert(m[j] == r[i]);
            } else {
                assert(healthy_of(m)[i] == m[m.len() - 1]);
            }
        }
    }
}

/// A query returns only enabled instances of the service asked for, so a
/// disabled instance, though stored, is never returned; and a service with no
/// instance gives an empty list.
pub proof fn lemma_query_shape(
    s: Seq<InstanceView>,
    k: ServiceKeyView,
    clusters: Seq<Seq<char>>,
    healthy_only: bool,
    threshold: u32,
)
    ensures
        forall|i: int| 0 <= i < query_result(s, k, clusters, healthy_only, threshold).len()
            ==> (#[trigger] query_result(s, k, clusters, healthy_only, threshold)[i]).enabled
            && query_result(s, k, clusters, healthy_only, threshold)[i].service_key() == k,
        !has_instances(s, k) ==> query_result(s, k, clusters, healthy_only, threshold).len() == 0,
{
    let m = visible_of(s, k, clusters);
    lemma_visible_members(s, k, clusters);
    lemma_healthy_subset(m);
    let q = query_result(s, k, clusters, healthy_only, threshold);
    assert forall|i: int| 0 <= i < q.len() implies (#[trigger] q[i]).enabled && q[i].service_key() == k by {
        if q == healthy_of(m) {
            assert(m.contains(healthy_of(m)[i]));
            let j = choose|j: int| 0 <= j < m.len() && m[j] == healthy_of(m)[i];
            assert(m[j].enabled);
        } else {
            assert(m[i].enabled);
        }
    }
}

} // verus!
