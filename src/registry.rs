use vstd::prelude::*;
use crate::lookup::{pos_of, distinct, lemma_pos_of, lemma_pos_at, lemma_distinct_push, lemma_distinct_remove};
use crate::model::{
    entries_unique, has_unique_keys,
    contains_name, str_views,
    instance_of_param, param_of_instance, InstanceRegisterParam, RegisterParamView, key_of, Instance, InstanceView, InstanceKey, InstanceKeyView, InstanceShortKey, ServiceKey,
    ServiceKeyView,
};

verus! {

/// The kinds of failure of registry operations.
#[derive(PartialEq, Eq, Structural, Clone, Copy, Debug)]
pub enum NamingError {
    NotFound,
    InvariantViolation,
    Unavailable,
    Timeout,
    Forbidden,
    ProbeFailed,
    DecodeError,
    EncodeError,
}

/// What a change did to an instance of a service.
#[derive(PartialEq, Eq, Structural, Clone, Copy, Debug)]
pub enum ChangeKind {
    Added,
    Updated,
    Removed,
    HealthChanged,
}

/// A change of a service, stamped with the service's new revision, for its subscribers.
#[derive(Clone, Debug)]
pub struct ChangeEvent {
    pub service: ServiceKey,
    pub revision: u64,
    pub kind: ChangeKind,
    pub host: InstanceShortKey,
}

/// The abstract value of a change event.
pub struct EventView {
    pub service: ServiceKeyView,
    pub revision: u64,
    pub kind: ChangeKind,
    pub host: (Seq<char>, u32),
}

impl View for ChangeEvent {
    type V = EventView;

    open spec fn view(&self) -> EventView {
        EventView { service: self.service@, revision: self.revision, kind: self.kind, host: self.host@ }
    }
}

pub open spec fn event_views(v: Seq<ChangeEvent>) -> Seq<EventView> {
    v.map_values(|e: ChangeEvent| e@)
}

/// The abstract state of a service.
pub struct ServiceView {
    pub key: ServiceKeyView,
    pub revision: u64,
    pub protect_threshold: u32,
    pub subscribers: Seq<u64>,
    pub idle_since: Option<i64>,
}

#[derive(Debug)]
pub struct ServiceState {
    key: ServiceKey,
    revision: u64,
    protect_threshold: u32,
    subscribers: Vec<u64>,
    idle_since: Option<i64>,
}

impl View for ServiceState {
    type V = ServiceView;

    closed spec fn view(&self) -> ServiceView {
        ServiceView {
            key: self.key@,
            revision: self.revision,
            protect_threshold: self.protect_threshold,
            subscribers: self.subscribers@,
            idle_since: self.idle_since,
        }
    }
}

pub open spec fn svc_views(v: Seq<ServiceState>) -> Seq<ServiceView> {
    v.map_values(|x: ServiceState| x@)
}

pub open spec fn inst_keys(s: Seq<InstanceView>) -> Seq<InstanceKeyView> {
    s.map_values(|v: InstanceView| v.key())
}

pub open spec fn svc_keys(ss: Seq<ServiceView>) -> Seq<ServiceKeyView> {
    ss.map_values(|v: ServiceView| v.key)
}

/// Where the instance with key `k` stands, or `-1`.
pub open spec fn index_of(s: Seq<InstanceView>, k: InstanceKeyView) -> int {
    pos_of(inst_keys(s), k)
}

/// Where the service with key `k` stands, or `-1`.
pub open spec fn svc_index(ss: Seq<ServiceView>, k: ServiceKeyView) -> int {
    pos_of(svc_keys(ss), k)
}

pub open spec fn next_revision(r: u64) -> u64 {
    if r < u64::MAX {
        (r + 1) as u64
    } else {
        r
    }
}

/// The revision of a service; a service that was never changed is at zero.
pub open spec fn revision_of(ss: Seq<ServiceView>, k: ServiceKeyView) -> u64 {
    let j = svc_index(ss, k);
    if j < 0 {
        0
    } else {
        ss[j].revision
    }
}

/// The protect threshold of a service, in percent.
pub open spec fn threshold_of(ss: Seq<ServiceView>, k: ServiceKeyView) -> u32 {
    let j = svc_index(ss, k);
    if j < 0 {
        0
    } else {
        ss[j].protect_threshold
    }
}

pub open spec fn subscribers_of(ss: Seq<ServiceView>, k: ServiceKeyView) -> Seq<u64> {
    let j = svc_index(ss, k);
    if j < 0 {
        Seq::empty()
    } else {
        ss[j].subscribers
    }
}

pub open spec fn fresh_service(k: ServiceKeyView) -> ServiceView {
    ServiceView { key: k, revision: 0, protect_threshold: 0, subscribers: Seq::empty(), idle_since: None }
}

/// The services with `k` present, created at revision zero when it was absent.
pub open spec fn ensure_service(ss: Seq<ServiceView>, k: ServiceKeyView) -> Seq<ServiceView> {
    if svc_index(ss, k) < 0 {
        ss.push(fresh_service(k))
    } else {
        ss
    }
}

/// The services after a visible change of service `k`: its revision advances.
pub open spec fn bump(ss: Seq<ServiceView>, k: ServiceKeyView) -> Seq<ServiceView> {
    let t = ensure_service(ss, k);
    let j = svc_index(t, k);
    t.update(
        j,
        ServiceView {
            key: t[j].key,
            revision: next_revision(t[j].revision),
            protect_threshold: t[j].protect_threshold,
            subscribers: t[j].subscribers,
            idle_since: None,
        },
    )
}

/// Every instance's metadata is a mapping.
pub open spec fn metadata_sound(s: Seq<InstanceView>) -> bool {
    forall|i: int| 0 <= i < s.len() ==> entries_unique(#[trigger] s[i].metadata)
}

/// `v` cannot be stored: its metadata repeats a key, or the instance at its
/// key holds the other polarity.
pub open spec fn refused(s: Seq<InstanceView>, v: InstanceView) -> bool {
    !entries_unique(v.metadata) || polarity_conflict(s, v)
}

/// The instance at `k` holds the other polarity than `v`.
pub open spec fn polarity_conflict(s: Seq<InstanceView>, v: InstanceView) -> bool {
    let p = index_of(s, v.key());
    p >= 0 && s[p].ephemeral != v.ephemeral
}

/// `v` is perpetual and no newer than the perpetual instance stored at its key.
pub open spec fn stale_perpetual(s: Seq<InstanceView>, v: InstanceView) -> bool {
    let p = index_of(s, v.key());
    p >= 0 && !v.ephemeral && !s[p].ephemeral && v.last_modified_millis
        <= s[p].last_modified_millis
}

/// An ephemeral instance carries the time of its last heartbeat.
pub open spec fn stamped(v: InstanceView, now: i64) -> InstanceView {
    if v.ephemeral {
        InstanceView { last_heartbeat_millis: now, ..v }
    } else {
        v
    }
}

/// `v` replaces the instance with its key, or joins at the end.
pub open spec fn upsert(s: Seq<InstanceView>, v: InstanceView) -> Seq<InstanceView> {
    let p = index_of(s, v.key());
    if p < 0 {
        s.push(v)
    } else {
        s.update(p, v)
    }
}

pub open spec fn is_visible(v: InstanceView, k: ServiceKeyView, clusters: Seq<Seq<char>>) -> bool {
    v.service_key() == k && v.enabled && (clusters.len() == 0 || clusters.contains(v.cluster_name))
}

/// The enabled instances of service `k` in the given clusters (all clusters when none is given).
pub open spec fn visible_of(s: Seq<InstanceView>, k: ServiceKeyView, clusters: Seq<Seq<char>>) -> Seq<
    InstanceView,
>
    decreases s.len(),
{
    if s.len() == 0 {
        s
    } else {
        let r = visible_of(s.drop_last(), k, clusters);
        if is_visible(s.last(), k, clusters) {
            r.push(s.last())
        } else {
            r
        }
    }
}

/// The healthy instances of `s`.
pub open spec fn healthy_of(s: Seq<InstanceView>) -> Seq<InstanceView>
    decreases s.len(),
{
    if s.len() == 0 {
        s
    } else {
        let r = healthy_of(s.drop_last());
        if s.last().healthy {
            r.push(s.last())
        } else {
            r
        }
    }
}

/// The answer to a query: the visible instances, or only the healthy ones when
/// these are asked for and make up at least the protect threshold (in percent).
pub open spec fn query_result(
    s: Seq<InstanceView>,
    k: ServiceKeyView,
    clusters: Seq<Seq<char>>,
    healthy_only: bool,
    threshold: u32,
) -> Seq<InstanceView> {
    let m = visible_of(s, k, clusters);
    let h = healthy_of(m);
    if healthy_only && h.len() * 100 >= threshold * m.len() {
        h
    } else {
        m
    }
}

pub open spec fn inst_views(v: Seq<Instance>) -> Seq<InstanceView> {
    v.map_values(|i: Instance| i@)
}

/// The perpetual instances, in order.
pub open spec fn perpetual_of(s: Seq<InstanceView>) -> Seq<InstanceView>
    decreases s.len(),
{
    if s.len() == 0 {
        s
    } else if s.last().ephemeral {
        perpetual_of(s.drop_last())
    } else {
        perpetual_of(s.drop_last()).push(s.last())
    }
}

/// The ephemeral instances, in order.
pub open spec fn ephemeral_of(s: Seq<InstanceView>) -> Seq<InstanceView>
    decreases s.len(),
{
    if s.len() == 0 {
        s
    } else if s.last().ephemeral {
        ephemeral_of(s.drop_last()).push(s.last())
    } else {
        ephemeral_of(s.drop_last())
    }
}

/// The records of a snapshot: one for each perpetual instance, in order.
pub open spec fn snapshot_of(s: Seq<InstanceView>) -> Seq<RegisterParamView>
    decreases s.len(),
{
    if s.len() == 0 {
        Seq::empty()
    } else if s.last().ephemeral {
        snapshot_of(s.drop_last())
    } else {
        snapshot_of(s.drop_last()).push(param_of_instance(s.last()))
    }
}

/// One snapshot record loaded: it must be perpetual and must not meet an
/// ephemeral instance; a later record for a key replaces an earlier one.
pub open spec fn load_one(c: Seq<InstanceView>, p: RegisterParamView) -> Option<Seq<InstanceView>> {
    let v = instance_of_param(p);
    let i = index_of(c, v.key());
    if p.ephemeral || !entries_unique(p.metadata) {
        None
    } else if i < 0 {
        Some(c.push(v))
    } else if c[i].ephemeral {
        None
    } else {
        Some(c.update(i, v))
    }
}

/// Snapshot records loaded in order onto `base`; `None` when one is refused.
pub open spec fn load_all(base: Seq<InstanceView>, recs: Seq<RegisterParamView>) -> Option<
    Seq<InstanceView>,
>
    decreases recs.len(),
{
    if recs.len() == 0 {
        Some(base)
    } else {
        match load_all(base, recs.drop_last()) {
            Some(c) => load_one(c, recs.last()),
            None => None,
        }
    }
}

/// The services with the service of each record present.
pub open spec fn ensure_each(ss: Seq<ServiceView>, recs: Seq<RegisterParamView>) -> Seq<ServiceView>
    decreases recs.len(),
{
    if recs.len() == 0 {
        ss
    } else {
        ensure_service(
            ensure_each(ss, recs.drop_last()),
            (recs.last().namespace_id, recs.last().group_name, recs.last().service_name),
        )
    }
}

pub open spec fn param_views(v: Seq<InstanceRegisterParam>) -> Seq<RegisterParamView> {
    v.map_values(|p: InstanceRegisterParam| p@)
}

/// Some instance belongs to service `k`.
pub open spec fn has_instances(s: Seq<InstanceView>, k: ServiceKeyView) -> bool {
    exists|i: int| 0 <= i < s.len() && s[i].service_key() == k
}

/// A service after an idle pass, or `None` when the pass removes it: a
/// service with instances is not idle; one without is marked idle from
/// `now`, and removed once it has been idle for `timeout` with no subscriber.
pub open spec fn idle_step(sv: ServiceView, busy: bool, now: i64, timeout: i64) -> Option<ServiceView> {
    if busy {
        Some(ServiceView { idle_since: None, ..sv })
    } else {
        match sv.idle_since {
            None => Some(ServiceView { idle_since: Some(now), ..sv }),
            Some(t) => if now - t >= timeout && sv.subscribers.len() == 0 {
                None
            } else {
                Some(sv)
            },
        }
    }
}

/// The services after an idle pass over all of them, in order.
pub open spec fn collect_idle(ss: Seq<ServiceView>, s: Seq<InstanceView>, now: i64, timeout: i64) -> Seq<
    ServiceView,
>
    decreases ss.len(),
{
    if ss.len() == 0 {
        ss
    } else {
        let r = collect_idle(ss.drop_last(), s, now, timeout);
        match idle_step(ss.last(), has_instances(s, ss.last().key), now, timeout) {
            Some(v) => r.push(v),
            None => r,
        }
    }
}

/// An ephemeral instance whose last heartbeat is more than `threshold` before `now`.
pub open spec fn is_expired(v: InstanceView, now: i64, threshold: i64) -> bool {
    v.ephemeral && now - v.last_heartbeat_millis > threshold
}

/// The instances after one expiry pass that removes at most `budget` expired
/// instances, taking them from the end.
pub open spec fn sweep(s: Seq<InstanceView>, now: i64, threshold: i64, budget: nat) -> Seq<
    InstanceView,
>
    decreases s.len(),
{
    if s.len() == 0 {
        s
    } else if is_expired(s.last(), now, threshold) && budget > 0 {
        sweep(s.drop_last(), now, threshold, (budget - 1) as nat)
    } else {
        sweep(s.drop_last(), now, threshold, budget).push(s.last())
    }
}

/// The number of expired instances.
pub open spec fn expired_count(s: Seq<InstanceView>, now: i64, threshold: i64) -> nat
    decreases s.len(),
{
    if s.len() == 0 {
        0
    } else {
        expired_count(s.drop_last(), now, threshold) + if is_expired(s.last(), now, threshold) {
            1nat
        } else {
            0nat
        }
    }
}

/// One probe outcome applied to the perpetual instance with key `k`.
pub open spec fn sniff_one(s: Seq<InstanceView>, k: InstanceKeyView, healthy: bool) -> Seq<
    InstanceView,
> {
    let p = index_of(s, k);
    if p >= 0 && !s[p].ephemeral && s[p].healthy != healthy {
        s.update(p, InstanceView { healthy: healthy, ..s[p] })
    } else {
        s
    }
}

/// A probe outcome of `host` applied, service by service, in the order given.
pub open spec fn sniff_all(
    s: Seq<InstanceView>,
    keys: Seq<ServiceKeyView>,
    host: (Seq<char>, u32),
    healthy: bool,
) -> Seq<InstanceView>
    decreases keys.len(),
{
    if keys.len() == 0 {
        s
    } else {
        sniff_one(
            sniff_all(s, keys.drop_last(), host, healthy),
            key_of(keys.last(), host.0, host.1),
            healthy,
        )
    }
}

pub open spec fn svc_key_views(v: Seq<ServiceKey>) -> Seq<ServiceKeyView> {
    v.map_values(|k: ServiceKey| k@)
}

/// Revisions never go back.
pub open spec fn revisions_grow(a: Seq<ServiceView>, b: Seq<ServiceView>) -> bool {
    forall|k: ServiceKeyView| #[trigger] revision_of(b, k) >= revision_of(a, k)
}

/// The instances that an expiry pass removes, in the order it removes them
/// (from the end).
pub open spec fn swept_out(s: Seq<InstanceView>, now: i64, threshold: i64, budget: nat) -> Seq<
    InstanceView,
>
    decreases s.len(),
{
    if s.len() == 0 {
        s
    } else if is_expired(s.last(), now, threshold) && budget > 0 {
        seq![s.last()] + swept_out(s.drop_last(), now, threshold, (budget - 1) as nat)
    } else {
        swept_out(s.drop_last(), now, threshold, budget)
    }
}

/// The services after one change of the service of each instance of `gone`, in order.
pub open spec fn bump_each(ss: Seq<ServiceView>, gone: Seq<InstanceView>) -> Seq<ServiceView>
    decreases gone.len(),
{
    if gone.len() == 0 {
        ss
    } else {
        bump(bump_each(ss, gone.drop_last()), gone.last().service_key())
    }
}

/// The events of removing the instances of `gone` in order: each with the
/// revision its service reached by that removal.
pub open spec fn removal_events(ss: Seq<ServiceView>, gone: Seq<InstanceView>) -> Seq<EventView>
    decreases gone.len(),
{
    if gone.len() == 0 {
        Seq::empty()
    } else {
        removal_events(ss, gone.drop_last()).push(
            EventView {
                service: gone.last().service_key(),
                revision: revision_of(bump_each(ss, gone), gone.last().service_key()),
                kind: ChangeKind::Removed,
                host: (gone.last().ip, gone.last().port),
            },
        )
    }
}

/// The probe outcome changes the health of the perpetual instance with key `k`.
pub open spec fn sniff_changes(s: Seq<InstanceView>, k: InstanceKeyView, healthy: bool) -> bool {
    let p = index_of(s, k);
    p >= 0 && !s[p].ephemeral && s[p].healthy != healthy
}

/// The services after a probe outcome: a service changes exactly where the
/// health of its instance at `host` changed.
pub open spec fn sniff_services(
    ss: Seq<ServiceView>,
    s: Seq<InstanceView>,
    keys: Seq<ServiceKeyView>,
    host: (Seq<char>, u32),
    healthy: bool,
) -> Seq<ServiceView>
    decreases keys.len(),
{
    if keys.len() == 0 {
        ss
    } else {
        let before = sniff_services(ss, s, keys.drop_last(), host, healthy);
        if sniff_changes(sniff_all(s, keys.drop_last(), host, healthy), key_of(keys.last(), host.0, host.1), healthy) {
            bump(before, keys.last())
        } else {
            before
        }
    }
}

/// The events of a probe outcome: one for each health change, with the
/// revision its service reached by it.
pub open spec fn sniff_events(
    ss: Seq<ServiceView>,
    s: Seq<InstanceView>,
    keys: Seq<ServiceKeyView>,
    host: (Seq<char>, u32),
    healthy: bool,
) -> Seq<EventView>
    decreases keys.len(),
{
    if keys.len() == 0 {
        Seq::empty()
    } else {
        let before = sniff_events(ss, s, keys.drop_last(), host, healthy);
        if sniff_changes(sniff_all(s, keys.drop_last(), host, healthy), key_of(keys.last(), host.0, host.1), healthy) {
            before.push(
                EventView {
                    service: keys.last(),
                    revision: revision_of(sniff_services(ss, s, keys, host, healthy), keys.last()),
                    kind: ChangeKind::HealthChanged,
                    host: host,
                },
            )
        } else {
            before
        }
    }
}

/// The subscribers without `id`.
pub open spec fn without(s: Seq<u64>, id: u64) -> Seq<u64>
    decreases s.len(),
{
    if s.len() == 0 {
        s
    } else {
        let r = without(s.drop_last(), id);
        if s.last() == id {
            r
        } else {
            r.push(s.last())
        }
    }
}

/// An instance with a new heartbeat time.
pub open spec fn with_heartbeat(v: InstanceView, now: i64) -> InstanceView {
    InstanceView { last_heartbeat_millis: now, ..v }
}

/// The services with `k` present and given these subscribers and this threshold.
pub open spec fn set_service(
    ss: Seq<ServiceView>,
    k: ServiceKeyView,
    subscribers: Seq<u64>,
    threshold: u32,
) -> Seq<ServiceView> {
    let t = ensure_service(ss, k);
    let j = svc_index(t, k);
    t.update(
        j,
        ServiceView {
            key: t[j].key,
            revision: t[j].revision,
            protect_threshold: threshold,
            subscribers: subscribers,
            idle_since: t[j].idle_since,
        },
    )
}

/// A change of one service advances its revision and leaves the others as they were.
pub proof fn lemma_bump(ss: Seq<ServiceView>, k: ServiceKeyView, k2: ServiceKeyView)
    requires
        distinct(svc_keys(ss)),
    ensures
        distinct(svc_keys(bump(ss, k))),
        revision_of(bump(ss, k), k) == next_revision(revision_of(ss, k)),
        k2 != k ==> revision_of(bump(ss, k), k2) == revision_of(ss, k2),
        revision_of(bump(ss, k), k2) >= revision_of(ss, k2),
{
    let ks = svc_keys(ss);
    lemma_pos_of(ks, k);
    lemma_pos_of(ks, k2);
    let t = ensure_service(ss, k);
    if svc_index(ss, k) < 0 {
        assert(svc_keys(t) =~= ks.push(k));
        lemma_distinct_push(ks, k);
    }
    let tk = svc_keys(t);
    lemma_pos_of(tk, k);
    lemma_pos_of(tk, k2);
    let b = bump(ss, k);
    assert(svc_keys(b) =~= tk);
    if k2 != k && svc_index(ss, k) < 0 {
        assert(tk.drop_last() =~= ks);
    }
}

/// How a snapshot load ended.
#[derive(Clone, Debug)]
pub enum LoadResult {
    Success,
    Error(String),
}

fn locate(v: &Vec<Instance>, k: &InstanceKey) -> (r: Option<usize>)
    ensures
        match r {
            Some(p) => p as int == index_of(inst_views(v@), k@) && p < v.len(),
            None => index_of(inst_views(v@), k@) == -1,
        },
{
    let ghost ks = inst_keys(inst_views(v@));
    let mut i: usize = v.len();
    while i > 0
        invariant
            i <= v.len(),
            ks == inst_keys(inst_views(v@)),
            ks.len() == v.len(),
            forall|x: int| i <= x < ks.len() ==> ks[x] != k@,
        decreases i,
    {
        if v[i - 1].has_key(k) {
            proof {
                lemma_pos_at(ks, k@, i - 1);
            }
            return Some(i - 1);
        }
        i = i - 1;
    }
    proof {
        lemma_pos_at(ks, k@, -1);
    }
    None
}

/// Once a record is refused, the whole load is refused.
pub proof fn lemma_load_fails(base: Seq<InstanceView>, recs: Seq<RegisterParamView>, n: int)
    requires
        0 < n <= recs.len(),
        load_all(base, recs.take(n)) is None,
    ensures
        load_all(base, recs) is None,
    decreases recs.len() - n,
{
    if n < recs.len() {
        assert(recs.take(n + 1).drop_last() =~= recs.take(n));
        lemma_load_fails(base, recs, n + 1);
    } else {
        assert(recs.take(n) =~= recs);
    }
}

/// The registry of services and their instances. Each instance is either
/// ephemeral (kept alive by heartbeats) or perpetual (written by the
/// replicated log); one key names at most one instance.
pub struct NamingRegistry {
    instances: Vec<Instance>,
    services: Vec<ServiceState>,
    loading: bool,
}

impl NamingRegistry {
    pub closed spec fn insts(&self) -> Seq<InstanceView> {
        inst_views(self.instances@)
    }

    pub closed spec fn svcs(&self) -> Seq<ServiceView> {
        self.services@.map_values(|s: ServiceState| s@)
    }

    pub closed spec fn is_loading(&self) -> bool {
        self.loading
    }

    /// Instance keys are unique, and so are service keys.
    pub open spec fn wf(&self) -> bool {
        distinct(inst_keys(self.insts())) && distinct(svc_keys(self.svcs())) && metadata_sound(self.insts())
    }

    pub fn new() -> (r: Self)
        ensures
            r.wf(),
            r.insts() == Seq::<InstanceView>::empty(),
            r.svcs() == Seq::<ServiceView>::empty(),
            !r.is_loading(),
    {
        let r = NamingRegistry { instances: Vec::new(), services: Vec::new(), loading: false };
        assert(r.insts() =~= Seq::empty());
        assert(r.svcs() =~= Seq::empty());
        r
    }

    fn find_instance(&self, k: &InstanceKey) -> (r: Option<usize>)
        ensures
            match r {
                Some(p) => p as int == index_of(self.insts(), k@) && p < self.instances.len(),
                None => index_of(self.insts(), k@) == -1,
            },
    {
        locate(&self.instances, k)
    }

    fn find_service(&self, k: &ServiceKey) -> (r: Option<usize>)
        ensures
            match r {
                Some(p) => p as int == svc_index(self.svcs(), k@) && p < self.services.len(),
                None => svc_index(self.svcs(), k@) == -1,
            },
    {
        let ghost ks = svc_keys(self.svcs());
        let mut i: usize = self.services.len();
        while i > 0
            invariant
                i <= self.services.len(),
                ks == svc_keys(self.svcs()),
                ks.len() == self.services.len(),
                forall|x: int| i <= x < ks.len() ==> ks[x] != k@,
            decreases i,
        {
            if self.services[i - 1].key.same_as(k) {
                proof {
                    lemma_pos_at(ks, k@, i - 1);
                }
                return Some(i - 1);
            }
            i = i - 1;
        }
        proof {
            lemma_pos_at(ks, k@, -1);
        }
        None
    }

    fn ensure_service_at(&mut self, k: &ServiceKey) -> (j: usize)
        requires
            distinct(svc_keys(old(self).svcs())),
        ensures
            final(self).svcs() == ensure_service(old(self).svcs(), k@),
            j as int == svc_index(final(self).svcs(), k@),
            j < final(self).services.len(),
            distinct(svc_keys(final(self).svcs())),
            final(self).instances == old(self).instances,
            final(self).loading == old(self).loading,
    {
        match self.find_service(k) {
            Some(j) => j,
            None => {
                proof {
                    lemma_pos_of(svc_keys(self.svcs()), k@);
                    lemma_distinct_push(svc_keys(self.svcs()), k@);
                }
                let st = ServiceState {
                    key: k.duplicate(),
                    revision: 0,
                    protect_threshold: 0,
                    subscribers: Vec::new(),
                    idle_since: None,
                };
                self.services.push(st);
                let ghost ss = old(self).svcs();
                assert(self.svcs() =~= ss.push(fresh_service(k@)));
                assert(svc_keys(self.svcs()) =~= svc_keys(ss).push(k@));
                let j = self.services.len() - 1;
                proof {
                    lemma_pos_at(svc_keys(self.svcs()), k@, j as int);
                }
                j
            },
        }
    }

    /// Advances the revision of service `k` and returns the new revision.
    fn bump_service(&mut self, k: &ServiceKey) -> (rev: u64)
        requires
            distinct(svc_keys(old(self).svcs())),
        ensures
            final(self).svcs() == bump(old(self).svcs(), k@),
            rev == revision_of(final(self).svcs(), k@),
            distinct(svc_keys(final(self).svcs())),
            final(self).instances == old(self).instances,
            final(self).loading == old(self).loading,
    {
        let j = self.ensure_service_at(k);
        let ghost t = self.svcs();
        let r = self.services[j].revision;
        let nr: u64 = if r < u64::MAX {
            r + 1
        } else {
            r
        };
        self.services[j].revision = nr;
        self.services[j].idle_since = None;
        assert(self.svcs() =~= bump(old(self).svcs(), k@));
        assert(svc_keys(self.svcs()) =~= svc_keys(t));
        nr
    }

    pub proof fn lemma_upsert_keys(s: Seq<InstanceView>, v: InstanceView)
        requires
            distinct(inst_keys(s)),
        ensures
            distinct(inst_keys(upsert(s, v))),
            index_of(s, v.key()) >= 0 ==> inst_keys(upsert(s, v)) == inst_keys(s),
            index_of(s, v.key()) < 0 ==> inst_keys(upsert(s, v)) == inst_keys(s).push(v.key()),
    {
        let ks = inst_keys(s);
        lemma_pos_of(ks, v.key());
        let p = index_of(s, v.key());
        if p < 0 {
            assert(inst_keys(s.push(v)) =~= ks.push(v.key()));
            lemma_distinct_push(ks, v.key());
        } else {
            assert(inst_keys(s.update(p, v)) =~= ks);
        }
    }

    /// Registers an instance, or replaces the one with its key. An ephemeral
    /// instance takes `now` as its last heartbeat; a perpetual one that is no
    /// newer than the stored one leaves the registry as it is.
    pub fn register_instance(&mut self, inst: Instance, now: i64) -> (r: Result<
        Option<ChangeEvent>,
        NamingError,
    >)
        requires
            old(self).wf(),
        ensures
            final(self).wf(),
            final(self).is_loading() == old(self).is_loading(),
            refused(old(self).insts(), inst@) ==> r == Err::<Option<ChangeEvent>, NamingError>(NamingError::InvariantViolation)
                && final(self).insts() == old(self).insts() && final(self).svcs() == old(self).svcs(),
            !refused(old(self).insts(), inst@) && stale_perpetual(old(self).insts(), inst@)
                ==> r == Ok::<Option<ChangeEvent>, NamingError>(None) && final(self).insts() == old(self).insts()
                && final(self).svcs() == old(self).svcs(),
            !refused(old(self).insts(), inst@) && !stale_perpetual(old(self).insts(), inst@)
                ==> {
                &&& final(self).insts() == upsert(old(self).insts(), stamped(inst@, now))
                &&& final(self).svcs() == bump(old(self).svcs(), inst@.service_key())
                &&& r matches Ok(Some(e))
                &&& e.service@ == inst@.service_key()
                &&& e.host@ == (inst@.ip, inst@.port)
                &&& e.revision == revision_of(final(self).svcs(), inst@.service_key())
                &&& e.kind == (if index_of(old(self).insts(), inst@.key()) < 0 {
                    ChangeKind::Added
                } else {
                    ChangeKind::Updated
                })
            },
    {
        let ghost iv = inst@;
        if !has_unique_keys(&inst.metadata) {
            return Err(NamingError::InvariantViolation);
        }
        let k = inst.key();
        let found = self.find_instance(&k);
        let mut inst = inst;
        let kind = match found {
            Some(p) => {
                let cur = &self.instances[p];
                if cur.ephemeral != inst.ephemeral {
                    return Err(NamingError::InvariantViolation);
                }
                if !inst.ephemeral && inst.last_modified_millis <= cur.last_modified_millis {
                    return Ok(None);
                }
                ChangeKind::Updated
            },
            None => ChangeKind::Added,
        };
        if inst.ephemeral {
            inst.last_heartbeat_millis = now;
        }
        let ghost v = inst@;
        let ghost s0 = self.insts();
        assert(v == stamped(iv, now));
        let svc = inst.service_key();
        let host = inst.short_key();
        proof {
            Self::lemma_upsert_keys(s0, v);
        }
        match found {
            Some(p) => {
                self.instances.set(p, inst);
                assert(self.insts() =~= s0.update(p as int, v));
            },
            None => {
                self.instances.push(inst);
                assert(self.insts() =~= s0.push(v));
            },
        }
        let rev = self.bump_service(&svc);
        Ok(Some(ChangeEvent { service: svc, revision: rev, kind, host }))
    }

    /// Replaces an existing instance; its polarity must stay as it is.
    pub fn update_instance(&mut self, inst: Instance, now: i64) -> (r: Result<
        Option<ChangeEvent>,
        NamingError,
    >)
        requires
            old(self).wf(),
        ensures
            final(self).wf(),
            final(self).is_loading() == old(self).is_loading(),
            index_of(old(self).insts(), inst@.key()) < 0 ==> r == Err::<Option<ChangeEvent>, NamingError>(NamingError::NotFound)
                && final(self).insts() == old(self).insts() && final(self).svcs() == old(self).svcs(),
            index_of(old(self).insts(), inst@.key()) >= 0 && refused(old(self).insts(), inst@) ==> r == Err::<Option<ChangeEvent>, NamingError>(NamingError::InvariantViolation)
                && final(self).insts() == old(self).insts() && final(self).svcs() == old(self).svcs(),
            index_of(old(self).insts(), inst@.key()) >= 0 && !refused(old(self).insts(), inst@)
                && stale_perpetual(old(self).insts(), inst@) ==> r == Ok::<Option<ChangeEvent>, NamingError>(None)
                && final(self).insts() == old(self).insts() && final(self).svcs() == old(self).svcs(),
            index_of(old(self).insts(), inst@.key()) >= 0 && !refused(old(self).insts(), inst@)
                && !stale_perpetual(old(self).insts(), inst@) ==> {
                &&& final(self).insts() == upsert(old(self).insts(), stamped(inst@, now))
                &&& final(self).svcs() == bump(old(self).svcs(), inst@.service_key())
                &&& r matches Ok(Some(e))
                &&& e.service@ == inst@.service_key()
                &&& e.host@ == (inst@.ip, inst@.port)
                &&& e.revision == revision_of(final(self).svcs(), inst@.service_key())
                &&& e.kind == ChangeKind::Updated
            },
    {
        let k = inst.key();
        match self.find_instance(&k) {
            None => Err(NamingError::NotFound),
            Some(_) => self.register_instance(inst, now),
        }
    }

    /// Removes the instance with key `k`, if there is one.
    pub fn remove_instance(&mut self, k: &InstanceKey) -> (r: Result<
        Option<ChangeEvent>,
        NamingError,
    >)
        requires
            old(self).wf(),
        ensures
            final(self).wf(),
            final(self).is_loading() == old(self).is_loading(),
            index_of(old(self).insts(), k@) < 0 ==> r == Ok::<Option<ChangeEvent>, NamingError>(None)
                && final(self).insts() == old(self).insts() && final(self).svcs() == old(self).svcs(),
            index_of(old(self).insts(), k@) >= 0 ==> {
                &&& final(self).insts() == old(self).insts().remove(index_of(old(self).insts(), k@))
                &&& final(self).svcs() == bump(old(self).svcs(), (k@.0, k@.1, k@.2))
                &&& r matches Ok(Some(e))
                &&& e.service@ == (k@.0, k@.1, k@.2)
                &&& e.host@ == (k@.3, k@.4)
                &&& e.revision == revision_of(final(self).svcs(), (k@.0, k@.1, k@.2))
                &&& e.kind == ChangeKind::Removed
            },
            index_of(final(self).insts(), k@) < 0,
    {
        proof {
            lemma_pos_of(inst_keys(self.insts()), k@);
        }
        match self.find_instance(k) {
            None => Ok(None),
            Some(p) => {
                let ghost s0 = self.insts();
                proof {
                    lemma_distinct_remove(inst_keys(s0), p as int);
                }
                self.instances.remove(p);
                assert(self.insts() =~= s0.remove(p as int));
                assert(inst_keys(self.insts()) =~= inst_keys(s0).remove(p as int));
                proof {
                    lemma_pos_of(inst_keys(self.insts()), k@);
                }
                let svc = k.service_key();
                let rev = self.bump_service(&svc);
                Ok(Some(ChangeEvent { service: svc, revision: rev, kind: ChangeKind::Removed, host: k.short_key() }))
            },
        }
    }

    /// Refreshes the heartbeat of an ephemeral instance.
    pub fn heartbeat(&mut self, k: &InstanceKey, now: i64) -> (r: Result<(), NamingError>)
        requires
            old(self).wf(),
        ensures
            final(self).wf(),
            final(self).is_loading() == old(self).is_loading(),
            final(self).svcs() == old(self).svcs(),
            ({
                let s = old(self).insts();
                let p = index_of(s, k@);
                &&& p < 0 ==> r == Err::<(), NamingError>(NamingError::NotFound) && final(self).insts() == s
                &&& p >= 0 && !s[p].ephemeral ==> r == Err::<(), NamingError>(NamingError::InvariantViolation) && final(self).insts() == s
                &&& p >= 0 && s[p].ephemeral ==> r == Ok::<(), NamingError>(()) && final(self).insts() == s.update(p, with_heartbeat(s[p], now))
            }),
    {
        match self.find_instance(k) {
            None => Err(NamingError::NotFound),
            Some(p) => {
                if !self.instances[p].ephemeral {
                    return Err(NamingError::InvariantViolation);
                }
                let ghost s0 = self.insts();
                self.instances[p].last_heartbeat_millis = now;
                assert(self.insts() =~= s0.update(p as int, with_heartbeat(s0[p as int], now)));
                assert(inst_keys(self.insts()) =~= inst_keys(s0));
                Ok(())
            },
        }
    }

    /// The instances that a query returns, as a copy taken now.
    pub fn query(&self, k: &ServiceKey, clusters: &Vec<String>, healthy_only: bool) -> (r: Result<
        Vec<Instance>,
        NamingError,
    >)
        ensures
            self.is_loading() ==> r == Err::<Vec<Instance>, NamingError>(NamingError::Unavailable),
            !self.is_loading() ==> (r matches Ok(v) && inst_views(v@) == query_result(
                self.insts(),
                k@,
                str_views(clusters@),
                healthy_only,
                threshold_of(self.svcs(), k@),
            )),
    {
        if self.loading {
            return Err(NamingError::Unavailable);
        }
        let ghost s = self.insts();
        let ghost cs = str_views(clusters@);
        let mut m: Vec<Instance> = Vec::new();
        let mut i: usize = 0;
        while i < self.instances.len()
            invariant
                i <= self.instances.len(),
                s == self.insts(),
                cs == str_views(clusters@),
                inst_views(m@) == visible_of(s.take(i as int), k@, cs),
            decreases self.instances.len() - i,
        {
            let inst = &self.instances[i];
            assert(s.take(i + 1).drop_last() =~= s.take(i as int));
            assert(s.take(i + 1).last() == inst@);
            if inst.in_service(k) && inst.enabled && (clusters.len() == 0 || contains_name(
                clusters,
                &inst.cluster_name,
            )) {
                let c = inst.duplicate();
                m.push(c);
                assert(inst_views(m@) =~= visible_of(s.take(i as int), k@, cs).push(inst@));
            }
            i = i + 1;
        }
        assert(s.take(self.instances.len() as int) =~= s);
        let mut threshold: u32 = 0;
        match self.find_service(k) {
            Some(j) => {
                threshold = self.services[j].protect_threshold;
            },
            None => {},
        }
        if !healthy_only {
            return Ok(m);
        }
        let ghost mv = inst_views(m@);
        let mut h: Vec<Instance> = Vec::new();
        let mut i: usize = 0;
        while i < m.len()
            invariant
                i <= m.len(),
                mv == inst_views(m@),
                inst_views(h@) == healthy_of(mv.take(i as int)),
                h.len() <= i,
            decreases m.len() - i,
        {
            assert(mv.take(i + 1).drop_last() =~= mv.take(i as int));
            assert(mv.take(i + 1).last() == m@[i as int]@);
            if m[i].healthy {
                let c = m[i].duplicate();
                h.push(c);
                assert(inst_views(h@) =~= healthy_of(mv.take(i as int)).push(m@[i as int]@));
            }
            i = i + 1;
        }
        assert(mv.take(m.len() as int) =~= mv);
        let hn = h.len() as u128;
        let mn = m.len() as u128;
        let t = threshold as u128;
        assert(hn * 100 <= u64::MAX as u128 * 100) by (nonlinear_arith)
            requires hn <= u64::MAX as u128;
        assert(t * mn <= u32::MAX as u128 * u64::MAX as u128) by (nonlinear_arith)
            requires t <= u32::MAX as u128, mn <= u64::MAX as u128;
        if hn * 100 >= t * mn {
            Ok(h)
        } else {
            Ok(m)
        }
    }

    /// Adds a listener to a service; a listener already there stays once.
    pub fn subscribe(&mut self, k: &ServiceKey, listener: u64)
        requires
            old(self).wf(),
        ensures
            final(self).wf(),
            final(self).is_loading() == old(self).is_loading(),
            final(self).insts() == old(self).insts(),
            ({
                let subs = subscribers_of(old(self).svcs(), k@);
                final(self).svcs() == set_service(
                    old(self).svcs(),
                    k@,
                    if subs.contains(listener) { subs } else { subs.push(listener) },
                    threshold_of(old(self).svcs(), k@),
                )
            }),
    {
        let j = self.ensure_service_at(k);
        let ghost t = self.svcs();
        let mut present = false;
        let mut i: usize = 0;
        while i < self.services[j].subscribers.len()
            invariant
                j < self.services.len(),
                i <= self.services[j as int].subscribers.len(),
                !present ==> forall|x: int| 0 <= x < i ==> self.services[j as int].subscribers@[x] != listener,
                present ==> self.services[j as int].subscribers@.contains(listener),
            decreases self.services[j as int].subscribers.len() - i,
        {
            if self.services[j].subscribers[i] == listener {
                present = true;
            }
            i = i + 1;
        }
        if !present {
            self.services[j].subscribers.push(listener);
        }
        assert(self.svcs() =~= set_service(
            old(self).svcs(),
            k@,
            if subscribers_of(old(self).svcs(), k@).contains(listener) {
                subscribers_of(old(self).svcs(), k@)
            } else {
                subscribers_of(old(self).svcs(), k@).push(listener)
            },
            threshold_of(old(self).svcs(), k@),
        ));
        assert(svc_keys(self.svcs()) =~= svc_keys(t));
    }

    /// Removes ephemeral instances whose heartbeat is older than `threshold`,
    /// at most `budget` of them in one pass; each removal is a change of its
    /// service, reported by one event.
    pub fn expire_ephemeral(&mut self, now: i64, threshold: i64, budget: usize) -> (events: Vec<
        ChangeEvent,
    >)
        requires
            old(self).wf(),
        ensures
            final(self).wf(),
            final(self).is_loading() == old(self).is_loading(),
            final(self).insts() == sweep(old(self).insts(), now, threshold, budget as nat),
            final(self).svcs() == bump_each(old(self).svcs(), swept_out(old(self).insts(), now, threshold, budget as nat)),
            event_views(events@) == removal_events(old(self).svcs(), swept_out(old(self).insts(), now, threshold, budget as nat)),
            revisions_grow(old(self).svcs(), final(self).svcs()),
            events@.len() + final(self).insts().len() == old(self).insts().len(),
    {
        let ghost s = self.insts();
        let ghost ss = self.svcs();
        let ghost mut r: Seq<InstanceView> = Seq::empty();
        let ghost mut gone: Seq<InstanceView> = Seq::empty();
        let mut events: Vec<ChangeEvent> = Vec::new();
        let mut left: usize = budget;
        let mut i: usize = self.instances.len();
        assert(s.take(i as int) =~= s);
        assert(s.take(i as int) + r =~= s);
        assert(sweep(s, now, threshold, budget as nat) + r =~= sweep(s, now, threshold, budget as nat));
        assert(gone + swept_out(s, now, threshold, budget as nat) =~= swept_out(s, now, threshold, budget as nat));
        assert(event_views(events@) =~= Seq::<EventView>::empty());
        while i > 0
            invariant
                i <= s.len(),
                self.wf(),
                self.loading == old(self).loading,
                ss == old(self).svcs(),
                self.insts() == s.take(i as int) + r,
                sweep(s, now, threshold, budget as nat) == sweep(s.take(i as int), now, threshold, left as nat) + r,
                swept_out(s, now, threshold, budget as nat) == gone + swept_out(s.take(i as int), now, threshold, left as nat),
                self.svcs() == bump_each(ss, gone),
                event_views(events@) == removal_events(ss, gone),
                revisions_grow(old(self).svcs(), self.svcs()),
                events@.len() == gone.len(),
                events@.len() + self.insts().len() == s.len(),
            decreases i,
        {
            let ghost cur = self.insts();
            let ghost pre = s.take(i as int);
            assert(pre.drop_last() =~= s.take(i - 1));
            assert(cur[i - 1] == pre.last());
            let inst = &self.instances[i - 1];
            let expired = inst.ephemeral && (now as i128) - (inst.last_heartbeat_millis as i128) > (threshold as i128);
            if expired && left > 0 {
                proof {
                    lemma_distinct_remove(inst_keys(cur), i - 1);
                }
                let gone_inst = self.instances.remove(i - 1);
                assert(self.insts() =~= cur.remove(i - 1));
                assert(inst_keys(self.insts()) =~= inst_keys(cur).remove(i - 1));
                assert(self.insts() =~= s.take(i - 1) + r);
                let svc = gone_inst.service_key();
                let ghost before = self.svcs();
                let ghost g0 = gone;
                let rev = self.bump_service(&svc);
                proof {
                    assert forall|k: ServiceKeyView| #[trigger] revision_of(self.svcs(), k) >= revision_of(old(self).svcs(), k) by {
                        lemma_bump(before, svc@, k);
                        assert(revision_of(before, k) >= revision_of(old(self).svcs(), k));
                    }
                    gone = g0.push(pre.last());
                    assert(gone.drop_last() =~= g0);
                    assert(g0 + (seq![pre.last()] + swept_out(s.take(i - 1), now, threshold, (left - 1) as nat)) =~= gone + swept_out(s.take(i - 1), now, threshold, (left - 1) as nat));
                }
                let ghost ev_before = event_views(events@);
                events.push(ChangeEvent { service: svc, revision: rev, kind: ChangeKind::Removed, host: gone_inst.short_key() });
                assert(event_views(events@) =~= ev_before.push(EventView {
                    service: gone.last().service_key(),
                    revision: revision_of(bump_each(ss, gone), gone.last().service_key()),
                    kind: ChangeKind::Removed,
                    host: (gone.last().ip, gone.last().port),
                }));
                left = left - 1;
            } else {
                let ghost r0 = r;
                proof {
                    r = seq![cur[i - 1]] + r0;
                }
                assert(self.insts() =~= s.take(i - 1) + r);
                assert(sweep(pre, now, threshold, left as nat) + r0 =~= sweep(s.take(i - 1), now, threshold, left as nat) + r);
            }
            i = i - 1;
        }
        assert(s.take(0) + r =~= r);
        assert(sweep(s.take(0), now, threshold, left as nat) =~= Seq::<InstanceView>::empty());
        assert(gone + swept_out(s.take(0), now, threshold, left as nat) =~= gone);
        events
    }

    /// Applies one probe outcome for `host` to the perpetual instances of the
    /// given services. A service changes, and an event reports it, exactly
    /// where the health of its instance changed.
    pub fn apply_sniff(&mut self, host: &InstanceShortKey, service_keys: &Vec<ServiceKey>, success: bool) -> (events: Vec<ChangeEvent>)
        requires
            old(self).wf(),
        ensures
            final(self).wf(),
            final(self).is_loading() == old(self).is_loading(),
            final(self).insts() == sniff_all(old(self).insts(), svc_key_views(service_keys@), host@, success),
            final(self).svcs() == sniff_services(old(self).svcs(), old(self).insts(), svc_key_views(service_keys@), host@, success),
            event_views(events@) == sniff_events(old(self).svcs(), old(self).insts(), svc_key_views(service_keys@), host@, success),
            revisions_grow(old(self).svcs(), final(self).svcs()),
    {
        let ghost s = self.insts();
        let ghost ss = self.svcs();
        let ghost ks = svc_key_views(service_keys@);
        let mut events: Vec<ChangeEvent> = Vec::new();
        let mut i: usize = 0;
        assert(ks.take(0) =~= Seq::<ServiceKeyView>::empty());
        assert(event_views(events@) =~= Seq::<EventView>::empty());
        while i < service_keys.len()
            invariant
                i <= service_keys.len(),
                ks == svc_key_views(service_keys@),
                ss == old(self).svcs(),
                self.wf(),
                self.loading == old(self).loading,
                self.insts() == sniff_all(s, ks.take(i as int), host@, success),
                self.svcs() == sniff_services(ss, s, ks.take(i as int), host@, success),
                event_views(events@) == sniff_events(ss, s, ks.take(i as int), host@, success),
                inst_keys(self.insts()) == inst_keys(s),
                revisions_grow(old(self).svcs(), self.svcs()),
            decreases service_keys.len() - i,
        {
            let ghost pk = ks.take(i + 1);
            assert(pk.drop_last() =~= ks.take(i as int));
            assert(pk.last() == service_keys@[i as int]@);
            let k = InstanceKey::new(&service_keys[i], host);
            let ghost cur = self.insts();
            proof {
                lemma_pos_of(inst_keys(cur), k@);
            }
            match self.find_instance(&k) {
                Some(p) => {
                    if !self.instances[p].ephemeral && self.instances[p].healthy != success {
                        self.instances[p].healthy = success;
                        assert(self.insts() =~= cur.update(p as int, InstanceView { healthy: success, ..cur[p as int] }));
                        assert(inst_keys(self.insts()) =~= inst_keys(cur));
                        let svc = service_keys[i].duplicate();
                        let ghost before = self.svcs();
                        let rev = self.bump_service(&svc);
                        proof {
                            assert forall|k2: ServiceKeyView| #[trigger] revision_of(self.svcs(), k2) >= revision_of(old(self).svcs(), k2) by {
                                lemma_bump(before, svc@, k2);
                                assert(revision_of(before, k2) >= revision_of(old(self).svcs(), k2));
                            }
                        }
                        let ghost ev_before = event_views(events@);
                        events.push(ChangeEvent { service: svc, revision: rev, kind: ChangeKind::HealthChanged, host: InstanceShortKey { ip: host.ip.clone(), port: host.port } });
                        assert(event_views(events@) =~= ev_before.push(EventView {
                            service: pk.last(),
                            revision: revision_of(sniff_services(ss, s, pk, host@, success), pk.last()),
                            kind: ChangeKind::HealthChanged,
                            host: host@,
                        }));
                    }
                },
                None => {},
            }
            i = i + 1;
        }
        assert(ks.take(service_keys.len() as int) =~= ks);
        events
    }

    /// Every perpetual instance, in order, as a copy.
    pub fn list_all_perpetual(&self) -> (r: Vec<Instance>)
        ensures
            inst_views(r@) == perpetual_of(self.insts()),
    {
        let ghost s = self.insts();
        let mut out: Vec<Instance> = Vec::new();
        let mut i: usize = 0;
        while i < self.instances.len()
            invariant
                i <= self.instances.len(),
                s == self.insts(),
                inst_views(out@) == perpetual_of(s.take(i as int)),
            decreases self.instances.len() - i,
        {
            assert(s.take(i + 1).drop_last() =~= s.take(i as int));
            assert(s.take(i + 1).last() == self.instances@[i as int]@);
            if !self.instances[i].ephemeral {
                out.push(self.instances[i].duplicate());
                assert(inst_views(out@) =~= perpetual_of(s.take(i as int)).push(self.instances@[i as int]@));
            }
            i = i + 1;
        }
        assert(s.take(self.instances.len() as int) =~= s);
        out
    }

    /// One record for each perpetual instance, in order: the content of a snapshot.
    pub fn build_snapshot(&self) -> (r: Vec<InstanceRegisterParam>)
        ensures
            param_views(r@) == snapshot_of(self.insts()),
    {
        let ghost s = self.insts();
        let mut out: Vec<InstanceRegisterParam> = Vec::new();
        let mut i: usize = 0;
        assert(param_views(out@) =~= Seq::<RegisterParamView>::empty());
        while i < self.instances.len()
            invariant
                i <= self.instances.len(),
                s == self.insts(),
                param_views(out@) == snapshot_of(s.take(i as int)),
            decreases self.instances.len() - i,
        {
            assert(s.take(i + 1).drop_last() =~= s.take(i as int));
            assert(s.take(i + 1).last() == self.instances@[i as int]@);
            if !self.instances[i].ephemeral {
                out.push(InstanceRegisterParam::from_instance(&self.instances[i]));
                assert(param_views(out@) =~= snapshot_of(s.take(i as int)).push(param_of_instance(self.instances@[i as int]@)));
            }
            i = i + 1;
        }
        assert(s.take(self.instances.len() as int) =~= s);
        out
    }

    /// The records of a backup when the naming data is asked for, else nothing.
    pub fn transfer_backup(&self, naming: bool) -> (r: Option<Vec<InstanceRegisterParam>>)
        ensures
            naming ==> (r matches Some(v) && param_views(v@) == snapshot_of(self.insts())),
            !naming ==> r is None,
    {
        if naming {
            Some(self.build_snapshot())
        } else {
            None
        }
    }

    /// Marks the registry as loading a snapshot: queries are refused until the load ends.
    pub fn begin_load(&mut self)
        ensures
            final(self).is_loading(),
            final(self).insts() == old(self).insts(),
            final(self).svcs() == old(self).svcs(),
    {
        self.loading = true;
    }

    /// Replaces the perpetual instances by those of the snapshot records, and
    /// makes sure the service of each record exists. When a record is
    /// refused, no perpetual instance is left and the services stay as they were.
    pub fn load_snapshot(&mut self, records: &Vec<InstanceRegisterParam>) -> (r: LoadResult)
        requires
            old(self).wf(),
        ensures
            final(self).wf(),
            !final(self).is_loading(),
            match load_all(ephemeral_of(old(self).insts()), param_views(records@)) {
                Some(t) => r is Success && final(self).insts() == t
                    && final(self).svcs() == ensure_each(old(self).svcs(), param_views(records@)),
                None => r is Error && final(self).insts() == ephemeral_of(old(self).insts())
                    && final(self).svcs() == old(self).svcs(),
            },
    {
        let ghost s = self.insts();
        let mut base: Vec<Instance> = Vec::new();
        assert(inst_views(base@) =~= ephemeral_of(s.take(0)));
        let mut cur: Vec<Instance> = Vec::new();
        let mut i: usize = 0;
        while i < self.instances.len()
            invariant
                i <= self.instances.len(),
                s == self.insts(),
                distinct(inst_keys(s)),
                inst_views(base@) == ephemeral_of(s.take(i as int)),
                inst_views(cur@) == inst_views(base@),
                distinct(inst_keys(inst_views(base@))),
                metadata_sound(s),
                metadata_sound(inst_views(base@)),
                forall|a: int, j: int| 0 <= a < base.len() && i <= j < s.len() ==> #[trigger] inst_keys(inst_views(base@))[a] != #[trigger] inst_keys(s)[j],
                s == old(self).insts(),
                self.services == old(self).services,
            decreases self.instances.len() - i,
        {
            assert(s.take(i + 1).drop_last() =~= s.take(i as int));
            assert(s.take(i + 1).last() == self.instances@[i as int]@);
            if self.instances[i].ephemeral {
                let ghost bk = inst_keys(inst_views(base@));
                proof {
                    lemma_distinct_push(bk, inst_keys(s)[i as int]);
                }
                base.push(self.instances[i].duplicate());
                cur.push(self.instances[i].duplicate());
                assert(inst_views(base@) =~= ephemeral_of(s.take(i as int)).push(self.instances@[i as int]@));
                assert(inst_views(cur@) =~= inst_views(base@));
                assert(inst_keys(inst_views(base@)) =~= bk.push(inst_keys(s)[i as int]));
            }
            i = i + 1;
        }
        assert(s.take(self.instances.len() as int) =~= s);
        let ghost b = inst_views(base@);
        let ghost recs = param_views(records@);
        let mut k: usize = 0;
        assert(recs.take(0) =~= Seq::<RegisterParamView>::empty());
        while k < records.len()
            invariant
                k <= records.len(),
                recs == param_views(records@),
                b == inst_views(base@),
                b == ephemeral_of(s),
                distinct(inst_keys(b)),
                load_all(b, recs.take(k as int)) == Some(inst_views(cur@)),
                distinct(inst_keys(inst_views(cur@))),
                metadata_sound(b),
                metadata_sound(inst_views(cur@)),
                self.services == old(self).services,
                distinct(svc_keys(self.svcs())),
                s == old(self).insts(),
            decreases records.len() - k,
        {
            assert(recs.take(k + 1).drop_last() =~= recs.take(k as int));
            assert(recs.take(k + 1).last() == records@[k as int]@);
            let rec = &records[k];
            let ghost c = inst_views(cur@);
            if rec.ephemeral || !has_unique_keys(&rec.metadata) {
                proof {
                    lemma_load_fails(b, recs, k + 1);
                }
                self.instances = base;
                self.loading = false;
                return LoadResult::Error(String::from_str("snapshot record of an ephemeral instance"));
            }
            let inst = rec.to_instance();
            let key = inst.key();
            proof {
                lemma_pos_of(inst_keys(c), inst@.key());
            }
            match locate(&cur, &key) {
                Some(p) => {
                    if cur[p].ephemeral {
                        proof {
                            lemma_load_fails(b, recs, k + 1);
                        }
                        self.instances = base;
                        self.loading = false;
                        return LoadResult::Error(String::from_str("snapshot record meets an ephemeral instance"));
                    }
                    cur.set(p, inst);
                    assert(inst_views(cur@) =~= c.update(p as int, instance_of_param(rec@)));
                    assert(inst_keys(inst_views(cur@)) =~= inst_keys(c));
                },
                None => {
                    proof {
                        lemma_distinct_push(inst_keys(c), inst@.key());
                    }
                    cur.push(inst);
                    assert(inst_views(cur@) =~= c.push(instance_of_param(rec@)));
                    assert(inst_keys(inst_views(cur@)) =~= inst_keys(c).push(inst@.key()));
                },
            }
            k = k + 1;
        }
        assert(recs.take(records.len() as int) =~= recs);
        self.instances = cur;
        let ghost t = self.insts();
        let mut k: usize = 0;
        assert(recs.take(0) =~= Seq::<RegisterParamView>::empty());
        while k < records.len()
            invariant
                k <= records.len(),
                recs == param_views(records@),
                self.insts() == t,
                distinct(inst_keys(t)),
                metadata_sound(t),
                distinct(svc_keys(self.svcs())),
                self.svcs() == ensure_each(old(self).svcs(), recs.take(k as int)),
            decreases records.len() - k,
        {
            assert(recs.take(k + 1).drop_last() =~= recs.take(k as int));
            assert(recs.take(k + 1).last() == records@[k as int]@);
            let rec = &records[k];
            let key = ServiceKey {
                namespace_id: rec.namespace_id.clone(),
                group_name: rec.group_name.clone(),
                service_name: rec.service_name.clone(),
            };
            self.ensure_service_at(&key);
            k = k + 1;
        }
        assert(recs.take(records.len() as int) =~= recs);
        self.loading = false;
        LoadResult::Success
    }

    /// A copy of the instance with key `k`, if there is one.
    pub fn get_instance(&self, k: &InstanceKey) -> (r: Option<Instance>)
        ensures
            index_of(self.insts(), k@) < 0 ==> r is None,
            index_of(self.insts(), k@) >= 0 ==> (r matches Some(i) && i@ == self.insts()[index_of(self.insts(), k@)]),
    {
        proof {
            lemma_pos_of(inst_keys(self.insts()), k@);
        }
        match self.find_instance(k) {
            Some(p) => Some(self.instances[p].duplicate()),
            None => None,
        }
    }

    /// The current revision of a service (zero for one never changed).
    pub fn revision(&self, k: &ServiceKey) -> (r: u64)
        ensures
            r == revision_of(self.svcs(), k@),
    {
        match self.find_service(k) {
            Some(j) => self.services[j].revision,
            None => 0,
        }
    }

    /// The listeners of a service.
    pub fn subscribers(&self, k: &ServiceKey) -> (r: Vec<u64>)
        ensures
            r@ == subscribers_of(self.svcs(), k@),
    {
        match self.find_service(k) {
            Some(j) => {
                let mut out: Vec<u64> = Vec::new();
                let mut i: usize = 0;
                while i < self.services[j].subscribers.len()
                    invariant
                        j < self.services.len(),
                        i <= self.services[j as int].subscribers.len(),
                        out@ == self.services[j as int].subscribers@.take(i as int),
                    decreases self.services[j as int].subscribers.len() - i,
                {
                    out.push(self.services[j].subscribers[i]);
                    i = i + 1;
                    assert(out@ =~= self.services[j as int].subscribers@.take(i as int));
                }
                assert(self.services[j as int].subscribers@.take(i as int) =~= self.services[j as int].subscribers@);
                out
            },
            None => Vec::new(),
        }
    }

    /// Removes a listener from a service.
    pub fn unsubscribe(&mut self, k: &ServiceKey, listener: u64)
        requires
            old(self).wf(),
        ensures
            final(self).wf(),
            final(self).is_loading() == old(self).is_loading(),
            final(self).insts() == old(self).insts(),
            svc_index(old(self).svcs(), k@) < 0 ==> final(self).svcs() == old(self).svcs(),
            svc_index(old(self).svcs(), k@) >= 0 ==> final(self).svcs() == set_service(
                old(self).svcs(),
                k@,
                without(subscribers_of(old(self).svcs(), k@), listener),
                threshold_of(old(self).svcs(), k@),
            ),
    {
        match self.find_service(k) {
            None => {},
            Some(j) => {
                let ghost t = self.svcs();
                let ghost subs = self.services[j as int].subscribers@;
                let mut kept: Vec<u64> = Vec::new();
                let mut i: usize = 0;
                while i < self.services[j].subscribers.len()
                    invariant
                        j < self.services.len(),
                        subs == self.services[j as int].subscribers@,
                        i <= subs.len(),
                        kept@ == without(subs.take(i as int), listener),
                    decreases subs.len() - i,
                {
                    assert(subs.take(i + 1).drop_last() =~= subs.take(i as int));
                    let x = self.services[j].subscribers[i];
                    if x != listener {
                        kept.push(x);
                    }
                    i = i + 1;
                }
                assert(subs.take(subs.len() as int) =~= subs);
                self.services[j].subscribers = kept;
                assert(self.svcs() =~= set_service(t, k@, without(subs, listener), threshold_of(t, k@)));
                assert(svc_keys(self.svcs()) =~= svc_keys(t));
            },
        }
    }

    /// Sets the protect threshold of a service, in percent of healthy instances.
    pub fn set_protect_threshold(&mut self, k: &ServiceKey, percent: u32)
        requires
            old(self).wf(),
        ensures
            final(self).wf(),
            final(self).is_loading() == old(self).is_loading(),
            final(self).insts() == old(self).insts(),
            final(self).svcs() == set_service(old(self).svcs(), k@, subscribers_of(old(self).svcs(), k@), percent),
    {
        let j = self.ensure_service_at(k);
        let ghost t = self.svcs();
        self.services[j].protect_threshold = percent;
        assert(self.svcs() =~= set_service(old(self).svcs(), k@, subscribers_of(old(self).svcs(), k@), percent));
        assert(svc_keys(self.svcs()) =~= svc_keys(t));
    }

    fn service_in_use(&self, k: &ServiceKey) -> (r: bool)
        ensures
            r == has_instances(self.insts(), k@),
    {
        let mut i: usize = 0;
        while i < self.instances.len()
            invariant
                i <= self.instances.len(),
                forall|x: int| 0 <= x < i ==> self.insts()[x].service_key() != k@,
            decreases self.instances.len() - i,
        {
            if self.instances[i].in_service(k) {
                assert(self.insts()[i as int].service_key() == k@);
                return true;
            }
            i = i + 1;
        }
        false
    }

    /// One pass of service collection: services without instances are
    /// marked idle, and those idle for at least `timeout` milliseconds with
    /// no subscriber are dropped. Returns how many were dropped.
    pub fn collect_idle_services(&mut self, now: i64, timeout: i64) -> (removed: usize)
        requires
            old(self).wf(),
        ensures
            final(self).wf(),
            final(self).is_loading() == old(self).is_loading(),
            final(self).insts() == old(self).insts(),
            final(self).svcs() == collect_idle(old(self).svcs(), old(self).insts(), now, timeout),
            removed + final(self).svcs().len() == old(self).svcs().len(),
    {
        let ghost ss = self.svcs();
        let ghost s = self.insts();
        let ghost ks = svc_keys(ss);
        let mut kept: Vec<ServiceState> = Vec::new();
        let mut removed: usize = 0;
        let mut i: usize = 0;
        assert(ss.take(0) =~= Seq::<ServiceView>::empty());
        while i < self.services.len()
            invariant
                i <= self.services.len(),
                ss == self.svcs(),
                s == self.insts(),
                ks == svc_keys(ss),
                distinct(ks),
                svc_views(kept@) == collect_idle(ss.take(i as int), s, now, timeout),
                removed + kept.len() == i,
                distinct(svc_keys(svc_views(kept@))),
                forall|a: int, j: int| 0 <= a < kept.len() && i <= j < ks.len() ==> #[trigger] svc_keys(svc_views(kept@))[a] != #[trigger] ks[j],
            decreases self.services.len() - i,
        {
            let ghost kv = svc_views(kept@);
            assert(ss.take(i + 1).drop_last() =~= ss.take(i as int));
            assert(ss.take(i + 1).last() == ss[i as int]);
            let busy = self.service_in_use(&self.services[i].key);
            let cur = &self.services[i];
            let idle_since: Option<i64> = if busy {
                None
            } else {
                match cur.idle_since {
                    None => Some(now),
                    Some(t) => Some(t),
                }
            };
            let drop = !busy && match cur.idle_since {
                Some(t) => (now as i128) - (t as i128) >= (timeout as i128) && cur.subscribers.len() == 0,
                None => false,
            };
            if drop {
                removed = removed + 1;
            } else {
                let mut subs: Vec<u64> = Vec::new();
                let mut x: usize = 0;
                while x < cur.subscribers.len()
                    invariant
                        x <= cur.subscribers.len(),
                        subs@ == cur.subscribers@.take(x as int),
                    decreases cur.subscribers.len() - x,
                {
                    subs.push(cur.subscribers[x]);
                    x = x + 1;
                    assert(subs@ =~= cur.subscribers@.take(x as int));
                }
                assert(cur.subscribers@.take(x as int) =~= cur.subscribers@);
                proof {
                    crate::lookup::lemma_distinct_push(svc_keys(kv), ks[i as int]);
                }
                kept.push(ServiceState {
                    key: cur.key.duplicate(),
                    revision: cur.revision,
                    protect_threshold: cur.protect_threshold,
                    subscribers: subs,
                    idle_since,
                });
                assert(svc_views(kept@) =~= kv.push(
                    idle_step(ss[i as int], busy, now, timeout)->Some_0,
                ));
                assert(svc_keys(svc_views(kept@)) =~= svc_keys(kv).push(ks[i as int]));
            }
            i = i + 1;
        }
        assert(ss.take(self.services.len() as int) =~= ss);
        self.services = kept;
        removed
    }
}

} // verus!
