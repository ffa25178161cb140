//! The watch engine: consumes workload lifecycle events, drives the restart
//! ledger, applies the throttle policy and the routing rules, and decides
//! which container restarts are alerted and on which channel.

use vstd::prelude::*;
use crate::ledger::CountsMap;
use crate::ledger::RestartLedger;
use crate::rules::NotificationConfig;
use crate::rules::RuleView;
use crate::rules::spec_resolve;
use crate::throttle::is_skipped_interval;
use crate::throttle::spec_is_skipped_interval;
use crate::snapshot::ContainerStatusSnapshot;
use crate::snapshot::ContainerStatusView;
use crate::snapshot::ContainerSpecSnapshot;
use crate::snapshot::PodSnapshot;
use crate::snapshot::clone_container_status;
use crate::snapshot::clone_opt_string;
use crate::snapshot::clone_state;
use crate::snapshot::clone_resources;
use crate::message::ContainerRestartInfo;
use crate::message::ContainerResources;
use crate::message::ContainerResourcesView;
use crate::message::ContainerLog;
use crate::message::opt_str_view;

verus! {

/// One lifecycle event of the workload stream, as the event source reports
/// it: stream (re)initialization, a live instance reported during
/// initialization, end of initialization, an instance created or changed,
/// and an instance terminated.
pub enum WatchEvent {
    Init,
    InitApply(PodSnapshot),
    InitDone,
    Apply(PodSnapshot),
    Delete(PodSnapshot),
}

/// One alert decision: this container of the applied instance restarted and
/// is to be notified on `channel`.
pub struct AlertRequest {
    pub container: ContainerStatusSnapshot,
    pub channel: String,
}

/// The restart counts reported by a list of container statuses: each name
/// maps to its reported count, later duplicates winning.
pub open spec fn counts_of(cs: Seq<ContainerStatusSnapshot>) -> Map<Seq<char>, i32>
    decreases cs.len(),
{
    if cs.len() == 0 {
        Map::empty()
    } else {
        counts_of(cs.drop_last()).insert(cs.last().name@, cs.last().restart_count)
    }
}

/// The count the ledger holds for this container; a container never seen
/// before counts as zero.
pub open spec fn recorded_count(m: Map<Seq<char>, i32>, c: ContainerStatusSnapshot) -> i32 {
    if m.contains_key(c.name@) {
        m[c.name@]
    } else {
        0
    }
}

/// Ledger counts after one container status is processed: the recorded
/// count is raised to the reported one and never lowered; a container not
/// yet recorded is recorded (with zero when it reports no increase).
pub open spec fn stepped(m: Map<Seq<char>, i32>, c: ContainerStatusSnapshot) -> Map<
    Seq<char>,
    i32,
> {
    m.insert(
        c.name@,
        if c.restart_count > recorded_count(m, c) {
            c.restart_count
        } else {
            recorded_count(m, c)
        },
    )
}

/// Ledger counts after every container status of an applied instance is
/// processed in order.
pub open spec fn apply_counts(m: Map<Seq<char>, i32>, cs: Seq<ContainerStatusSnapshot>) -> Map<
    Seq<char>,
    i32,
> decreases cs.len(),
{
    if cs.len() == 0 {
        m
    } else {
        stepped(apply_counts(m, cs.drop_last()), cs.last())
    }
}

/// The alerts emitted while the container statuses of an applied instance
/// are processed in order against prior counts `m`: one per container whose
/// reported count exceeds the recorded one, is not throttled, and routes to
/// a channel.
pub open spec fn apply_alerts(
    m: Map<Seq<char>, i32>,
    cs: Seq<ContainerStatusSnapshot>,
    rules: Seq<RuleView>,
    namespace: Seq<char>,
    pod_name: Seq<char>,
) -> Seq<(ContainerStatusView, Seq<char>)>
    decreases cs.len(),
{
    if cs.len() == 0 {
        Seq::empty()
    } else {
        let prev = apply_alerts(m, cs.drop_last(), rules, namespace, pod_name);
        let before = apply_counts(m, cs.drop_last());
        let c = cs.last();
        if c.restart_count > recorded_count(before, c) && !spec_is_skipped_interval(
            c.restart_count as int,
        ) {
            match spec_resolve(rules, namespace, pod_name, c.name@) {
                Some(ch) => prev.push((c@, ch)),
                None => prev,
            }
        } else {
            prev
        }
    }
}

/// The namespace of an instance as matched against the rules: its name, or
/// empty when the instance reports none.
pub open spec fn pod_ns_view(p: PodSnapshot) -> Seq<char> {
    match p.namespace {
        Some(ns) => ns@,
        None => Seq::empty(),
    }
}

/// Every count of the map is non-negative.
pub open spec fn counts_nonneg(m: Map<Seq<char>, i32>) -> bool {
    forall|k: Seq<char>| m.contains_key(k) ==> m[k] >= 0
}

/// Every count recorded anywhere in the ledger is non-negative.
pub open spec fn ledger_nonneg(l: Map<Seq<char>, Map<Seq<char>, i32>>) -> bool {
    forall|u: Seq<char>| l.contains_key(u) ==> counts_nonneg(#[trigger] l[u])
}

/// Every container of the snapshot reports a non-negative restart count.
pub open spec fn pod_counts_nonneg(cs: Seq<ContainerStatusSnapshot>) -> bool {
    forall|i: int| 0 <= i < cs.len() ==> (#[trigger] cs[i]).restart_count >= 0
}

/// Snapshots carried by the event report non-negative restart counts, as
/// the orchestrator guarantees.
pub open spec fn event_wf(e: WatchEvent) -> bool {
    match e {
        WatchEvent::InitApply(p) => pod_counts_nonneg(p.containers@),
        WatchEvent::Apply(p) => pod_counts_nonneg(p.containers@),
        _ => true,
    }
}

/// Counts collected from non-negative statuses are non-negative.
proof fn lemma_counts_of_nonneg(cs: Seq<ContainerStatusSnapshot>)
    requires
        pod_counts_nonneg(cs),
    ensures
        counts_nonneg(counts_of(cs)),
    decreases cs.len(),
{
    if cs.len() > 0 {
        assert(pod_counts_nonneg(cs.drop_last()));
        lemma_counts_of_nonneg(cs.drop_last());
        assert(cs.last() == cs[cs.len() - 1]);
    }
}

/// The projection of emitted alerts compared against `apply_alerts`.
pub open spec fn alerts_view(alerts: Seq<AlertRequest>) -> Seq<(ContainerStatusView, Seq<char>)> {
    alerts.map_values(|a: AlertRequest| (a.container@, a.channel@))
}

/// Builds the counts map mirroring the reported per-container counts.
fn counts_map_of(cs: &Vec<ContainerStatusSnapshot>) -> (result: CountsMap)
    ensures
        result.wf(),
        result@ =~= counts_of(cs@),
{
    let mut result = CountsMap::new();
    let mut i: usize = 0;
    proof {
        assert(cs@.take(0) =~= Seq::<ContainerStatusSnapshot>::empty());
    }
    while i < cs.len()
        invariant
            i <= cs.len(),
            result.wf(),
            result@ =~= counts_of(cs@.take(i as int)),
        decreases cs.len() - i,
    {
        result.record(&cs[i].name, cs[i].restart_count);
        proof {
            assert(cs@.take(i as int + 1).drop_last() =~= cs@.take(i as int));
            assert(cs@.take(i as int + 1).last() == cs@[i as int]);
        }
        i = i + 1;
    }
    proof {
        assert(cs@.take(cs@.len() as int) =~= cs@);
    }
    result
}

/// The engine driving the ledger from events: owns the ledger and the
/// routing configuration.
pub struct WatchEngine {
    pub config: NotificationConfig,
    pub ledger: RestartLedger,
}

impl WatchEngine {
    /// The ledger is well formed and never holds a negative count.
    pub open spec fn wf(&self) -> bool {
        self.ledger.wf() && ledger_nonneg(self.ledger@)
    }

    /// A fresh engine with an empty ledger.
    pub fn new(config: NotificationConfig) -> (result: WatchEngine)
        ensures
            result.wf(),
            result.ledger@ =~= Map::<Seq<char>, Map<Seq<char>, i32>>::empty(),
            result.config == config,
    {
        WatchEngine { config, ledger: RestartLedger::new() }
    }

    /// Processes one lifecycle event: maintains the ledger as the event
    /// kind prescribes and returns the alert decisions (only an `Apply` of
    /// an already-tracked instance can produce any).
    pub fn handle_event(&mut self, event: WatchEvent) -> (alerts: Vec<AlertRequest>)
        requires
            old(self).wf(),
            event_wf(event),
        ensures
            final(self).wf(),
            final(self).config == old(self).config,
            match event {
                WatchEvent::Init => final(self).ledger@ =~= Map::<
                    Seq<char>,
                    Map<Seq<char>, i32>,
                >::empty() && alerts@.len() == 0,
                WatchEvent::InitApply(p) => final(self).ledger@ =~= old(self).ledger@.insert(
                    p.uid@,
                    counts_of(p.containers@),
                ) && alerts@.len() == 0,
                WatchEvent::InitDone => final(self).ledger@ =~= old(self).ledger@
                    && alerts@.len() == 0,
                WatchEvent::Delete(p) => final(self).ledger@ =~= old(self).ledger@.remove(p.uid@)
                    && alerts@.len() == 0,
                WatchEvent::Apply(p) => if !old(self).ledger@.contains_key(p.uid@) {
                    final(self).ledger@ =~= old(self).ledger@.insert(
                        p.uid@,
                        counts_of(p.containers@),
                    ) && alerts@.len() == 0
                } else {
                    final(self).ledger@ =~= old(self).ledger@.insert(
                        p.uid@,
                        apply_counts(old(self).ledger@[p.uid@], p.containers@),
                    ) && alerts_view(alerts@) =~= apply_alerts(
                        old(self).ledger@[p.uid@],
                        p.containers@,
                        old(self).config@,
                        pod_ns_view(p),
                        p.name@,
                    )
                },
            },
    {
        match event {
            WatchEvent::Init => {
                self.ledger.clear();
                Vec::new()
            },
            WatchEvent::InitDone => Vec::new(),
            WatchEvent::InitApply(p) => {
                let counts = counts_map_of(&p.containers);
                proof {
                    lemma_counts_of_nonneg(p.containers@);
                }
                self.ledger.insert(&p.uid, counts);
                proof {
                    assert forall|u: Seq<char>| self.ledger@.contains_key(u) implies counts_nonneg(
                        #[trigger] self.ledger@[u],
                    ) by {
                        if u != p.uid@ {
                            assert(old(self).ledger@.contains_key(u));
                        }
                    }
                }
                Vec::new()
            },
            WatchEvent::Delete(p) => {
                self.ledger.remove(&p.uid);
                proof {
                    assert forall|u: Seq<char>| self.ledger@.contains_key(u) implies counts_nonneg(
                        #[trigger] self.ledger@[u],
                    ) by {
                        assert(old(self).ledger@.contains_key(u));
                    }
                }
                Vec::new()
            },
            WatchEvent::Apply(p) => self.process_applied(&p),
        }
    }

    /// Processes an applied instance: a first observation seeds the ledger
    /// and stays silent; a tracked one has each container compared against
    /// its recorded count, the ledger raised first, and the throttle and
    /// routing rules consulted for each increase.
    fn process_applied(&mut self, p: &PodSnapshot) -> (alerts: Vec<AlertRequest>)
        requires
            old(self).wf(),
            pod_counts_nonneg(p.containers@),
        ensures
            final(self).wf(),
            final(self).config == old(self).config,
            !old(self).ledger@.contains_key(p.uid@) ==> final(self).ledger@ =~= old(
                self,
            ).ledger@.insert(p.uid@, counts_of(p.containers@)) && alerts@.len() == 0,
            old(self).ledger@.contains_key(p.uid@) ==> final(self).ledger@ =~= old(
                self,
            ).ledger@.insert(p.uid@, apply_counts(old(self).ledger@[p.uid@], p.containers@))
                && alerts_view(alerts@) =~= apply_alerts(
                old(self).ledger@[p.uid@],
                p.containers@,
                old(self).config@,
                pod_ns_view(*p),
                p.name@,
            ),
    {
        let current = counts_map_of(&p.containers);
        proof {
            lemma_counts_of_nonneg(p.containers@);
        }
        let (is_new, _previous) = self.ledger.get_or_init(&p.uid, current);
        if is_new {
            proof {
                assert forall|u: Seq<char>| self.ledger@.contains_key(u) implies counts_nonneg(
                    #[trigger] self.ledger@[u],
                ) by {
                    if u != p.uid@ {
                        assert(old(self).ledger@.contains_key(u));
                    }
                }
            }
            return Vec::new();
        }
        let ghost l0 = self.ledger@;
        let ghost m0 = self.ledger@[p.uid@];
        let ghost cfg = self.config;
        let ghost ns = pod_ns_view(*p);
        let mut alerts: Vec<AlertRequest> = Vec::new();
        let mut i: usize = 0;
        proof {
            assert(p.containers@.take(0) =~= Seq::<ContainerStatusSnapshot>::empty());
            assert(l0.insert(p.uid@, m0) =~= l0);
        }
        while i < p.containers.len()
            invariant
                i <= p.containers@.len(),
                self.ledger.wf(),
                ledger_nonneg(self.ledger@),
                self.config == cfg,
                l0.contains_key(p.uid@),
                m0 == l0[p.uid@],
                ns == pod_ns_view(*p),
                ledger_nonneg(l0),
                pod_counts_nonneg(p.containers@),
                self.ledger@.contains_key(p.uid@),
                self.ledger@ =~= l0.insert(
                    p.uid@,
                    apply_counts(m0, p.containers@.take(i as int)),
                ),
                alerts_view(alerts@) =~= apply_alerts(
                    m0,
                    p.containers@.take(i as int),
                    cfg@,
                    ns,
                    p.name@,
                ),
            decreases p.containers@.len() - i,
        {
            let ghost taken = p.containers@.take(i as int);
            let ghost current = apply_counts(m0, taken);
            let c = &p.containers[i];
            let recorded = match self.ledger.count_of(&p.uid, &c.name) {
                Some(r) => r,
                None => 0,
            };
            proof {
                assert(recorded == recorded_count(current, *c));
                assert(recorded >= 0);
            }
            let new_count = if c.restart_count > recorded {
                c.restart_count
            } else {
                recorded
            };
            self.ledger.update(&p.uid, &c.name, new_count);
            proof {
                assert(p.containers@.take(i as int + 1).drop_last() =~= taken);
                assert(p.containers@.take(i as int + 1).last() == p.containers@[i as int]);
                assert(self.ledger@ =~= l0.insert(
                    p.uid@,
                    apply_counts(m0, p.containers@.take(i as int + 1)),
                ));
                assert forall|u: Seq<char>| self.ledger@.contains_key(u) implies counts_nonneg(
                    #[trigger] self.ledger@[u],
                ) by {
                    if u == p.uid@ {
                        assert forall|k: Seq<char>| self.ledger@[u].contains_key(k) implies
                            self.ledger@[u][k] >= 0 by {
                            if k != c.name@ {
                                assert(current.contains_key(k));
                            }
                        }
                    }
                }
            }
            let ghost before_alerts = alerts_view(alerts@);
            if c.restart_count > recorded {
                if !is_skipped_interval(c.restart_count) {
                    let namespace: &str = match &p.namespace {
                        Some(s) => s.as_str(),
                        None => "",
                    };
                    proof {
                        reveal_strlit("");
                        assert(""@ =~= Seq::<char>::empty());
                        assert(namespace@ == ns);
                    }
                    match self.config.find_channel(namespace, p.name.as_str(), c.name.as_str()) {
                        Some(channel) => {
                            let container = clone_container_status(c);
                            alerts.push(AlertRequest { container, channel });
                            proof {
                                assert(alerts_view(alerts@) =~= before_alerts.push(
                                    (p.containers@[i as int]@, spec_resolve(
                                        cfg@,
                                        ns,
                                        p.name@,
                                        c.name@,
                                    )->Some_0),
                                ));
                            }
                        },
                        None => {},
                    }
                }
            }
            proof {
                assert(alerts_view(alerts@) =~= apply_alerts(
                    m0,
                    p.containers@.take(i as int + 1),
                    cfg@,
                    ns,
                    p.name@,
                ));
            }
            i = i + 1;
        }
        proof {
            assert(p.containers@.take(p.containers@.len() as int) =~= p.containers@);
        }
        alerts
    }
}


/// The resource declarations of the first spec entry carrying the container
/// name: its resources (possibly none declared), or nothing when no entry
/// carries the name.
pub open spec fn spec_find_resources(cs: Seq<ContainerSpecSnapshot>, name: Seq<char>) -> Option<
    ContainerResourcesView,
>
    decreases cs.len(),
{
    if cs.len() == 0 {
        None
    } else if cs[0].name@ == name {
        match cs[0].resources {
            Some(r) => Some(r@),
            None => None,
        }
    } else {
        spec_find_resources(cs.skip(1), name)
    }
}

/// Looks up the declared resource limits and requests of the named
/// container in the instance's spec.
pub fn get_resources(p: &PodSnapshot, container_name: &String) -> (result: Option<
    ContainerResources,
>)
    ensures
        match result {
            Some(r) => spec_find_resources(p.spec_containers@, container_name@) == Some(r@),
            None => spec_find_resources(p.spec_containers@, container_name@) is None,
        },
{
    proof {
        assert(p.spec_containers@.skip(0) =~= p.spec_containers@);
    }
    let mut i: usize = 0;
    while i < p.spec_containers.len()
        invariant
            i <= p.spec_containers@.len(),
            spec_find_resources(p.spec_containers@, container_name@) == spec_find_resources(
                p.spec_containers@.skip(i as int),
                container_name@,
            ),
        decreases p.spec_containers@.len() - i,
    {
        let ghost remaining = p.spec_containers@.skip(i as int);
        proof {
            assert(remaining[0] == p.spec_containers@[i as int]);
            assert(remaining.skip(1) =~= p.spec_containers@.skip(i as int + 1));
        }
        if p.spec_containers[i].name == *container_name {
            return match &p.spec_containers[i].resources {
                Some(r) => Some(clone_resources(r)),
                None => None,
            };
        }
        i = i + 1;
    }
    None
}

/// Builds the alert record for one qualifying restart from the instance
/// snapshot, the routed channel and the outcome of the log fetch: identity
/// fields are copied, the last recorded termination is carried over, and
/// the resources are those declared for the container (empty when none are
/// found).
pub fn build_restart_info(
    p: &PodSnapshot,
    c: &ContainerStatusSnapshot,
    channel: String,
    logs: ContainerLog,
) -> (info: ContainerRestartInfo)
    ensures
        info@.namespace == opt_str_view(p.namespace),
        info@.pod_name == p.name@,
        info@.container_name == c.name@,
        info@.container_image == c.image@,
        info@.node_name == opt_str_view(p.node_name),
        info@.restart_count == c.restart_count as int,
        info@.last_state == c@.last_termination,
        info@.resources == (match spec_find_resources(p.spec_containers@, c.name@) {
            Some(r) => r,
            None => ContainerResourcesView { limits: Seq::empty(), requests: Seq::empty() },
        }),
        info@.logs == logs@,
        info@.channel == channel@,
{
    let resources = match get_resources(p, &c.name) {
        Some(r) => r,
        None => {
            let empty = ContainerResources::empty();
            proof {
                assert(empty@.limits =~= Seq::<(Seq<char>, Seq<char>)>::empty());
                assert(empty@.requests =~= Seq::<(Seq<char>, Seq<char>)>::empty());
            }
            empty
        },
    };
    ContainerRestartInfo {
        namespace: clone_opt_string(&p.namespace),
        pod_name: p.name.clone(),
        container_name: c.name.clone(),
        container_image: c.image.clone(),
        node_name: clone_opt_string(&p.node_name),
        restart_count: c.restart_count,
        last_state: match &c.last_termination {
            Some(st) => Some(clone_state(st)),
            None => None,
        },
        resources,
        logs,
        channel,
    }
}

/// Law: a tracked container reporting a higher count has the ledger raised
/// to that count whatever the throttle decides; it is alerted exactly once
/// when the new count is not throttled and the rules route it to a channel,
/// and not at all otherwise.
pub proof fn lemma_new_count_updates_and_alerts_once(
    m: Map<Seq<char>, i32>,
    c: ContainerStatusSnapshot,
    rules: Seq<RuleView>,
    namespace: Seq<char>,
    pod_name: Seq<char>,
)
    requires
        m.contains_key(c.name@),
        c.restart_count > m[c.name@],
    ensures
        apply_counts(m, seq![c]) == m.insert(c.name@, c.restart_count),
        spec_is_skipped_interval(c.restart_count as int) ==> apply_alerts(
            m,
            seq![c],
            rules,
            namespace,
            pod_name,
        ).len() == 0,
        (!spec_is_skipped_interval(c.restart_count as int) && spec_resolve(
            rules,
            namespace,
            pod_name,
            c.name@,
        ) is Some) ==> apply_alerts(m, seq![c], rules, namespace, pod_name) =~= seq![
            (c@, spec_resolve(rules, namespace, pod_name, c.name@)->Some_0),
        ],
        (!spec_is_skipped_interval(c.restart_count as int) && spec_resolve(
            rules,
            namespace,
            pod_name,
            c.name@,
        ) is None) ==> apply_alerts(m, seq![c], rules, namespace, pod_name).len() == 0,
{
    let e = Seq::<ContainerStatusSnapshot>::empty();
    assert(seq![c].drop_last() =~= e);
    assert(seq![c].last() == c);
    assert(apply_counts(m, e) == m);
    assert(apply_alerts(m, e, rules, namespace, pod_name) =~= Seq::<
        (ContainerStatusView, Seq<char>),
    >::empty());
    if !spec_is_skipped_interval(c.restart_count as int) {
        match spec_resolve(rules, namespace, pod_name, c.name@) {
            Some(ch) => {
                assert(apply_alerts(m, seq![c], rules, namespace, pod_name) =~= seq![(c@, ch)]);
            },
            None => {},
        }
    }
}

/// Law: a container reporting no increase is never alerted, and its
/// recorded count is kept (a container never recorded before is recorded
/// with its reported count, still without an alert).
pub proof fn lemma_no_increase_no_alert(
    m: Map<Seq<char>, i32>,
    c: ContainerStatusSnapshot,
    rules: Seq<RuleView>,
    namespace: Seq<char>,
    pod_name: Seq<char>,
)
    requires
        c.restart_count <= recorded_count(m, c),
    ensures
        apply_counts(m, seq![c]) == m.insert(c.name@, recorded_count(m, c)),
        apply_alerts(m, seq![c], rules, namespace, pod_name).len() == 0,
{
    let e = Seq::<ContainerStatusSnapshot>::empty();
    assert(seq![c].drop_last() =~= e);
    assert(seq![c].last() == c);
    assert(apply_counts(m, e) == m);
    assert(apply_alerts(m, e, rules, namespace, pod_name) =~= Seq::<
        (ContainerStatusView, Seq<char>),
    >::empty());
}

/// Law: deleting an instance clears its ledger state, so an identity
/// reusing it is absent from the ledger and a later `Apply` treats it as
/// brand new (it is seeded, with no alert, as `handle_event` states).
pub proof fn lemma_delete_clears_state(
    l: Map<Seq<char>, Map<Seq<char>, i32>>,
    uid: Seq<char>,
)
    ensures
        !l.remove(uid).contains_key(uid),
{
}


/// Container names are pairwise distinct within the snapshot, as the
/// orchestrator guarantees.
pub open spec fn distinct_names(cs: Seq<ContainerStatusSnapshot>) -> bool {
    forall|i: int, j: int| 0 <= i < j < cs.len() ==> cs[i].name@ != cs[j].name@
}

/// Counts of containers that a list never names are untouched by it.
proof fn lemma_apply_counts_frame(
    m: Map<Seq<char>, i32>,
    cs: Seq<ContainerStatusSnapshot>,
    k: Seq<char>,
)
    requires
        forall|i: int| 0 <= i < cs.len() ==> (#[trigger] cs[i]).name@ != k,
    ensures
        apply_counts(m, cs).contains_key(k) == m.contains_key(k),
        m.contains_key(k) ==> apply_counts(m, cs)[k] == m[k],
    decreases cs.len(),
{
    if cs.len() > 0 {
        lemma_apply_counts_frame(m, cs.drop_last(), k);
        assert(cs.last() == cs[cs.len() - 1]);
    }
}

/// Law: with distinct container names, the recorded count of each reported
/// container after an apply is the larger of its prior recorded count and
/// its reported count.
pub proof fn lemma_apply_counts_distinct(
    m: Map<Seq<char>, i32>,
    cs: Seq<ContainerStatusSnapshot>,
    i: int,
)
    requires
        distinct_names(cs),
        0 <= i < cs.len(),
    ensures
        apply_counts(m, cs).contains_key(cs[i].name@),
        apply_counts(m, cs)[cs[i].name@] == (if cs[i].restart_count > recorded_count(m, cs[i]) {
            cs[i].restart_count
        } else {
            recorded_count(m, cs[i])
        }),
    decreases cs.len(),
{
    let sub = cs.drop_last();
    if i == cs.len() - 1 {
        assert(forall|j: int| 0 <= j < sub.len() ==> (#[trigger] sub[j]).name@ != cs[i].name@);
        lemma_apply_counts_frame(m, sub, cs[i].name@);
        assert(cs.last() == cs[i]);
    } else {
        assert(distinct_names(sub));
        lemma_apply_counts_distinct(m, sub, i);
        assert(cs.last() == cs[cs.len() - 1]);
        assert(cs.last().name@ != cs[i].name@);
    }
}

/// The alert the container would get against ledger counts `m` alone.
pub open spec fn alert_of(
    m: Map<Seq<char>, i32>,
    c: ContainerStatusSnapshot,
    rules: Seq<RuleView>,
    namespace: Seq<char>,
    pod_name: Seq<char>,
) -> Seq<(ContainerStatusView, Seq<char>)> {
    if c.restart_count > recorded_count(m, c) && !spec_is_skipped_interval(
        c.restart_count as int,
    ) {
        match spec_resolve(rules, namespace, pod_name, c.name@) {
            Some(ch) => seq![(c@, ch)],
            None => Seq::empty(),
        }
    } else {
        Seq::empty()
    }
}

/// The alerts of all containers, each judged against `m` alone.
pub open spec fn independent_alerts(
    m: Map<Seq<char>, i32>,
    cs: Seq<ContainerStatusSnapshot>,
    rules: Seq<RuleView>,
    namespace: Seq<char>,
    pod_name: Seq<char>,
) -> Seq<(ContainerStatusView, Seq<char>)>
    decreases cs.len(),
{
    if cs.len() == 0 {
        Seq::empty()
    } else {
        independent_alerts(m, cs.drop_last(), rules, namespace, pod_name) + alert_of(
            m,
            cs.last(),
            rules,
            namespace,
            pod_name,
        )
    }
}

/// Law: with distinct container names, each container's alert decision
/// depends only on the ledger as it stood before the event; the emitted
/// alerts are exactly those of the containers whose reported count exceeds
/// the prior recorded one, not throttled, and routed to a channel, in
/// status order.
pub proof fn lemma_alerts_independent(
    m: Map<Seq<char>, i32>,
    cs: Seq<ContainerStatusSnapshot>,
    rules: Seq<RuleView>,
    namespace: Seq<char>,
    pod_name: Seq<char>,
)
    requires
        distinct_names(cs),
    ensures
        apply_alerts(m, cs, rules, namespace, pod_name) =~= independent_alerts(
            m,
            cs,
            rules,
            namespace,
            pod_name,
        ),
    decreases cs.len(),
{
    if cs.len() > 0 {
        let sub = cs.drop_last();
        let c = cs.last();
        assert(distinct_names(sub));
        lemma_alerts_independent(m, sub, rules, namespace, pod_name);
        assert(c == cs[cs.len() - 1]);
        assert(forall|j: int| 0 <= j < sub.len() ==> (#[trigger] sub[j]).name@ != c.name@);
        lemma_apply_counts_frame(m, sub, c.name@);
        assert(recorded_count(apply_counts(m, sub), c) == recorded_count(m, c));
        let prev = apply_alerts(m, sub, rules, namespace, pod_name);
        if c.restart_count > recorded_count(m, c) && !spec_is_skipped_interval(
            c.restart_count as int,
        ) {
            match spec_resolve(rules, namespace, pod_name, c.name@) {
                Some(ch) => {
                    assert(prev.push((c@, ch)) =~= prev + seq![(c@, ch)]);
                },
                None => {
                    assert(prev + Seq::<(ContainerStatusView, Seq<char>)>::empty() =~= prev);
                },
            }
        } else {
            assert(prev + Seq::<(ContainerStatusView, Seq<char>)>::empty() =~= prev);
        }
    }
}

} // verus!
