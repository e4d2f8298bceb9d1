//! The orchestration engine: a typed state machine over a validated
//! configuration. It plans priority tiers, gates each tier on its
//! dependencies, accounts health-check attempts against the budget,
//! classifies probe outcomes, applies the failure policy, and plans the
//! teardown. All process, network and timing work is performed by the
//! caller, which reports every outcome back as a plain value; the engine
//! states what holds of its decisions whatever came back.

use vstd::prelude::*;
use crate::config::{config_ok, error_witness, validate_config, Config, ConfigError, Server};
use crate::health::{classify, classify_spec, HealthClass, ProbeOutcome};
use crate::text::{
    aggregate_message, aggregate_msg, connect_error_message, connect_error_msg,
    dependency_unmet_message, dependency_unmet_msg, exhausted_message, exhausted_msg,
    server_error_message, server_error_msg,
};

verus! {

/// A server's status within one run: Ready and Failed are terminal.
#[derive(Clone, Copy, Debug, PartialEq, Eq, Structural)]
pub enum ServerStatus {
    Waiting,
    Ready,
    Failed,
}

/// A server's name, the unique key under which callers track statuses.
#[derive(Clone, Debug, PartialEq, Eq, Hash)]
pub struct ServerName(pub String);

/// The view of a tier list.
pub open spec fn tier_view(tiers: Seq<Vec<usize>>) -> Seq<Seq<usize>> {
    tiers.map_values(|v: Vec<usize>| v@)
}

/// Index `i` is a member of some tier.
pub open spec fn covered(tiers: Seq<Seq<usize>>, i: usize) -> bool {
    exists|t: int| 0 <= t < tiers.len() && (#[trigger] tiers[t]).contains(i)
}

/// Tiers partition the server indices by priority, ascending: every tier
/// is non-empty and uniform in priority, tier priorities strictly
/// increase, every server stands in a tier, and members are listed in
/// their configuration order.
pub open spec fn tiers_wf(specs: Seq<Server>, tiers: Seq<Seq<usize>>) -> bool {
    &&& forall|t: int, k: int|
        0 <= t < tiers.len() && 0 <= k < tiers[t].len() ==> (#[trigger] tiers[t][k]) < specs.len()
    &&& forall|t: int| 0 <= t < tiers.len() ==> (#[trigger] tiers[t]).len() > 0
    &&& forall|t: int, k: int|
        0 <= t < tiers.len() && 0 <= k < tiers[t].len() ==> specs[(#[trigger] tiers[t][k]) as int].priority
            == specs[tiers[t][0] as int].priority
    &&& forall|t1: int, t2: int|
        #![trigger tiers[t1], tiers[t2]]
        0 <= t1 < t2 < tiers.len() ==> specs[tiers[t1][0] as int].priority < specs[tiers[t2][0] as int].priority
    &&& forall|i: usize| i < specs.len() ==> covered(tiers, i)
    &&& forall|t: int, k1: int, k2: int|
        #![trigger tiers[t][k1], tiers[t][k2]]
        0 <= t < tiers.len() && 0 <= k1 < k2 < tiers[t].len() ==> tiers[t][k1] < tiers[t][k2]
}

/// Whether index `j` may still be picked when every priority up to
/// `last` is already planned.
spec fn eligible(specs: Seq<Server>, last: Option<u32>, j: int) -> bool {
    match last {
        Option::None => true,
        Option::Some(p) => specs[j].priority > p,
    }
}

/// Groups server indices into priority tiers, ascending.
fn plan_tiers(specs: &Vec<Server>) -> (tiers: Vec<Vec<usize>>)
    ensures
        tiers_wf(specs@, tier_view(tiers@)),
{
    let n = specs.len();
    let mut tiers: Vec<Vec<usize>> = Vec::new();
    let mut last: Option<u32> = None;
    loop
        invariant
            n == specs@.len(),
            forall|t: int, k: int|
                0 <= t < tier_view(tiers@).len() && 0 <= k < tier_view(tiers@)[t].len() ==> (
                #[trigger] tier_view(tiers@)[t][k]) < n,
            forall|t: int|
                0 <= t < tier_view(tiers@).len() ==> (#[trigger] tier_view(tiers@)[t]).len() > 0,
            forall|t: int, k: int|
                0 <= t < tier_view(tiers@).len() && 0 <= k < tier_view(tiers@)[t].len() ==> specs@[(
                #[trigger] tier_view(tiers@)[t][k]) as int].priority == specs@[tier_view(
                    tiers@,
                )[t][0] as int].priority,
            forall|t1: int, t2: int|
                #![trigger tier_view(tiers@)[t1], tier_view(tiers@)[t2]]
                0 <= t1 < t2 < tier_view(tiers@).len() ==> specs@[tier_view(
                    tiers@,
                )[t1][0] as int].priority < specs@[tier_view(tiers@)[t2][0] as int].priority,
            forall|t: int, k1: int, k2: int|
                #![trigger tier_view(tiers@)[t][k1], tier_view(tiers@)[t][k2]]
                0 <= t < tier_view(tiers@).len() && 0 <= k1 < k2 < tier_view(tiers@)[t].len()
                    ==> tier_view(tiers@)[t][k1] < tier_view(tiers@)[t][k2],
            match last {
                Option::None => tiers@.len() == 0,
                Option::Some(p) => {
                    &&& tiers@.len() > 0
                    &&& specs@[tier_view(tiers@)[tiers@.len() - 1][0] as int].priority == p
                    &&& forall|i: usize|
                        i < n && specs@[i as int].priority <= p ==> covered(tier_view(tiers@), i)
                },
            },
        decreases match last {
            Option::None => u32::MAX as int + 2,
            Option::Some(p) => u32::MAX as int - p + 1,
        },
    {
        // the smallest priority not yet planned
        let mut best: Option<u32> = None;
        let mut i: usize = 0;
        while i < n
            invariant
                i <= n,
                n == specs@.len(),
                match best {
                    Option::None => forall|j: int| 0 <= j < i ==> !eligible(specs@, last, j),
                    Option::Some(b) => {
                        &&& exists|j: int|
                            0 <= j < i && eligible(specs@, last, j) && (#[trigger] specs@[j].priority)
                                == b
                        &&& forall|j: int|
                            0 <= j < i && eligible(specs@, last, j) ==> (
                            #[trigger] specs@[j].priority) >= b
                        &&& match last {
                            Option::None => true,
                            Option::Some(p) => b > p,
                        }
                    },
                },
            decreases n - i,
        {
            let pi = specs[i].priority;
            let elig = match last {
                Option::None => true,
                Option::Some(p) => pi > p,
            };
            if elig {
                let take = match best {
                    Option::None => true,
                    Option::Some(b) => pi < b,
                };
                if take {
                    best = Some(pi);
                }
            }
            i += 1;
        }
        match best {
            Option::None => {
                proof {
                    assert forall|i2: usize| i2 < n implies covered(tier_view(tiers@), i2) by {
                        assert(!eligible(specs@, last, i2 as int));
                        match last {
                            Option::None => {
                                assert(false);
                            },
                            Option::Some(p) => {
                                assert(specs@[i2 as int].priority <= p);
                            },
                        }
                    }
                }
                return tiers;
            },
            Option::Some(p) => {
                let ghost old_tiers = tiers@;
                let ghost old_last = last;
                let mut tier: Vec<usize> = Vec::new();
                let mut j: usize = 0;
                while j < n
                    invariant
                        j <= n,
                        n == specs@.len(),
                        forall|k: int| 0 <= k < tier@.len() ==> (#[trigger] tier@[k]) < n,
                        forall|k: int|
                            0 <= k < tier@.len() ==> specs@[(#[trigger] tier@[k]) as int].priority
                                == p,
                        forall|k1: int, k2: int|
                            #![trigger tier@[k1], tier@[k2]]
                            0 <= k1 < k2 < tier@.len() ==> tier@[k1] < tier@[k2],
                        forall|k: int| 0 <= k < tier@.len() ==> (#[trigger] tier@[k]) < j,
                        forall|m: usize|
                            m < j && specs@[m as int].priority == p ==> tier@.contains(m),
                    decreases n - j,
                {
                    if specs[j].priority == p {
                        let ghost tier_before = tier@;
                        tier.push(j);
                        proof {
                            assert(tier@[tier@.len() - 1] == j);
                            assert forall|m: usize|
                                m < j + 1 && specs@[m as int].priority == p implies tier@.contains(
                                m,
                            ) by {
                                if m < j {
                                    assert(tier_before.contains(m));
                                    let k = choose|k: int|
                                        0 <= k < tier_before.len() && tier_before[k] == m;
                                    assert(tier@[k] == m);
                                } else {
                                    assert(tier@[tier@.len() - 1] == m);
                                }
                            }
                        }
                    }
                    j += 1;
                }
                proof {
                    let jw = choose|jw: int|
                        0 <= jw < n && eligible(specs@, old_last, jw) && (
                        #[trigger] specs@[jw].priority) == p;
                    assert(tier@.contains(jw as usize));
                    assert(tier@.len() > 0);
                }
                tiers.push(tier);
                last = Some(p);
                proof {
                    let tv = tier_view(tiers@);
                    let otv = tier_view(old_tiers);
                    assert(tv.len() == otv.len() + 1);
                    assert forall|t: int| 0 <= t < otv.len() implies tv[t] == otv[t] by {
                        assert(tiers@[t] == old_tiers[t]);
                    }
                    assert(tv[tv.len() - 1] == tier@);
                    // every index of priority at most p is now planned
                    assert forall|i2: usize|
                        i2 < n && specs@[i2 as int].priority <= p implies covered(tv, i2) by {
                        if specs@[i2 as int].priority == p {
                            assert(tier@.contains(i2));
                            assert(tv[tv.len() - 1].contains(i2));
                        } else {
                            match old_last {
                                Option::None => {
                                    // p is the minimum priority overall
                                    assert(eligible(specs@, old_last, i2 as int));
                                    assert(specs@[i2 as int].priority >= p);
                                    assert(false);
                                },
                                Option::Some(po) => {
                                    if specs@[i2 as int].priority > po {
                                        assert(eligible(specs@, old_last, i2 as int));
                                        assert(specs@[i2 as int].priority >= p);
                                        assert(false);
                                    } else {
                                        assert(covered(otv, i2));
                                        let t = choose|t: int|
                                            0 <= t < otv.len() && (#[trigger] otv[t]).contains(i2);
                                        assert(tv[t].contains(i2));
                                    }
                                },
                            }
                        }
                    }
                }
            },
        }
    }
}

/// How many servers are Failed.
spec fn failed_count(s: Seq<ServerStatus>) -> nat
    decreases s.len(),
{
    if s.len() == 0 {
        0
    } else {
        (if s[0] is Failed {
            1nat
        } else {
            0nat
        }) + failed_count(s.drop_first())
    }
}

/// Marking one non-Failed server Failed collects exactly one more error;
/// any other transition collects none.
proof fn lemma_failed_count_update(s: Seq<ServerStatus>, i: int, v: ServerStatus)
    requires
        0 <= i < s.len(),
        !(s[i] is Failed),
    ensures
        failed_count(s.update(i, v)) == failed_count(s) + (if v is Failed {
            1int
        } else {
            0int
        }),
    decreases s.len(),
{
    if i == 0 {
        assert(s.update(0, v).drop_first() =~= s.drop_first());
    } else {
        assert(s.update(i, v).drop_first() =~= s.drop_first().update(i - 1, v));
        lemma_failed_count_update(s.drop_first(), i - 1, v);
    }
}

fn filled<T: Copy>(n: usize, v: T) -> (r: Vec<T>)
    ensures
        r@.len() == n,
        forall|i: int| 0 <= i < n ==> r@[i] == v,
{
    let mut r: Vec<T> = Vec::new();
    let mut k: usize = 0;
    while k < n
        invariant
            k <= n,
            r@.len() == k,
            forall|i: int| 0 <= i < k ==> r@[i] == v,
        decreases n - k,
    {
        r.push(v);
        k += 1;
    }
    r
}

/// The orchestration state machine of one run.
pub struct ServerManager {
    /// The validated configuration the run was built from.
    pub config: Config,
    deps: Vec<Vec<usize>>,
    tiers: Vec<Vec<usize>>,
    statuses: Vec<ServerStatus>,
    attempts: Vec<u32>,
    spawned: Vec<bool>,
    spawn_order: Vec<usize>,
    errors: Vec<String>,
    max_attempts: u32,
    fail_fast: bool,
}

impl ServerManager {
    /// The number of servers.
    pub closed spec fn n(&self) -> nat {
        self.config.servers@.len()
    }

    /// The specification of server `i`.
    pub closed spec fn spec_at(&self, i: int) -> Server {
        self.config.servers@[i]
    }

    /// The final command of the run.
    pub closed spec fn command_view(&self) -> Seq<char> {
        self.config.command@
    }

    /// The status of server `i`.
    pub closed spec fn status_of(&self, i: int) -> ServerStatus {
        self.statuses@[i]
    }

    /// How many health-check attempts server `i` has consumed.
    pub closed spec fn attempts_of(&self, i: int) -> nat {
        self.attempts@[i] as nat
    }

    /// Whether server `i`'s process has been spawned.
    pub closed spec fn is_spawned(&self, i: int) -> bool {
        self.spawned@[i]
    }

    /// The resolved dependency indices of server `i`, in declaration order.
    pub closed spec fn deps_of(&self, i: int) -> Seq<usize> {
        self.deps@[i]@
    }

    /// The number of priority tiers.
    pub closed spec fn tier_count(&self) -> nat {
        self.tiers@.len()
    }

    /// The member indices of tier `t`, in configuration order.
    pub closed spec fn tier_at(&self, t: int) -> Seq<usize> {
        self.tiers@[t]@
    }

    /// The spawned servers in spawn order: the teardown plan.
    pub closed spec fn order_view(&self) -> Seq<usize> {
        self.spawn_order@
    }

    /// The fatal per-server errors collected so far, in order.
    pub closed spec fn errors_view(&self) -> Seq<Seq<char>> {
        self.errors@.map_values(|s: String| s@)
    }

    /// The attempt budget each server gets.
    pub closed spec fn budget(&self) -> nat {
        self.max_attempts as nat
    }

    /// Whether the first fatal outcome aborts the run.
    pub closed spec fn fail_fast_on(&self) -> bool {
        self.fail_fast
    }

    /// Every declared dependency of server `i` is Ready.
    pub open spec fn deps_ready(&self, i: int) -> bool {
        forall|k: int|
            0 <= k < self.deps_of(i).len() ==> self.status_of(
                #[trigger] self.deps_of(i)[k] as int,
            ) == ServerStatus::Ready
    }

    /// Every member of tier `t` has all its dependencies Ready.
    pub open spec fn tier_deps_ready(&self, t: int) -> bool {
        forall|k: int|
            0 <= k < self.tier_at(t).len() ==> self.deps_ready(#[trigger] self.tier_at(t)[k] as int)
    }

    /// Every member of tier `t` is terminal (Ready or Failed).
    pub open spec fn tier_settled(&self, t: int) -> bool {
        forall|k: int|
            0 <= k < self.tier_at(t).len() ==> self.status_of(#[trigger] self.tier_at(t)[k] as int)
                != ServerStatus::Waiting
    }

    /// The engine's internal consistency, preserved by every step:
    /// the state vectors cover every server; resolved dependencies mirror
    /// the declared names; tiers partition the servers by ascending
    /// priority; attempts never exceed the budget; a spawned server's
    /// dependencies are Ready; an unspawned server is untouched; the spawn
    /// order lists exactly the spawned servers, each once; and one error
    /// is collected per Failed server.
    pub closed spec fn wf(&self) -> bool {
        let n = self.config.servers@.len();
        &&& self.statuses@.len() == n
        &&& self.attempts@.len() == n
        &&& self.spawned@.len() == n
        &&& self.deps@.len() == n
        &&& self.max_attempts >= 1
        &&& forall|i: int|
            0 <= i < n ==> (#[trigger] self.deps@[i])@.len()
                == self.config.servers@[i].depends_on@.len()
        &&& forall|i: int, k: int|
            0 <= i < n && 0 <= k < self.deps@[i]@.len() ==> {
                &&& (#[trigger] self.deps@[i]@[k]) < n
                &&& self.config.servers@[self.deps@[i]@[k] as int].name@
                    == self.config.servers@[i].depends_on@[k]@
            }
        &&& tiers_wf(self.config.servers@, tier_view(self.tiers@))
        &&& forall|i: int| 0 <= i < n ==> (#[trigger] self.attempts@[i]) <= self.max_attempts
        &&& forall|i: int, k: int|
            0 <= i < n && self.spawned@[i] && 0 <= k < self.deps@[i]@.len() ==> self.statuses@[(
            #[trigger] self.deps@[i]@[k]) as int] == ServerStatus::Ready
        &&& forall|i: int|
            0 <= i < n && !(#[trigger] self.spawned@[i]) ==> self.statuses@[i]
                == ServerStatus::Waiting && self.attempts@[i] == 0
        &&& forall|m: int|
            0 <= m < self.spawn_order@.len() ==> (#[trigger] self.spawn_order@[m]) < n
                && self.spawned@[self.spawn_order@[m] as int]
        &&& forall|i: usize| i < n && self.spawned@[i as int] ==> self.spawn_order@.contains(i)
        &&& forall|m1: int, m2: int|
            #![trigger self.spawn_order@[m1], self.spawn_order@[m2]]
            0 <= m1 < m2 < self.spawn_order@.len() ==> self.spawn_order@[m1]
                != self.spawn_order@[m2]
        &&& self.errors@.len() == failed_count(self.statuses@)
    }

    /// The parts of the engine no step changes: the configuration, the
    /// resolved dependencies, the tier plan, and the run options.
    pub open spec fn same_plan(&self, other: &ServerManager) -> bool {
        &&& other.n() == self.n()
        &&& forall|i: int| 0 <= i < self.n() ==> other.spec_at(i) == self.spec_at(i)
        &&& other.command_view() == self.command_view()
        &&& other.tier_count() == self.tier_count()
        &&& forall|t: int| 0 <= t < self.tier_count() ==> other.tier_at(t) == self.tier_at(t)
        &&& forall|i: int| 0 <= i < self.n() ==> other.deps_of(i) == self.deps_of(i)
        &&& other.budget() == self.budget()
        &&& other.fail_fast_on() == self.fail_fast_on()
    }

    /// Builds the engine for one run over a configuration: validates it,
    /// resolves dependencies, and plans the priority tiers. Accepts exactly
    /// the valid configurations; every server starts Waiting with no
    /// attempts consumed and nothing spawned.
    pub fn new(config: Config, max_attempts: u32, fail_fast: bool) -> (r: Result<
        ServerManager,
        ConfigError,
    >)
        requires
            max_attempts >= 1,
        ensures
            (r is Ok) <==> config_ok(&config),
            match r {
                Ok(e) => {
                    &&& e.wf()
                    &&& e.n() == config.servers@.len()
                    &&& forall|i: int| 0 <= i < e.n() ==> e.spec_at(i) == config.servers@[i]
                    &&& e.command_view() == config.command@
                    &&& forall|i: int|
                        0 <= i < e.n() ==> e.status_of(i) == ServerStatus::Waiting
                            && e.attempts_of(i) == 0 && !e.is_spawned(i)
                    &&& e.order_view() == Seq::<usize>::empty()
                    &&& e.errors_view() == Seq::<Seq<char>>::empty()
                    &&& e.budget() == max_attempts as nat
                    &&& e.fail_fast_on() == fail_fast
                },
                Err(err) => error_witness(&config, err),
            },
    {
        match validate_config(&config) {
            Err(e) => {
                return Err(e);
            },
            Ok(()) => {},
        }
        let deps = match crate::config::resolve_dependencies(&config.servers) {
            Ok(d) => d,
            Err(e) => {
                // a configuration the validator accepted always resolves
                proof {
                    assert(false);
                }
                return Err(e);
            },
        };
        let tiers = plan_tiers(&config.servers);
        let n = config.servers.len();
        let statuses = filled(n, ServerStatus::Waiting);
        let attempts = filled(n, 0u32);
        let spawned = filled(n, false);
        let e = ServerManager {
            config,
            deps,
            tiers,
            statuses,
            attempts,
            spawned,
            spawn_order: Vec::new(),
            errors: Vec::new(),
            max_attempts,
            fail_fast,
        };
        proof {
            assert(e.errors@.map_values(|s: String| s@) =~= Seq::<Seq<char>>::empty());
            assert(failed_count(e.statuses@) == 0) by {
                lemma_failed_count_all_waiting(e.statuses@);
            }
        }
        Ok(e)
    }

    /// The number of priority tiers, processed in ascending order.
    pub fn num_tiers(&self) -> (r: usize)
        ensures
            r as nat == self.tier_count(),
    {
        self.tiers.len()
    }

    /// The member indices of tier `t`, in configuration order.
    pub fn tier_members(&self, t: usize) -> (r: Vec<usize>)
        requires
            t < self.tier_count(),
        ensures
            r@ == self.tier_at(t as int),
    {
        self.tiers[t].clone()
    }

    /// The current status of server `i`.
    pub fn status(&self, i: usize) -> (r: ServerStatus)
        requires
            self.wf(),
            i < self.n(),
        ensures
            r == self.status_of(i as int),
    {
        self.statuses[i]
    }

    /// How many health-check attempts server `i` has consumed.
    pub fn attempt_count(&self, i: usize) -> (r: u32)
        requires
            self.wf(),
            i < self.n(),
        ensures
            r as nat == self.attempts_of(i as int),
    {
        self.attempts[i]
    }

    /// The attempt budget each server gets.
    pub fn attempt_budget(&self) -> (r: u32)
        ensures
            r as nat == self.budget(),
    {
        self.max_attempts
    }

    /// Whether the first fatal outcome aborts the run.
    pub fn is_fail_fast(&self) -> (r: bool)
        ensures
            r == self.fail_fast_on(),
    {
        self.fail_fast
    }

    /// Whether every server of the run is Ready: only then may the final
    /// command be run.
    pub fn all_ready(&self) -> (r: bool)
        requires
            self.wf(),
        ensures
            r <==> forall|i: int|
                0 <= i < self.n() ==> self.status_of(i) == ServerStatus::Ready,
    {
        let n = self.statuses.len();
        let mut i: usize = 0;
        while i < n
            invariant
                i <= n,
                n == self.statuses@.len(),
                n == self.n(),
                forall|j: int| 0 <= j < i ==> self.status_of(j) == ServerStatus::Ready,
        decreases n - i,
        {
            let st = self.statuses[i];
            if !(st == ServerStatus::Ready) {
                proof {
                    assert(self.status_of(i as int) != ServerStatus::Ready);
                }
                return false;
            }
            i += 1;
        }
        true
    }

    /// The teardown plan: the spawned servers, in spawn order. Teardown
    /// visits them in this order, each preceded by its before-stop hook.
    pub fn stop_plan(&self) -> (r: Vec<usize>)
        requires
            self.wf(),
        ensures
            r@ == self.order_view(),
            forall|m: int| 0 <= m < r@.len() ==> (#[trigger] r@[m]) < self.n(),
    {
        self.spawn_order.clone()
    }
}

/// What one evaluation of a still-Waiting server decides first: whether
/// the next attempt fits the budget, or the budget is exhausted.
pub open spec fn gate_exhausts(attempts: nat, budget: nat) -> bool {
    attempts >= budget
}

/// What `begin_attempt` returns: proceed to a probe, or the server is
/// declared Failed with the exhaustion diagnostic.
pub enum AttemptGate {
    Proceed,
    Exhausted(String),
}

/// What `apply_probe` returns: the server became Ready (run its
/// after-ready hook), it keeps Waiting, or the probe was fatal; `abort`
/// echoes the fail-fast policy: when set, the caller abandons the tier at
/// once instead of polling its other members.
pub enum ProbeVerdict {
    Ready,
    StillWaiting,
    Fatal { message: String, abort: bool },
}

/// What a settled tier amounts to: keep polling, all members Ready, or a
/// failure — the single collected error, or the aggregate count.
pub enum TierOutcome {
    Pending,
    AllReady,
    Failed(String),
}

/// A tier member is a valid server index.
proof fn lemma_tier_member_bound(e: &ServerManager, t: int, k: int)
    requires
        e.wf(),
        0 <= t < e.tier_count(),
        0 <= k < e.tier_at(t).len(),
    ensures
        e.tier_at(t)[k] < e.n(),
{
    assert(tier_view(e.tiers@)[t] == e.tiers@[t]@);
    assert(tier_view(e.tiers@)[t][k] < e.config.servers@.len());
}

impl ServerManager {
    /// Dependency `d` of tier `t`'s member `k` is not Ready.
    pub open spec fn dep_unmet_at(&self, t: int, k: int, d: int) -> bool {
        self.status_of(self.deps_of(self.tier_at(t)[k] as int)[d] as int) != ServerStatus::Ready
    }

    /// No unmet dependency at any scan position before `(k, d)`.
    pub open spec fn no_unmet_before(&self, t: int, k: int, d: int) -> bool {
        forall|k2: int, d2: int|
            #![trigger self.deps_of(self.tier_at(t)[k2] as int)[d2]]
            0 <= k2 < self.tier_at(t).len() && 0 <= d2 < self.deps_of(
                self.tier_at(t)[k2] as int,
            ).len() && (k2 < k || (k2 == k && d2 < d)) ==> !self.dep_unmet_at(t, k2, d2)
    }

    /// Verifies that every member of tier `t` has its declared
    /// dependencies Ready. A rejection names the first member and
    /// dependency, in scan order, that is not; the whole run then fails
    /// with that diagnostic before anything of the tier is spawned.
    pub fn check_tier_deps(&self, t: usize) -> (r: Result<(), String>)
        requires
            self.wf(),
            t < self.tier_count(),
        ensures
            r.is_ok() <==> self.tier_deps_ready(t as int),
            match r {
                Ok(_) => true,
                Err(m) => exists|k: int, d: int|
                    #![trigger self.deps_of(self.tier_at(t as int)[k] as int)[d]]
                    {
                        &&& 0 <= k < self.tier_at(t as int).len()
                        &&& 0 <= d < self.deps_of(self.tier_at(t as int)[k] as int).len()
                        &&& self.dep_unmet_at(t as int, k, d)
                        &&& self.no_unmet_before(t as int, k, d)
                        &&& m@ == dependency_unmet_msg(
                            self.spec_at(self.tier_at(t as int)[k] as int).name@,
                            self.spec_at(self.tier_at(t as int)[k] as int).depends_on@[d]@,
                        )
                    },
            },
    {
        let members = &self.tiers[t];
        let mlen = members.len();
        let mut k: usize = 0;
        while k < mlen
            invariant
                self.wf(),
                t < self.tier_count(),
                mlen == self.tier_at(t as int).len(),
                members@ == self.tier_at(t as int),
                k <= mlen,
                forall|k2: int, d2: int|
                    #![trigger self.deps_of(self.tier_at(t as int)[k2] as int)[d2]]
                    0 <= k2 < k && 0 <= d2 < self.deps_of(
                        self.tier_at(t as int)[k2] as int,
                    ).len() ==> !self.dep_unmet_at(t as int, k2, d2),
            decreases mlen - k,
        {
            let member = members[k];
            proof {
                lemma_tier_member_bound(self, t as int, k as int);
            }
            let dlen = self.deps[member].len();
            let mut d: usize = 0;
            while d < dlen
                invariant
                    self.wf(),
                    t < self.tier_count(),
                    mlen == self.tier_at(t as int).len(),
                    members@ == self.tier_at(t as int),
                    k < mlen,
                    member == self.tier_at(t as int)[k as int],
                    member < self.n(),
                    dlen == self.deps_of(member as int).len(),
                    d <= dlen,
                    forall|d2: int|
                        0 <= d2 < d ==> !self.dep_unmet_at(t as int, k as int, d2),
                    forall|k2: int, d2: int|
                        #![trigger self.deps_of(self.tier_at(t as int)[k2] as int)[d2]]
                        0 <= k2 < k && 0 <= d2 < self.deps_of(
                            self.tier_at(t as int)[k2] as int,
                        ).len() ==> !self.dep_unmet_at(t as int, k2, d2),
                decreases dlen - d,
            {
                let dep_idx = self.deps[member][d];
                let st = self.statuses[dep_idx];
                if !(st == ServerStatus::Ready) {
                    let m = dependency_unmet_message(
                        self.config.servers[member].name.as_str(),
                        self.config.servers[member].depends_on[d].as_str(),
                    );
                    proof {
                        assert(self.dep_unmet_at(t as int, k as int, d as int));
                        assert(self.no_unmet_before(t as int, k as int, d as int));
                        assert(!self.deps_ready(member as int));
                        assert(!self.tier_deps_ready(t as int));
                    }
                    return Err(m);
                }
                d += 1;
            }
            k += 1;
        }
        proof {
            assert forall|k2: int|
                0 <= k2 < self.tier_at(t as int).len() implies self.deps_ready(
                #[trigger] self.tier_at(t as int)[k2] as int,
            ) by {
                assert forall|d2: int|
                    0 <= d2 < self.deps_of(self.tier_at(t as int)[k2] as int).len() implies self
                    .status_of(
                    #[trigger] self.deps_of(self.tier_at(t as int)[k2] as int)[d2] as int,
                ) == ServerStatus::Ready by {
                    assert(!self.dep_unmet_at(t as int, k2, d2));
                }
            }
        }
        Ok(())
    }

    /// Records that server `i`'s process was spawned, appending it to the
    /// teardown plan. A server is spawned only after its dependencies are
    /// Ready and its tier was gated.
    pub fn mark_spawned(&mut self, i: usize)
        requires
            old(self).wf(),
            i < old(self).n(),
            !old(self).is_spawned(i as int),
            old(self).deps_ready(i as int),
        ensures
            final(self).wf(),
            old(self).same_plan(final(self)),
            final(self).is_spawned(i as int),
            forall|j: int|
                0 <= j < old(self).n() && j != i ==> final(self).is_spawned(j) == old(
                    self,
                ).is_spawned(j),
            forall|j: int| 0 <= j < old(self).n() ==> final(self).status_of(j) == old(
                self,
            ).status_of(j) && final(self).attempts_of(j) == old(self).attempts_of(j),
            final(self).order_view() == old(self).order_view().push(i),
            final(self).errors_view() == old(self).errors_view(),
    {
        proof {
            assert forall|m: int| 0 <= m < self.spawn_order@.len() implies self.spawn_order@[m]
                != i by {
                assert(self.spawned@[self.spawn_order@[m] as int]);
            }
        }
        self.spawned.set(i, true);
        self.spawn_order.push(i);
        proof {
            let n = self.config.servers@.len();
            assert forall|j: usize| j < n && self.spawned@[j as int] implies self
                .spawn_order@.contains(j) by {
                if j == i {
                    assert(self.spawn_order@[self.spawn_order@.len() - 1] == i);
                } else {
                    assert(old(self).spawned@[j as int]);
                    assert(old(self).spawn_order@.contains(j));
                    let m = choose|m: int|
                        0 <= m < old(self).spawn_order@.len() && old(self).spawn_order@[m] == j;
                    assert(self.spawn_order@[m] == j);
                }
            }
        }
    }

    /// One evaluation of still-Waiting server `i`: if the budget allows
    /// another attempt, consume it and proceed to a probe; otherwise
    /// declare the server Failed with the exhaustion message naming the
    /// server and the budget, and collect that error.
    pub fn begin_attempt(&mut self, i: usize) -> (g: AttemptGate)
        requires
            old(self).wf(),
            i < old(self).n(),
            old(self).status_of(i as int) == ServerStatus::Waiting,
            old(self).is_spawned(i as int),
        ensures
            final(self).wf(),
            old(self).same_plan(final(self)),
            final(self).order_view() == old(self).order_view(),
            forall|j: int|
                0 <= j < old(self).n() && j != i ==> final(self).status_of(j) == old(
                    self,
                ).status_of(j) && final(self).attempts_of(j) == old(self).attempts_of(j),
            forall|j: int| 0 <= j < old(self).n() ==> final(self).is_spawned(j) == old(
                self,
            ).is_spawned(j),
            !gate_exhausts(old(self).attempts_of(i as int), old(self).budget()) ==> {
                &&& g is Proceed
                &&& final(self).attempts_of(i as int) == old(self).attempts_of(i as int) + 1
                &&& final(self).status_of(i as int) == ServerStatus::Waiting
                &&& final(self).errors_view() == old(self).errors_view()
            },
            gate_exhausts(old(self).attempts_of(i as int), old(self).budget()) ==> {
                &&& g matches AttemptGate::Exhausted(m) && m@ == exhausted_msg(
                    old(self).spec_at(i as int).name@,
                    old(self).budget(),
                ) && final(self).errors_view() == old(self).errors_view().push(m@)
                &&& final(self).status_of(i as int) == ServerStatus::Failed
                &&& final(self).attempts_of(i as int) == old(self).attempts_of(i as int)
            },
    {
        let a = self.attempts[i];
        if a < self.max_attempts {
            self.attempts.set(i, a + 1);
            AttemptGate::Proceed
        } else {
            let m = exhausted_message(self.config.servers[i].name.as_str(), self.max_attempts);
            let ghost old_statuses = self.statuses@;
            self.statuses.set(i, ServerStatus::Failed);
            self.errors.push(m.clone());
            proof {
                lemma_failed_count_update(old_statuses, i as int, ServerStatus::Failed);
                assert(self.errors@.map_values(|s: String| s@) =~= old(self).errors@.map_values(
                    |s: String| s@,
                ).push(m@));
            }
            AttemptGate::Exhausted(m)
        }
    }

    /// Applies the classification of one probe outcome to still-Waiting
    /// server `i`: an expected status makes it Ready; connection-refused,
    /// timeout, or an unexpected status below 500 keeps it Waiting; an
    /// unexpected status of 500 or above, or any other transport failure,
    /// declares it Failed with the exact diagnostic, which is collected.
    /// A fatal verdict orders an abort exactly under fail-fast.
    pub fn apply_probe(&mut self, i: usize, outcome: &ProbeOutcome) -> (v: ProbeVerdict)
        requires
            old(self).wf(),
            i < old(self).n(),
            old(self).status_of(i as int) == ServerStatus::Waiting,
            old(self).is_spawned(i as int),
        ensures
            final(self).wf(),
            old(self).same_plan(final(self)),
            final(self).order_view() == old(self).order_view(),
            forall|j: int|
                0 <= j < old(self).n() && j != i ==> final(self).status_of(j) == old(
                    self,
                ).status_of(j),
            forall|j: int| 0 <= j < old(self).n() ==> final(self).attempts_of(j) == old(
                self,
            ).attempts_of(j) && final(self).is_spawned(j) == old(self).is_spawned(j),
            match classify_spec(outcome, old(self).spec_at(i as int).health_check.expected_status@) {
                HealthClass::Ready => {
                    &&& v is Ready
                    &&& final(self).status_of(i as int) == ServerStatus::Ready
                    &&& final(self).errors_view() == old(self).errors_view()
                },
                HealthClass::Waiting => {
                    &&& v is StillWaiting
                    &&& final(self).status_of(i as int) == ServerStatus::Waiting
                    &&& final(self).errors_view() == old(self).errors_view()
                },
                HealthClass::FatalServer(code) => {
                    &&& v matches ProbeVerdict::Fatal { message, abort } && message@
                        == server_error_msg(old(self).spec_at(i as int).name@, code as nat)
                        && abort == old(self).fail_fast_on() && final(self).errors_view() == old(
                        self,
                    ).errors_view().push(message@)
                    &&& final(self).status_of(i as int) == ServerStatus::Failed
                },
                HealthClass::FatalConnect => {
                    &&& v matches ProbeVerdict::Fatal { message, abort } && (outcome matches
                    ProbeOutcome::Transport(detail) && message@ == connect_error_msg(
                        old(self).spec_at(i as int).name@,
                        old(self).spec_at(i as int).url@,
                        detail@,
                    )) && abort == old(self).fail_fast_on() && final(self).errors_view() == old(
                        self,
                    ).errors_view().push(message@)
                    &&& final(self).status_of(i as int) == ServerStatus::Failed
                },
            },
    {
        let class = classify(outcome, &self.config.servers[i].health_check.expected_status);
        match class {
            HealthClass::Ready => {
                let ghost old_statuses = self.statuses@;
                self.statuses.set(i, ServerStatus::Ready);
                proof {
                    lemma_failed_count_update(old_statuses, i as int, ServerStatus::Ready);
                }
                ProbeVerdict::Ready
            },
            HealthClass::Waiting => ProbeVerdict::StillWaiting,
            HealthClass::FatalServer(code) => {
                let m = server_error_message(self.config.servers[i].name.as_str(), code);
                let ghost old_statuses = self.statuses@;
                self.statuses.set(i, ServerStatus::Failed);
                self.errors.push(m.clone());
                proof {
                    lemma_failed_count_update(old_statuses, i as int, ServerStatus::Failed);
                    assert(self.errors@.map_values(|s: String| s@) =~= old(
                        self,
                    ).errors@.map_values(|s: String| s@).push(m@));
                }
                ProbeVerdict::Fatal { message: m, abort: self.fail_fast }
            },
            HealthClass::FatalConnect => {
                let detail: &str = match outcome {
                    ProbeOutcome::Transport(d) => d.as_str(),
                    _ => {
                        // only a Transport outcome classifies as FatalConnect
                        proof {
                            assert(false);
                        }
                        ""
                    },
                };
                let m = connect_error_message(
                    self.config.servers[i].name.as_str(),
                    self.config.servers[i].url.as_str(),
                    detail,
                );
                let ghost old_statuses = self.statuses@;
                self.statuses.set(i, ServerStatus::Failed);
                self.errors.push(m.clone());
                proof {
                    lemma_failed_count_update(old_statuses, i as int, ServerStatus::Failed);
                    assert(self.errors@.map_values(|s: String| s@) =~= old(
                        self,
                    ).errors@.map_values(|s: String| s@).push(m@));
                }
                ProbeVerdict::Fatal { message: m, abort: self.fail_fast }
            },
        }
    }

    /// Whether every member of tier `t` is terminal.
    pub fn is_tier_settled(&self, t: usize) -> (r: bool)
        requires
            self.wf(),
            t < self.tier_count(),
        ensures
            r == self.tier_settled(t as int),
    {
        let members = &self.tiers[t];
        let mlen = members.len();
        let mut k: usize = 0;
        while k < mlen
            invariant
                self.wf(),
                t < self.tier_count(),
                mlen == self.tier_at(t as int).len(),
                members@ == self.tier_at(t as int),
                k <= mlen,
                forall|k2: int|
                    0 <= k2 < k ==> self.status_of(#[trigger] self.tier_at(t as int)[k2] as int)
                        != ServerStatus::Waiting,
            decreases mlen - k,
        {
            let member = members[k];
            proof {
                lemma_tier_member_bound(self, t as int, k as int);
            }
            let st = self.statuses[member];
            if st == ServerStatus::Waiting {
                return false;
            }
            k += 1;
        }
        true
    }

    /// Resolves a settled tier: every member Ready with nothing collected
    /// succeeds; one collected error is surfaced as it stands; several are
    /// aggregated into the count of servers that failed to start. An
    /// unsettled tier keeps polling.
    pub fn tier_outcome(&self, t: usize) -> (r: TierOutcome)
        requires
            self.wf(),
            t < self.tier_count(),
        ensures
            !self.tier_settled(t as int) ==> r is Pending,
            self.tier_settled(t as int) && self.errors_view().len() == 0 ==> r is AllReady
                && forall|k: int|
                0 <= k < self.tier_at(t as int).len() ==> self.status_of(
                    #[trigger] self.tier_at(t as int)[k] as int,
                ) == ServerStatus::Ready,
            self.tier_settled(t as int) && self.errors_view().len() == 1 ==> (r matches
            TierOutcome::Failed(m) && m@ == self.errors_view()[0]),
            self.tier_settled(t as int) && self.errors_view().len() >= 2 ==> (r matches
            TierOutcome::Failed(m) && m@ == aggregate_msg(self.errors_view().len())),
    {
        if !self.is_tier_settled(t) {
            return TierOutcome::Pending;
        }
        let ecount = self.errors.len();
        if ecount == 0 {
            proof {
                assert(self.errors@.len() == 0);
                lemma_failed_count_zero(self.statuses@);
                assert forall|k: int|
                    0 <= k < self.tier_at(t as int).len() implies self.status_of(
                    #[trigger] self.tier_at(t as int)[k] as int,
                ) == ServerStatus::Ready by {
                    lemma_tier_member_bound(self, t as int, k);
                    let m = self.tier_at(t as int)[k];
                    assert(self.statuses@[m as int] != ServerStatus::Waiting);
                    assert(!(self.statuses@[m as int] is Failed));
                }
            }
            TierOutcome::AllReady
        } else if ecount == 1 {
            TierOutcome::Failed(self.errors[0].clone())
        } else {
            TierOutcome::Failed(aggregate_message(ecount as u64))
        }
    }
}

/// Law: a spawned server's declared dependencies are all Ready — no tier
/// member is spawned until every dependency, satisfied in a lower tier,
/// reached Ready; Ready is terminal, so this holds for the rest of the run.
pub proof fn lemma_spawned_deps_ready(e: &ServerManager, i: int, k: int)
    requires
        e.wf(),
        0 <= i < e.n(),
        e.is_spawned(i),
        0 <= k < e.deps_of(i).len(),
    ensures
        e.status_of(e.deps_of(i)[k] as int) == ServerStatus::Ready,
{
}

/// The attempt counter after some number of evaluations of a server whose
/// probes never classify Ready, against an attempt budget.
pub open spec fn attempts_after(evals: nat, budget: nat) -> nat
    decreases evals,
{
    if evals == 0 {
        0
    } else if attempts_after((evals - 1) as nat, budget) < budget {
        attempts_after((evals - 1) as nat, budget) + 1
    } else {
        attempts_after((evals - 1) as nat, budget)
    }
}

/// Law: with an attempt budget of N, a server whose health checks never
/// succeed is probed on evaluations 1 through N — each consumes exactly
/// one attempt — and the evaluation after the Nth reports exhaustion
/// instead of probing: `begin_attempt` then declares the server Failed
/// with the message naming the server and N. The server is thus reported
/// Failed on exactly the Nth attempt.
pub proof fn lemma_attempt_budget(budget: nat, evals: nat)
    requires
        budget >= 1,
    ensures
        evals <= budget ==> attempts_after(evals, budget) == evals,
        evals < budget ==> !gate_exhausts(attempts_after(evals, budget), budget),
        evals >= budget ==> attempts_after(evals, budget) == budget,
        evals >= budget ==> gate_exhausts(attempts_after(evals, budget), budget),
    decreases evals,
{
    if evals > 0 {
        lemma_attempt_budget(budget, (evals - 1) as nat);
    }
}

/// No error is collected exactly when no server is Failed.
proof fn lemma_failed_count_zero(s: Seq<ServerStatus>)
    ensures
        failed_count(s) == 0 <==> forall|i: int| 0 <= i < s.len() ==> !((#[trigger] s[i]) is Failed),
    decreases s.len(),
{
    if s.len() > 0 {
        lemma_failed_count_zero(s.drop_first());
        assert forall|i: int|
            0 <= i < s.len() && failed_count(s) == 0 implies !((#[trigger] s[i]) is Failed) by {
            if i > 0 {
                assert(s.drop_first()[i - 1] == s[i]);
            }
        }
        if forall|i: int| 0 <= i < s.len() ==> !((#[trigger] s[i]) is Failed) {
            assert forall|i: int|
                0 <= i < s.drop_first().len() implies !((#[trigger] s.drop_first()[i]) is Failed) by {
                assert(s.drop_first()[i] == s[i + 1]);
            }
        }
    }
}

/// A run that has not started has collected no errors.
proof fn lemma_failed_count_all_waiting(s: Seq<ServerStatus>)
    requires
        forall|i: int| 0 <= i < s.len() ==> s[i] == ServerStatus::Waiting,
    ensures
        failed_count(s) == 0,
    decreases s.len(),
{
    if s.len() > 0 {
        lemma_failed_count_all_waiting(s.drop_first());
    }
}

} // verus!
