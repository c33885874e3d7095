//! The scheduler's decision core. An execution plan is a DAG of execution
//! units — one per workspace-scoped command, one per (package-scoped
//! command, package) pair — whose edges enforce the command graph's order
//! and the package graph's order for same-kind work simultaneously. The
//! state machine here decides which units may start, what each event does to
//! the state, and when the run is over; performing the work and delivering
//! the events is the caller's part.

use vstd::prelude::*;
use crate::cmd::CommandRuntime;

verus! {

/// Where one execution unit stands.
#[derive(Clone, Copy, PartialEq, Eq, Structural, Debug)]
pub enum UnitStatus {
    /// Not started.
    Pending,
    /// Started and not yet finished or ready.
    Running,
    /// A long-lived unit that has signalled readiness and keeps running.
    Ready,
    /// Finished successfully.
    Done,
    /// Finished without success.
    Failed,
}

/// One schedulable execution: a command, the package it applies to (none
/// for workspace-scoped work), and the policy governing its dependents.
#[derive(Clone, Copy, Debug)]
pub struct ExecUnit {
    pub cmd: usize,
    pub pkg: Option<usize>,
    pub runtime: CommandRuntime,
}

/// The realized execution graph: units in a topological order, each unit's
/// prerequisites at lower positions.
pub struct ExecPlan {
    pub units: Vec<ExecUnit>,
    pub edges: Vec<Vec<usize>>,
}

impl ExecPlan {
    pub open spec fn wf(self) -> bool {
        &&& self.edges@.len() == self.units@.len()
        &&& (forall|i: int, k: int|
            0 <= i < self.edges@.len() && 0 <= k < self.edges@[i]@.len() ==> (
            #[trigger] self.edges@[i]@[k]) < i)
    }

    pub open spec fn has_edge(self, i: int, j: int) -> bool {
        exists|k: int| 0 <= k < self.edges@[i]@.len() && self.edges@[i]@[k] == j
    }
}

/// Whether a dependent of unit `d` may proceed past it: a
/// wait-for-dependencies unit must be done, a run-immediately unit merely
/// started, and a run-forever unit ready (it never finishes on its own).
pub open spec fn dep_satisfied(plan: ExecPlan, st: Seq<UnitStatus>, d: int) -> bool {
    match plan.units@[d].runtime {
        CommandRuntime::WaitForDependencies => st[d] is Done,
        CommandRuntime::RunImmediately => !(st[d] is Pending),
        CommandRuntime::RunForever => st[d] is Ready || st[d] is Done,
    }
}

/// A unit may start when it is pending and every prerequisite is satisfied
/// under its own policy.
pub open spec fn can_start(plan: ExecPlan, st: Seq<UnitStatus>, i: int) -> bool {
    &&& st[i] is Pending
    &&& forall|k: int|
        0 <= k < plan.edges@[i]@.len() ==> dep_satisfied(
            plan,
            st,
            (#[trigger] plan.edges@[i]@[k]) as int,
        )
}

/// What the supervising loop can observe happen.
#[derive(Clone, Copy, PartialEq, Eq, Structural, Debug)]
pub enum Event {
    /// A unit's work was started.
    Start { unit: usize },
    /// A run-forever unit completed its first pass.
    Ready { unit: usize },
    /// A unit's work finished, successfully or not.
    Finish { unit: usize, ok: bool },
}

/// The transition relation of the scheduler: which events are legal in a
/// state and what state they lead to.
pub open spec fn step(
    plan: ExecPlan,
    pre: Seq<UnitStatus>,
    ev: Event,
    post: Seq<UnitStatus>,
) -> bool {
    &&& pre.len() == plan.units@.len()
    &&& match ev {
        Event::Start { unit } => {
            &&& 0 <= unit < pre.len()
            &&& can_start(plan, pre, unit as int)
            &&& post == pre.update(unit as int, UnitStatus::Running)
        },
        Event::Ready { unit } => {
            &&& 0 <= unit < pre.len()
            &&& pre[unit as int] is Running
            &&& plan.units@[unit as int].runtime is RunForever
            &&& post == pre.update(unit as int, UnitStatus::Ready)
        },
        Event::Finish { unit, ok } => {
            &&& 0 <= unit < pre.len()
            &&& (pre[unit as int] is Running || pre[unit as int] is Ready)
            &&& post == pre.update(
                unit as int,
                if ok {
                    UnitStatus::Done
                } else {
                    UnitStatus::Failed
                },
            )
        },
    }
}

/// A run of the scheduler: a ledger of events and the states they pass
/// through.
pub open spec fn valid_trace(plan: ExecPlan, states: Seq<Seq<UnitStatus>>, events: Seq<Event>) -> bool {
    &&& states.len() == events.len() + 1
    &&& forall|t: int|
        0 <= t < events.len() ==> step(plan, states[t], #[trigger] events[t], states[t + 1])
}

/// The mutable scheduler state: one status per execution unit.
pub struct RunState {
    pub status: Vec<UnitStatus>,
}

impl RunState {
    /// Every unit starts out pending.
    pub fn init(plan: &ExecPlan) -> (r: RunState)
        ensures
            r.status@.len() == plan.units@.len(),
            forall|i: int| 0 <= i < r.status@.len() ==> (#[trigger] r.status@[i]) is Pending,
    {
        let mut status: Vec<UnitStatus> = Vec::new();
        let n = plan.units.len();
        let mut i: usize = 0;
        while i < n
            invariant
                i <= n,
                status@.len() == i,
                forall|t: int| 0 <= t < i ==> (#[trigger] status@[t]) is Pending,
            decreases n - i,
        {
            status.push(UnitStatus::Pending);
            i = i + 1;
        }
        RunState { status }
    }

    /// Whether unit `i` may start now.
    pub fn can_start_unit(&self, plan: &ExecPlan, i: usize) -> (r: bool)
        requires
            plan.wf(),
            self.status@.len() == plan.units@.len(),
            i < plan.units@.len(),
        ensures
            r == can_start(*plan, self.status@, i as int),
    {
        if !matches!(self.status[i], UnitStatus::Pending) {
            return false;
        }
        let row_len = plan.edges[i].len();
        let mut k: usize = 0;
        while k < row_len
            invariant
                plan.wf(),
                self.status@.len() == plan.units@.len(),
                i < plan.units@.len(),
                row_len == plan.edges@[i as int]@.len(),
                k <= row_len,
                forall|t: int|
                    0 <= t < k ==> dep_satisfied(
                        *plan,
                        self.status@,
                        (#[trigger] plan.edges@[i as int]@[t]) as int,
                    ),
        decreases row_len - k,
        {
            let d = plan.edges[i][k];
            let ok = match plan.units[d].runtime {
                CommandRuntime::WaitForDependencies => matches!(
                    self.status[d],
                    UnitStatus::Done
                ),
                CommandRuntime::RunImmediately => !matches!(self.status[d], UnitStatus::Pending),
                CommandRuntime::RunForever => matches!(
                    self.status[d],
                    UnitStatus::Ready | UnitStatus::Done
                ),
            };
            if !ok {
                return false;
            }
            k = k + 1;
        }
        true
    }

    /// The lowest-positioned unit that may start now, if any.
    pub fn next_runnable(&self, plan: &ExecPlan) -> (r: Option<usize>)
        requires
            plan.wf(),
            self.status@.len() == plan.units@.len(),
        ensures
            match r {
                Some(i) => i < plan.units@.len() && can_start(*plan, self.status@, i as int),
                None => forall|i: int|
                    0 <= i < plan.units@.len() ==> !can_start(*plan, self.status@, i),
            },
    {
        let n = plan.units.len();
        let mut i: usize = 0;
        while i < n
            invariant
                plan.wf(),
                self.status@.len() == plan.units@.len(),
                n == plan.units@.len(),
                i <= n,
                forall|t: int| 0 <= t < i ==> !can_start(*plan, self.status@, t),
            decreases n - i,
        {
            if self.can_start_unit(plan, i) {
                return Some(i);
            }
            i = i + 1;
        }
        None
    }

    /// Records that unit `i`'s work was started.
    pub fn start_unit(&mut self, plan: &ExecPlan, i: usize)
        requires
            plan.wf(),
            old(self).status@.len() == plan.units@.len(),
            i < plan.units@.len(),
            can_start(*plan, old(self).status@, i as int),
        ensures
            final(self).status@ == old(self).status@.update(i as int, UnitStatus::Running),
            step(*plan, old(self).status@, Event::Start { unit: i }, final(self).status@),
    {
        self.status.set(i, UnitStatus::Running);
    }

    /// Records that a run-forever unit completed its first pass: its
    /// dependents unblock while it keeps running.
    pub fn mark_ready(&mut self, plan: &ExecPlan, i: usize)
        requires
            plan.wf(),
            old(self).status@.len() == plan.units@.len(),
            i < plan.units@.len(),
            old(self).status@[i as int] is Running,
            plan.units@[i as int].runtime is RunForever,
        ensures
            final(self).status@ == old(self).status@.update(i as int, UnitStatus::Ready),
            step(*plan, old(self).status@, Event::Ready { unit: i }, final(self).status@),
    {
        self.status.set(i, UnitStatus::Ready);
    }

    /// Records that unit `i`'s work finished, successfully or not.
    pub fn finish_unit(&mut self, plan: &ExecPlan, i: usize, ok: bool)
        requires
            plan.wf(),
            old(self).status@.len() == plan.units@.len(),
            i < plan.units@.len(),
            old(self).status@[i as int] is Running || old(self).status@[i as int] is Ready,
        ensures
            final(self).status@ == old(self).status@.update(
                i as int,
                if ok {
                    UnitStatus::Done
                } else {
                    UnitStatus::Failed
                },
            ),
            step(*plan, old(self).status@, Event::Finish { unit: i, ok }, final(self).status@),
    {
        self.status.set(
            i,
            if ok {
                UnitStatus::Done
            } else {
                UnitStatus::Failed
            },
        );
    }

    /// Nothing is running and nothing more can start: the run has reached
    /// its end state (all work done, or blocked behind failures) or, in
    /// watch mode, its steady state apart from ready watchers.
    pub fn quiescent(&self, plan: &ExecPlan) -> (r: bool)
        requires
            plan.wf(),
            self.status@.len() == plan.units@.len(),
        ensures
            r == forall|i: int|
                0 <= i < plan.units@.len() ==> !((#[trigger] self.status@[i]) is Running)
                    && !can_start(*plan, self.status@, i),
    {
        let n = plan.units.len();
        let mut i: usize = 0;
        while i < n
            invariant
                plan.wf(),
                self.status@.len() == plan.units@.len(),
                n == plan.units@.len(),
                i <= n,
                forall|t: int|
                    0 <= t < i ==> !((#[trigger] self.status@[t]) is Running) && !can_start(
                        *plan,
                        self.status@,
                        t,
                    ),
            decreases n - i,
        {
            if matches!(self.status[i], UnitStatus::Running) {
                return false;
            }
            if self.can_start_unit(plan, i) {
                return false;
            }
            i = i + 1;
        }
        true
    }

    /// Every unit that is not a watcher completed successfully, and every
    /// watcher at least reached readiness.
    pub fn all_succeeded(&self, plan: &ExecPlan) -> (r: bool)
        requires
            self.status@.len() == plan.units@.len(),
        ensures
            r == forall|i: int|
                0 <= i < plan.units@.len() ==> if plan.units@[i].runtime is RunForever {
                    (#[trigger] self.status@[i]) is Ready || self.status@[i] is Done
                } else {
                    (#[trigger] self.status@[i]) is Done
                },
    {
        let n = plan.units.len();
        let mut i: usize = 0;
        while i < n
            invariant
                self.status@.len() == plan.units@.len(),
                n == plan.units@.len(),
                i <= n,
                forall|t: int|
                    0 <= t < i ==> if plan.units@[t].runtime is RunForever {
                        (#[trigger] self.status@[t]) is Ready || self.status@[t] is Done
                    } else {
                        (#[trigger] self.status@[t]) is Done
                    },
            decreases n - i,
        {
            let ok = match plan.units[i].runtime {
                CommandRuntime::RunForever => matches!(
                    self.status[i],
                    UnitStatus::Ready | UnitStatus::Done
                ),
                _ => matches!(self.status[i], UnitStatus::Done),
            };
            if !ok {
                return false;
            }
            i = i + 1;
        }
        true
    }
}

/// The ledger never shows a dependent starting before a
/// wait-for-dependencies prerequisite finished successfully: at the moment
/// a start event is legal, every such prerequisite is done.
pub proof fn law_wait_dep_finished_before_start(
    plan: ExecPlan,
    pre: Seq<UnitStatus>,
    post: Seq<UnitStatus>,
    i: usize,
    d: int,
)
    requires
        plan.wf(),
        step(plan, pre, Event::Start { unit: i }, post),
        plan.has_edge(i as int, d),
        plan.units@[d].runtime is WaitForDependencies,
    ensures
        pre[d] is Done,
{
    let k = choose|k: int|
        0 <= k < plan.edges@[i as int]@.len() && plan.edges@[i as int]@[k] == d;
    assert(dep_satisfied(plan, pre, plan.edges@[i as int]@[k] as int));
}

/// A readiness signal alone unblocks dependents of a run-forever unit: a
/// pending unit whose other prerequisites are satisfied may start as soon
/// as such a prerequisite is ready, without waiting for it to exit.
pub proof fn law_ready_unblocks_dependent(
    plan: ExecPlan,
    st: Seq<UnitStatus>,
    i: int,
    d: int,
)
    requires
        plan.wf(),
        0 <= i < plan.units@.len(),
        st.len() == plan.units@.len(),
        st[i] is Pending,
        plan.units@[d].runtime is RunForever,
        st[d] is Ready,
        forall|k: int|
            0 <= k < plan.edges@[i]@.len() && (#[trigger] plan.edges@[i]@[k]) != d
                ==> dep_satisfied(plan, st, plan.edges@[i]@[k] as int),
    ensures
        can_start(plan, st, i),
{
}

/// A failed unit stays failed for the rest of the run.
pub proof fn lemma_failed_persists(
    plan: ExecPlan,
    states: Seq<Seq<UnitStatus>>,
    events: Seq<Event>,
    d: int,
    t: int,
)
    requires
        valid_trace(plan, states, events),
        0 <= t < states.len(),
        0 <= d < states[t].len(),
        states[t][d] is Failed,
    ensures
        forall|t2: int| t <= t2 < states.len() ==> states[t2][d] is Failed,
    decreases states.len() - t,
{
    if t + 1 < states.len() {
        assert(step(plan, states[t], events[t], states[t + 1]));
        assert(states[t + 1][d] is Failed);
        lemma_failed_persists(plan, states, events, d, t + 1);
    }
}

/// A unit that has left the pending state never returns to it.
pub proof fn lemma_started_stays_started(
    plan: ExecPlan,
    states: Seq<Seq<UnitStatus>>,
    events: Seq<Event>,
    i: int,
    t: int,
)
    requires
        valid_trace(plan, states, events),
        0 <= t < states.len(),
        0 <= i < states[t].len(),
        !(states[t][i] is Pending),
    ensures
        forall|t2: int| t <= t2 < states.len() ==> !(states[t2][i] is Pending),
    decreases states.len() - t,
{
    if t + 1 < states.len() {
        assert(step(plan, states[t], events[t], states[t + 1]));
        assert(!(states[t + 1][i] is Pending));
        lemma_started_stays_started(plan, states, events, i, t + 1);
    }
}

/// A shared unit is started at most once in any run: the ledger cannot hold
/// two start events for the same unit.
pub proof fn law_started_at_most_once(
    plan: ExecPlan,
    states: Seq<Seq<UnitStatus>>,
    events: Seq<Event>,
    i: usize,
    t1: int,
    t2: int,
)
    requires
        valid_trace(plan, states, events),
        0 <= t1 < t2 < events.len(),
        events[t1] == (Event::Start { unit: i }),
    ensures
        events[t2] != (Event::Start { unit: i }),
{
    assert(step(plan, states[t1], events[t1], states[t1 + 1]));
    assert(!(states[t1 + 1][i as int] is Pending));
    lemma_started_stays_started(plan, states, events, i as int, t1 + 1);
    if events[t2] == (Event::Start { unit: i }) {
        assert(step(plan, states[t2], events[t2], states[t2 + 1]));
        assert(states[t2][i as int] is Pending);
    }
}

/// A failed wait-for-dependencies prerequisite keeps its dependents from
/// ever starting: from any state in which the prerequisite has failed while
/// the dependent is still pending, the dependent stays pending — the ledger
/// shows zero start events for it — while unrelated units proceed freely.
pub proof fn law_failed_dependency_blocks(
    plan: ExecPlan,
    states: Seq<Seq<UnitStatus>>,
    events: Seq<Event>,
    i: usize,
    d: int,
    t: int,
)
    requires
        plan.wf(),
        valid_trace(plan, states, events),
        0 <= t < states.len(),
        i < plan.units@.len(),
        states[t].len() == plan.units@.len(),
        plan.has_edge(i as int, d),
        plan.units@[d].runtime is WaitForDependencies,
        0 <= d < plan.units@.len(),
        states[t][d] is Failed,
        states[t][i as int] is Pending,
    ensures
        forall|t2: int| t <= t2 < states.len() ==> states[t2][i as int] is Pending,
    decreases states.len() - t,
{
    if t + 1 < states.len() {
        assert(step(plan, states[t], events[t], states[t + 1]));
        if events[t] == (Event::Start { unit: i }) {
            assert(can_start(plan, states[t], i as int));
            let k = choose|k: int|
                0 <= k < plan.edges@[i as int]@.len() && plan.edges@[i as int]@[k] == d;
            assert(dep_satisfied(plan, states[t], plan.edges@[i as int]@[k] as int));
            assert(false);
        }
        assert(states[t + 1][i as int] is Pending);
        assert(states[t + 1][d] is Failed);
        law_failed_dependency_blocks(plan, states, events, i, d, t + 1);
    }
}

/// The position of `q` in the display order, if it is there.
fn find_display_pos(display: &Vec<usize>, q: usize) -> (r: Option<usize>)
    ensures
        match r {
            Some(v) => v < display@.len() && display@[v as int] == q,
            None => forall|v: int| 0 <= v < display@.len() ==> display@[v] != q,
        },
{
    let mut v: usize = 0;
    while v < display.len()
        invariant
            v <= display@.len(),
            forall|t: int| 0 <= t < v ==> display@[t] != q,
        decreases display@.len() - v,
    {
        if display[v] == q {
            return Some(v);
        }
        v = v + 1;
    }
    None
}

/// Expands one package-scoped command into its execution plan: one unit per
/// package of the display order, carrying the command's runtime policy, and
/// an edge from a unit to exactly the units of the packages its own package
/// directly depends on — the package graph's order enforced for same-kind
/// work across packages.
pub fn plan_for_package_command(
    g: &crate::package::PackageGraph,
    display: &Vec<usize>,
    cmd: usize,
    rt: CommandRuntime,
) -> (r: ExecPlan)
    requires
        g.wf(),
        forall|t: int| 0 <= t < display@.len() ==> (#[trigger] display@[t]) < g.n,
        forall|u: int, v: int|
            0 <= u < v < display@.len() ==> g.rank@[(#[trigger] display@[u]) as int] < g.rank@[(
                #[trigger] display@[v]) as int],
    ensures
        r.wf(),
        r.units@.len() == display@.len(),
        r.edges@.len() == display@.len(),
        forall|t: int|
            0 <= t < display@.len() ==> (#[trigger] r.units@[t]).cmd == cmd && r.units@[t].pkg
                == Some(display@[t]) && r.units@[t].runtime == rt,
        // every direct package dependency inside the display order is a
        // plan edge
        forall|u: int, k: int, v: int|
            #![trigger g.edges@[display@[u] as int]@[k], display@[v]]
            0 <= u < display@.len() && 0 <= k < g.edges@[display@[u] as int]@.len() && 0 <= v
                < display@.len() && display@[v] == g.edges@[display@[u] as int]@[k]
                ==> r.has_edge(u, v),
{
    let npkg = display.len();
    let mut units: Vec<ExecUnit> = Vec::new();
    let mut edges: Vec<Vec<usize>> = Vec::new();
    let mut p: usize = 0;
    while p < npkg
        invariant
            g.wf(),
            npkg == display@.len(),
            forall|t: int| 0 <= t < display@.len() ==> (#[trigger] display@[t]) < g.n,
            forall|u: int, v: int|
                0 <= u < v < display@.len() ==> g.rank@[(#[trigger] display@[u]) as int]
                    < g.rank@[(#[trigger] display@[v]) as int],
            p <= npkg,
            units@.len() == p,
            edges@.len() == p,
            forall|t: int|
                0 <= t < p ==> (#[trigger] units@[t]).cmd == cmd && units@[t].pkg == Some(
                    display@[t],
                ) && units@[t].runtime == rt,
            forall|u: int, t: int|
                0 <= u < p && 0 <= t < edges@[u]@.len() ==> (#[trigger] edges@[u]@[t]) < u,
            forall|u: int, k: int, v: int|
                #![trigger g.edges@[display@[u] as int]@[k], display@[v]]
                0 <= u < p && 0 <= k < g.edges@[display@[u] as int]@.len() && 0 <= v < npkg
                    && display@[v] == g.edges@[display@[u] as int]@[k] ==> exists|t: int|
                    0 <= t < edges@[u]@.len() && (#[trigger] edges@[u]@[t]) == v,
        decreases npkg - p,
    {
        units.push(ExecUnit { cmd, pkg: Some(display[p]), runtime: rt });
        let x = display[p];
        let row_len = g.edges[x].len();
        let mut row: Vec<usize> = Vec::new();
        let mut k: usize = 0;
        while k < row_len
            invariant
                g.wf(),
                npkg == display@.len(),
                forall|t: int| 0 <= t < display@.len() ==> (#[trigger] display@[t]) < g.n,
                forall|u: int, v: int|
                    0 <= u < v < display@.len() ==> g.rank@[(#[trigger] display@[u]) as int]
                        < g.rank@[(#[trigger] display@[v]) as int],
                p < npkg,
                x < g.n,
                x == display@[p as int],
                row_len == g.edges@[x as int]@.len(),
                k <= row_len,
                forall|t: int|
                    0 <= t < row@.len() ==> (#[trigger] row@[t]) < p && exists|k2: int|
                        0 <= k2 < g.edges@[x as int]@.len() && (#[trigger] g.edges@[x as int]@[
                            k2]) == display@[row@[t] as int],
                forall|k2: int, v: int|
                    #![trigger g.edges@[x as int]@[k2], display@[v]]
                    0 <= k2 < k && 0 <= v < npkg && display@[v] == g.edges@[x as int]@[k2]
                        ==> exists|t: int| 0 <= t < row@.len() && (#[trigger] row@[t]) == v,
            decreases row_len - k,
        {
            let q = g.edges[x][k];
            match find_display_pos(display, q) {
                Some(v) => {
                    proof {
                        if v >= p {
                            if v > p {
                                assert(g.rank@[display@[p as int] as int] < g.rank@[display@[
                                    v as int] as int]);
                            }
                            assert(g.rank@[q as int] < g.rank@[x as int]);
                            assert(false);
                        }
                    }
                    let ghost rowpre = row@;
                    row.push(v);
                    proof {
                        assert(row@[row@.len() - 1] == v as int);
                        assert(g.edges@[x as int]@[k as int] == display@[v as int]);
                        assert forall|vv: int|
                            0 <= vv < npkg && display@[vv] == q implies vv == v as int by {
                            if vv < v as int {
                                assert(g.rank@[display@[vv] as int] < g.rank@[display@[
                                    v as int] as int]);
                            }
                            if vv > v as int {
                                assert(g.rank@[display@[v as int] as int] < g.rank@[display@[
                                    vv] as int]);
                            }
                        };
                        assert forall|k2: int, v2: int|
                            #![trigger g.edges@[x as int]@[k2], display@[v2]]
                            0 <= k2 < k + 1 && 0 <= v2 < npkg && display@[v2] == g.edges@[
                            x as int]@[k2] implies exists|t: int|
                            0 <= t < row@.len() && (#[trigger] row@[t]) == v2 by {
                            if k2 == k as int {
                                assert(v2 == v as int);
                            } else {
                                let t0 = choose|t0: int|
                                    0 <= t0 < rowpre.len() && rowpre[t0] == v2;
                                assert(row@[t0] == rowpre[t0]);
                            }
                        };
                    }
                },
                None => {},
            }
            k = k + 1;
        }
        let ghost pre_edges = edges@;
        edges.push(row);
        proof {
            assert(edges@[p as int]@ == row@);
            assert forall|u: int, k2: int, v: int|
                #![trigger g.edges@[display@[u] as int]@[k2], display@[v]]
                0 <= u < p + 1 && 0 <= k2 < g.edges@[display@[u] as int]@.len() && 0 <= v < npkg
                    && display@[v] == g.edges@[display@[u] as int]@[k2] implies exists|t: int|
                0 <= t < edges@[u]@.len() && (#[trigger] edges@[u]@[t]) == v by {
                if u < p as int {
                    assert(edges@[u]@ == pre_edges[u]@);
                    let t0 = choose|t0: int|
                        0 <= t0 < pre_edges[u]@.len() && (pre_edges[u]@[t0]) as int == v;
                    assert(edges@[u]@[t0] == pre_edges[u]@[t0]);
                } else {
                    assert(display@[u] == x as int);
                }
            };
        }
        p = p + 1;
    }
    let r = ExecPlan { units, edges };
    proof {
        assert forall|u: int, k: int, v: int|
            #![trigger g.edges@[display@[u] as int]@[k], display@[v]]
            0 <= u < display@.len() && 0 <= k < g.edges@[display@[u] as int]@.len() && 0 <= v
                < display@.len() && display@[v] == g.edges@[display@[u] as int]@[k] implies r.has_edge(
            u,
            v,
        ) by {
            let t0 = choose|t0: int|
                0 <= t0 < r.edges@[u]@.len() && (#[trigger] r.edges@[u]@[t0]) == v;
            assert(0 <= t0 < r.edges@[u]@.len() && r.edges@[u]@[t0] == v);
        };
    }
    r
}

} // verus!
