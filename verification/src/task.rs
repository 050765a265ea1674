//! Task scheduling: tasks declare at configuration time which resources they
//! read and write, the phase they belong to, ordering hints and a run
//! condition. The sequential schedule runs phases in order and tasks in
//! declaration order within a phase; the parallel schedule derives, from the
//! declared sets alone, which tasks of a phase may execute concurrently.

use vstd::prelude::*;

use crate::resource::ResourceId;
use crate::resource::ResourceMap;

verus! {

/// The context-flag bits of the current tick, passed into every task run.
pub struct TaskContextFlags {
    pub flags: usize,
}

impl TaskContextFlags {
    pub fn new(flags: usize) -> (r: Self)
        ensures
            r.flags == flags,
    {
        TaskContextFlags { flags }
    }

    pub fn flags(&self) -> (r: usize)
        ensures
            r == self.flags,
    {
        self.flags
    }
}

/// Everything a task declares at configuration time: its resource reads and
/// writes (component tables are ordinary resources here), the phase it runs
/// during, explicit ordering hints, and the run-condition bitmask evaluated
/// against the tick's context flags.
pub struct TaskConfig {
    /// Resources read by the task.
    pub reads: Vec<ResourceId>,
    /// Resources written by the task.
    pub writes: Vec<ResourceId>,
    /// The task reads the whole resource map at once.
    pub read_all_resources: bool,
    /// The task writes the whole resource map at once.
    pub write_all_resources: bool,
    /// The phase the task runs during.
    pub phase: u32,
    /// Tasks this one provides data to, as an ordering hint.
    pub provides_data_to: Vec<usize>,
    /// The task runs only when this bitmask intersects the context flags.
    pub run_criteria: usize,
}

/// Whether `config` declares a read of `id`.
pub open spec fn spec_reads_resource(config: TaskConfig, id: ResourceId) -> bool {
    config.read_all_resources || config.reads@.contains(id)
}

/// Whether `config` declares a write of `id`.
pub open spec fn spec_writes_resource(config: TaskConfig, id: ResourceId) -> bool {
    config.write_all_resources || config.writes@.contains(id)
}

/// Whether `config` declares any use of `id`.
pub open spec fn spec_uses_resource(config: TaskConfig, id: ResourceId) -> bool {
    spec_reads_resource(config, id) || spec_writes_resource(config, id)
}

/// Two tasks conflict exactly when one's declared write set intersects the
/// other's declared read or write set.
pub open spec fn configs_conflict(a: TaskConfig, b: TaskConfig) -> bool {
    exists|id: ResourceId|
        #![auto]
        (spec_writes_resource(a, id) && spec_uses_resource(b, id)) || (spec_writes_resource(b, id)
            && spec_uses_resource(a, id))
}

/// Two tasks of the same phase without a conflict may execute concurrently.
pub open spec fn eligible_concurrently(a: TaskConfig, b: TaskConfig) -> bool {
    a.phase == b.phase && !configs_conflict(a, b)
}

/// Whether a task with run condition `run_criteria` runs under `flags`. A run
/// condition that misses the flags is a normal skip, not an error.
pub open spec fn spec_task_runs(config: TaskConfig, flags: usize) -> bool {
    config.run_criteria & flags != 0
}

impl TaskConfig {
    /// A fresh declaration: no resources, the first phase, no ordering hints,
    /// and a run condition that always passes.
    pub fn new() -> (r: Self)
        ensures
            r.reads@.len() == 0,
            r.writes@.len() == 0,
            !r.read_all_resources,
            !r.write_all_resources,
            r.phase == 0,
            r.provides_data_to@.len() == 0,
            r.run_criteria == usize::MAX,
    {
        TaskConfig {
            reads: Vec::new(),
            writes: Vec::new(),
            read_all_resources: false,
            write_all_resources: false,
            phase: 0,
            provides_data_to: Vec::new(),
            run_criteria: usize::MAX,
        }
    }

    /// Declares a read of the resource registered under `id`.
    pub fn read_resource(&mut self, id: ResourceId)
        ensures
            *final(self) == (TaskConfig { reads: final(self).reads, ..*old(self) }),
            final(self).reads@ == old(self).reads@.push(id),
    {
        self.reads.push(id);
    }

    /// Declares a write of the resource registered under `id`.
    pub fn write_resource(&mut self, id: ResourceId)
        ensures
            *final(self) == (TaskConfig { writes: final(self).writes, ..*old(self) }),
            final(self).writes@ == old(self).writes@.push(id),
    {
        self.writes.push(id);
    }

    /// Declares a read of the whole resource map at once.
    pub fn read_all(&mut self)
        ensures
            *final(self) == (TaskConfig { read_all_resources: true, ..*old(self) }),
    {
        self.read_all_resources = true;
    }

    /// Declares a write of the whole resource map at once.
    pub fn write_all(&mut self)
        ensures
            *final(self) == (TaskConfig { write_all_resources: true, ..*old(self) }),
    {
        self.write_all_resources = true;
    }

    /// Declares the phase the task runs during.
    pub fn this_runs_during_phase(&mut self, phase: u32)
        ensures
            *final(self) == (TaskConfig { phase, ..*old(self) }),
    {
        self.phase = phase;
    }

    /// Declares that the configured task provides data to the task numbered `task`, as
    /// an explicit ordering hint.
    pub fn this_provides_data_to(&mut self, task: usize)
        ensures
            *final(self) == (TaskConfig {
                provides_data_to: final(self).provides_data_to,
                ..*old(self)
            }),
            final(self).provides_data_to@ == old(self).provides_data_to@.push(task),
    {
        self.provides_data_to.push(task);
    }

    /// Restricts the task to ticks whose context flags intersect `flags`.
    pub fn run_only_if(&mut self, flags: usize)
        ensures
            *final(self) == (TaskConfig { run_criteria: flags, ..*old(self) }),
    {
        self.run_criteria = flags;
    }
}

/// Whether `ids` holds `id`.
fn ids_contain(ids: &Vec<ResourceId>, id: ResourceId) -> (r: bool)
    ensures
        r == ids@.contains(id),
{
    let mut k: usize = 0;
    while k < ids.len()
        invariant
            k <= ids@.len(),
            forall|m: int| 0 <= m < k as int ==> ids@[m] != id,
        decreases ids@.len() - k,
    {
        if ids[k] == id {
            return true;
        }
        k = k + 1;
    }
    false
}

/// Whether `a`'s declared write set intersects `b`'s declared read or write
/// set.
fn writes_overlap_uses(a: &TaskConfig, b: &TaskConfig) -> (r: bool)
    ensures
        r == exists|id: ResourceId|
            #![auto]
            spec_writes_resource(*a, id) && spec_uses_resource(*b, id),
{
    if a.write_all_resources {
        // `a` writes every id, so any resource `b` touches conflicts.
        if b.read_all_resources || b.write_all_resources {
            proof {
                assert(spec_writes_resource(*a, 0) && spec_uses_resource(*b, 0));
            }
            return true;
        }
        if b.reads.len() > 0 {
            proof {
                assert(spec_uses_resource(*b, b.reads@[0]));
            }
            return true;
        }
        if b.writes.len() > 0 {
            proof {
                assert(spec_uses_resource(*b, b.writes@[0]));
            }
            return true;
        }
        proof {
            assert forall|id: ResourceId| !spec_uses_resource(*b, id) by {
                if b.reads@.contains(id) {
                    let k = choose|k: int| 0 <= k < b.reads@.len() && b.reads@[k] == id;
                }
                if b.writes@.contains(id) {
                    let k = choose|k: int| 0 <= k < b.writes@.len() && b.writes@[k] == id;
                }
            }
        }
        return false;
    }
    if b.read_all_resources || b.write_all_resources {
        // `b` touches every id, so any write of `a` conflicts.
        if a.writes.len() > 0 {
            proof {
                assert(spec_writes_resource(*a, a.writes@[0]));
            }
            return true;
        }
        proof {
            assert forall|id: ResourceId| !spec_writes_resource(*a, id) by {}
        }
        return false;
    }
    let mut k: usize = 0;
    while k < a.writes.len()
        invariant
            k <= a.writes@.len(),
            !a.write_all_resources,
            !b.read_all_resources,
            !b.write_all_resources,
            forall|m: int|
                0 <= m < k as int ==> !spec_uses_resource(*b, #[trigger] a.writes@[m]),
        decreases a.writes@.len() - k,
    {
        let id = a.writes[k];
        if ids_contain(&b.reads, id) || ids_contain(&b.writes, id) {
            proof {
                assert(a.writes@[k as int] == id);
                assert(a.writes@.contains(id));
                assert(spec_writes_resource(*a, id) && spec_uses_resource(*b, id));
            }
            return true;
        }
        k = k + 1;
    }
    proof {
        assert forall|id: ResourceId|
            spec_writes_resource(*a, id) implies !spec_uses_resource(*b, id) by {
            let m = choose|m: int| 0 <= m < a.writes@.len() && a.writes@[m] == id;
        }
    }
    false
}

/// Whether two declared tasks conflict: one's write set intersects the
/// other's read or write set. Conflicting tasks are never run concurrently.
pub fn configs_conflict_check(a: &TaskConfig, b: &TaskConfig) -> (r: bool)
    ensures
        r == configs_conflict(*a, *b),
{
    writes_overlap_uses(a, b) || writes_overlap_uses(b, a)
}

/// Tasks that declare disjoint resource sets and are scheduled in the same
/// phase are eligible to run concurrently.
pub proof fn lemma_disjoint_tasks_eligible(a: TaskConfig, b: TaskConfig)
    requires
        a.phase == b.phase,
        forall|id: ResourceId|
            #![auto]
            !(spec_uses_resource(a, id) && spec_uses_resource(b, id)),
    ensures
        eligible_concurrently(a, b),
{
    if configs_conflict(a, b) {
        let id = choose|id: ResourceId|
            #![auto]
            (spec_writes_resource(a, id) && spec_uses_resource(b, id)) || (spec_writes_resource(
                b,
                id,
            ) && spec_uses_resource(a, id));
        assert(spec_uses_resource(a, id) && spec_uses_resource(b, id));
    }
}

} // verus!

verus! {

/// The fixed ordered list of default phases: tasks run frame-begin work
/// first and end-of-frame work last.
pub const PHASE_FRAME_BEGIN: u32 = 0;

pub const PHASE_GATHER_INPUT: u32 = 1;

pub const PHASE_PRE_PHYSICS_GAMEPLAY: u32 = 2;

pub const PHASE_PHYSICS: u32 = 3;

pub const PHASE_POST_PHYSICS_GAMEPLAY: u32 = 4;

pub const PHASE_PRE_RENDER: u32 = 5;

pub const PHASE_RENDER: u32 = 6;

pub const PHASE_POST_RENDER: u32 = 7;

pub const PHASE_END_FRAME: u32 = 8;

/// Collects phases and task declarations for the sequential schedule. Phases
/// form a fixed ordered list; a task must name a phase that was registered
/// first — a task naming an unknown phase is a setup-time error, excluded by
/// precondition so it fails fast before the first tick.
pub struct TaskScheduleBuilderSingleThread {
    /// The phases, in execution order.
    pub phases: Vec<u32>,
    /// The task declarations, in declaration order.
    pub tasks: Vec<TaskConfig>,
}

/// Phases are distinct and every declared task names a registered phase.
pub open spec fn builder_data_wf(phases: Seq<u32>, tasks: Seq<TaskConfig>) -> bool {
    &&& phases.no_duplicates()
    &&& forall|t: int| 0 <= t < tasks.len() ==> phases.contains((#[trigger] tasks[t]).phase)
}

impl TaskScheduleBuilderSingleThread {
    pub open spec fn wf(&self) -> bool {
        builder_data_wf(self.phases@, self.tasks@)
    }

    pub fn new() -> (r: Self)
        ensures
            r.wf(),
            r.phases@.len() == 0,
            r.tasks@.len() == 0,
    {
        TaskScheduleBuilderSingleThread { phases: Vec::new(), tasks: Vec::new() }
    }

    /// Appends a phase to the fixed ordered list; each phase is registered
    /// exactly once.
    pub fn add_phase(&mut self, phase: u32)
        requires
            old(self).wf(),
            !old(self).phases@.contains(phase),
        ensures
            final(self).wf(),
            final(self).phases@ == old(self).phases@.push(phase),
            final(self).tasks@ == old(self).tasks@,
    {
        self.phases.push(phase);
        proof {
            assert forall|t: int|
                0 <= t < self.tasks@.len() implies self.phases@.contains(
                (#[trigger] self.tasks@[t]).phase,
            ) by {
                assert(old(self).phases@.contains(self.tasks@[t].phase));
                let p = choose|p: int|
                    0 <= p < old(self).phases@.len() && old(self).phases@[p] == self.tasks@[t].phase;
                assert(self.phases@[p] == self.tasks@[t].phase);
            }
        }
    }

    /// Declares a task. Its phase must already be registered.
    pub fn add_task(&mut self, config: TaskConfig)
        requires
            old(self).wf(),
            old(self).phases@.contains(config.phase),
        ensures
            final(self).wf(),
            final(self).phases@ == old(self).phases@,
            final(self).tasks@ == old(self).tasks@.push(config),
    {
        self.tasks.push(config);
    }

    /// Orders the declared tasks: phases in registration order, tasks in
    /// declaration order within each phase.
    pub fn build(self) -> (r: TaskScheduleSingleThread)
        requires
            self.wf(),
        ensures
            r.schedule_wf(),
            r.phases@ == self.phases@,
            r.tasks@ == self.tasks@,
    {
        let order = order_tasks_by_phase(&self.phases, &self.tasks);
        TaskScheduleSingleThread { phases: self.phases, tasks: self.tasks, order }
    }
}

/// Whether the grouped `order` places the task numbered `t` somewhere.
pub open spec fn order_places(order: Seq<Vec<usize>>, t: int) -> bool {
    exists|p: int, k: int|
        0 <= p < order.len() && 0 <= k < order[p]@.len() && (#[trigger] order[p]@[k]) as int == t
}

/// The grouped order is coherent with `phases` and `tasks`: row `p` lists
/// exactly the tasks of phase `phases[p]`, in declaration order.
pub open spec fn order_wf(phases: Seq<u32>, tasks: Seq<TaskConfig>, order: Seq<Vec<usize>>) -> bool {
    &&& order.len() == phases.len()
    &&& forall|p: int, k: int|
        0 <= p < order.len() && 0 <= k < order[p]@.len() ==> ((#[trigger] order[p]@[k]) as int)
            < tasks.len() && tasks[order[p]@[k] as int].phase == phases[p]
    &&& forall|p: int, k1: int, k2: int|
        0 <= p < order.len() && 0 <= k1 < k2 < order[p]@.len() ==> order[p]@[k1] < order[p]@[k2]
    &&& forall|t: int| 0 <= t < tasks.len() ==> #[trigger] order_places(order, t)
}

/// Groups task indices by phase: row `p` lists the declared tasks of phase
/// `phases[p]` in declaration order.
fn order_tasks_by_phase(phases: &Vec<u32>, tasks: &Vec<TaskConfig>) -> (order: Vec<Vec<usize>>)
    requires
        builder_data_wf(phases@, tasks@),
    ensures
        order_wf(phases@, tasks@, order@),
{
    let mut order: Vec<Vec<usize>> = Vec::new();
    let mut p: usize = 0;
    while p < phases.len()
        invariant
            builder_data_wf(phases@, tasks@),
            p <= phases@.len(),
            order@.len() == p as int,
            forall|q: int, k: int|
                0 <= q < order@.len() && 0 <= k < order@[q]@.len() ==> ((
                #[trigger] order@[q]@[k]) as int) < tasks@.len() && tasks@[order@[q]@[k] as int].phase
                    == phases@[q],
            forall|q: int, k1: int, k2: int|
                0 <= q < order@.len() && 0 <= k1 < k2 < order@[q]@.len() ==> order@[q]@[k1]
                    < order@[q]@[k2],
            forall|t: int|
                0 <= t < tasks@.len() && phases@.take(p as int).contains(
                    (#[trigger] tasks@[t]).phase,
                ) ==> order_places(order@, t),
        decreases phases@.len() - p,
    {
        let mut row: Vec<usize> = Vec::new();
        let mut t: usize = 0;
        while t < tasks.len()
            invariant
                t <= tasks@.len(),
                p < phases@.len(),
                forall|k: int|
                    0 <= k < row@.len() ==> ((#[trigger] row@[k]) as int) < t as int
                        && tasks@[row@[k] as int].phase == phases@[p as int],
                forall|k1: int, k2: int| 0 <= k1 < k2 < row@.len() ==> row@[k1] < row@[k2],
                forall|u: int|
                    0 <= u < t as int && (#[trigger] tasks@[u]).phase == phases@[p as int]
                        ==> exists|k: int| 0 <= k < row@.len() && (#[trigger] row@[k]) as int == u,
            decreases tasks@.len() - t,
        {
            let ghost prev_row = row@;
            if tasks[t].phase == phases[p] {
                row.push(t);
                proof {
                    assert forall|u: int|
                        0 <= u < (t as int) + 1 && (#[trigger] tasks@[u]).phase
                            == phases@[p as int] implies exists|k: int|
                        0 <= k < row@.len() && (#[trigger] row@[k]) as int == u by {
                        if u == t as int {
                            assert((row@[row@.len() - 1]) as int == u);
                        } else {
                            let k = choose|k: int|
                                0 <= k < prev_row.len() && (#[trigger] prev_row[k]) as int == u;
                            assert((row@[k]) as int == u);
                        }
                    }
                }
            }
            t = t + 1;
        }
        let ghost prev_order = order@;
        order.push(row);
        proof {
            assert(phases@.take((p as int) + 1).drop_last() == phases@.take(p as int));
            assert(phases@.take((p as int) + 1).last() == phases@[p as int]);
            assert forall|t2: int|
                0 <= t2 < tasks@.len() && phases@.take((p as int) + 1).contains(
                    (#[trigger] tasks@[t2]).phase,
                ) implies order_places(order@, t2) by {
                if tasks@[t2].phase == phases@[p as int] {
                    let k = choose|k: int|
                        0 <= k < row@.len() && (#[trigger] row@[k]) as int == t2;
                    assert(order@[p as int]@[k] as int == t2);
                } else {
                    assert(phases@.take(p as int).contains(tasks@[t2].phase)) by {
                        let q = choose|q: int|
                            0 <= q < phases@.take((p as int) + 1).len() && (#[trigger] phases@.take(
                                (p as int) + 1,
                            )[q]) == tasks@[t2].phase;
                        assert(phases@.take(p as int)[q] == tasks@[t2].phase);
                    }
                    assert(order_places(prev_order, t2));
                    let (q, k): (int, int) = choose|q: int, k: int|
                        0 <= q < prev_order.len() && 0 <= k < prev_order[q]@.len() && (
                        #[trigger] prev_order[q]@[k]) as int == t2;
                    assert((order@[q]@[k]) as int == t2);
                }
            }
        }
        p = p + 1;
    }
    proof {
        assert(phases@.take(phases@.len() as int) =~= phases@);
        assert forall|t: int| 0 <= t < tasks@.len() implies #[trigger] order_places(order@, t) by {
            assert(phases@.contains(tasks@[t].phase));
            assert(phases@.take(phases@.len() as int).contains(tasks@[t].phase));
        }
    }
    order
}

/// Sequential schedule: phases in registration order, tasks in declaration
/// order within each phase; one call stack runs every planned task in order,
/// so a task only observes committed state from tasks that ran earlier.
pub struct TaskScheduleSingleThread {
    /// The phases, in execution order.
    pub phases: Vec<u32>,
    /// The task declarations.
    pub tasks: Vec<TaskConfig>,
    /// Row `p` lists the tasks of phase `phases[p]` in declaration order.
    pub order: Vec<Vec<usize>>,
}

/// The tasks of `row` that run under `flags`, in row order.
pub open spec fn runnable_of(tasks: Seq<TaskConfig>, flags: usize, row: Seq<usize>) -> Seq<usize>
    decreases row.len(),
{
    if row.len() == 0 {
        Seq::empty()
    } else {
        let rest = runnable_of(tasks, flags, row.drop_last());
        if spec_task_runs(tasks[row.last() as int], flags) {
            rest.push(row.last())
        } else {
            rest
        }
    }
}

/// The plan of the first `p` phases of `s` under `flags`.
pub open spec fn spec_plan_up_to(s: TaskScheduleSingleThread, flags: usize, p: int) -> Seq<usize>
    decreases p,
{
    if p <= 0 {
        Seq::empty()
    } else {
        spec_plan_up_to(s, flags, p - 1) + runnable_of(s.tasks@, flags, s.order@[p - 1]@)
    }
}

/// The tick plan of `s` under `flags`: phase by phase in order, the tasks
/// whose run condition intersects the flags, in declaration order.
pub open spec fn spec_plan(s: TaskScheduleSingleThread, flags: usize) -> Seq<usize> {
    spec_plan_up_to(s, flags, s.order@.len() as int)
}

impl TaskScheduleSingleThread {
    pub open spec fn schedule_wf(&self) -> bool {
        &&& self.phases@.no_duplicates()
        &&& order_wf(self.phases@, self.tasks@, self.order@)
    }

    /// The indices of the tasks to execute this tick, in execution order: a
    /// task whose run-condition bitmask does not intersect the context flags
    /// is skipped entirely — it is not dispatched, fetches no resource and
    /// has no side effects.
    pub fn plan_tick(&self, context_flags: &TaskContextFlags) -> (r: Vec<usize>)
        requires
            self.schedule_wf(),
        ensures
            r@ == spec_plan(*self, context_flags.flags),
    {
        let flags = context_flags.flags();
        let mut out: Vec<usize> = Vec::new();
        let mut p: usize = 0;
        while p < self.order.len()
            invariant
                self.schedule_wf(),
                p <= self.order@.len(),
                flags == context_flags.flags,
                out@ == spec_plan_up_to(*self, flags, p as int),
            decreases self.order@.len() - p,
        {
            let row = &self.order[p];
            let mut k: usize = 0;
            while k < row.len()
                invariant
                    self.schedule_wf(),
                    p < self.order@.len(),
                    *row == self.order@[p as int],
                    k <= row@.len(),
                    flags == context_flags.flags,
                    out@ == spec_plan_up_to(*self, flags, p as int) + runnable_of(
                        self.tasks@,
                        flags,
                        row@.take(k as int),
                    ),
                decreases row@.len() - k,
            {
                let t = row[k];
                proof {
                    assert((self.order@[p as int]@[k as int]) as int == t as int);
                    assert(row@.take((k as int) + 1).drop_last() == row@.take(k as int));
                    assert(row@.take((k as int) + 1).last() == row@[k as int]);
                }
                if self.tasks[t].run_criteria & flags != 0 {
                    out.push(t);
                }
                k = k + 1;
            }
            proof {
                assert(row@.take(row@.len() as int) =~= row@);
            }
            p = p + 1;
        }
        out
    }
}

/// A member of a row's runnable sequence is a member of the row whose run
/// condition intersects the flags.
proof fn lemma_runnable_members(tasks: Seq<TaskConfig>, flags: usize, row: Seq<usize>, t: usize)
    requires
        runnable_of(tasks, flags, row).contains(t),
    ensures
        row.contains(t),
        spec_task_runs(tasks[t as int], flags),
    decreases row.len(),
{
    if row.len() > 0 {
        let rest = runnable_of(tasks, flags, row.drop_last());
        if spec_task_runs(tasks[row.last() as int], flags) && t == row.last() {
            assert(row[row.len() - 1] == t);
        } else {
            assert(rest.contains(t)) by {
                let out = runnable_of(tasks, flags, row);
                let k = choose|k: int| 0 <= k < out.len() && out[k] == t;
                if spec_task_runs(tasks[row.last() as int], flags) {
                    assert(out[k] == rest.push(row.last())[k]);
                }
            }
            lemma_runnable_members(tasks, flags, row.drop_last(), t);
            let k = choose|k: int| 0 <= k < row.drop_last().len() && row.drop_last()[k] == t;
            assert(row[k] == t);
        }
    }
}

/// A member of a row whose run condition intersects the flags is a member of
/// the row's runnable sequence.
proof fn lemma_runnable_complete(tasks: Seq<TaskConfig>, flags: usize, row: Seq<usize>, t: usize)
    requires
        row.contains(t),
        spec_task_runs(tasks[t as int], flags),
    ensures
        runnable_of(tasks, flags, row).contains(t),
    decreases row.len(),
{
    if row.len() > 0 {
        let out = runnable_of(tasks, flags, row);
        let rest = runnable_of(tasks, flags, row.drop_last());
        if t == row.last() {
            assert(out == rest.push(t));
            assert(out[out.len() - 1] == t);
        } else {
            assert(row.drop_last().contains(t)) by {
                let k = choose|k: int| 0 <= k < row.len() && row[k] == t;
                assert(row.drop_last()[k] == t);
            }
            lemma_runnable_complete(tasks, flags, row.drop_last(), t);
            let k = choose|k: int| 0 <= k < rest.len() && rest[k] == t;
            if spec_task_runs(tasks[row.last() as int], flags) {
                assert(out[k] == t);
            }
        }
    }
}

/// A member of the plan's first `p` phases lies in one of those rows and its
/// run condition intersects the flags.
proof fn lemma_plan_members(s: TaskScheduleSingleThread, flags: usize, p: int, t: usize)
    requires
        spec_plan_up_to(s, flags, p).contains(t),
    ensures
        spec_task_runs(s.tasks@[t as int], flags),
        exists|q: int| 0 <= q < p && (#[trigger] s.order@[q]@).contains(t),
    decreases p,
{
    let out = spec_plan_up_to(s, flags, p);
    let left = spec_plan_up_to(s, flags, p - 1);
    let right = runnable_of(s.tasks@, flags, s.order@[p - 1]@);
    let k = choose|k: int| 0 <= k < out.len() && out[k] == t;
    if k < left.len() {
        assert(left[k] == t);
        lemma_plan_members(s, flags, p - 1, t);
        let q = choose|q: int| 0 <= q < p - 1 && (#[trigger] s.order@[q]@).contains(t);
        assert(0 <= q < p && s.order@[q]@.contains(t));
    } else {
        assert(right[k - left.len()] == t);
        lemma_runnable_members(s.tasks@, flags, s.order@[p - 1]@, t);
        assert(0 <= p - 1 < p && s.order@[p - 1]@.contains(t));
    }
}

/// A task whose run-condition bitmask does not intersect the tick's context
/// flags is not part of the tick's plan: it is never dispatched, fetches no
/// resource, and its body does not execute.
pub proof fn lemma_skipped_task_not_planned(s: TaskScheduleSingleThread, flags: usize, t: usize)
    requires
        !spec_task_runs(s.tasks@[t as int], flags),
    ensures
        !spec_plan(s, flags).contains(t),
{
    if spec_plan(s, flags).contains(t) {
        lemma_plan_members(s, flags, s.order@.len() as int, t);
    }
}

/// Every declared task whose run condition intersects the tick's context
/// flags is part of the tick's plan.
pub proof fn lemma_runnable_task_planned(s: TaskScheduleSingleThread, flags: usize, t: usize)
    requires
        s.schedule_wf(),
        (t as int) < s.tasks@.len(),
        spec_task_runs(s.tasks@[t as int], flags),
    ensures
        spec_plan(s, flags).contains(t),
{
    assert(order_places(s.order@, t as int));
    let (q, k): (int, int) = choose|q: int, k: int|
        0 <= q < s.order@.len() && 0 <= k < s.order@[q]@.len() && (#[trigger] s.order@[q]@[k]) as int
            == t as int;
    assert(s.order@[q]@.contains(t)) by {
        assert(s.order@[q]@[k] == t);
    }
    lemma_runnable_complete(s.tasks@, flags, s.order@[q]@, t);
    lemma_plan_up_to_contains(s, flags, q, t);
}

/// Membership in a phase's runnable row carries into every longer plan
/// prefix.
proof fn lemma_plan_up_to_contains(s: TaskScheduleSingleThread, flags: usize, q: int, t: usize)
    requires
        0 <= q < s.order@.len(),
        runnable_of(s.tasks@, flags, s.order@[q]@).contains(t),
    ensures
        spec_plan_up_to(s, flags, s.order@.len() as int).contains(t),
{
    lemma_plan_up_to_contains_rec(s, flags, q, s.order@.len() as int, t);
}

proof fn lemma_plan_up_to_contains_rec(
    s: TaskScheduleSingleThread,
    flags: usize,
    q: int,
    p: int,
    t: usize,
)
    requires
        0 <= q < p,
        runnable_of(s.tasks@, flags, s.order@[q]@).contains(t),
    ensures
        spec_plan_up_to(s, flags, p).contains(t),
    decreases p,
{
    let left = spec_plan_up_to(s, flags, p - 1);
    let right = runnable_of(s.tasks@, flags, s.order@[p - 1]@);
    if q == p - 1 {
        let k = choose|k: int| 0 <= k < right.len() && right[k] == t;
        assert(spec_plan_up_to(s, flags, p)[left.len() + k] == t);
    } else {
        lemma_plan_up_to_contains_rec(s, flags, q, p - 1, t);
        let k = choose|k: int| 0 <= k < left.len() && left[k] == t;
        assert(spec_plan_up_to(s, flags, p)[k] == t);
    }
}

/// Registers the default phases with `builder`, in their fixed execution
/// order, then declares each of the given task configurations.
pub fn register_tasks(builder: &mut TaskScheduleBuilderSingleThread, tasks: Vec<TaskConfig>)
    requires
        old(builder).wf(),
        old(builder).phases@.len() == 0,
        old(builder).tasks@.len() == 0,
        forall|t: int| 0 <= t < tasks@.len() ==> (#[trigger] tasks@[t]).phase <= PHASE_END_FRAME,
    ensures
        final(builder).wf(),
        final(builder).phases@ == seq![
            PHASE_FRAME_BEGIN,
            PHASE_GATHER_INPUT,
            PHASE_PRE_PHYSICS_GAMEPLAY,
            PHASE_PHYSICS,
            PHASE_POST_PHYSICS_GAMEPLAY,
            PHASE_PRE_RENDER,
            PHASE_RENDER,
            PHASE_POST_RENDER,
            PHASE_END_FRAME,
        ],
        final(builder).tasks@ == tasks@,
{
    let ghost all = tasks@;
    let mut tasks = tasks;
    builder.add_phase(PHASE_FRAME_BEGIN);
    builder.add_phase(PHASE_GATHER_INPUT);
    builder.add_phase(PHASE_PRE_PHYSICS_GAMEPLAY);
    builder.add_phase(PHASE_PHYSICS);
    builder.add_phase(PHASE_POST_PHYSICS_GAMEPLAY);
    builder.add_phase(PHASE_PRE_RENDER);
    builder.add_phase(PHASE_RENDER);
    builder.add_phase(PHASE_POST_RENDER);
    builder.add_phase(PHASE_END_FRAME);
    proof {
        assert(builder.phases@ =~= seq![
            PHASE_FRAME_BEGIN,
            PHASE_GATHER_INPUT,
            PHASE_PRE_PHYSICS_GAMEPLAY,
            PHASE_PHYSICS,
            PHASE_POST_PHYSICS_GAMEPLAY,
            PHASE_PRE_RENDER,
            PHASE_RENDER,
            PHASE_POST_RENDER,
            PHASE_END_FRAME,
        ]);
    }
    while tasks.len() > 0
        invariant
            builder.wf(),
            forall|u: int| 0 <= u < all.len() ==> (#[trigger] all[u]).phase <= PHASE_END_FRAME,
            builder.phases@ == seq![
                PHASE_FRAME_BEGIN,
                PHASE_GATHER_INPUT,
                PHASE_PRE_PHYSICS_GAMEPLAY,
                PHASE_PHYSICS,
                PHASE_POST_PHYSICS_GAMEPLAY,
                PHASE_PRE_RENDER,
                PHASE_RENDER,
                PHASE_POST_RENDER,
                PHASE_END_FRAME,
            ],
            all == builder.tasks@ + tasks@,
        decreases tasks@.len(),
    {
        let config = tasks.remove(0);
        proof {
            let n = builder.tasks@.len() as int;
            assert(all[n] == config);
            assert(builder.phases@[config.phase as int] == config.phase);
            assert(builder.phases@.contains(config.phase));
        }
        builder.add_task(config);
        proof {
            assert(all =~= builder.tasks@ + tasks@);
        }
    }
    proof {
        assert(builder.tasks@ =~= all);
    }
}

} // verus!

verus! {

/// Collects phases and task declarations for the parallel schedule; the
/// declarations are the same as for the sequential schedule, only execution
/// differs.
pub struct TaskScheduleBuilderMultiThread {
    /// The phases, in execution order.
    pub phases: Vec<u32>,
    /// The task declarations, in declaration order.
    pub tasks: Vec<TaskConfig>,
}

impl TaskScheduleBuilderMultiThread {
    pub open spec fn wf(&self) -> bool {
        builder_data_wf(self.phases@, self.tasks@)
    }

    pub fn new() -> (r: Self)
        ensures
            r.wf(),
            r.phases@.len() == 0,
            r.tasks@.len() == 0,
    {
        TaskScheduleBuilderMultiThread { phases: Vec::new(), tasks: Vec::new() }
    }

    /// Appends a phase to the fixed ordered list; each phase is registered
    /// exactly once.
    pub fn add_phase(&mut self, phase: u32)
        requires
            old(self).wf(),
            !old(self).phases@.contains(phase),
        ensures
            final(self).wf(),
            final(self).phases@ == old(self).phases@.push(phase),
            final(self).tasks@ == old(self).tasks@,
    {
        self.phases.push(phase);
        proof {
            assert forall|t: int|
                0 <= t < self.tasks@.len() implies self.phases@.contains(
                (#[trigger] self.tasks@[t]).phase,
            ) by {
                assert(old(self).phases@.contains(self.tasks@[t].phase));
                let p = choose|p: int|
                    0 <= p < old(self).phases@.len() && old(self).phases@[p] == self.tasks@[t].phase;
                assert(self.phases@[p] == self.tasks@[t].phase);
            }
        }
    }

    /// Declares a task. Its phase must already be registered.
    pub fn add_task(&mut self, config: TaskConfig)
        requires
            old(self).wf(),
            old(self).phases@.contains(config.phase),
        ensures
            final(self).wf(),
            final(self).phases@ == old(self).phases@,
            final(self).tasks@ == old(self).tasks@.push(config),
    {
        self.tasks.push(config);
    }

    /// Orders the declared tasks by phase, as the sequential schedule does;
    /// concurrency within a phase is derived per tick from the declared
    /// resource sets.
    pub fn build(self) -> (r: TaskScheduleMultiThread)
        requires
            self.wf(),
        ensures
            r.schedule_wf(),
            r.phases@ == self.phases@,
            r.tasks@ == self.tasks@,
    {
        let order = order_tasks_by_phase(&self.phases, &self.tasks);
        TaskScheduleMultiThread { phases: self.phases, tasks: self.tasks, order }
    }
}

/// Parallel schedule: phases are hard barriers, and within one phase tasks
/// are grouped so that no two tasks of a group conflict — a group's members
/// may run truly concurrently, while conflicting tasks land in different
/// groups and are thereby serialized.
pub struct TaskScheduleMultiThread {
    /// The phases, in execution order.
    pub phases: Vec<u32>,
    /// The task declarations.
    pub tasks: Vec<TaskConfig>,
    /// Row `p` lists the tasks of phase `phases[p]` in declaration order.
    pub order: Vec<Vec<usize>>,
}

impl TaskScheduleMultiThread {
    pub open spec fn schedule_wf(&self) -> bool {
        &&& self.phases@.no_duplicates()
        &&& order_wf(self.phases@, self.tasks@, self.order@)
    }

    /// Whether the task numbered `t` conflicts with any member of `group`.
    fn task_conflicts_with_group(&self, t: usize, group: &Vec<usize>) -> (r: bool)
        requires
            (t as int) < self.tasks@.len(),
            forall|k: int|
                0 <= k < group@.len() ==> ((#[trigger] group@[k]) as int) < self.tasks@.len(),
        ensures
            r == exists|k: int|
                0 <= k < group@.len() && configs_conflict(
                    self.tasks@[t as int],
                    self.tasks@[(#[trigger] group@[k]) as int],
                ),
    {
        let mut k: usize = 0;
        while k < group.len()
            invariant
                (t as int) < self.tasks@.len(),
                k <= group@.len(),
                forall|m: int|
                    0 <= m < group@.len() ==> ((#[trigger] group@[m]) as int) < self.tasks@.len(),
                forall|m: int|
                    0 <= m < k as int ==> !configs_conflict(
                        self.tasks@[t as int],
                        self.tasks@[(#[trigger] group@[m]) as int],
                    ),
            decreases group@.len() - k,
        {
            let other = group[k];
            if configs_conflict_check(&self.tasks[t], &self.tasks[other]) {
                proof {
                    assert(configs_conflict(
                        self.tasks@[t as int],
                        self.tasks@[(group@[k as int]) as int],
                    ));
                }
                return true;
            }
            k = k + 1;
        }
        false
    }

    /// Finds a group none of whose members conflicts with the task numbered
    /// `t`, if one exists.
    fn find_compatible_group(&self, t: usize, groups: &Vec<Vec<usize>>) -> (r: Option<usize>)
        requires
            (t as int) < self.tasks@.len(),
            forall|g: int, k: int|
                0 <= g < groups@.len() && 0 <= k < groups@[g]@.len() ==> ((
                #[trigger] groups@[g]@[k]) as int) < self.tasks@.len(),
        ensures
            r is Some ==> (r.unwrap() as int) < groups@.len() && forall|k: int|
                0 <= k < groups@[r.unwrap() as int]@.len() ==> !configs_conflict(
                    self.tasks@[t as int],
                    self.tasks@[(#[trigger] groups@[r.unwrap() as int]@[k]) as int],
                ),
    {
        let mut g: usize = 0;
        while g < groups.len()
            invariant
                (t as int) < self.tasks@.len(),
                g <= groups@.len(),
                forall|g2: int, k: int|
                    0 <= g2 < groups@.len() && 0 <= k < groups@[g2]@.len() ==> ((
                    #[trigger] groups@[g2]@[k]) as int) < self.tasks@.len(),
            decreases groups@.len() - g,
        {
            proof {
                assert forall|k: int|
                    0 <= k < groups@[g as int]@.len() implies ((
                #[trigger] groups@[g as int]@[k]) as int) < self.tasks@.len() by {}
            }
            if !self.task_conflicts_with_group(t, &groups[g]) {
                return Some(g);
            }
            g = g + 1;
        }
        None
    }

    /// Groups the tasks of one phase that run this tick so that no two tasks
    /// of a group conflict: each group's members are eligible to run
    /// concurrently, and two tasks where one writes a resource the other
    /// reads or writes are never placed in the same group, so they execute
    /// serialized, one group after another. Every qualifying task of the
    /// phase is placed exactly once; phase boundaries remain hard barriers
    /// because each call covers one phase only.
    pub fn plan_phase_concurrent(&self, phase_index: usize, context_flags: &TaskContextFlags) -> (r:
        Vec<Vec<usize>>)
        requires
            self.schedule_wf(),
            (phase_index as int) < self.order@.len(),
        ensures
            forall|g: int, k: int|
                0 <= g < r@.len() && 0 <= k < r@[g]@.len() ==> {
                    let t = (#[trigger] r@[g]@[k]) as int;
                    &&& t < self.tasks@.len()
                    &&& self.tasks@[t].phase == self.phases@[phase_index as int]
                    &&& spec_task_runs(self.tasks@[t], context_flags.flags)
                },
            forall|g: int, k1: int, k2: int|
                0 <= g < r@.len() && 0 <= k1 < r@[g]@.len() && 0 <= k2 < r@[g]@.len() && k1 != k2
                    ==> eligible_concurrently(
                    self.tasks@[(#[trigger] r@[g]@[k1]) as int],
                    self.tasks@[(#[trigger] r@[g]@[k2]) as int],
                ),
            forall|g1: int, k1: int, g2: int, k2: int|
                0 <= g1 < r@.len() && 0 <= k1 < r@[g1]@.len() && 0 <= g2 < r@.len() && 0 <= k2
                    < r@[g2]@.len() && (g1 != g2 || k1 != k2) ==> (#[trigger] r@[g1]@[k1]) != (
                #[trigger] r@[g2]@[k2]),
            forall|m: int|
                0 <= m < self.order@[phase_index as int]@.len() && spec_task_runs(
                    self.tasks@[(#[trigger] self.order@[phase_index as int]@[m]) as int],
                    context_flags.flags,
                ) ==> exists|g: int, k: int|
                    0 <= g < r@.len() && 0 <= k < r@[g]@.len() && (#[trigger] r@[g]@[k])
                        == self.order@[phase_index as int]@[m],
    {
        let flags = context_flags.flags();
        let row = &self.order[phase_index];
        let ghost rowv = row@;
        let mut groups: Vec<Vec<usize>> = Vec::new();
        let mut m: usize = 0;
        while m < row.len()
            invariant
                self.schedule_wf(),
                (phase_index as int) < self.order@.len(),
                *row == self.order@[phase_index as int],
                rowv == row@,
                m <= row@.len(),
                flags == context_flags.flags,
                forall|g: int, k: int|
                    0 <= g < groups@.len() && 0 <= k < groups@[g]@.len() ==> {
                        let t = (#[trigger] groups@[g]@[k]) as int;
                        &&& t < self.tasks@.len()
                        &&& self.tasks@[t].phase == self.phases@[phase_index as int]
                        &&& spec_task_runs(self.tasks@[t], flags)
                        &&& exists|m2: int| 0 <= m2 < m as int && (#[trigger] rowv[m2]) as int == t
                    },
                forall|g: int, k1: int, k2: int|
                    0 <= g < groups@.len() && 0 <= k1 < groups@[g]@.len() && 0 <= k2
                        < groups@[g]@.len() && k1 != k2 ==> !configs_conflict(
                        self.tasks@[(#[trigger] groups@[g]@[k1]) as int],
                        self.tasks@[(#[trigger] groups@[g]@[k2]) as int],
                    ),
                forall|g1: int, k1: int, g2: int, k2: int|
                    0 <= g1 < groups@.len() && 0 <= k1 < groups@[g1]@.len() && 0 <= g2
                        < groups@.len() && 0 <= k2 < groups@[g2]@.len() && (g1 != g2 || k1 != k2)
                        ==> (#[trigger] groups@[g1]@[k1]) != (#[trigger] groups@[g2]@[k2]),
                forall|m2: int|
                    0 <= m2 < m as int && spec_task_runs(
                        self.tasks@[(#[trigger] rowv[m2]) as int],
                        flags,
                    ) ==> exists|g: int, k: int|
                        0 <= g < groups@.len() && 0 <= k < groups@[g]@.len() && (
                        #[trigger] groups@[g]@[k]) == rowv[m2],
            decreases row@.len() - m,
        {
            let t = row[m];
            proof {
                assert((self.order@[phase_index as int]@[m as int]) as int == t as int);
            }
            if self.tasks[t].run_criteria & flags != 0 {
                let ghost prev_groups = groups@;
                let found = self.find_compatible_group(t, &groups);
                match found {
                    Some(g0) => {
                        let slot = &mut groups[g0];
                        slot.push(t);
                        proof {
                            lemma_group_extended(
                                *self,
                                prev_groups,
                                groups@,
                                g0 as int,
                                t,
                                rowv,
                                m as int,
                                phase_index as int,
                                flags,
                            );
                        }
                    },
                    None => {
                        let mut group: Vec<usize> = Vec::new();
                        group.push(t);
                        groups.push(group);
                        proof {
                            lemma_group_appended(
                                *self,
                                prev_groups,
                                groups@,
                                t,
                                rowv,
                                m as int,
                                phase_index as int,
                                flags,
                            );
                        }
                    },
                }
            }
            m = m + 1;
        }
        groups
    }
}

/// Conflict between two declared tasks does not depend on their order.
pub proof fn lemma_conflict_symmetric(a: TaskConfig, b: TaskConfig)
    ensures
        configs_conflict(a, b) == configs_conflict(b, a),
{
    if configs_conflict(a, b) {
        let id = choose|id: ResourceId|
            #![auto]
            (spec_writes_resource(a, id) && spec_uses_resource(b, id)) || (spec_writes_resource(
                b,
                id,
            ) && spec_uses_resource(a, id));
        assert((spec_writes_resource(b, id) && spec_uses_resource(a, id)) || (spec_writes_resource(
            a,
            id,
        ) && spec_uses_resource(b, id)));
    }
    if configs_conflict(b, a) {
        let id = choose|id: ResourceId|
            #![auto]
            (spec_writes_resource(b, id) && spec_uses_resource(a, id)) || (spec_writes_resource(
                a,
                id,
            ) && spec_uses_resource(b, id));
        assert((spec_writes_resource(a, id) && spec_uses_resource(b, id)) || (spec_writes_resource(
            b,
            id,
        ) && spec_uses_resource(a, id)));
    }
}

/// What holds of the concurrency groups of one phase after the next
/// qualifying task has been pushed into the compatible group `g0`.
#[verifier::spinoff_prover]
proof fn lemma_group_extended(
    s: TaskScheduleMultiThread,
    prev: Seq<Vec<usize>>,
    cur: Seq<Vec<usize>>,
    g0: int,
    t: usize,
    rowv: Seq<usize>,
    m: int,
    phase_index: int,
    flags: usize,
)
    requires
        s.schedule_wf(),
        0 <= phase_index < s.order@.len(),
        rowv == s.order@[phase_index]@,
        0 <= m < rowv.len(),
        rowv[m] == t,
        spec_task_runs(s.tasks@[t as int], flags),
        0 <= g0 < prev.len(),
        cur == prev.update(g0, cur[g0]),
        cur[g0]@ == prev[g0]@.push(t),
        forall|k: int|
            0 <= k < prev[g0]@.len() ==> !configs_conflict(
                s.tasks@[t as int],
                s.tasks@[(#[trigger] prev[g0]@[k]) as int],
            ),
        forall|g: int, k: int|
            0 <= g < prev.len() && 0 <= k < prev[g]@.len() ==> {
                let u = (#[trigger] prev[g]@[k]) as int;
                &&& u < s.tasks@.len()
                &&& s.tasks@[u].phase == s.phases@[phase_index]
                &&& spec_task_runs(s.tasks@[u], flags)
                &&& exists|m2: int| 0 <= m2 < m && (#[trigger] rowv[m2]) as int == u
            },
        forall|g: int, k1: int, k2: int|
            0 <= g < prev.len() && 0 <= k1 < prev[g]@.len() && 0 <= k2 < prev[g]@.len() && k1 != k2
                ==> !configs_conflict(
                s.tasks@[(#[trigger] prev[g]@[k1]) as int],
                s.tasks@[(#[trigger] prev[g]@[k2]) as int],
            ),
        forall|g1: int, k1: int, g2: int, k2: int|
            0 <= g1 < prev.len() && 0 <= k1 < prev[g1]@.len() && 0 <= g2 < prev.len() && 0 <= k2
                < prev[g2]@.len() && (g1 != g2 || k1 != k2) ==> (#[trigger] prev[g1]@[k1]) != (
            #[trigger] prev[g2]@[k2]),
        forall|m2: int|
            0 <= m2 < m && spec_task_runs(s.tasks@[(#[trigger] rowv[m2]) as int], flags)
                ==> exists|g: int, k: int|
                0 <= g < prev.len() && 0 <= k < prev[g]@.len() && (#[trigger] prev[g]@[k])
                    == rowv[m2],
    ensures
        forall|g: int, k: int|
            0 <= g < cur.len() && 0 <= k < cur[g]@.len() ==> {
                let u = (#[trigger] cur[g]@[k]) as int;
                &&& u < s.tasks@.len()
                &&& s.tasks@[u].phase == s.phases@[phase_index]
                &&& spec_task_runs(s.tasks@[u], flags)
                &&& exists|m2: int| 0 <= m2 < m + 1 && (#[trigger] rowv[m2]) as int == u
            },
        forall|g: int, k1: int, k2: int|
            0 <= g < cur.len() && 0 <= k1 < cur[g]@.len() && 0 <= k2 < cur[g]@.len() && k1 != k2
                ==> !configs_conflict(
                s.tasks@[(#[trigger] cur[g]@[k1]) as int],
                s.tasks@[(#[trigger] cur[g]@[k2]) as int],
            ),
        forall|g1: int, k1: int, g2: int, k2: int|
            0 <= g1 < cur.len() && 0 <= k1 < cur[g1]@.len() && 0 <= g2 < cur.len() && 0 <= k2
                < cur[g2]@.len() && (g1 != g2 || k1 != k2) ==> (#[trigger] cur[g1]@[k1]) != (
            #[trigger] cur[g2]@[k2]),
        forall|m2: int|
            0 <= m2 < m + 1 && spec_task_runs(s.tasks@[(#[trigger] rowv[m2]) as int], flags)
                ==> exists|g: int, k: int|
                0 <= g < cur.len() && 0 <= k < cur[g]@.len() && (#[trigger] cur[g]@[k]) == rowv[m2],
{
    assert((t as int) < s.tasks@.len() && s.tasks@[t as int].phase == s.phases@[phase_index]) by {
        assert((s.order@[phase_index]@[m]) as int == t as int);
    }
    // Members of `cur` are members of `prev` or the new task.
    assert forall|g: int, k: int|
        0 <= g < cur.len() && 0 <= k < cur[g]@.len() implies {
        let u = (#[trigger] cur[g]@[k]) as int;
        &&& u < s.tasks@.len()
        &&& s.tasks@[u].phase == s.phases@[phase_index]
        &&& spec_task_runs(s.tasks@[u], flags)
        &&& exists|m2: int| 0 <= m2 < m + 1 && (#[trigger] rowv[m2]) as int == u
    } by {
        if g == g0 && k == cur[g0]@.len() - 1 {
            assert(cur[g]@[k] == t);
            assert((rowv[m]) as int == t as int);
        } else {
            if g == g0 {
                assert(cur[g]@[k] == prev[g]@[k]);
            } else {
                assert(cur[g]@[k] == prev[g]@[k]);
            }
            let u = cur[g]@[k] as int;
            let m2 = choose|m2: int| 0 <= m2 < m && (#[trigger] rowv[m2]) as int == u;
            assert(0 <= m2 < m + 1 && (rowv[m2]) as int == u);
        }
    }
    // No two members of one group conflict.
    assert forall|g: int, k1: int, k2: int|
        0 <= g < cur.len() && 0 <= k1 < cur[g]@.len() && 0 <= k2 < cur[g]@.len() && k1
            != k2 implies !configs_conflict(
        s.tasks@[(#[trigger] cur[g]@[k1]) as int],
        s.tasks@[(#[trigger] cur[g]@[k2]) as int],
    ) by {
        if g == g0 {
            let last = cur[g0]@.len() - 1;
            if k1 == last && k2 < last {
                assert(cur[g]@[k1] == t && cur[g]@[k2] == prev[g0]@[k2]);
                lemma_conflict_symmetric(
                    s.tasks@[t as int],
                    s.tasks@[(prev[g0]@[k2]) as int],
                );
            } else if k2 == last && k1 < last {
                assert(cur[g]@[k2] == t && cur[g]@[k1] == prev[g0]@[k1]);
            } else {
                assert(cur[g]@[k1] == prev[g]@[k1] && cur[g]@[k2] == prev[g]@[k2]);
            }
        } else {
            assert(cur[g]@[k1] == prev[g]@[k1] && cur[g]@[k2] == prev[g]@[k2]);
        }
    }
    // All placed tasks are distinct.
    assert forall|g1: int, k1: int, g2: int, k2: int|
        0 <= g1 < cur.len() && 0 <= k1 < cur[g1]@.len() && 0 <= g2 < cur.len() && 0 <= k2
            < cur[g2]@.len() && (g1 != g2 || k1 != k2) implies (#[trigger] cur[g1]@[k1]) != (
    #[trigger] cur[g2]@[k2]) by {
        let last = cur[g0]@.len() - 1;
        if g1 == g0 && k1 == last {
            if !(g2 == g0 && k2 == last) {
                assert(cur[g2]@[k2] == prev[g2]@[k2]);
                let u = prev[g2]@[k2] as int;
                let m2 = choose|m2: int| 0 <= m2 < m && (#[trigger] rowv[m2]) as int == u;
                assert(rowv[m2] != rowv[m]) by {
                    assert(s.order@[phase_index]@[m2] < s.order@[phase_index]@[m]);
                }
            }
        } else if g2 == g0 && k2 == last {
            assert(cur[g1]@[k1] == prev[g1]@[k1]);
            let u = prev[g1]@[k1] as int;
            let m2 = choose|m2: int| 0 <= m2 < m && (#[trigger] rowv[m2]) as int == u;
            assert(rowv[m2] != rowv[m]) by {
                assert(s.order@[phase_index]@[m2] < s.order@[phase_index]@[m]);
            }
        } else {
            assert(cur[g1]@[k1] == prev[g1]@[k1] && cur[g2]@[k2] == prev[g2]@[k2]);
        }
    }
    // Every qualifying task seen so far is placed.
    assert forall|m2: int|
        0 <= m2 < m + 1 && spec_task_runs(s.tasks@[(#[trigger] rowv[m2]) as int], flags)
            implies exists|g: int, k: int|
        0 <= g < cur.len() && 0 <= k < cur[g]@.len() && (#[trigger] cur[g]@[k]) == rowv[m2] by {
        if m2 == m {
            assert(cur[g0]@[cur[g0]@.len() - 1] == rowv[m2]);
        } else {
            let (g, k): (int, int) = choose|g: int, k: int|
                0 <= g < prev.len() && 0 <= k < prev[g]@.len() && (#[trigger] prev[g]@[k])
                    == rowv[m2];
            if g == g0 {
                assert(cur[g]@[k] == rowv[m2]);
            } else {
                assert(cur[g]@[k] == rowv[m2]);
            }
        }
    }
}

/// What holds of the concurrency groups of one phase after the next
/// qualifying task has opened a new group of its own.
#[verifier::spinoff_prover]
proof fn lemma_group_appended(
    s: TaskScheduleMultiThread,
    prev: Seq<Vec<usize>>,
    cur: Seq<Vec<usize>>,
    t: usize,
    rowv: Seq<usize>,
    m: int,
    phase_index: int,
    flags: usize,
)
    requires
        s.schedule_wf(),
        0 <= phase_index < s.order@.len(),
        rowv == s.order@[phase_index]@,
        0 <= m < rowv.len(),
        rowv[m] == t,
        spec_task_runs(s.tasks@[t as int], flags),
        cur.len() == prev.len() + 1,
        forall|g: int| 0 <= g < prev.len() ==> #[trigger] cur[g] == prev[g],
        cur.last()@ == seq![t],
        forall|g: int, k: int|
            0 <= g < prev.len() && 0 <= k < prev[g]@.len() ==> {
                let u = (#[trigger] prev[g]@[k]) as int;
                &&& u < s.tasks@.len()
                &&& s.tasks@[u].phase == s.phases@[phase_index]
                &&& spec_task_runs(s.tasks@[u], flags)
                &&& exists|m2: int| 0 <= m2 < m && (#[trigger] rowv[m2]) as int == u
            },
        forall|g: int, k1: int, k2: int|
            0 <= g < prev.len() && 0 <= k1 < prev[g]@.len() && 0 <= k2 < prev[g]@.len() && k1 != k2
                ==> !configs_conflict(
                s.tasks@[(#[trigger] prev[g]@[k1]) as int],
                s.tasks@[(#[trigger] prev[g]@[k2]) as int],
            ),
        forall|g1: int, k1: int, g2: int, k2: int|
            0 <= g1 < prev.len() && 0 <= k1 < prev[g1]@.len() && 0 <= g2 < prev.len() && 0 <= k2
                < prev[g2]@.len() && (g1 != g2 || k1 != k2) ==> (#[trigger] prev[g1]@[k1]) != (
            #[trigger] prev[g2]@[k2]),
        forall|m2: int|
            0 <= m2 < m && spec_task_runs(s.tasks@[(#[trigger] rowv[m2]) as int], flags)
                ==> exists|g: int, k: int|
                0 <= g < prev.len() && 0 <= k < prev[g]@.len() && (#[trigger] prev[g]@[k])
                    == rowv[m2],
    ensures
        forall|g: int, k: int|
            0 <= g < cur.len() && 0 <= k < cur[g]@.len() ==> {
                let u = (#[trigger] cur[g]@[k]) as int;
                &&& u < s.tasks@.len()
                &&& s.tasks@[u].phase == s.phases@[phase_index]
                &&& spec_task_runs(s.tasks@[u], flags)
                &&& exists|m2: int| 0 <= m2 < m + 1 && (#[trigger] rowv[m2]) as int == u
            },
        forall|g: int, k1: int, k2: int|
            0 <= g < cur.len() && 0 <= k1 < cur[g]@.len() && 0 <= k2 < cur[g]@.len() && k1 != k2
                ==> !configs_conflict(
                s.tasks@[(#[trigger] cur[g]@[k1]) as int],
                s.tasks@[(#[trigger] cur[g]@[k2]) as int],
            ),
        forall|g1: int, k1: int, g2: int, k2: int|
            0 <= g1 < cur.len() && 0 <= k1 < cur[g1]@.len() && 0 <= g2 < cur.len() && 0 <= k2
                < cur[g2]@.len() && (g1 != g2 || k1 != k2) ==> (#[trigger] cur[g1]@[k1]) != (
            #[trigger] cur[g2]@[k2]),
        forall|m2: int|
            0 <= m2 < m + 1 && spec_task_runs(s.tasks@[(#[trigger] rowv[m2]) as int], flags)
                ==> exists|g: int, k: int|
                0 <= g < cur.len() && 0 <= k < cur[g]@.len() && (#[trigger] cur[g]@[k]) == rowv[m2],
{
    assert((t as int) < s.tasks@.len() && s.tasks@[t as int].phase == s.phases@[phase_index]) by {
        assert((s.order@[phase_index]@[m]) as int == t as int);
    }
    let gn = cur.len() - 1;
    assert forall|g: int, k: int|
        0 <= g < cur.len() && 0 <= k < cur[g]@.len() implies {
        let u = (#[trigger] cur[g]@[k]) as int;
        &&& u < s.tasks@.len()
        &&& s.tasks@[u].phase == s.phases@[phase_index]
        &&& spec_task_runs(s.tasks@[u], flags)
        &&& exists|m2: int| 0 <= m2 < m + 1 && (#[trigger] rowv[m2]) as int == u
    } by {
        if g == gn {
            assert(cur[g]@[k] == t);
            assert((rowv[m]) as int == t as int);
        } else {
            let u = cur[g]@[k] as int;
            assert(prev[g]@[k] as int == u);
            let m2 = choose|m2: int| 0 <= m2 < m && (#[trigger] rowv[m2]) as int == u;
            assert(0 <= m2 < m + 1 && (rowv[m2]) as int == u);
        }
    }
    assert forall|g: int, k1: int, k2: int|
        0 <= g < cur.len() && 0 <= k1 < cur[g]@.len() && 0 <= k2 < cur[g]@.len() && k1
            != k2 implies !configs_conflict(
        s.tasks@[(#[trigger] cur[g]@[k1]) as int],
        s.tasks@[(#[trigger] cur[g]@[k2]) as int],
    ) by {
        if g < gn {
            assert(cur[g]@[k1] == prev[g]@[k1] && cur[g]@[k2] == prev[g]@[k2]);
        }
    }
    assert forall|g1: int, k1: int, g2: int, k2: int|
        0 <= g1 < cur.len() && 0 <= k1 < cur[g1]@.len() && 0 <= g2 < cur.len() && 0 <= k2
            < cur[g2]@.len() && (g1 != g2 || k1 != k2) implies (#[trigger] cur[g1]@[k1]) != (
    #[trigger] cur[g2]@[k2]) by {
        if g1 == gn && g2 != gn {
            let u = prev[g2]@[k2] as int;
            assert(cur[g2]@[k2] as int == u);
            let m2 = choose|m2: int| 0 <= m2 < m && (#[trigger] rowv[m2]) as int == u;
            assert(rowv[m2] != rowv[m]) by {
                assert(s.order@[phase_index]@[m2] < s.order@[phase_index]@[m]);
            }
        } else if g2 == gn && g1 != gn {
            let u = prev[g1]@[k1] as int;
            assert(cur[g1]@[k1] as int == u);
            let m2 = choose|m2: int| 0 <= m2 < m && (#[trigger] rowv[m2]) as int == u;
            assert(rowv[m2] != rowv[m]) by {
                assert(s.order@[phase_index]@[m2] < s.order@[phase_index]@[m]);
            }
        } else if g1 != gn && g2 != gn {
            assert(cur[g1]@[k1] == prev[g1]@[k1] && cur[g2]@[k2] == prev[g2]@[k2]);
        }
    }
    assert forall|m2: int|
        0 <= m2 < m + 1 && spec_task_runs(s.tasks@[(#[trigger] rowv[m2]) as int], flags)
            implies exists|g: int, k: int|
        0 <= g < cur.len() && 0 <= k < cur[g]@.len() && (#[trigger] cur[g]@[k]) == rowv[m2] by {
        if m2 == m {
            assert(cur[gn]@[0] == rowv[m2]);
        } else {
            let (g, k): (int, int) = choose|g: int, k: int|
                0 <= g < prev.len() && 0 <= k < prev[g]@.len() && (#[trigger] prev[g]@[k])
                    == rowv[m2];
            assert(cur[g]@[k] == rowv[m2]);
        }
    }
}

} // verus!

verus! {

/// A task body that reads the whole resource map; wrap it in a `ReadAllTask`
/// to have its configuration claim the map for shared access.
pub trait ReadAllTaskImpl<R> {
    fn configure(config: &mut TaskConfig);

    fn run(context_flags: &TaskContextFlags, resource_map: &ResourceMap<R>);
}

/// Helper task that configures to read the whole resource map and then runs
/// the wrapped body with shared access.
pub struct ReadAllTask<T> {
    pub phantom_data: core::marker::PhantomData<T>,
}

impl<T> ReadAllTask<T> {
    pub fn new() -> Self {
        ReadAllTask { phantom_data: core::marker::PhantomData }
    }

    /// The wrapped body's own configuration, plus a shared claim on the whole
    /// resource map.
    pub fn configure<R>(config: &mut TaskConfig) where T: ReadAllTaskImpl<R>
        ensures
            final(config).read_all_resources,
    {
        T::configure(config);
        config.read_all();
    }

    pub fn run<R>(&self, context_flags: &TaskContextFlags, resource_map: &ResourceMap<R>) where
        T: ReadAllTaskImpl<R>,
    {
        T::run(context_flags, resource_map);
    }
}

/// A task body that mutates the whole resource map; wrap it in a
/// `WriteAllTask` to have its configuration claim the map exclusively.
pub trait WriteAllTaskImpl<R> {
    fn configure(config: &mut TaskConfig);

    fn run(context_flags: &TaskContextFlags, resource_map: &mut ResourceMap<R>);
}

/// Helper task that configures to write the whole resource map and then runs
/// the wrapped body with exclusive access.
pub struct WriteAllTask<T> {
    pub phantom_data: core::marker::PhantomData<T>,
}

impl<T> WriteAllTask<T> {
    pub fn new() -> Self {
        WriteAllTask { phantom_data: core::marker::PhantomData }
    }

    /// The wrapped body's own configuration, plus an exclusive claim on the
    /// whole resource map.
    pub fn configure<R>(config: &mut TaskConfig) where T: WriteAllTaskImpl<R>
        ensures
            final(config).write_all_resources,
    {
        T::configure(config);
        config.write_all();
    }

    pub fn run<R>(&self, context_flags: &TaskContextFlags, resource_map: &mut ResourceMap<R>) where
        T: WriteAllTaskImpl<R>,
    {
        T::run(context_flags, resource_map);
    }
}

} // verus!
