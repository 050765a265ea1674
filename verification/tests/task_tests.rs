//! Tests for task configuration, conflict analysis and the two schedules.

use minimum::context_flags::AUTHORITY_CLIENT;
use minimum::context_flags::PLAYMODE_PLAYING;
use minimum::context_flags::PLAYMODE_SYSTEM;
use minimum::resource::ResourceMap;
use minimum::task::configs_conflict_check;
use minimum::task::ReadAllTask;
use minimum::task::WriteAllTask;
use minimum::task::register_tasks;
use minimum::task::TaskConfig;
use minimum::task::TaskContextFlags;
use minimum::task::TaskScheduleBuilderMultiThread;
use minimum::task::TaskScheduleBuilderSingleThread;
use minimum::task::PHASE_FRAME_BEGIN;
use minimum::task::PHASE_PHYSICS;
use minimum::task::PHASE_PRE_PHYSICS_GAMEPLAY;

fn task(phase: u32, reads: &[usize], writes: &[usize], run_criteria: usize) -> TaskConfig {
    let mut config = TaskConfig::new();
    config.this_runs_during_phase(phase);
    for id in reads {
        config.read_resource(*id);
    }
    for id in writes {
        config.write_resource(*id);
    }
    config.run_only_if(run_criteria);
    config
}

#[test]
fn test_conflict_analysis() {
    let reader_a = task(0, &[1], &[], usize::MAX);
    let reader_b = task(0, &[1, 2], &[], usize::MAX);
    let writer = task(0, &[], &[1], usize::MAX);
    let disjoint_writer = task(0, &[], &[9], usize::MAX);

    // Two readers of one resource never conflict.
    assert!(!configs_conflict_check(&reader_a, &reader_b));
    // A writer conflicts with a reader of the same resource, either way round.
    assert!(configs_conflict_check(&writer, &reader_a));
    assert!(configs_conflict_check(&reader_a, &writer));
    // Disjoint sets never conflict.
    assert!(!configs_conflict_check(&disjoint_writer, &reader_a));
    // Two writers of one resource conflict.
    assert!(configs_conflict_check(&writer, &writer));
}

#[test]
fn test_whole_map_claims_conflict() {
    let mut write_everything = TaskConfig::new();
    write_everything.write_all();
    let mut read_everything = TaskConfig::new();
    read_everything.read_all();
    let reader = task(0, &[3], &[], usize::MAX);
    let idle = TaskConfig::new();

    assert!(configs_conflict_check(&write_everything, &reader));
    assert!(configs_conflict_check(&write_everything, &read_everything));
    assert!(!configs_conflict_check(&read_everything, &reader));
    // A task that touches nothing conflicts with nothing, not even a
    // whole-map writer.
    assert!(!configs_conflict_check(&write_everything, &idle));
}

#[test]
fn test_sequential_plan_orders_phases() {
    let mut builder = TaskScheduleBuilderSingleThread::new();
    builder.add_phase(PHASE_PHYSICS);
    builder.add_phase(PHASE_FRAME_BEGIN);
    // Declared out of phase order on purpose: execution follows phase
    // registration order, then declaration order within a phase.
    builder.add_task(task(PHASE_FRAME_BEGIN, &[], &[0], usize::MAX));
    builder.add_task(task(PHASE_PHYSICS, &[], &[1], usize::MAX));
    builder.add_task(task(PHASE_FRAME_BEGIN, &[], &[2], usize::MAX));

    let schedule = builder.build();
    let plan = schedule.plan_tick(&TaskContextFlags::new(usize::MAX));
    assert_eq!(plan, vec![1, 0, 2]);
}

// A task with a run-condition bitmask disjoint from the tick's context flags
// is left out of the plan entirely: it is never dispatched, so it fetches no
// resource and its body does not run.
#[test]
fn test_skipped_task_left_out_of_plan() {
    let mut builder = TaskScheduleBuilderSingleThread::new();
    builder.add_phase(PHASE_PRE_PHYSICS_GAMEPLAY);
    builder.add_task(task(PHASE_PRE_PHYSICS_GAMEPLAY, &[], &[0], PLAYMODE_PLAYING));
    builder.add_task(task(PHASE_PRE_PHYSICS_GAMEPLAY, &[], &[1], PLAYMODE_SYSTEM));
    let schedule = builder.build();

    // While playing, only the playing-gated task runs.
    let plan = schedule.plan_tick(&TaskContextFlags::new(PLAYMODE_PLAYING));
    assert_eq!(plan, vec![0]);

    // While frozen for editing, only the system-gated task runs.
    let plan = schedule.plan_tick(&TaskContextFlags::new(PLAYMODE_SYSTEM));
    assert_eq!(plan, vec![1]);

    // Flags intersecting both run conditions run both, in declaration order.
    let plan = schedule.plan_tick(&TaskContextFlags::new(PLAYMODE_PLAYING | PLAYMODE_SYSTEM));
    assert_eq!(plan, vec![0, 1]);
}

// Two tasks declaring disjoint resource sets and scheduled in the same phase
// are grouped for concurrent execution; two tasks where one writes what the
// other reads are placed in different groups and thereby serialized.
#[test]
fn test_concurrency_groups_respect_conflicts() {
    let mut builder = TaskScheduleBuilderMultiThread::new();
    builder.add_phase(PHASE_PHYSICS);
    builder.add_task(task(PHASE_PHYSICS, &[1], &[2], usize::MAX));
    builder.add_task(task(PHASE_PHYSICS, &[3], &[4], usize::MAX));
    builder.add_task(task(PHASE_PHYSICS, &[2], &[], usize::MAX));
    let schedule = builder.build();

    let groups = schedule.plan_phase_concurrent(0, &TaskContextFlags::new(usize::MAX));
    // Tasks 0 and 1 are disjoint and share the first group; task 2 reads
    // what task 0 writes and is serialized into its own group.
    assert_eq!(groups, vec![vec![0, 1], vec![2]]);
}

#[test]
fn test_concurrency_groups_skip_gated_tasks() {
    let mut builder = TaskScheduleBuilderMultiThread::new();
    builder.add_phase(PHASE_FRAME_BEGIN);
    builder.add_task(task(PHASE_FRAME_BEGIN, &[], &[0], AUTHORITY_CLIENT));
    builder.add_task(task(PHASE_FRAME_BEGIN, &[], &[1], PLAYMODE_SYSTEM));
    let schedule = builder.build();

    let groups = schedule.plan_phase_concurrent(0, &TaskContextFlags::new(AUTHORITY_CLIENT));
    assert_eq!(groups, vec![vec![0]]);
}

#[test]
fn test_register_tasks_installs_default_phases() {
    let mut builder = TaskScheduleBuilderSingleThread::new();
    let tasks = vec![
        task(PHASE_FRAME_BEGIN, &[], &[0], usize::MAX),
        task(PHASE_PHYSICS, &[], &[1], usize::MAX),
    ];
    register_tasks(&mut builder, tasks);
    let schedule = builder.build();
    let plan = schedule.plan_tick(&TaskContextFlags::new(usize::MAX));
    assert_eq!(plan, vec![0, 1]);
}

struct FillFirstResource;

impl minimum::task::WriteAllTaskImpl<u32> for FillFirstResource {
    fn configure(config: &mut TaskConfig) {
        config.this_runs_during_phase(PHASE_FRAME_BEGIN);
    }

    fn run(_context_flags: &TaskContextFlags, resource_map: &mut minimum::resource::ResourceMap<u32>) {
        if resource_map.has_value(0) {
            *resource_map.fetch_mut(0) = 42;
        }
    }
}

struct ExpectFirstResource;

impl minimum::task::ReadAllTaskImpl<u32> for ExpectFirstResource {
    fn configure(_config: &mut TaskConfig) {
    }

    fn run(_context_flags: &TaskContextFlags, resource_map: &minimum::resource::ResourceMap<u32>) {
        assert!(resource_map.has_value(0));
    }
}

#[test]
fn test_read_all_and_write_all_tasks() {
    // The wrappers add the whole-map claim on top of the body's own
    // configuration.
    let mut write_config = TaskConfig::new();
    WriteAllTask::<FillFirstResource>::configure(&mut write_config);
    assert!(write_config.write_all_resources);
    assert_eq!(write_config.phase, PHASE_FRAME_BEGIN);

    let mut read_config = TaskConfig::new();
    ReadAllTask::<ExpectFirstResource>::configure(&mut read_config);
    assert!(read_config.read_all_resources);

    let mut map: ResourceMap<u32> = ResourceMap::new();
    map.insert(0, 1);
    let writer = WriteAllTask::<FillFirstResource>::new();
    writer.run(&TaskContextFlags::new(usize::MAX), &mut map);
    assert_eq!(*map.fetch(0), 42);
    let reader = ReadAllTask::<ExpectFirstResource>::new();
    reader.run(&TaskContextFlags::new(usize::MAX), &map);
}
