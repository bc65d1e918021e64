use physics_engine::ecs::scheduler::{stages, Scheduler, StageId};
use physics_engine::ecs::{System, SystemExecutor, World};

struct TestSystem {
    name: String,
    run_count: usize,
}

impl TestSystem {
    fn new(name: &str) -> Self {
        TestSystem { name: name.to_string(), run_count: 0 }
    }
}

impl System for TestSystem {
    fn run(&mut self, _world: &mut World) {
        self.run_count += 1;
    }

    fn name(&self) -> &str {
        &self.name
    }
}

#[test]
fn test_scheduler_creation() {
    let scheduler = Scheduler::<TestSystem>::new();
    assert_eq!(scheduler.system_count(), 0);
}

#[test]
fn test_add_system() {
    let mut scheduler = Scheduler::new();
    scheduler.add_system(TestSystem::new("test"), stages::INTEGRATION());
    assert_eq!(scheduler.system_count(), 1);
}

#[test]
fn test_stage_ordering() {
    let mut scheduler = Scheduler::new();
    scheduler.add_system(TestSystem::new("stage2"), StageId::new(2));
    scheduler.add_system(TestSystem::new("stage0"), StageId::new(0));
    scheduler.add_system(TestSystem::new("stage1"), StageId::new(1));

    assert_eq!(scheduler.stage_count(), 3);
}

#[test]
fn test_sequential_execution() {
    let mut scheduler = Scheduler::new();
    scheduler.add_system(TestSystem::new("system1"), stages::FORCE_ACCUMULATION());
    scheduler.add_system(TestSystem::new("system2"), stages::INTEGRATION());

    let mut world = World::new();
    scheduler.run_sequential(&mut world);

    assert_eq!(scheduler.system_count(), 2);
}

#[test]
fn test_parallel_execution() {
    let mut scheduler = Scheduler::new();
    scheduler.add_system(TestSystem::new("system1"), stages::FORCE_ACCUMULATION());
    scheduler.add_system(TestSystem::new("system2"), stages::INTEGRATION());

    let mut world = World::new();
    scheduler.run_parallel(&mut world);

    assert_eq!(scheduler.system_count(), 2);
}

#[test]
fn test_stage_barrier() {
    let mut scheduler = Scheduler::new();

    scheduler.add_system(TestSystem::new("early"), StageId::new(0));
    scheduler.add_system(TestSystem::new("late"), StageId::new(1));

    let mut world = World::new();
    scheduler.run_sequential(&mut world);

    assert_eq!(scheduler.system_count(), 2);
}

#[test]
fn test_empty_scheduler() {
    let mut scheduler = Scheduler::<TestSystem>::new();
    let mut world = World::new();

    scheduler.run_sequential(&mut world);
    scheduler.run_parallel(&mut world);
}

#[test]
fn test_clear_scheduler() {
    let mut scheduler = Scheduler::new();
    scheduler.add_system(TestSystem::new("test"), stages::INTEGRATION());
    assert_eq!(scheduler.system_count(), 1);

    scheduler.clear();
    assert_eq!(scheduler.system_count(), 0);
}

#[test]
fn test_many_systems() {
    let mut scheduler = Scheduler::new();

    for i in 0..1000 {
        scheduler.add_system(TestSystem::new(&format!("system{}", i)), StageId::new(i % 5));
    }

    assert_eq!(scheduler.system_count(), 1000);

    let mut world = World::new();
    scheduler.run_sequential(&mut world);
}

#[test]
fn test_stage_count() {
    let mut scheduler = Scheduler::new();
    assert_eq!(scheduler.stage_count(), 0);

    scheduler.add_system(TestSystem::new("s1"), StageId::new(0));
    assert_eq!(scheduler.stage_count(), 1);

    scheduler.add_system(TestSystem::new("s2"), StageId::new(5));
    assert_eq!(scheduler.stage_count(), 6);

    scheduler.add_system(TestSystem::new("s3"), StageId::new(2));
    assert_eq!(scheduler.stage_count(), 6);
}

#[test]
fn test_system_executor() {
    let mut executor = SystemExecutor::new();
    assert_eq!(executor.system_count(), 0);

    let system = TestSystem { name: "TestSystem".to_string(), run_count: 0 };
    executor.add_system(system);
    assert_eq!(executor.system_count(), 1);
}

// A system that appends its name to a shared log when it runs.
struct LoggingSystem {
    name: String,
    log: std::sync::Arc<std::sync::Mutex<Vec<String>>>,
}

impl System for LoggingSystem {
    fn run(&mut self, _world: &mut World) {
        self.log.lock().unwrap().push(self.name.clone());
    }

    fn name(&self) -> &str {
        &self.name
    }
}

fn logging(name: &str, log: &std::sync::Arc<std::sync::Mutex<Vec<String>>>) -> LoggingSystem {
    LoggingSystem { name: name.to_string(), log: log.clone() }
}

// Stages run in increasing order; within a stage, systems run in the order
// they were added.
#[test]
fn test_run_order_is_stable_by_stage() {
    let log = std::sync::Arc::new(std::sync::Mutex::new(Vec::new()));
    let mut scheduler = Scheduler::new();
    scheduler.add_system(logging("c2", &log), StageId::new(2));
    scheduler.add_system(logging("a0", &log), StageId::new(0));
    scheduler.add_system(logging("d2", &log), StageId::new(2));
    scheduler.add_system(logging("b0", &log), StageId::new(0));
    scheduler.add_system(logging("e1", &log), StageId::new(1));
    let mut world = World::new();
    scheduler.run_sequential(&mut world);
    assert_eq!(*log.lock().unwrap(), vec!["a0", "b0", "e1", "c2", "d2"]);
    log.lock().unwrap().clear();
    scheduler.run_parallel(&mut world);
    assert_eq!(*log.lock().unwrap(), vec!["a0", "b0", "e1", "c2", "d2"]);
}

#[test]
fn test_executor_runs_in_insertion_order() {
    let log = std::sync::Arc::new(std::sync::Mutex::new(Vec::new()));
    let mut executor = SystemExecutor::default();
    executor.add_system(logging("first", &log));
    executor.add_system(logging("second", &log));
    let mut world = World::new();
    executor.run_sequential(&mut world);
    executor.run_parallel(&mut world);
    assert_eq!(*log.lock().unwrap(), vec!["first", "second", "first", "second"]);
}

// Boxed systems of different types share one scheduler.
#[test]
fn test_boxed_systems_mix_types() {
    let log = std::sync::Arc::new(std::sync::Mutex::new(Vec::new()));
    let mut scheduler: Scheduler<Box<dyn System>> = Scheduler::default();
    scheduler.add_system(Box::new(logging("late", &log)), stages::POST_PROCESS());
    scheduler.add_system(Box::new(TestSystem::new("plain")), stages::ACCELERATION());
    scheduler.add_system_default(Box::new(logging("integrate", &log)));
    scheduler.add_system(Box::new(logging("constrain", &log)), stages::CONSTRAINTS());
    assert_eq!(scheduler.stage_count(), 5);
    let mut world = World::new();
    scheduler.run_sequential(&mut world);
    assert_eq!(*log.lock().unwrap(), vec!["integrate", "constrain", "late"]);
}

#[test]
fn test_standard_stage_numbers() {
    assert_eq!(stages::FORCE_ACCUMULATION(), StageId(0));
    assert_eq!(stages::ACCELERATION(), StageId(1));
    assert_eq!(stages::INTEGRATION(), StageId(2));
    assert_eq!(stages::CONSTRAINTS(), StageId(3));
    assert_eq!(stages::POST_PROCESS(), StageId(4));
    let s = Scheduler::<TestSystem>::with_stages(3);
    assert_eq!(s.system_count(), 0);
}
