use lot::executor::{Action, Executor, Progress};
use lot::scenario::Scenario;
use lot::task::TaskFactory;
use lot::timeline::{ScheduleError, MAX_LOAD, NANOS_PER_SEC};

/// Drives a whole run in place: every task is a value that says whether it
/// succeeds, and its outcome is recorded as soon as it is launched.
fn drive<F: TaskFactory<Task = bool>>(executor: &mut Executor, factory: &F) -> Vec<Action> {
    let mut dispatch = executor.run();
    let mut actions = Vec::new();
    loop {
        let action = executor.next_action(&mut dispatch);
        actions.push(action);
        match action {
            Action::Launch(_) => {
                let ok = executor.launch(factory);
                executor.record(ok);
            }
            Action::Finished => break,
            _ => {}
        }
    }
    executor.finish();
    actions
}

#[test]
fn new_executor_has_counted_nothing() {
    let executor = Executor::new();
    assert_eq!(executor.progress(), Progress { started: 0, success: 0, failure: 0 });
    assert!(!executor.finished());
    let mut dispatch = executor.run();
    assert_eq!(executor.next_action(&mut dispatch), Action::Finished);
    assert_eq!(executor.next_action(&mut dispatch), Action::Finished);
}

#[test]
fn ten_per_second_for_one_second_all_succeed() {
    let mut executor = Executor::new();
    executor.add_stage(10, 10, NANOS_PER_SEC).unwrap();
    drive(&mut executor, &|| true);
    assert_eq!(executor.progress(), Progress { started: 10, success: 10, failure: 0 });
    assert!(executor.finished());
}

#[test]
fn every_task_fails() {
    let mut executor = Executor::new();
    executor.add_stage(1, 3, 2_500_000_000).unwrap();
    drive(&mut executor, &|| false);
    let progress = executor.progress();
    assert_eq!(progress.started, 5);
    assert_eq!(progress.failure, progress.started);
    assert_eq!(progress.success, 0);
}

#[test]
fn stages_run_in_the_order_added() {
    let mut executor = Executor::new();
    executor.add_stage(2, 2, NANOS_PER_SEC).unwrap();
    executor.add_stage(0, 0, NANOS_PER_SEC).unwrap();
    executor.add_stage(1, 2, NANOS_PER_SEC).unwrap();
    let actions = drive(&mut executor, &|| true);
    assert_eq!(
        actions,
        vec![
            Action::StartStage(0),
            Action::Launch(0),
            Action::Launch(500_000_000),
            Action::CompleteStage(0),
            Action::StartStage(1),
            Action::CompleteStage(1),
            Action::StartStage(2),
            Action::Launch(732050807),
            Action::Launch(1236067977),
            Action::CompleteStage(2),
            Action::Finished,
        ]
    );
    assert_eq!(executor.progress(), Progress { started: 4, success: 4, failure: 0 });
}

#[test]
fn outcomes_do_not_move_the_dispatch_loop() {
    let mut quiet = Executor::new();
    quiet.add_stage(3, 1, NANOS_PER_SEC).unwrap();
    let mut busy = Executor::new();
    busy.add_stage(3, 1, NANOS_PER_SEC).unwrap();
    let mut a = quiet.run();
    let mut b = busy.run();
    for round in 0..6 {
        busy.record(round % 2 == 0);
        assert_eq!(quiet.next_action(&mut a), busy.next_action(&mut b));
    }
    assert_eq!(quiet.progress(), Progress { started: 0, success: 0, failure: 0 });
    assert_eq!(busy.progress(), Progress { started: 0, success: 3, failure: 3 });
}

#[test]
fn a_second_run_starts_over_and_keeps_counting() {
    let mut executor = Executor::new();
    executor.add_stage(2, 2, NANOS_PER_SEC).unwrap();
    let first = drive(&mut executor, &|| true);
    let second = drive(&mut executor, &|| false);
    assert_eq!(first, second);
    assert_eq!(executor.progress(), Progress { started: 4, success: 2, failure: 2 });
}

#[test]
fn refused_stage_is_not_added() {
    let mut executor = Executor::new();
    assert_eq!(executor.add_stage(3, 1, MAX_LOAD), Err(ScheduleError::TooLarge));
    let mut dispatch = executor.run();
    assert_eq!(executor.next_action(&mut dispatch), Action::Finished);
}

#[test]
fn launch_counts_and_hands_out_the_task() {
    let mut executor = Executor::new();
    let task: u32 = executor.launch(&|| 41u32 + 1);
    assert_eq!(task, 42);
    assert_eq!(executor.progress(), Progress { started: 1, success: 0, failure: 0 });
    executor.record(false);
    executor.record(true);
    executor.record(true);
    assert_eq!(executor.progress(), Progress { started: 1, success: 2, failure: 1 });
    assert!(!executor.finished());
    executor.finish();
    assert!(executor.finished());
}

#[test]
fn closures_are_factories_and_scenarios() {
    let factory = || "task";
    assert_eq!(factory.create(), "task");
    let scenario = || 7u8;
    assert_eq!(Scenario::run(&scenario), 7);
}
