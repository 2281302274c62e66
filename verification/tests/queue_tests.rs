use c2pa_lib::queue::retry_step;
use c2pa_lib::queue::shutdown_runtime;
use c2pa_lib::queue::EnvData;
use c2pa_lib::queue::SigningTask;
use c2pa_lib::queue::SingleTaskManager;
use c2pa_lib::queue::TaskResult;
use c2pa_lib::queue::WorkerAction;

#[test]
fn manager_counts_queued_tasks() {
    let mut manager = SingleTaskManager::new();
    assert_eq!(manager.pending_counter(), 0);
    manager.enqueue_task(EnvData { id: 1, payload: vec![1, 2, 3] });
    manager.enqueue_task(EnvData { id: 2, payload: vec![4, 5, 6] });
    assert_eq!(manager.pending_counter(), 2);
}

#[test]
fn worker_takes_tasks_in_queue_order() {
    let mut manager = SingleTaskManager::new();
    manager.enqueue_task(EnvData { id: 1, payload: vec![] });
    manager.enqueue_task(EnvData { id: 2, payload: vec![] });

    match manager.worker_step() {
        WorkerAction::Run(task) => assert_eq!(task.data.id, 1),
        _ => panic!("expected a task to run"),
    }
    // The running task stays counted until it reports finished.
    assert_eq!(manager.pending_counter(), 2);
    manager.task_finished();
    assert_eq!(manager.pending_counter(), 1);

    match manager.worker_step() {
        WorkerAction::Run(task) => assert_eq!(task.data.id, 2),
        _ => panic!("expected a task to run"),
    }
    manager.task_finished();
    assert_eq!(manager.pending_counter(), 0);
}

#[test]
fn worker_waits_when_idle_and_stops_after_shutdown() {
    let mut manager = SingleTaskManager::new();
    assert!(matches!(manager.worker_step(), WorkerAction::Wait));
    manager.stop();
    assert!(matches!(manager.worker_step(), WorkerAction::Stop));
}

#[test]
fn cancel_all_drops_queued_tasks() {
    let mut manager = SingleTaskManager::new();
    manager.enqueue_task(EnvData { id: 1, payload: vec![] });
    manager.enqueue_task(EnvData { id: 2, payload: vec![] });
    manager.cancel_all();
    assert_eq!(manager.pending_counter(), 0);
    assert!(matches!(manager.worker_step(), WorkerAction::Wait));
}

#[test]
fn cancel_all_keeps_the_running_task_counted() {
    let mut manager = SingleTaskManager::new();
    manager.enqueue_task(EnvData { id: 1, payload: vec![] });
    manager.enqueue_task(EnvData { id: 2, payload: vec![] });
    assert!(matches!(manager.worker_step(), WorkerAction::Run(_)));
    manager.cancel_all();
    // One task is still running; only the queued one was dropped.
    assert_eq!(manager.pending_counter(), 1);
    manager.task_finished();
    assert_eq!(manager.pending_counter(), 0);
}

#[test]
fn run_outcome_reports_cancellation_and_completion() {
    let task = SigningTask::new(EnvData { id: 7, payload: vec![1] });
    assert_eq!(task.data.id, 7);

    match task.run_outcome(true) {
        TaskResult::Cancelled(data) => {
            assert_eq!(data.id, 42);
            assert!(data.payload.is_empty());
        },
        _ => panic!("expected cancellation"),
    }
    match task.run_outcome(false) {
        TaskResult::Finished(data) => {
            assert_eq!(data.id, 42);
            assert!(data.payload.is_empty());
            assert!(data.is_retry);
        },
        _ => panic!("expected completion"),
    }
}

#[test]
fn retry_step_counts_completions_and_stops_at_three() {
    let task = SigningTask::new(EnvData { id: 1, payload: vec![] });
    let finished = task.run_outcome(false);
    let cancelled = task.run_outcome(true);

    assert_eq!(retry_step(0, &finished), (1, true));
    assert_eq!(retry_step(1, &finished), (2, true));
    assert_eq!(retry_step(2, &finished), (3, false));
    assert_eq!(retry_step(1, &cancelled), (1, true));
}

#[test]
fn shutdown_runtime_is_a_no_op() {
    shutdown_runtime();
}
