use unity_updater::updater::PollOutcome;
use unity_updater::updater::UpdateState;
use unity_updater::updater::UpdateStateKind;
use unity_updater::updater::Updater;
use unity_updater::updater::spawn_args;

fn kinds(u: &Updater) -> Vec<UpdateStateKind> {
    u.queue.iter().map(|job| job.state.kind()).collect()
}

fn error_text(state: &UpdateState) -> &str {
    match state {
        UpdateState::Error(text) => text,
        _ => panic!("expected an error state"),
    }
}

#[test]
fn new_runner_resolves_tool_path() {
    let u = Updater::new("/opt/unity/2022.3.5f1", 2);
    assert_eq!(u.tool_path(), "/opt/unity/2022.3.5f1/Editor/Unity.exe");
    assert!(u.queue.is_empty());
    assert!(!u.occupied());
}

#[test]
fn enqueue_keeps_order() {
    let mut u = Updater::new("/unity", 1);
    u.add_to_queue("a".to_string());
    u.add_to_queue("b".to_string());
    assert_eq!(u.queue.len(), 2);
    assert_eq!(u.queue[0].project, "a");
    assert_eq!(u.queue[1].project, "b");
    assert_eq!(kinds(&u), vec![UpdateStateKind::Pending, UpdateStateKind::Pending]);
}

#[test]
fn fifo_dispatch_with_single_slot() {
    let mut u = Updater::new("/unity", 1);
    u.add_to_queue("a".to_string());
    u.add_to_queue("b".to_string());
    u.add_to_queue("c".to_string());

    // a goes first, and fills the single slot
    assert_eq!(u.next_to_dispatch(), Some(0));
    u.mark_spawned(0);
    assert_eq!(u.next_to_dispatch(), None);
    assert_eq!(u.running_count(), 1);

    // once a finishes, b goes strictly before c
    u.update(&vec![PollOutcome::Exited(0)]);
    assert_eq!(u.queue[0].state.kind(), UpdateStateKind::Success);
    assert_eq!(u.next_to_dispatch(), Some(1));
    u.mark_spawned(1);
    assert_eq!(u.next_to_dispatch(), None);

    u.update(&vec![PollOutcome::Exited(0)]);
    assert_eq!(u.next_to_dispatch(), Some(2));
}

#[test]
fn concurrency_limit_two_scenario() {
    let mut u = Updater::new("/unity", 2);
    u.add_to_queue("one".to_string());
    u.add_to_queue("two".to_string());
    u.add_to_queue("three".to_string());

    // first tick dispatches exactly two jobs
    u.update(&vec![]);
    let first = u.next_to_dispatch().unwrap();
    assert_eq!(first, 0);
    u.mark_spawned(first);
    let second = u.next_to_dispatch().unwrap();
    assert_eq!(second, 1);
    u.mark_spawned(second);
    assert_eq!(u.next_to_dispatch(), None);
    assert_eq!(u.running_count(), 2);
    assert_eq!(
        kinds(&u),
        vec![
            UpdateStateKind::Processing,
            UpdateStateKind::Processing,
            UpdateStateKind::Pending,
        ]
    );

    // job one exits cleanly, job two keeps running: the freed slot goes
    // to job three in the same tick, and the limit is never exceeded
    let busy = u.update(&vec![PollOutcome::Exited(0), PollOutcome::StillRunning]);
    assert!(busy);
    assert!(u.running_count() <= 2);
    let third = u.next_to_dispatch().unwrap();
    assert_eq!(third, 2);
    u.mark_spawned(third);
    assert_eq!(u.running_count(), 2);
    assert_eq!(u.next_to_dispatch(), None);
    assert_eq!(
        kinds(&u),
        vec![
            UpdateStateKind::Success,
            UpdateStateKind::Processing,
            UpdateStateKind::Processing,
        ]
    );
    assert!(u.occupied());
}

#[test]
fn exit_code_zero_succeeds() {
    let mut u = Updater::new("/unity", 1);
    u.add_to_queue("p".to_string());
    u.mark_spawned(0);
    let busy = u.update(&vec![PollOutcome::Exited(0)]);
    assert!(!busy);
    assert!(matches!(u.queue[0].state, UpdateState::Success));
}

#[test]
fn nonzero_exit_code_fails_with_code_in_message() {
    let mut u = Updater::new("/unity", 1);
    u.add_to_queue("p".to_string());
    u.mark_spawned(0);
    u.update(&vec![PollOutcome::Exited(1)]);
    let text = error_text(&u.queue[0].state);
    assert!(text.contains("1"));
    assert_eq!(text, "Unity exited with code 1.");
}

#[test]
fn negative_exit_code_fails_with_code_in_message() {
    let mut u = Updater::new("/unity", 1);
    u.add_to_queue("p".to_string());
    u.mark_spawned(0);
    u.update(&vec![PollOutcome::Exited(-9)]);
    assert_eq!(error_text(&u.queue[0].state), "Unity exited with code -9.");
}

#[test]
fn poll_failure_is_terminal_with_cause_in_message() {
    let mut u = Updater::new("/unity", 1);
    u.add_to_queue("p".to_string());
    u.mark_spawned(0);
    u.update(&vec![PollOutcome::PollFailed("oops".to_string())]);
    assert_eq!(error_text(&u.queue[0].state), "Could not fetch unity state: oops");
}

#[test]
fn spawn_failure_does_not_consume_the_slot() {
    let mut u = Updater::new("/unity", 1);
    u.add_to_queue("bad".to_string());
    u.add_to_queue("good".to_string());
    assert_eq!(u.next_to_dispatch(), Some(0));
    u.mark_spawn_failed(0, "boom");
    assert_eq!(error_text(&u.queue[0].state), "Could not start the unity process: boom");
    // the failed attempt left the slot free, so the next pending job goes now
    assert_eq!(u.next_to_dispatch(), Some(1));
    u.mark_spawned(1);
    assert_eq!(u.running_count(), 1);
}

#[test]
fn still_running_outcome_changes_nothing() {
    let mut u = Updater::new("/unity", 1);
    u.add_to_queue("p".to_string());
    let handle = u.mark_spawned(0);
    let busy = u.update(&vec![PollOutcome::StillRunning]);
    assert!(busy);
    assert!(matches!(u.queue[0].state, UpdateState::Processing(h) if h == handle));
}

#[test]
fn handles_are_fresh_for_every_spawn() {
    let mut u = Updater::new("/unity", 2);
    u.add_to_queue("a".to_string());
    u.add_to_queue("b".to_string());
    let first = u.mark_spawned(0);
    let second = u.mark_spawned(1);
    assert_ne!(first, second);
}

#[test]
fn poll_targets_lists_running_jobs_in_order() {
    let mut u = Updater::new("/unity", 2);
    u.add_to_queue("a".to_string());
    u.add_to_queue("b".to_string());
    u.add_to_queue("c".to_string());
    assert!(u.poll_targets().is_empty());
    let ha = u.mark_spawned(0);
    let hb = u.mark_spawned(1);
    assert_eq!(u.poll_targets(), vec![(0, ha), (1, hb)]);
}

#[test]
fn drain_returns_exactly_the_pending_projects() {
    let mut u = Updater::new("/unity", 2);
    u.add_to_queue("done".to_string());
    u.add_to_queue("running".to_string());
    u.add_to_queue("failed".to_string());
    u.add_to_queue("waiting".to_string());

    u.mark_spawned(0);
    u.mark_spawned(1);
    u.update(&vec![PollOutcome::Exited(0), PollOutcome::StillRunning]);
    u.mark_spawn_failed(2, "no binary");
    assert_eq!(
        kinds(&u),
        vec![
            UpdateStateKind::Success,
            UpdateStateKind::Processing,
            UpdateStateKind::Error,
            UpdateStateKind::Pending,
        ]
    );

    // only the pending job comes back; finished and running work is dropped
    assert_eq!(u.drain_pending(), vec!["waiting".to_string()]);
}

#[test]
fn drain_of_terminal_queue_is_empty() {
    let mut u = Updater::new("/unity", 1);
    u.add_to_queue("p".to_string());
    u.mark_spawned(0);
    u.update(&vec![PollOutcome::Exited(0)]);
    assert!(u.drain_pending().is_empty());
}

#[test]
fn spawn_arguments_select_batch_mode() {
    let args = spawn_args("/projects/game");
    assert_eq!(
        args,
        vec![
            "-batchmode".to_string(),
            "-nographics".to_string(),
            "-quit".to_string(),
            "-projectPath".to_string(),
            "/projects/game".to_string(),
        ]
    );
}
