use course_sync::scheduler::{Directive, Scheduler};

struct Run {
    launched: Vec<usize>,
    awaited: Vec<usize>,
    peak: usize,
    stopped: bool,
}

fn drive(limit: usize, tasks: usize, fails: &[usize]) -> Run {
    let mut window: Scheduler<usize> = Scheduler::new(limit);
    let mut run = Run { launched: Vec::new(), awaited: Vec::new(), peak: 0, stopped: false };
    let mut next = 0;
    loop {
        assert!(window.in_flight() <= limit);
        match window.directive(next < tasks) {
            Directive::Launch => {
                window.launch(next);
                run.launched.push(next);
                next += 1;
                run.peak = run.peak.max(window.in_flight());
            }
            Directive::AwaitOldest => {
                let handle = window.retire().unwrap();
                run.awaited.push(handle);
                window.report(!fails.contains(&handle));
            }
            Directive::Finished => break,
        }
    }
    assert_eq!(window.in_flight(), 0);
    run.stopped = window.is_stopped();
    run
}

#[test]
fn twenty_three_tasks_through_a_window_of_five() {
    let run = drive(5, 23, &[]);
    assert_eq!(run.peak, 5);
    assert_eq!(run.launched, (0..23).collect::<Vec<usize>>());
    assert_eq!(run.awaited, (0..23).collect::<Vec<usize>>());
    assert!(!run.stopped);
}

#[test]
fn fewer_tasks_than_the_window_is_wide() {
    let run = drive(5, 3, &[]);
    assert_eq!(run.peak, 3);
    assert_eq!(run.awaited, vec![0, 1, 2]);
    assert!(!run.stopped);
}

#[test]
fn no_tasks_finishes_at_once() {
    let run = drive(5, 0, &[]);
    assert_eq!(run.peak, 0);
    assert!(run.launched.is_empty());
    assert!(run.awaited.is_empty());
}

#[test]
fn a_window_of_one_runs_tasks_one_by_one() {
    let run = drive(1, 4, &[]);
    assert_eq!(run.peak, 1);
    assert_eq!(run.awaited, vec![0, 1, 2, 3]);
}

#[test]
fn a_failure_stops_the_launching_and_drains_the_window() {
    let run = drive(5, 23, &[2]);
    assert!(run.stopped);
    assert!(run.peak <= 5);
    assert_eq!(run.launched, vec![0, 1, 2, 3, 4, 5, 6]);
    assert_eq!(run.awaited, run.launched);
}

#[test]
fn a_failure_of_the_first_task_leaves_at_most_a_window_in_flight() {
    let run = drive(5, 23, &[0]);
    assert!(run.stopped);
    assert_eq!(run.launched, vec![0, 1, 2, 3, 4]);
    assert_eq!(run.awaited, vec![0, 1, 2, 3, 4]);
}

#[test]
fn a_failure_that_is_never_launched_does_not_count() {
    let run = drive(2, 3, &[7]);
    assert!(!run.stopped);
    assert_eq!(run.awaited, vec![0, 1, 2]);
}

#[test]
fn directives_step_by_step() {
    let mut window: Scheduler<char> = Scheduler::new(2);
    assert_eq!(window.directive(true), Directive::Launch);
    assert_eq!(window.directive(false), Directive::Finished);
    window.launch('a');
    assert_eq!(window.directive(true), Directive::Launch);
    assert_eq!(window.directive(false), Directive::AwaitOldest);
    window.launch('b');
    assert_eq!(window.in_flight(), 2);
    assert_eq!(window.directive(true), Directive::AwaitOldest);
    assert_eq!(window.retire(), Some('a'));
    window.report(true);
    assert!(!window.is_stopped());
    assert_eq!(window.directive(true), Directive::Launch);
    window.launch('c');
    assert_eq!(window.retire(), Some('b'));
    window.report(false);
    assert!(window.is_stopped());
    assert_eq!(window.directive(true), Directive::AwaitOldest);
    assert_eq!(window.retire(), Some('c'));
    window.report(true);
    assert!(window.is_stopped());
    assert_eq!(window.directive(true), Directive::Finished);
    assert_eq!(window.retire(), None);
    assert_eq!(window.in_flight(), 0);
}
