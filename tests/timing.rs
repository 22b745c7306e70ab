use queues::time::{execute_and_time, Timed};

#[test]
fn timed_call_returns_the_result() {
    let base = 40;
    let Timed { duration, result } = execute_and_time(|| base + 2);
    assert_eq!(result, 42);
    assert!(duration.as_secs() < 60);
}

#[test]
fn timed_call_runs_the_function_once() {
    let cell = std::cell::Cell::new(0);
    let timed = execute_and_time(|| {
        cell.set(cell.get() + 1);
        cell.get()
    });
    assert_eq!(timed.result, 1);
    assert_eq!(cell.get(), 1);
}
